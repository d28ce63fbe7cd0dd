//! The game engine: one deck, two hands, and the turn state machine from
//! the player's decisions to the dealer's auto-play and a fixed outcome.

use vstd::prelude::*;

use crate::card::Card;
use crate::card::valid_cards;
use crate::deck::Deck;
use crate::deck::standard_deck;
use crate::hand::Hand;
use crate::hand::hand_total;
use crate::hand::hand_value;
use crate::hand::lemma_hand_total_le;

verus! {

/// The terminal result of a round, fixed once reached.
#[derive(Clone, Copy, Debug, PartialEq, Eq, Structural)]
pub enum GameOutcome {
    PlayerBusted,
    DealerBusted,
    PlayerWins,
    DealerWins,
    Tie,
}

/// The round's state: the player decides, then the dealer plays, then the
/// round is over. No state is revisited once left.
#[derive(Clone, Copy, Debug, PartialEq, Eq, Structural)]
pub enum GameState {
    WaitingPlayerChoice,
    DealerTurn,
    Over(GameOutcome),
}

/// The outcome the dealer resolution assigns, given both final values:
/// a dealer value over 21 busts the dealer; otherwise the higher value
/// wins and equal values tie.
pub open spec fn outcome_of(player: int, dealer: int) -> GameOutcome {
    if dealer > 21 {
        GameOutcome::DealerBusted
    } else if player > dealer {
        GameOutcome::PlayerWins
    } else if player < dealer {
        GameOutcome::DealerWins
    } else {
        GameOutcome::Tie
    }
}

/// The dealer resolution never declares the player busted: a round in
/// which the player stands at once ends in one of the four other
/// outcomes.
pub proof fn lemma_dealer_resolution_not_player_busted(player: int, dealer: int)
    ensures
        outcome_of(player, dealer) != GameOutcome::PlayerBusted,
{
}

/// One round of Blackjack: a deck, the two hands, and the current state.
pub struct Blackjack {
    deck: Deck,
    player_hand: Hand,
    dealer_hand: Hand,
    state: GameState,
}

impl Blackjack {
    /// The cards still in the deck, bottom first.
    pub closed spec fn spec_deck(&self) -> Seq<Card> {
        self.deck@
    }

    /// The player's cards in the order dealt.
    pub closed spec fn spec_player(&self) -> Seq<Card> {
        self.player_hand@
    }

    /// The dealer's cards in the order dealt.
    pub closed spec fn spec_dealer(&self) -> Seq<Card> {
        self.dealer_hand@
    }

    /// The current state of the round.
    pub closed spec fn spec_state(&self) -> GameState {
        self.state
    }

    /// Well-formedness: every card in play is valid, and no more cards
    /// circulate than one deck holds.
    pub open spec fn wf(&self) -> bool {
        &&& valid_cards(self.spec_deck())
        &&& valid_cards(self.spec_player())
        &&& valid_cards(self.spec_dealer())
        &&& self.spec_deck().len() + self.spec_player().len() + self.spec_dealer().len() <= 52
    }

    /// A fresh round: a shuffled deck, two cards dealt to the player and
    /// then two to the dealer, waiting on the player's choice. The cards
    /// in play together still form the standard deck.
    pub fn new() -> (r: Blackjack)
        ensures
            r.wf(),
            r.spec_state() == GameState::WaitingPlayerChoice,
            r.spec_player().len() == 2,
            r.spec_dealer().len() == 2,
            r.spec_deck().len() == 48,
            (r.spec_deck() + seq![
                r.spec_dealer()[1],
                r.spec_dealer()[0],
                r.spec_player()[1],
                r.spec_player()[0],
            ]).to_multiset() == standard_deck().to_multiset(),
    {
        let mut deck = Deck::new_shuffled();
        let ghost d0 = deck@;
        let mut player_hand = Hand::new();
        let mut dealer_hand = Hand::new();

        player_hand.add_card(deck.draw().unwrap());
        player_hand.add_card(deck.draw().unwrap());
        dealer_hand.add_card(deck.draw().unwrap());
        dealer_hand.add_card(deck.draw().unwrap());

        let r = Blackjack { deck, player_hand, dealer_hand, state: GameState::WaitingPlayerChoice };
        proof {
            assert(r.spec_deck() =~= d0.take(48));
            assert(r.spec_deck() + seq![
                r.spec_dealer()[1],
                r.spec_dealer()[0],
                r.spec_player()[1],
                r.spec_player()[0],
            ] =~= d0);
        }
        r
    }

    /// A round over a caller-supplied deck arrangement, dealt exactly as
    /// `new` deals: two cards to the player, then two to the dealer, all
    /// drawn from the top (the end of `cards`). This is the injection
    /// point for deterministic play.
    pub fn new_with_deck(cards: Vec<Card>) -> (r: Blackjack)
        requires
            4 <= cards@.len() <= 52,
            valid_cards(cards@),
        ensures
            r.wf(),
            r.spec_state() == GameState::WaitingPlayerChoice,
            r.spec_player() == seq![cards@[cards@.len() - 1], cards@[cards@.len() - 2]],
            r.spec_dealer() == seq![cards@[cards@.len() - 3], cards@[cards@.len() - 4]],
            r.spec_deck() == cards@.take(cards@.len() - 4),
    {
        let ghost d0 = cards@;
        let mut deck = Deck::from_cards(cards);
        let mut player_hand = Hand::new();
        let mut dealer_hand = Hand::new();

        player_hand.add_card(deck.draw().unwrap());
        player_hand.add_card(deck.draw().unwrap());
        dealer_hand.add_card(deck.draw().unwrap());
        dealer_hand.add_card(deck.draw().unwrap());

        let r = Blackjack { deck, player_hand, dealer_hand, state: GameState::WaitingPlayerChoice };
        proof {
            assert(r.spec_deck() =~= d0.take(d0.len() - 4));
            assert(r.spec_player() =~= seq![d0[d0.len() - 1], d0[d0.len() - 2]]);
            assert(r.spec_dealer() =~= seq![d0[d0.len() - 3], d0[d0.len() - 4]]);
        }
        r
    }

    fn set_state(&mut self, state: GameState)
        ensures
            final(self).spec_state() == state,
            final(self).spec_deck() == old(self).spec_deck(),
            final(self).spec_player() == old(self).spec_player(),
            final(self).spec_dealer() == old(self).spec_dealer(),
    {
        self.state = state;
    }

    /// The current state, for the front-end to inspect.
    pub fn state(&self) -> (r: &GameState)
        ensures
            *r == self.spec_state(),
    {
        &self.state
    }

    /// The dealer's cards in the order dealt.
    pub fn dealer_cards(&self) -> (r: &[Card])
        ensures
            r@ == self.spec_dealer(),
    {
        self.dealer_hand.cards()
    }

    /// The player's cards in the order dealt.
    pub fn player_cards(&self) -> (r: &[Card])
        ensures
            r@ == self.spec_player(),
    {
        self.player_hand.cards()
    }

    /// The Blackjack value of the player's hand.
    pub fn player_hand_value(&self) -> (v: u32)
        requires
            self.wf(),
        ensures
            v as int == hand_value(self.spec_player()),
    {
        proof {
            lemma_hand_total_le(self.spec_player());
        }
        self.player_hand.value()
    }

    /// The Blackjack value of the dealer's hand.
    pub fn dealer_hand_value(&self) -> (v: u32)
        requires
            self.wf(),
        ensures
            v as int == hand_value(self.spec_dealer()),
    {
        proof {
            lemma_hand_total_le(self.spec_dealer());
        }
        self.dealer_hand.value()
    }

    fn deal_player_card(&mut self) -> (r: Option<Card>)
        ensures
            final(self).spec_dealer() == old(self).spec_dealer(),
            final(self).spec_state() == old(self).spec_state(),
            old(self).spec_deck().len() == 0 ==> r == None::<Card> && final(self).spec_deck()
                == old(self).spec_deck() && final(self).spec_player() == old(self).spec_player(),
            old(self).spec_deck().len() > 0 ==> r == Some(old(self).spec_deck().last())
                && final(self).spec_deck() == old(self).spec_deck().drop_last()
                && final(self).spec_player() == old(self).spec_player().push(
                old(self).spec_deck().last(),
            ),
    {
        let card = self.deck.draw();
        match card {
            Some(c) => {
                self.player_hand.add_card(c);
                Some(c)
            },
            None => None,
        }
    }

    /// The dealer draws repeatedly while its hand value is under 17 —
    /// standing at the first value of 17 or more, or silently once the
    /// deck is exhausted — then the round is resolved: a dealer value
    /// over 21 busts the dealer, otherwise the higher value wins and
    /// equal values tie.
    pub fn deal_dealer_cards(&mut self)
        requires
            old(self).wf(),
            old(self).spec_state() == GameState::DealerTurn,
        ensures
            final(self).wf(),
            final(self).spec_player() == old(self).spec_player(),
            final(self).spec_deck().len() <= old(self).spec_deck().len(),
            final(self).spec_deck() == old(self).spec_deck().take(
                final(self).spec_deck().len() as int,
            ),
            final(self).spec_dealer() == old(self).spec_dealer() + old(self).spec_deck().skip(
                final(self).spec_deck().len() as int,
            ).reverse(),
            forall|i: int|
                old(self).spec_dealer().len() <= i < final(self).spec_dealer().len()
                    ==> hand_value(#[trigger] final(self).spec_dealer().take(i)) < 17,
            hand_value(final(self).spec_dealer()) >= 17 || final(self).spec_deck().len() == 0,
            final(self).spec_state() == GameState::Over(
                outcome_of(
                    hand_value(final(self).spec_player()),
                    hand_value(final(self).spec_dealer()),
                ),
            ),
    {
        proof {
            lemma_hand_total_le(old(self).spec_dealer());
            assert(old(self).spec_deck().skip(old(self).spec_deck().len() as int).reverse()
                =~= Seq::<Card>::empty());
            assert(old(self).spec_dealer() + old(self).spec_deck().skip(
                old(self).spec_deck().len() as int,
            ).reverse() =~= old(self).spec_dealer());
            assert(old(self).spec_deck() =~= old(self).spec_deck().take(
                old(self).spec_deck().len() as int,
            ));
        }
        while self.dealer_hand.value() < 17 && self.deck.len() > 0
            invariant
                self.wf(),
                hand_total(self.spec_dealer()) <= 572,
                self.spec_player() == old(self).spec_player(),
                self.spec_state() == old(self).spec_state(),
                self.spec_deck().len() <= old(self).spec_deck().len(),
                self.spec_deck() == old(self).spec_deck().take(self.spec_deck().len() as int),
                self.spec_dealer() == old(self).spec_dealer() + old(self).spec_deck().skip(
                    self.spec_deck().len() as int,
                ).reverse(),
                old(self).spec_dealer().len() <= self.spec_dealer().len(),
                forall|i: int|
                    old(self).spec_dealer().len() <= i < self.spec_dealer().len()
                        ==> hand_value(#[trigger] self.spec_dealer().take(i)) < 17,
            decreases self.spec_deck().len(),
        {
            let ghost pre = *self;
            let card = self.deck.draw().unwrap();
            self.dealer_hand.add_card(card);
            proof {
                let m = pre.spec_deck().len() as int;
                let full = old(self).spec_deck();
                assert(pre.spec_deck()[m - 1] == full[m - 1]);
                assert(self.spec_deck() =~= full.take(m - 1));
                assert(full.skip(m - 1).reverse() =~= full.skip(m).reverse().push(full[m - 1]));
                assert(self.spec_dealer() =~= old(self).spec_dealer() + full.skip(
                    m - 1,
                ).reverse());
                assert forall|i: int|
                    old(self).spec_dealer().len() <= i < self.spec_dealer().len()
                        implies hand_value(#[trigger] self.spec_dealer().take(i)) < 17 by {
                    if i < pre.spec_dealer().len() {
                        assert(self.spec_dealer().take(i) =~= pre.spec_dealer().take(i));
                    } else {
                        assert(self.spec_dealer().take(i) =~= pre.spec_dealer());
                    }
                }
                lemma_hand_total_le(self.spec_dealer());
            }
        }

        let dealer_hand_value = self.dealer_hand_value();
        let player_hand_value = self.player_hand_value();

        if dealer_hand_value > 21 {
            self.set_state(GameState::Over(GameOutcome::DealerBusted));
        } else if player_hand_value > dealer_hand_value {
            self.set_state(GameState::Over(GameOutcome::PlayerWins));
        } else if player_hand_value < dealer_hand_value {
            self.set_state(GameState::Over(GameOutcome::DealerWins));
        } else {
            self.set_state(GameState::Over(GameOutcome::Tie));
        }
    }

    /// Valid only while the player is choosing: draws one card into the
    /// player's hand, or deals nothing once the deck is exhausted. A hand
    /// value over 21 ends the round at once with the player busted;
    /// otherwise the player may choose again.
    pub fn hit(&mut self) -> (r: Option<Card>)
        requires
            old(self).wf(),
            old(self).spec_state() == GameState::WaitingPlayerChoice,
        ensures
            final(self).wf(),
            final(self).spec_dealer() == old(self).spec_dealer(),
            old(self).spec_deck().len() == 0 ==> r == None::<Card> && final(self).spec_player()
                == old(self).spec_player() && final(self).spec_deck() == old(self).spec_deck()
                && final(self).spec_state() == old(self).spec_state(),
            old(self).spec_deck().len() > 0 ==> r == Some(old(self).spec_deck().last())
                && final(self).spec_deck() == old(self).spec_deck().drop_last()
                && final(self).spec_player() == old(self).spec_player().push(
                old(self).spec_deck().last(),
            ) && final(self).spec_state() == (if hand_value(final(self).spec_player()) > 21 {
                GameState::Over(GameOutcome::PlayerBusted)
            } else {
                GameState::WaitingPlayerChoice
            }),
    {
        let card = self.deal_player_card();
        match card {
            None => None,
            Some(c) => {
                if self.player_hand_value() > 21 {
                    self.set_state(GameState::Over(GameOutcome::PlayerBusted));
                }
                Some(c)
            },
        }
    }

    /// Valid only while the player is choosing: the player stops drawing
    /// and control passes to the dealer's turn.
    pub fn stand(&mut self)
        requires
            old(self).spec_state() == GameState::WaitingPlayerChoice,
        ensures
            final(self).spec_state() == GameState::DealerTurn,
            final(self).spec_deck() == old(self).spec_deck(),
            final(self).spec_player() == old(self).spec_player(),
            final(self).spec_dealer() == old(self).spec_dealer(),
    {
        self.set_state(GameState::DealerTurn);
    }
}

} // verus!
