//! The deck: the 52 distinct cards in a fixed base order, permuted once
//! by a uniform shuffle, then drawn from the top.

use rand::seq::SliceRandom;
use vstd::arithmetic::div_mod::lemma_fundamental_div_mod_converse;
use vstd::prelude::*;
use vstd::seq_lib::group_to_multiset_ensures;

use crate::card::Card;
use crate::card::Rank;
use crate::card::Suit;
use crate::card::card_valid;
use crate::card::valid_cards;

verus! {

/// The suit of the `k`-th group of thirteen cards in the base order.
pub open spec fn suit_at(k: int) -> Suit {
    if k == 0 {
        Suit::Spades
    } else if k == 1 {
        Suit::Clubs
    } else if k == 2 {
        Suit::Diamonds
    } else {
        Suit::Hearts
    }
}

/// The rank at position `k` within one suit's group of the base order:
/// the numbers 2..=10 first, then Jack, Queen, King, Ace.
pub open spec fn rank_at(k: int) -> Rank {
    if k < 9 {
        Rank::Number((k + 2) as u32)
    } else if k == 9 {
        Rank::Jack
    } else if k == 10 {
        Rank::Queen
    } else if k == 11 {
        Rank::King
    } else {
        Rank::Ace
    }
}

/// The card at position `i` of the base order.
pub open spec fn card_at(i: int) -> Card {
    Card { suit: suit_at(i / 13), rank: rank_at(i % 13) }
}

/// The 52 distinct cards in the base order.
pub open spec fn standard_deck() -> Seq<Card> {
    Seq::new(52, |i: int| card_at(i))
}

/// Where the suit's group starts in the base order.
pub open spec fn suit_index(s: Suit) -> int {
    match s {
        Suit::Spades => 0,
        Suit::Clubs => 1,
        Suit::Diamonds => 2,
        Suit::Hearts => 3,
    }
}

/// The rank's position within a suit's group of the base order.
pub open spec fn rank_index(r: Rank) -> int {
    match r {
        Rank::Number(n) => n - 2,
        Rank::Jack => 9,
        Rank::Queen => 10,
        Rank::King => 11,
        Rank::Ace => 12,
    }
}

/// Distinct positions of the base order hold distinct cards.
pub proof fn lemma_standard_deck_no_duplicates()
    ensures
        standard_deck().no_duplicates(),
{
    assert forall|i: int, j: int|
        0 <= i < 52 && 0 <= j < 52 && i != j implies standard_deck()[i] != standard_deck()[j] by {
        if card_at(i) == card_at(j) {
            assert(suit_at(i / 13) == suit_at(j / 13));
            assert(rank_at(i % 13) == rank_at(j % 13));
            assert(0 <= i % 13 < 13 && 0 <= j % 13 < 13) by {
                lemma_fundamental_div_mod_converse(i, 13, i / 13, i % 13);
            }
            assert(i / 13 == j / 13);
            assert(i % 13 == j % 13);
            assert(i == 13 * (i / 13) + i % 13);
            assert(j == 13 * (j / 13) + j % 13);
        }
    }
}

/// The base order is exactly the standard deck: it holds each valid
/// (suit, rank) pair exactly once, and no other card at all.
pub proof fn lemma_standard_deck_count(c: Card)
    ensures
        standard_deck().to_multiset().count(c) == if card_valid(c) {
            1nat
        } else {
            0nat
        },
{
    broadcast use group_to_multiset_ensures;

    lemma_standard_deck_no_duplicates();
    if card_valid(c) {
        let i = 13 * suit_index(c.suit) + rank_index(c.rank);
        assert(0 <= rank_index(c.rank) < 13);
        lemma_fundamental_div_mod_converse(i, 13, suit_index(c.suit), rank_index(c.rank));
        assert(standard_deck()[i] == c);
        assert(standard_deck().contains(c));
        standard_deck().lemma_multiset_has_no_duplicates();
    } else {
        if standard_deck().contains(c) {
            let i = choose|i: int| 0 <= i < 52 && standard_deck()[i] == c;
            assert(0 <= i % 13 < 13) by {
                lemma_fundamental_div_mod_converse(i, 13, i / 13, i % 13);
            }
            assert(card_valid(card_at(i)));
        }
        assert(standard_deck().to_multiset().count(c) == 0);
    }
}

/// Relies on rand's `SliceRandom::shuffle`: a Fisher-Yates pass that
/// permutes the slice in place, so the cards held are unchanged as a
/// multiset. Nothing is assumed about the order that comes back.
#[verifier::external_body]
fn shuffle_cards(cards: &mut Vec<Card>)
    ensures
        final(cards)@.to_multiset() == old(cards)@.to_multiset(),
{
    let mut rng = rand::rng();
    cards.shuffle(&mut rng);
}

fn suit_for(k: usize) -> (r: Suit)
    requires
        k < 4,
    ensures
        r == suit_at(k as int),
{
    if k == 0 {
        Suit::Spades
    } else if k == 1 {
        Suit::Clubs
    } else if k == 2 {
        Suit::Diamonds
    } else {
        Suit::Hearts
    }
}

fn rank_for(k: usize) -> (r: Rank)
    requires
        k < 13,
    ensures
        r == rank_at(k as int),
{
    if k < 9 {
        Rank::Number((k + 2) as u32)
    } else if k == 9 {
        Rank::Jack
    } else if k == 10 {
        Rank::Queen
    } else if k == 11 {
        Rank::King
    } else {
        Rank::Ace
    }
}

/// An ordered pile of cards, drawn from one end (its top).
pub struct Deck {
    cards: Vec<Card>,
}

impl View for Deck {
    type V = Seq<Card>;

    closed spec fn view(&self) -> Seq<Card> {
        self.cards@
    }
}

impl Deck {
    /// Builds the 52-card set in the base order, then applies one random
    /// permutation before any draw.
    pub fn new_shuffled() -> (r: Deck)
        ensures
            r@.to_multiset() == standard_deck().to_multiset(),
            r@.len() == 52,
            valid_cards(r@),
    {
        let mut deck: Vec<Card> = Vec::new();
        let mut s: usize = 0;
        while s < 4
            invariant
                s <= 4,
                deck@ == standard_deck().take(13 * s as int),
            decreases 4 - s,
        {
            let suit = suit_for(s);
            let mut k: usize = 0;
            while k < 13
                invariant
                    s < 4,
                    k <= 13,
                    suit == suit_at(s as int),
                    deck@ == standard_deck().take(13 * s as int + k as int),
                decreases 13 - k,
            {
                let rank = rank_for(k);
                deck.push(Card { suit, rank });
                proof {
                    let m = 13 * s as int + k as int;
                    lemma_fundamental_div_mod_converse(m, 13, s as int, k as int);
                    assert(standard_deck()[m] == Card { suit, rank });
                    assert(standard_deck().take(m + 1) =~= standard_deck().take(m).push(
                        standard_deck()[m],
                    ));
                }
                k = k + 1;
            }
            s = s + 1;
        }
        proof {
            assert(deck@ =~= standard_deck());
        }
        shuffle_cards(&mut deck);
        proof {
            broadcast use group_to_multiset_ensures;

            assert(deck@.to_multiset().len() == deck@.len());
            assert(standard_deck().to_multiset().len() == standard_deck().len());
            assert forall|i: int| 0 <= i < deck@.len() implies card_valid(#[trigger] deck@[i]) by {
                assert(deck@.contains(deck@[i]));
                assert(standard_deck().to_multiset().count(deck@[i]) > 0);
                assert(standard_deck().contains(deck@[i]));
                let j = choose|j: int| 0 <= j < 52 && standard_deck()[j] == deck@[i];
                assert(0 <= j % 13 < 13) by {
                    lemma_fundamental_div_mod_converse(j, 13, j / 13, j % 13);
                }
                assert(card_valid(card_at(j)));
            }
        }
        Deck { cards: deck }
    }

    /// A deck holding the given cards in the given order, for a caller
    /// that injects a deterministic arrangement.
    pub fn from_cards(cards: Vec<Card>) -> (r: Deck)
        ensures
            r@ == cards@,
    {
        Deck { cards }
    }

    /// How many cards are left.
    pub fn len(&self) -> (n: usize)
        ensures
            n == self@.len(),
    {
        self.cards.len()
    }

    /// Removes and returns the top card, or nothing once the deck is
    /// exhausted.
    pub fn draw(&mut self) -> (r: Option<Card>)
        ensures
            old(self)@.len() > 0 ==> r == Some(old(self)@.last()) && final(self)@ == old(
                self,
            )@.drop_last(),
            old(self)@.len() == 0 ==> r == None::<Card> && final(self)@ == old(self)@,
    {
        self.cards.pop()
    }
}

} // verus!
