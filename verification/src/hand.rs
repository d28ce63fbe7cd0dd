//! One party's hand and the Blackjack scoring rule, with the soft/hard
//! Ace valuation.

use vstd::prelude::*;
use vstd::seq_lib::commutative_foldr;
use vstd::seq_lib::lemma_fold_right_permutation;

use crate::card::Card;
use crate::card::card_base;
use crate::card::is_ace;
use crate::card::valid_cards;

verus! {

/// The sum of the undowngraded card contributions (every Ace at 11).
pub open spec fn hand_total(s: Seq<Card>) -> int
    decreases s.len(),
{
    if s.len() == 0 {
        0
    } else {
        hand_total(s.drop_last()) + card_base(s.last())
    }
}

/// How many Aces the hand holds.
pub open spec fn ace_count(s: Seq<Card>) -> int
    decreases s.len(),
{
    if s.len() == 0 {
        0
    } else {
        ace_count(s.drop_last()) + if is_ace(s.last()) {
            1int
        } else {
            0int
        }
    }
}

/// The downgrade loop: while the total exceeds 21 and an Ace is still
/// counted at 11, re-count that Ace as 1 (subtract 10).
pub open spec fn downgraded(total: int, aces: int) -> int
    decreases aces,
{
    if total > 21 && aces > 0 {
        downgraded(total - 10, aces - 1)
    } else {
        total
    }
}

/// The Blackjack value of a hand: the undowngraded total, with Aces
/// re-counted as 1 one at a time while the total exceeds 21.
pub open spec fn hand_value(s: Seq<Card>) -> int {
    downgraded(hand_total(s), ace_count(s))
}

/// The fold operator behind `hand_total`.
spec fn total_step() -> spec_fn(Card, int) -> int {
    |c: Card, acc: int| acc + card_base(c)
}

/// The fold operator behind `ace_count`.
spec fn ace_step() -> spec_fn(Card, int) -> int {
    |c: Card, acc: int| acc + if is_ace(c) {
        1int
    } else {
        0int
    }
}

proof fn lemma_hand_total_is_fold(s: Seq<Card>)
    ensures
        s.fold_right(total_step(), 0) == hand_total(s),
    decreases s.len(),
{
    if s.len() > 0 {
        lemma_hand_total_is_fold(s.drop_last());
        s.drop_last().lemma_fold_right_commute_one(s.last(), total_step(), 0);
    }
}

proof fn lemma_ace_count_is_fold(s: Seq<Card>)
    ensures
        s.fold_right(ace_step(), 0) == ace_count(s),
    decreases s.len(),
{
    if s.len() > 0 {
        lemma_ace_count_is_fold(s.drop_last());
        s.drop_last().lemma_fold_right_commute_one(s.last(), ace_step(), 0);
    }
}

/// The hand value does not depend on the order the cards were dealt in:
/// two hands holding the same multiset of cards score the same.
pub proof fn lemma_hand_value_order_invariant(s1: Seq<Card>, s2: Seq<Card>)
    requires
        s1.to_multiset() == s2.to_multiset(),
    ensures
        hand_value(s1) == hand_value(s2),
{
    assert(commutative_foldr(total_step()));
    assert(commutative_foldr(ace_step()));
    lemma_hand_total_is_fold(s1);
    lemma_hand_total_is_fold(s2);
    lemma_ace_count_is_fold(s1);
    lemma_ace_count_is_fold(s2);
    lemma_fold_right_permutation(s1, s2, total_step(), 0);
    lemma_fold_right_permutation(s1, s2, ace_step(), 0);
}

/// The total and the Ace count are non-negative, and every Ace counted
/// at 11 leaves at least 11 in the total.
pub proof fn lemma_hand_total_bounds(s: Seq<Card>)
    ensures
        0 <= ace_count(s),
        11 * ace_count(s) <= hand_total(s),
    decreases s.len(),
{
    if s.len() > 0 {
        lemma_hand_total_bounds(s.drop_last());
    }
}

/// On valid cards each contribution is at most 11.
pub proof fn lemma_hand_total_le(s: Seq<Card>)
    requires
        valid_cards(s),
    ensures
        hand_total(s) <= 11 * s.len(),
    decreases s.len(),
{
    if s.len() > 0 {
        assert(valid_cards(s.drop_last()));
        lemma_hand_total_le(s.drop_last());
    }
}

/// A prefix of a hand never totals more than the whole hand.
proof fn lemma_hand_total_take_le(s: Seq<Card>, i: int)
    requires
        0 <= i <= s.len(),
    ensures
        hand_total(s.take(i)) <= hand_total(s),
    decreases s.len() - i,
{
    if i == s.len() {
        assert(s.take(i) =~= s);
    } else {
        assert(s.take(i + 1).drop_last() =~= s.take(i));
        lemma_hand_total_bounds(s.take(i));
        lemma_hand_total_take_le(s, i + 1);
    }
}

proof fn lemma_downgraded_exhausts(total: int, aces: int)
    requires
        0 <= aces,
    ensures
        downgraded(total, aces) > 21 <==> total - 10 * aces > 21,
    decreases aces,
{
    if total > 21 && aces > 0 {
        lemma_downgraded_exhausts(total - 10, aces - 1);
    }
}

/// The bust rule: a hand is worth more than 21 exactly when its total
/// still exceeds 21 after every Ace has been downgraded from 11 to 1.
pub proof fn lemma_bust_rule(s: Seq<Card>)
    ensures
        hand_value(s) > 21 <==> hand_total(s) - 10 * ace_count(s) > 21,
{
    lemma_hand_total_bounds(s);
    lemma_downgraded_exhausts(hand_total(s), ace_count(s));
}

/// Downgrading never leaves the range `0..=total`.
proof fn lemma_downgraded_bounds(total: int, aces: int)
    requires
        0 <= total,
    ensures
        0 <= downgraded(total, aces) <= total,
    decreases aces,
{
    if total > 21 && aces > 0 {
        lemma_downgraded_bounds(total - 10, aces - 1);
    }
}

/// An ordered, append-only sequence of cards belonging to one party.
pub struct Hand {
    cards: Vec<Card>,
}

impl View for Hand {
    type V = Seq<Card>;

    closed spec fn view(&self) -> Seq<Card> {
        self.cards@
    }
}

impl Hand {
    /// An empty hand.
    pub fn new() -> (r: Hand)
        ensures
            r@ == Seq::<Card>::empty(),
    {
        Hand { cards: Vec::new() }
    }

    /// The Blackjack score of the hand: number cards at face value, faces
    /// at 10, every Ace at 11, then Aces re-counted as 1 one by one while
    /// the total exceeds 21.
    pub fn value(&self) -> (v: u32)
        requires
            hand_total(self@) <= u32::MAX,
        ensures
            v as int == hand_value(self@),
    {
        let mut aces: u32 = 0;
        let mut total_value: u32 = 0;
        let n = self.cards.len();
        let mut i: usize = 0;
        while i < n
            invariant
                0 <= i <= n,
                n == self@.len(),
                hand_total(self@) <= u32::MAX,
                total_value as int == hand_total(self@.take(i as int)),
                aces as int == ace_count(self@.take(i as int)),
            decreases n - i,
        {
            let card = self.cards[i];
            proof {
                assert(self@.take(i + 1).drop_last() =~= self@.take(i as int));
                assert(self@.take(i + 1).last() == self@[i as int]);
                lemma_hand_total_take_le(self@, i + 1);
                lemma_hand_total_bounds(self@.take(i + 1));
            }
            match card.rank {
                crate::card::Rank::Number(value) => {
                    total_value = total_value + value;
                },
                crate::card::Rank::Ace => {
                    aces = aces + 1;
                    total_value = total_value + 11;
                },
                _ => {
                    total_value = total_value + 10;
                },
            }
            i = i + 1;
        }
        proof {
            assert(self@.take(n as int) =~= self@);
            lemma_hand_total_bounds(self@);
            lemma_downgraded_bounds(total_value as int, aces as int);
        }
        while total_value > 21 && aces > 0
            invariant
                0 <= total_value,
                downgraded(total_value as int, aces as int) == hand_value(self@),
            decreases aces,
        {
            total_value = total_value - 10;
            aces = aces - 1;
        }
        total_value
    }

    /// Appends the card at the end of the hand.
    pub fn add_card(&mut self, card: Card)
        ensures
            final(self)@ == old(self)@.push(card),
    {
        self.cards.push(card);
    }

    /// A read-only view of the cards in insertion order.
    pub fn cards(&self) -> (r: &[Card])
        ensures
            r@ == self@,
    {
        self.cards.as_slice()
    }
}

} // verus!
