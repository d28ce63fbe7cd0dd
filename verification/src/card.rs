//! The card model: suits, ranks, and the display form of a card.

use vstd::prelude::*;
use vstd::string::StringExecFns;

verus! {

/// One of the four French suits.
#[derive(Clone, Copy, Debug, PartialEq, Eq, Hash, Structural)]
pub enum Suit {
    Spades,
    Clubs,
    Diamonds,
    Hearts,
}

/// A card rank. `Number` carries a pip value constrained to 2..=10.
#[derive(Clone, Copy, Debug, PartialEq, Eq, Hash, Structural)]
pub enum Rank {
    Number(u32),
    Jack,
    Queen,
    King,
    Ace,
}

/// An immutable playing card: a (suit, rank) pair held by value.
#[derive(Clone, Copy, Debug, PartialEq, Eq, Hash, Structural)]
pub struct Card {
    pub suit: Suit,
    pub rank: Rank,
}

/// A rank is valid when a `Number` payload lies in 2..=10.
pub open spec fn rank_valid(r: Rank) -> bool {
    match r {
        Rank::Number(n) => 2 <= n <= 10,
        _ => true,
    }
}

/// A card is valid when its rank is.
pub open spec fn card_valid(c: Card) -> bool {
    rank_valid(c.rank)
}

/// Every card of the sequence is valid.
pub open spec fn valid_cards(s: Seq<Card>) -> bool {
    forall|i: int| 0 <= i < s.len() ==> card_valid(#[trigger] s[i])
}

/// The undowngraded Blackjack contribution of one card: pip value for
/// number cards, 10 for faces, and 11 for an Ace (before any downgrade).
pub open spec fn card_base(c: Card) -> int {
    match c.rank {
        Rank::Number(n) => n as int,
        Rank::Jack => 10,
        Rank::Queen => 10,
        Rank::King => 10,
        Rank::Ace => 11,
    }
}

/// Whether the card is an Ace.
pub open spec fn is_ace(c: Card) -> bool {
    c.rank is Ace
}

/// The display token of a rank: "2".."10", "J", "Q", "K" or "A".
pub open spec fn rank_repr(r: Rank) -> Seq<char> {
    match r {
        Rank::Number(n) => if n == 2 {
            seq!['2']
        } else if n == 3 {
            seq!['3']
        } else if n == 4 {
            seq!['4']
        } else if n == 5 {
            seq!['5']
        } else if n == 6 {
            seq!['6']
        } else if n == 7 {
            seq!['7']
        } else if n == 8 {
            seq!['8']
        } else if n == 9 {
            seq!['9']
        } else {
            seq!['1', '0']
        },
        Rank::Jack => seq!['J'],
        Rank::Queen => seq!['Q'],
        Rank::King => seq!['K'],
        Rank::Ace => seq!['A'],
    }
}

/// The single-letter code of a suit: "S", "C", "D" or "H".
pub open spec fn suit_repr(s: Suit) -> Seq<char> {
    match s {
        Suit::Spades => seq!['S'],
        Suit::Clubs => seq!['C'],
        Suit::Diamonds => seq!['D'],
        Suit::Hearts => seq!['H'],
    }
}

/// The display form of a card: its rank token followed by its suit code.
pub open spec fn card_repr(c: Card) -> Seq<char> {
    rank_repr(c.rank) + suit_repr(c.suit)
}

impl Card {
    /// The two-token display string of the card, e.g. "10S" or "AH".
    pub fn repr(&self) -> (r: String)
        requires
            card_valid(*self),
        ensures
            r@ == card_repr(*self),
    {
        let rank_str: &str = match self.rank {
            Rank::Number(n) => {
                if n == 2 {
                    "2"
                } else if n == 3 {
                    "3"
                } else if n == 4 {
                    "4"
                } else if n == 5 {
                    "5"
                } else if n == 6 {
                    "6"
                } else if n == 7 {
                    "7"
                } else if n == 8 {
                    "8"
                } else if n == 9 {
                    "9"
                } else {
                    "10"
                }
            },
            Rank::Jack => "J",
            Rank::Queen => "Q",
            Rank::King => "K",
            Rank::Ace => "A",
        };
        proof {
            reveal_strlit("2");
            reveal_strlit("3");
            reveal_strlit("4");
            reveal_strlit("5");
            reveal_strlit("6");
            reveal_strlit("7");
            reveal_strlit("8");
            reveal_strlit("9");
            reveal_strlit("10");
            reveal_strlit("J");
            reveal_strlit("Q");
            reveal_strlit("K");
            reveal_strlit("A");
            assert(rank_str@ =~= rank_repr(self.rank));
        }
        let suit_str: &str = match self.suit {
            Suit::Spades => "S",
            Suit::Hearts => "H",
            Suit::Diamonds => "D",
            Suit::Clubs => "C",
        };
        proof {
            reveal_strlit("S");
            reveal_strlit("H");
            reveal_strlit("D");
            reveal_strlit("C");
            assert(suit_str@ =~= suit_repr(self.suit));
        }
        let card_str = String::from_str(rank_str).concat(suit_str);
        proof {
            assert(card_str@ =~= card_repr(*self));
        }
        card_str
    }
}

} // verus!
