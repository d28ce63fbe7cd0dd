use blackjack::Card;
use blackjack::Hand;
use blackjack::Rank;
use blackjack::Suit;

fn hand_of(ranks: &[Rank]) -> Hand {
    let suits = [Suit::Spades, Suit::Clubs, Suit::Diamonds, Suit::Hearts];
    let mut hand = Hand::new();
    for (i, &rank) in ranks.iter().enumerate() {
        hand.add_card(Card { suit: suits[i % 4], rank });
    }
    hand
}

#[test]
fn empty_hand_scores_zero() {
    assert_eq!(Hand::new().value(), 0);
}

#[test]
fn value_ignores_card_order() {
    let a_then_ten = hand_of(&[Rank::Ace, Rank::Number(10)]);
    let ten_then_a = hand_of(&[Rank::Number(10), Rank::Ace]);
    assert_eq!(a_then_ten.value(), 21);
    assert_eq!(ten_then_a.value(), 21);
}

#[test]
fn face_cards_count_ten() {
    assert_eq!(hand_of(&[Rank::Jack, Rank::Queen]).value(), 20);
    assert_eq!(hand_of(&[Rank::King, Rank::Number(7)]).value(), 17);
}

#[test]
fn single_ace_soft_value() {
    assert_eq!(hand_of(&[Rank::Ace]).value(), 11);
    assert_eq!(hand_of(&[Rank::Ace, Rank::Number(6)]).value(), 17);
}

#[test]
fn ace_downgrades_when_over_21() {
    assert_eq!(hand_of(&[Rank::Ace, Rank::Number(6), Rank::Number(9)]).value(), 16);
}

#[test]
fn multiple_aces_downgrade_independently() {
    assert_eq!(hand_of(&[Rank::Ace, Rank::Ace]).value(), 12);
    assert_eq!(hand_of(&[Rank::Ace, Rank::Ace, Rank::Number(9)]).value(), 21);
    assert_eq!(hand_of(&[Rank::Ace, Rank::Ace, Rank::Ace, Rank::Number(9)]).value(), 12);
}

#[test]
fn bust_with_no_ace_to_downgrade() {
    let hand = hand_of(&[Rank::Number(10), Rank::King, Rank::Queen]);
    assert_eq!(hand.value(), 30);
    assert!(hand.value() > 21);
}

#[test]
fn cards_keeps_insertion_order() {
    let mut hand = Hand::new();
    let first = Card { suit: Suit::Spades, rank: Rank::Number(10) };
    let second = Card { suit: Suit::Hearts, rank: Rank::Ace };
    hand.add_card(first);
    hand.add_card(second);
    let cards = hand.cards();
    assert_eq!(cards.len(), 2);
    assert_eq!(cards[0], first);
    assert_eq!(cards[1], second);
}
