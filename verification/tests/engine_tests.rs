use blackjack::Blackjack;
use blackjack::Card;
use blackjack::GameOutcome;
use blackjack::GameState;
use blackjack::Rank;
use blackjack::Suit;

fn card(suit: Suit, rank: Rank) -> Card {
    Card { suit, rank }
}

fn n(suit: Suit, value: u32) -> Card {
    card(suit, Rank::Number(value))
}

/// The cards are listed bottom-to-top: the engine deals from the end,
/// two cards to the player and then two to the dealer.
fn game_with(bottom_to_top: Vec<Card>) -> Blackjack {
    Blackjack::new_with_deck(bottom_to_top)
}

#[test]
fn fresh_game_deals_two_and_two() {
    let game = Blackjack::new();
    assert_eq!(game.player_cards().len(), 2);
    assert_eq!(game.dealer_cards().len(), 2);
    assert_eq!(*game.state(), GameState::WaitingPlayerChoice);
    assert!(game.player_hand_value() >= 4);
    assert!(game.player_hand_value() <= 21);
}

#[test]
fn injected_deck_deals_player_then_dealer() {
    let game = game_with(vec![
        n(Suit::Diamonds, 6),
        n(Suit::Clubs, 5),
        n(Suit::Diamonds, 7),
        n(Suit::Hearts, 9),
        n(Suit::Spades, 10),
    ]);
    assert_eq!(game.player_cards(), &[n(Suit::Spades, 10), n(Suit::Hearts, 9)]);
    assert_eq!(game.dealer_cards(), &[n(Suit::Diamonds, 7), n(Suit::Clubs, 5)]);
}

#[test]
fn stand_then_dealer_draws_to_eighteen_player_wins() {
    // player 10S + 9H = 19 stands; dealer 7D + 5C = 12 draws the forced
    // 6D for 18; 19 > 18.
    let mut game = game_with(vec![
        n(Suit::Diamonds, 6),
        n(Suit::Clubs, 5),
        n(Suit::Diamonds, 7),
        n(Suit::Hearts, 9),
        n(Suit::Spades, 10),
    ]);
    assert_eq!(game.player_hand_value(), 19);
    assert_eq!(game.dealer_hand_value(), 12);
    game.stand();
    assert_eq!(*game.state(), GameState::DealerTurn);
    game.deal_dealer_cards();
    assert_eq!(game.dealer_hand_value(), 18);
    assert_eq!(game.dealer_cards().len(), 3);
    assert_eq!(*game.state(), GameState::Over(GameOutcome::PlayerWins));
}

#[test]
fn twenty_one_is_not_auto_resolved() {
    // player KS + AH = 21 is not treated specially: the round stays on
    // the player's choice, and standing proceeds to the normal dealer
    // comparison.
    let mut game = game_with(vec![
        n(Suit::Spades, 4),
        n(Suit::Clubs, 8),
        n(Suit::Diamonds, 7),
        card(Suit::Hearts, Rank::Ace),
        card(Suit::Spades, Rank::King),
    ]);
    assert_eq!(game.player_hand_value(), 21);
    assert_eq!(*game.state(), GameState::WaitingPlayerChoice);
    game.stand();
    assert_eq!(*game.state(), GameState::DealerTurn);
    game.deal_dealer_cards();
    // dealer 7D + 8C = 15 draws 4S for 19; 21 > 19.
    assert_eq!(game.dealer_hand_value(), 19);
    assert_eq!(*game.state(), GameState::Over(GameOutcome::PlayerWins));
}

#[test]
fn hit_past_21_busts_immediately() {
    // player 10S + 5H = 15 hits and draws KD for 25: busted at once,
    // the dealer never plays.
    let mut game = game_with(vec![
        card(Suit::Diamonds, Rank::King),
        n(Suit::Clubs, 2),
        n(Suit::Clubs, 3),
        n(Suit::Hearts, 5),
        n(Suit::Spades, 10),
    ]);
    let drawn = game.hit();
    assert_eq!(drawn, Some(card(Suit::Diamonds, Rank::King)));
    assert_eq!(game.player_hand_value(), 25);
    assert_eq!(*game.state(), GameState::Over(GameOutcome::PlayerBusted));
    assert_eq!(game.dealer_cards().len(), 2);
}

#[test]
fn hit_under_21_keeps_the_choice_open() {
    let mut game = game_with(vec![
        n(Suit::Diamonds, 4),
        n(Suit::Clubs, 9),
        n(Suit::Diamonds, 8),
        n(Suit::Hearts, 3),
        n(Suit::Spades, 2),
    ]);
    let drawn = game.hit();
    assert_eq!(drawn, Some(n(Suit::Diamonds, 4)));
    assert_eq!(game.player_hand_value(), 9);
    assert_eq!(*game.state(), GameState::WaitingPlayerChoice);
}

#[test]
fn hit_on_exhausted_deck_is_a_no_op() {
    let mut game = game_with(vec![
        n(Suit::Diamonds, 7),
        n(Suit::Clubs, 5),
        n(Suit::Hearts, 9),
        n(Suit::Spades, 10),
    ]);
    let drawn = game.hit();
    assert_eq!(drawn, None);
    assert_eq!(game.player_cards().len(), 2);
    assert_eq!(*game.state(), GameState::WaitingPlayerChoice);
}

#[test]
fn dealer_stands_at_first_value_of_17() {
    // dealer 10D + 5D = 15 draws 2H for exactly 17 and must not touch
    // the 9C beneath it (17 + 9 would bust).
    let mut game = game_with(vec![
        n(Suit::Clubs, 9),
        n(Suit::Hearts, 2),
        n(Suit::Diamonds, 5),
        n(Suit::Diamonds, 10),
        n(Suit::Hearts, 9),
        n(Suit::Spades, 10),
    ]);
    game.stand();
    game.deal_dealer_cards();
    assert_eq!(game.dealer_hand_value(), 17);
    assert_eq!(game.dealer_cards().len(), 3);
    assert_eq!(*game.state(), GameState::Over(GameOutcome::PlayerWins));
}

#[test]
fn dealer_stands_on_soft_17() {
    // dealer AD + 6C is a soft 17: no further card is drawn.
    let mut game = game_with(vec![
        n(Suit::Clubs, 10),
        n(Suit::Clubs, 6),
        card(Suit::Diamonds, Rank::Ace),
        n(Suit::Hearts, 9),
        n(Suit::Spades, 9),
    ]);
    game.stand();
    game.deal_dealer_cards();
    assert_eq!(game.dealer_hand_value(), 17);
    assert_eq!(game.dealer_cards().len(), 2);
    assert_eq!(*game.state(), GameState::Over(GameOutcome::PlayerWins));
}

#[test]
fn dealer_draws_repeatedly_until_17() {
    // dealer 2D + 3C = 5 draws 2H, 4S, 10C to reach 21.
    let mut game = game_with(vec![
        n(Suit::Clubs, 10),
        n(Suit::Spades, 4),
        n(Suit::Hearts, 2),
        n(Suit::Clubs, 3),
        n(Suit::Diamonds, 2),
        n(Suit::Hearts, 9),
        n(Suit::Spades, 10),
    ]);
    game.stand();
    game.deal_dealer_cards();
    assert_eq!(game.dealer_hand_value(), 21);
    assert_eq!(game.dealer_cards().len(), 5);
    assert_eq!(*game.state(), GameState::Over(GameOutcome::DealerWins));
}

#[test]
fn dealer_bust_ends_the_round() {
    // dealer 10D + 6C = 16 draws KH for 26: busted.
    let mut game = game_with(vec![
        card(Suit::Hearts, Rank::King),
        n(Suit::Clubs, 6),
        n(Suit::Diamonds, 10),
        n(Suit::Hearts, 9),
        n(Suit::Spades, 10),
    ]);
    game.stand();
    game.deal_dealer_cards();
    assert_eq!(game.dealer_hand_value(), 26);
    assert_eq!(*game.state(), GameState::Over(GameOutcome::DealerBusted));
}

#[test]
fn equal_values_tie() {
    // player 10S + 9H = 19 against dealer 10D + 9C = 19.
    let mut game = game_with(vec![
        n(Suit::Clubs, 9),
        n(Suit::Diamonds, 10),
        n(Suit::Hearts, 9),
        n(Suit::Spades, 10),
    ]);
    game.stand();
    game.deal_dealer_cards();
    assert_eq!(*game.state(), GameState::Over(GameOutcome::Tie));
}

#[test]
fn higher_dealer_value_wins() {
    // player 10S + 8H = 18 against dealer 10D + 9C = 19.
    let mut game = game_with(vec![
        n(Suit::Clubs, 9),
        n(Suit::Diamonds, 10),
        n(Suit::Hearts, 8),
        n(Suit::Spades, 10),
    ]);
    game.stand();
    game.deal_dealer_cards();
    assert_eq!(*game.state(), GameState::Over(GameOutcome::DealerWins));
}

#[test]
fn dealer_stops_silently_on_an_empty_deck() {
    // dealer 2C + 3D = 5 with nothing left to draw: the round still
    // resolves, 19 > 5.
    let mut game = game_with(vec![
        n(Suit::Diamonds, 3),
        n(Suit::Clubs, 2),
        n(Suit::Hearts, 9),
        n(Suit::Spades, 10),
    ]);
    game.stand();
    game.deal_dealer_cards();
    assert_eq!(game.dealer_hand_value(), 5);
    assert_eq!(*game.state(), GameState::Over(GameOutcome::PlayerWins));
}

#[test]
fn immediate_stand_always_reaches_a_terminal_outcome() {
    for _ in 0..50 {
        let mut game = Blackjack::new();
        game.stand();
        game.deal_dealer_cards();
        match *game.state() {
            GameState::Over(outcome) => {
                assert_ne!(outcome, GameOutcome::PlayerBusted);
            },
            _ => panic!("round did not end in a terminal state"),
        }
        assert!(game.dealer_hand_value() >= 17);
    }
}
