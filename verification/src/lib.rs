//! A verified rules engine for single-player Blackjack against a dealer.
//!
//! The library models a deck, dealing, hand scoring (with the soft/hard
//! Ace rule) and the turn state machine from the player's decisions to the
//! dealer's auto-play and a terminal outcome. Front-ends are expected to
//! display state and forward `hit` / `stand` into the engine.

pub mod card;
pub mod deck;
pub mod game;
pub mod hand;

pub use card::Card;
pub use card::Rank;
pub use card::Suit;
pub use deck::Deck;
pub use game::Blackjack;
pub use game::GameOutcome;
pub use game::GameState;
pub use hand::Hand;
