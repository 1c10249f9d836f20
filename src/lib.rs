//! A single-player blackjack engine: cards, a shuffled deck, and the
//! dealer's fixed drawing policy with greedy ace scoring.

pub mod card;
pub mod deck;
pub mod game;
