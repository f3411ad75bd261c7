//! The card game War as a verified state machine: two decks, a move counter, and a
//! round-by-round transition whose result is pinned down by a mathematical model.

pub mod deck;
pub mod game;
pub mod rules;
pub mod score;
