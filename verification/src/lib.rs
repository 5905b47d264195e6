//! Texas Hold'em room engine: the deck, the per-room betting state machine,
//! pot and side-pot accounting, and winner selection.

pub mod error;
pub mod card;
pub mod bits;
pub mod deck;
pub mod domain;
pub mod player;
pub mod seats;
pub mod pot;
pub mod rules;
pub mod room;
pub mod evaluator;
pub mod game;
pub mod state;
pub mod laws;
