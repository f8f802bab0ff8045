//! The rules of the card game Hearts: cards and the deck, dealing, legal
//! play, trick resolution, round scoring and the match state machine.

pub mod card;
pub mod legality;
pub mod trick;
pub mod dealer;
pub mod scoring;
pub mod game;
pub mod agent;
