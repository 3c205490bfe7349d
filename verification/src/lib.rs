//! Solitare of Olympus: the rules of a Klondike-style patience game with
//! temple gold, stated and proved with Verus.

pub mod deck;
pub mod game;
pub mod gesture;
pub mod keys;
pub mod layout;
pub mod motion;
pub mod properties;
pub mod session;
pub mod text;
