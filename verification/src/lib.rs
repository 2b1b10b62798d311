//! A typing-test engine: a fixed text, a cursor, and for each character of the text how it has
//! been typed so far.
//!
//! [`Game`] is the session as it runs. Its contracts are stated over [`session::Session`], the
//! session as a mathematical value, and [`laws`] holds what is proved of every session.
pub mod cell;
pub mod game;
pub mod laws;
pub mod session;
pub mod text;
pub mod words;

pub use cell::{CharColor, Character};
pub use game::Game;
