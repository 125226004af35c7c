//! Text as sequences of characters: the vocabulary that every other module is written in.
pub mod chars;
pub mod class;
pub mod crlf;
pub mod facts;
pub mod search;
pub mod number;
pub mod std_calls;
pub mod laws;
