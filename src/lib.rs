//! Command input for turn-based games: parser combinators that turn player
//! text into typed commands with ranked, precise errors, the grammar spec
//! tree each parser describes itself as, the turn guards of the dispatch
//! layer, and the decisions of the fuzz driver.
pub mod text;
pub mod error;
pub mod command;
pub mod schema;
pub mod parser;
pub mod game;
pub mod bot;
pub mod markup;
