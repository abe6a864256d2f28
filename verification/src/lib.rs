//! A reader for a small line-oriented language of sound-change rules.
//!
//! A document is a run of statements, each closed by a newline, a semicolon
//! or the end of the text. A statement either names a category of symbols
//! (`Cons :: m n b t`) or gives a rewrite rule with an optional environment
//! (`a > e / w_`). [`parser::process`] turns a document into a readable
//! transcript with one entry per statement.

pub mod chars;
pub mod scan;
pub mod grammar;
pub mod transcript;
pub mod parser;
pub mod bridge;
