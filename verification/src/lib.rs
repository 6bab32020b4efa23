//! A block-level tokenizer for a Markdown-like markup language.
//!
//! The tokenizer reads a document line by line and gives each line a
//! provisional structural token: heading, thematic break, blank line,
//! paragraph. A line is classified from its own text and from the kind of the
//! token emitted last; nothing further back and nothing ahead is consulted.

pub mod whitespace;
pub mod token;
pub mod line;
pub mod tokenizer;
pub mod laws;

pub use token::{Token, TokenType, TokenView};
pub use tokenizer::Tokenizer;
