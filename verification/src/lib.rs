//! An indentation-sensitive scanner.
//!
//! The source is a sequence of lines, each made of leading tabs, one
//! identifier and a line ending. The scanner turns it into a flat stream of
//! tokens in which every change of depth between two consecutive lines is
//! spelled out as one `Indent` or `Dedent` per level crossed.

pub mod token;
pub mod grammar;
pub mod lexeme;
pub mod scanner;
pub mod balance;
pub mod content;
