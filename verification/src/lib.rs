//! A lexical analyzer for a minimal C-like language.
//!
//! The [`lexer`] module turns source text into a sequence of [`lexer::Token`]
//! values. Its rules are regular expressions, matched by the `regex` crate
//! through the [`matcher`] module; [`text`] holds the string handling that
//! the lexer builds on. The [`grammar`] module says which lexemes the rules
//! are written for, and what lexing does with a text made of them.

pub mod grammar;
pub mod lexer;
pub mod matcher;
pub mod text;
