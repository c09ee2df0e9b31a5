//! A verified lexical scanner for a small interpreted language.
//!
//! `Lexer::new` builds a scanner over a source string; each call of
//! `Lexer::next_token` emits one classified token (punctuation, operators,
//! identifiers, the keywords `fn` and `let`, unsigned decimal integers, an
//! `Illegal` token for anything unrecognized) and the stable `Eof` sentinel
//! once the input is exhausted. The `laws` module proves the scanner's
//! general properties over the specification model.

pub mod token;
pub mod lexer;
pub mod laws;
