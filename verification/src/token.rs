//! Tokens produced by the scanner, and the keyword resolver.

use vstd::prelude::*;
use vstd::string::StrSliceExecFns;

verus! {

/// The closed set of token tags.
#[derive(Debug, Clone, Copy, PartialEq, Eq, Structural)]
pub enum TokenKind {
    Illegal,
    Eof,
    Ident,
    Int,
    Assign,
    Plus,
    Minus,
    Asterisk,
    Slash,
    Bang,
    Lt,
    Gt,
    Lparen,
    Rparen,
    Lbrace,
    Rbrace,
    Comma,
    Semicolon,
    Function,
    Let,
}

/// A classified unit of source text: a kind tag together with the exact
/// substring of the input that produced it.
#[derive(Debug)]
pub struct Token {
    pub kind: TokenKind,
    pub literal: String,
}

/// The kind a finished identifier resolves to: the reserved words `fn` and
/// `let` get their own tags; everything else is a plain identifier.
pub open spec fn lookup_kind(s: Seq<char>) -> TokenKind {
    if s == seq!['f', 'n'] {
        TokenKind::Function
    } else if s == seq!['l', 'e', 't'] {
        TokenKind::Let
    } else {
        TokenKind::Ident
    }
}

/// Resolves a completed identifier string: `Function` for exactly "fn",
/// `Let` for exactly "let", and `Ident` for anything else. The lookup is
/// exact and case-sensitive.
pub fn lookup_ident(s: &str) -> (kind: TokenKind)
    ensures
        kind == lookup_kind(s@),
{
    let n = s.unicode_len();
    if n == 2 && s.get_char(0) == 'f' && s.get_char(1) == 'n' {
        proof {
            assert(s@ =~= seq!['f', 'n']);
        }
        TokenKind::Function
    } else if n == 3 && s.get_char(0) == 'l' && s.get_char(1) == 'e' && s.get_char(2) == 't' {
        proof {
            assert(s@ =~= seq!['l', 'e', 't']);
        }
        TokenKind::Let
    } else {
        proof {
            assert(s@ != seq!['f', 'n'] && s@ != seq!['l', 'e', 't']) by {
                if s@ == seq!['f', 'n'] {
                    assert(s@.len() == 2 && s@[0] == 'f' && s@[1] == 'n');
                }
                if s@ == seq!['l', 'e', 't'] {
                    assert(s@.len() == 3 && s@[0] == 'l' && s@[1] == 'e' && s@[2] == 't');
                }
            }
        }
        TokenKind::Ident
    }
}

} // verus!
