//! The scanning engine: a character cursor over the input and the
//! token-production state machine.
//!
//! The specification model lives beside the code: `spec_is_whitespace`,
//! `spec_is_letter` and `spec_is_digit` classify single characters,
//! `skip_ws_from`, `letter_run_end` and `digit_run_end` describe how far the
//! cursor moves, `spec_step` gives the token produced at a position, and
//! `spec_tokens` gives the whole token stream of an input.

use vstd::prelude::*;
use vstd::string::StrSliceExecFns;
use crate::token::{lookup_ident, lookup_kind, Token, TokenKind};

verus! {

/// Whether the character has the Unicode `Alphabetic` property. Left
/// uninterpreted: the table is the standard library's business.
pub uninterp spec fn alphabetic(c: char) -> bool;

/// Relies on char::is_alphabetic: true exactly when the character has the
/// Unicode `Alphabetic` property, a function of the character alone.
#[verifier::external_body]
fn is_unicode_alphabetic(c: char) -> (r: bool)
    ensures
        r == alphabetic(c),
{
    c.is_alphabetic()
}

/// Relies on String::push: appends the given character to the end of the
/// string.
#[verifier::external_body]
fn push_char(s: &mut String, c: char)
    ensures
        final(s)@ == old(s)@.push(c),
{
    s.push(c);
}

/// The characters the scanner skips between tokens: space, tab, newline and
/// carriage return.
pub open spec fn spec_is_whitespace(c: char) -> bool {
    c == ' ' || c == '\t' || c == '\n' || c == '\r'
}

/// The characters an identifier is made of: alphabetic code points and the
/// underscore. Among ASCII, the alphabetic characters are exactly the two
/// letter ranges, so only code points above 127 go through `alphabetic`.
pub open spec fn spec_is_letter(c: char) -> bool {
    ||| 'a' as u32 <= c as u32 && c as u32 <= 'z' as u32
    ||| 'A' as u32 <= c as u32 && c as u32 <= 'Z' as u32
    ||| c == '_'
    ||| c as u32 >= 128 && alphabetic(c)
}

/// The characters an integer literal is made of: the ASCII decimal digits.
pub open spec fn spec_is_digit(c: char) -> bool {
    '0' as u32 <= c as u32 && c as u32 <= '9' as u32
}

/// The token kind of a single-character punctuation or operator lexeme, or
/// `None` for every other character.
pub open spec fn spec_punct_kind(c: char) -> Option<TokenKind> {
    if c == '=' {
        Some(TokenKind::Assign)
    } else if c == '+' {
        Some(TokenKind::Plus)
    } else if c == '-' {
        Some(TokenKind::Minus)
    } else if c == '*' {
        Some(TokenKind::Asterisk)
    } else if c == '/' {
        Some(TokenKind::Slash)
    } else if c == '!' {
        Some(TokenKind::Bang)
    } else if c == '<' {
        Some(TokenKind::Lt)
    } else if c == '>' {
        Some(TokenKind::Gt)
    } else if c == '(' {
        Some(TokenKind::Lparen)
    } else if c == ')' {
        Some(TokenKind::Rparen)
    } else if c == '{' {
        Some(TokenKind::Lbrace)
    } else if c == '}' {
        Some(TokenKind::Rbrace)
    } else if c == ',' {
        Some(TokenKind::Comma)
    } else if c == ';' {
        Some(TokenKind::Semicolon)
    } else {
        None
    }
}

/// The first position at or after `i` that does not hold a whitespace
/// character (or the end of the input).
pub open spec fn skip_ws_from(input: Seq<char>, i: int) -> int
    decreases input.len() - i,
{
    if 0 <= i < input.len() && spec_is_whitespace(input[i]) {
        skip_ws_from(input, i + 1)
    } else {
        i
    }
}

/// The end of the maximal run of letter characters starting at `i`.
pub open spec fn letter_run_end(input: Seq<char>, i: int) -> int
    decreases input.len() - i,
{
    if 0 <= i < input.len() && spec_is_letter(input[i]) {
        letter_run_end(input, i + 1)
    } else {
        i
    }
}

/// The end of the maximal run of digit characters starting at `i`.
pub open spec fn digit_run_end(input: Seq<char>, i: int) -> int
    decreases input.len() - i,
{
    if 0 <= i < input.len() && spec_is_digit(input[i]) {
        digit_run_end(input, i + 1)
    } else {
        i
    }
}

/// What one call of `next_token` does once whitespace has been skipped: the
/// token kind, the token literal, and the cursor position after the token.
/// Positions at the end of the input, or at a NUL character, yield `Eof`
/// without moving.
pub open spec fn spec_step(input: Seq<char>, p: int) -> (TokenKind, Seq<char>, int)
    recommends
        0 <= p <= input.len(),
{
    if p >= input.len() || input[p] == '\0' {
        (TokenKind::Eof, Seq::<char>::empty(), p)
    } else {
        match spec_punct_kind(input[p]) {
            Some(k) => (k, seq![input[p]], p + 1),
            None => if spec_is_letter(input[p]) {
                let e = letter_run_end(input, p);
                (lookup_kind(input.subrange(p, e)), input.subrange(p, e), e)
            } else if spec_is_digit(input[p]) {
                let e = digit_run_end(input, p);
                (TokenKind::Int, input.subrange(p, e), e)
            } else {
                (TokenKind::Illegal, seq![input[p]], p + 1)
            },
        }
    }
}

/// Characterizes `skip_ws_from`: it stays within the input, everything it
/// passes over is whitespace, and it stops at the end or at a non-whitespace
/// character.
pub proof fn lemma_skip_ws_from(input: Seq<char>, p: int)
    requires
        0 <= p <= input.len(),
    ensures
        p <= skip_ws_from(input, p) <= input.len(),
        forall|j: int| p <= j < skip_ws_from(input, p) ==> spec_is_whitespace(#[trigger] input[j]),
        skip_ws_from(input, p) == input.len() || !spec_is_whitespace(
            input[skip_ws_from(input, p)],
        ),
    decreases input.len() - p,
{
    if p < input.len() && spec_is_whitespace(input[p]) {
        lemma_skip_ws_from(input, p + 1);
    }
}

/// Characterizes `letter_run_end`: it stays within the input, everything it
/// passes over is a letter, and it stops at the end or at a non-letter.
pub proof fn lemma_letter_run_end(input: Seq<char>, p: int)
    requires
        0 <= p <= input.len(),
    ensures
        p <= letter_run_end(input, p) <= input.len(),
        forall|j: int| p <= j < letter_run_end(input, p) ==> spec_is_letter(#[trigger] input[j]),
        letter_run_end(input, p) == input.len() || !spec_is_letter(
            input[letter_run_end(input, p)],
        ),
    decreases input.len() - p,
{
    if p < input.len() && spec_is_letter(input[p]) {
        lemma_letter_run_end(input, p + 1);
    }
}

/// Characterizes `digit_run_end`: it stays within the input, everything it
/// passes over is a digit, and it stops at the end or at a non-digit.
pub proof fn lemma_digit_run_end(input: Seq<char>, p: int)
    requires
        0 <= p <= input.len(),
    ensures
        p <= digit_run_end(input, p) <= input.len(),
        forall|j: int| p <= j < digit_run_end(input, p) ==> spec_is_digit(#[trigger] input[j]),
        digit_run_end(input, p) == input.len() || !spec_is_digit(input[digit_run_end(input, p)]),
    decreases input.len() - p,
{
    if p < input.len() && spec_is_digit(input[p]) {
        lemma_digit_run_end(input, p + 1);
    }
}

/// The whole token stream scanned from position `p`: the tokens that repeated
/// calls of `next_token` return, each as its kind and its literal, ending with
/// the `Eof` sentinel (which every further call repeats).
pub open spec fn spec_tokens(input: Seq<char>, p: int) -> Seq<(TokenKind, Seq<char>)>
    recommends
        0 <= p <= input.len(),
    decreases input.len() - p,
        when 0 <= p <= input.len()
        via spec_tokens_decreases
{
    let q = skip_ws_from(input, p);
    if q >= input.len() || input[q] == '\0' {
        seq![(TokenKind::Eof, Seq::<char>::empty())]
    } else {
        let s = spec_step(input, q);
        seq![(s.0, s.1)] + spec_tokens(input, s.2)
    }
}

#[via_fn]
proof fn spec_tokens_decreases(input: Seq<char>, p: int) {
    lemma_skip_ws_from(input, p);
    let q = skip_ws_from(input, p);
    if q < input.len() && input[q] != '\0' {
        lemma_letter_run_end(input, q);
        lemma_digit_run_end(input, q);
        if spec_is_letter(input[q]) {
            assert(letter_run_end(input, q) == letter_run_end(input, q + 1));
            lemma_letter_run_end(input, q + 1);
        }
        if spec_is_digit(input[q]) {
            assert(digit_run_end(input, q) == digit_run_end(input, q + 1));
            lemma_digit_run_end(input, q + 1);
        }
    }
}

/// The scanner: owns the input buffer and the cursor over it, and emits one
/// token per call of `next_token`.
pub struct Lexer {
    input: Vec<char>,
    position: usize,
    read_position: usize,
    ch: char,
}

impl Lexer {
    /// The input under the cursor, as a sequence of characters.
    pub closed spec fn spec_input(&self) -> Seq<char> {
        self.input@
    }

    /// The index of the character currently under the read head.
    pub closed spec fn spec_pos(&self) -> int {
        self.position as int
    }

    /// The cursor invariant: the read head never passes the end of the
    /// input, the lookahead index trails it by exactly one, and `ch` mirrors
    /// the character under the head, or the NUL sentinel once the input is
    /// exhausted.
    pub closed spec fn wf(&self) -> bool {
        &&& self.input@.len() < usize::MAX
        &&& self.position <= self.input@.len()
        &&& self.read_position == self.position + 1
        &&& self.ch == (if (self.position as int) < self.input@.len() {
            self.input@[self.position as int]
        } else {
            '\0'
        })
    }

    /// Builds a scanner over `input` with the read head on the first
    /// character. The length bound is a machine limit: the lookahead index
    /// must fit in `usize`.
    pub fn new(input: &str) -> (lexer: Lexer)
        requires
            input@.len() < usize::MAX,
        ensures
            lexer.wf(),
            lexer.spec_input() == input@,
            lexer.spec_pos() == 0,
    {
        let n = input.unicode_len();
        let mut chars: Vec<char> = Vec::with_capacity(n);
        let mut i: usize = 0;
        while i < n
            invariant
                i <= n,
                n == input@.len(),
                chars@ =~= input@.subrange(0, i as int),
            decreases n - i,
        {
            chars.push(input.get_char(i));
            i += 1;
        }
        proof {
            assert(chars@ =~= input@);
        }
        let mut lexer = Lexer { input: chars, position: 0, read_position: 0, ch: '\0' };
        lexer.read_char();
        lexer
    }

    /// Moves the read head one position forward; `ch` becomes the character
    /// now under the head, or the NUL sentinel if the input is exhausted.
    /// Advancing past the end is well-defined and keeps yielding the
    /// sentinel; the only bound is the machine limit that the new lookahead
    /// index must fit in `usize`.
    fn read_char(&mut self)
        requires
            old(self).read_position < usize::MAX,
        ensures
            final(self).input@ == old(self).input@,
            final(self).position == old(self).read_position,
            final(self).read_position == old(self).read_position + 1,
            final(self).ch == (if (final(self).position as int) < final(self).input@.len() {
                final(self).input@[final(self).position as int]
            } else {
                '\0'
            }),
    {
        if self.read_position >= self.input.len() {
            self.ch = '\0';
        } else {
            self.ch = self.input[self.read_position];
        }
        self.position = self.read_position;
        self.read_position = self.read_position + 1;
    }

    /// True iff the character can appear in an identifier: alphabetic or the
    /// underscore.
    pub fn is_letter(ch: char) -> (r: bool)
        ensures
            r == spec_is_letter(ch),
    {
        let u = ch as u32;
        if u < 128 {
            ('a' as u32 <= u && u <= 'z' as u32) || ('A' as u32 <= u && u <= 'Z' as u32)
                || ch == '_'
        } else {
            is_unicode_alphabetic(ch)
        }
    }

    /// True iff the character is an ASCII decimal digit.
    pub fn is_digit(ch: char) -> (r: bool)
        ensures
            r == spec_is_digit(ch),
    {
        let u = ch as u32;
        '0' as u32 <= u && u <= '9' as u32
    }

    /// True iff the scanner skips the character between tokens.
    pub fn is_whitespace(ch: char) -> (r: bool)
        ensures
            r == spec_is_whitespace(ch),
    {
        ch == ' ' || ch == '\t' || ch == '\n' || ch == '\r'
    }

    /// Consumes the maximal run of letter characters under the read head and
    /// returns it as a string; the head ends on the first non-letter.
    pub fn read_identifier(&mut self) -> (s: String)
        requires
            old(self).wf(),
        ensures
            final(self).wf(),
            final(self).spec_input() == old(self).spec_input(),
            final(self).spec_pos() == letter_run_end(old(self).spec_input(), old(self).spec_pos()),
            s@ == old(self).spec_input().subrange(old(self).spec_pos(), final(self).spec_pos()),
    {
        let ghost input0 = self.input@;
        let ghost p0 = self.position as int;
        let mut identifier = String::new();
        while Lexer::is_letter(self.ch)
            invariant
                self.wf(),
                self.input@ == input0,
                0 <= p0 <= self.position as int,
                letter_run_end(input0, p0) == letter_run_end(input0, self.position as int),
                identifier@ == input0.subrange(p0, self.position as int),
            decreases input0.len() - self.position as int,
        {
            push_char(&mut identifier, self.ch);
            self.read_char();
            proof {
                assert(identifier@ =~= input0.subrange(p0, self.position as int));
            }
        }
        identifier
    }

    /// Consumes the maximal run of digit characters under the read head and
    /// returns it as a string; the head ends on the first non-digit.
    pub fn read_number(&mut self) -> (s: String)
        requires
            old(self).wf(),
        ensures
            final(self).wf(),
            final(self).spec_input() == old(self).spec_input(),
            final(self).spec_pos() == digit_run_end(old(self).spec_input(), old(self).spec_pos()),
            s@ == old(self).spec_input().subrange(old(self).spec_pos(), final(self).spec_pos()),
    {
        let ghost input0 = self.input@;
        let ghost p0 = self.position as int;
        let mut num = String::new();
        while Lexer::is_digit(self.ch)
            invariant
                self.wf(),
                self.input@ == input0,
                0 <= p0 <= self.position as int,
                digit_run_end(input0, p0) == digit_run_end(input0, self.position as int),
                num@ == input0.subrange(p0, self.position as int),
            decreases input0.len() - self.position as int,
        {
            push_char(&mut num, self.ch);
            self.read_char();
            proof {
                assert(num@ =~= input0.subrange(p0, self.position as int));
            }
        }
        num
    }

    /// Moves the read head past every consecutive whitespace character.
    pub fn skip_whitespace(&mut self)
        requires
            old(self).wf(),
        ensures
            final(self).wf(),
            final(self).spec_input() == old(self).spec_input(),
            final(self).spec_pos() == skip_ws_from(old(self).spec_input(), old(self).spec_pos()),
    {
        let ghost input0 = self.input@;
        let ghost p0 = self.position as int;
        while Lexer::is_whitespace(self.ch)
            invariant
                self.wf(),
                self.input@ == input0,
                0 <= p0 <= self.position as int,
                skip_ws_from(input0, p0) == skip_ws_from(input0, self.position as int),
            decreases input0.len() - self.position as int,
        {
            self.read_char();
        }
    }

    /// Builds a token whose literal is the single character `ch`.
    pub fn new_token(kind: TokenKind, ch: char) -> (t: Token)
        ensures
            t.kind == kind,
            t.literal@ == seq![ch],
    {
        let mut literal = String::new();
        push_char(&mut literal, ch);
        proof {
            assert(literal@ =~= seq![ch]);
        }
        Token { kind, literal }
    }

    /// Emits the next token of the input and advances the cursor past it:
    /// whitespace is skipped, then exactly one of the dispatch cases of
    /// `spec_step` applies at the resulting position.
    pub fn next_token(&mut self) -> (t: Token)
        requires
            old(self).wf(),
        ensures
            final(self).wf(),
            final(self).spec_input() == old(self).spec_input(),
            ({
                let q = skip_ws_from(old(self).spec_input(), old(self).spec_pos());
                let s = spec_step(old(self).spec_input(), q);
                &&& t.kind == s.0
                &&& t.literal@ == s.1
                &&& final(self).spec_pos() == s.2
            }),
    {
        self.skip_whitespace();
        let token = match self.ch {
            ';' => {
                let tok = Lexer::new_token(TokenKind::Semicolon, self.ch);
                self.read_char();
                tok
            },
            '=' => {
                let tok = Lexer::new_token(TokenKind::Assign, self.ch);
                self.read_char();
                tok
            },
            '(' => {
                let tok = Lexer::new_token(TokenKind::Lparen, self.ch);
                self.read_char();
                tok
            },
            ')' => {
                let tok = Lexer::new_token(TokenKind::Rparen, self.ch);
                self.read_char();
                tok
            },
            ',' => {
                let tok = Lexer::new_token(TokenKind::Comma, self.ch);
                self.read_char();
                tok
            },
            '+' => {
                let tok = Lexer::new_token(TokenKind::Plus, self.ch);
                self.read_char();
                tok
            },
            '{' => {
                let tok = Lexer::new_token(TokenKind::Lbrace, self.ch);
                self.read_char();
                tok
            },
            '}' => {
                let tok = Lexer::new_token(TokenKind::Rbrace, self.ch);
                self.read_char();
                tok
            },
            '-' => {
                let tok = Lexer::new_token(TokenKind::Minus, self.ch);
                self.read_char();
                tok
            },
            '*' => {
                let tok = Lexer::new_token(TokenKind::Asterisk, self.ch);
                self.read_char();
                tok
            },
            '/' => {
                let tok = Lexer::new_token(TokenKind::Slash, self.ch);
                self.read_char();
                tok
            },
            '<' => {
                let tok = Lexer::new_token(TokenKind::Lt, self.ch);
                self.read_char();
                tok
            },
            '>' => {
                let tok = Lexer::new_token(TokenKind::Gt, self.ch);
                self.read_char();
                tok
            },
            '!' => {
                let tok = Lexer::new_token(TokenKind::Bang, self.ch);
                self.read_char();
                tok
            },
            '\0' => Token { kind: TokenKind::Eof, literal: String::new() },
            _ => {
                if Lexer::is_letter(self.ch) {
                    let literal = self.read_identifier();
                    let kind = lookup_ident(literal.as_str());
                    Token { kind, literal }
                } else if Lexer::is_digit(self.ch) {
                    let literal = self.read_number();
                    Token { kind: TokenKind::Int, literal }
                } else {
                    let tok = Lexer::new_token(TokenKind::Illegal, self.ch);
                    self.read_char();
                    tok
                }
            },
        };
        token
    }
}

} // verus!
