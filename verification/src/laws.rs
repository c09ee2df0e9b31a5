//! Laws of the scanner, stated over the specification model of `lexer` and
//! proved once and for all: what single-character inputs, identifier inputs
//! and digit inputs scan to, that the `Eof` sentinel is stable, and that
//! whitespace inserted between tokens never changes the token stream.

use vstd::prelude::*;
use crate::token::TokenKind;
use crate::lexer::{
    spec_is_whitespace, spec_is_letter, spec_is_digit, spec_punct_kind, skip_ws_from,
    letter_run_end, digit_run_end, spec_step, spec_tokens, lemma_skip_ws_from,
    lemma_letter_run_end, lemma_digit_run_end,
};

verus! {

/// Scanning a one-character input made of a single punctuation or operator
/// character yields one token of the matching kind whose literal is that
/// character, followed by `Eof`.
pub proof fn lemma_single_punctuation(c: char, k: TokenKind)
    requires
        spec_punct_kind(c) == Some(k),
    ensures
        spec_tokens(seq![c], 0) == seq![(k, seq![c]), (TokenKind::Eof, Seq::<char>::empty())],
{
    let input = seq![c];
    assert(!spec_is_whitespace(c));
    assert(skip_ws_from(input, 0) == 0);
    assert(c != '\0');
    assert(spec_step(input, 0) == (k, seq![c], 1int));
    assert(skip_ws_from(input, 1) == 1);
    assert(spec_tokens(input, 1) == seq![(TokenKind::Eof, Seq::<char>::empty())]);
    assert(spec_tokens(input, 0) =~= seq![
        (k, seq![c]),
        (TokenKind::Eof, Seq::<char>::empty()),
    ]);
}

/// Scanning a non-empty input made solely of letter characters, other than
/// the reserved words themselves, yields a single `Ident` token whose literal
/// is exactly the input, followed by `Eof`.
pub proof fn lemma_identifier_token(input: Seq<char>)
    requires
        input.len() > 0,
        forall|j: int| 0 <= j < input.len() ==> spec_is_letter(#[trigger] input[j]),
        input != seq!['f', 'n'],
        input != seq!['l', 'e', 't'],
    ensures
        spec_tokens(input, 0) == seq![
            (TokenKind::Ident, input),
            (TokenKind::Eof, Seq::<char>::empty()),
        ],
{
    let n = input.len() as int;
    assert(spec_is_letter(input[0]));
    assert(!spec_is_whitespace(input[0]));
    assert(skip_ws_from(input, 0) == 0);
    assert(input[0] != '\0');
    assert(spec_punct_kind(input[0]) is None);
    lemma_letter_run_end(input, 0);
    let e = letter_run_end(input, 0);
    assert(e == n);
    assert(input.subrange(0, e) =~= input);
    assert(spec_step(input, 0) == (TokenKind::Ident, input, n));
    assert(skip_ws_from(input, n) == n);
    assert(spec_tokens(input, n) == seq![(TokenKind::Eof, Seq::<char>::empty())]);
    assert(spec_tokens(input, 0) =~= seq![
        (TokenKind::Ident, input),
        (TokenKind::Eof, Seq::<char>::empty()),
    ]);
}

/// Scanning a non-empty input made solely of ASCII digits yields a single
/// `Int` token whose literal is exactly the input (no sign, no normalization
/// of leading zeros), followed by `Eof`.
pub proof fn lemma_integer_token(input: Seq<char>)
    requires
        input.len() > 0,
        forall|j: int| 0 <= j < input.len() ==> spec_is_digit(#[trigger] input[j]),
    ensures
        spec_tokens(input, 0) == seq![
            (TokenKind::Int, input),
            (TokenKind::Eof, Seq::<char>::empty()),
        ],
{
    let n = input.len() as int;
    assert(spec_is_digit(input[0]));
    assert(!spec_is_whitespace(input[0]));
    assert(skip_ws_from(input, 0) == 0);
    assert(input[0] != '\0');
    assert(spec_punct_kind(input[0]) is None);
    assert(!spec_is_letter(input[0]));
    lemma_digit_run_end(input, 0);
    let e = digit_run_end(input, 0);
    assert(e == n);
    assert(input.subrange(0, e) =~= input);
    assert(spec_step(input, 0) == (TokenKind::Int, input, n));
    assert(skip_ws_from(input, n) == n);
    assert(spec_tokens(input, n) == seq![(TokenKind::Eof, Seq::<char>::empty())]);
    assert(spec_tokens(input, 0) =~= seq![
        (TokenKind::Int, input),
        (TokenKind::Eof, Seq::<char>::empty()),
    ]);
}

/// Once the scanner answers `Eof`, it answers `Eof` forever: a position whose
/// step yields `Eof` is left unchanged by the step, skipping whitespace there
/// moves nothing, and the step at the resulting position yields `Eof` with an
/// empty literal again.
pub proof fn lemma_eof_idempotent(input: Seq<char>, p: int)
    requires
        0 <= p <= input.len(),
        spec_step(input, skip_ws_from(input, p)).0 == TokenKind::Eof,
    ensures
        ({
            let q = skip_ws_from(input, p);
            &&& spec_step(input, q) == (TokenKind::Eof, Seq::<char>::empty(), q)
            &&& skip_ws_from(input, q) == q
            &&& spec_step(input, skip_ws_from(input, q)) == (
                TokenKind::Eof,
                Seq::<char>::empty(),
                q,
            )
            &&& spec_tokens(input, p) == seq![(TokenKind::Eof, Seq::<char>::empty())]
            &&& spec_tokens(input, q) == spec_tokens(input, p)
        }),
{
    lemma_skip_ws_from(input, p);
    let q = skip_ws_from(input, p);
    assert(q >= input.len() || input[q] == '\0') by {
        if q < input.len() && input[q] != '\0' {
            match spec_punct_kind(input[q]) {
                Some(k) => {
                    assert(spec_step(input, q).0 == k);
                    assert(k != TokenKind::Eof);
                },
                None => {},
            }
        }
    }
    assert(skip_ws_from(input, q) == q);
}

/// Skipping whitespace in a concatenation, starting inside the right part,
/// is skipping whitespace in the right part alone.
proof fn lemma_skip_ws_shift(a: Seq<char>, b: Seq<char>, r: int)
    requires
        0 <= r <= b.len(),
    ensures
        skip_ws_from(a + b, a.len() + r) == a.len() + skip_ws_from(b, r),
    decreases b.len() - r,
{
    if r < b.len() && spec_is_whitespace(b[r]) {
        assert((a + b)[a.len() + r] == b[r]);
        lemma_skip_ws_shift(a, b, r + 1);
    } else if r < b.len() {
        assert((a + b)[a.len() + r] == b[r]);
    }
}

/// A letter run in a concatenation, starting inside the right part, is a
/// letter run in the right part alone.
proof fn lemma_letter_run_shift(a: Seq<char>, b: Seq<char>, r: int)
    requires
        0 <= r <= b.len(),
    ensures
        letter_run_end(a + b, a.len() + r) == a.len() + letter_run_end(b, r),
    decreases b.len() - r,
{
    if r < b.len() && spec_is_letter(b[r]) {
        assert((a + b)[a.len() + r] == b[r]);
        lemma_letter_run_shift(a, b, r + 1);
    } else if r < b.len() {
        assert((a + b)[a.len() + r] == b[r]);
    }
}

/// A digit run in a concatenation, starting inside the right part, is a digit
/// run in the right part alone.
proof fn lemma_digit_run_shift(a: Seq<char>, b: Seq<char>, r: int)
    requires
        0 <= r <= b.len(),
    ensures
        digit_run_end(a + b, a.len() + r) == a.len() + digit_run_end(b, r),
    decreases b.len() - r,
{
    if r < b.len() && spec_is_digit(b[r]) {
        assert((a + b)[a.len() + r] == b[r]);
        lemma_digit_run_shift(a, b, r + 1);
    } else if r < b.len() {
        assert((a + b)[a.len() + r] == b[r]);
    }
}

/// Skipping whitespace in a concatenation, starting inside the left part,
/// either stops inside the left part where it stops there alone, or runs off
/// its end and continues through the right part.
proof fn lemma_skip_ws_prefix(a: Seq<char>, b: Seq<char>, p: int)
    requires
        0 <= p <= a.len(),
    ensures
        skip_ws_from(a, p) < a.len() ==> skip_ws_from(a + b, p) == skip_ws_from(a, p),
        skip_ws_from(a, p) == a.len() ==> skip_ws_from(a + b, p) == a.len() + skip_ws_from(b, 0),
    decreases a.len() - p,
{
    lemma_skip_ws_from(a, p);
    if p == a.len() {
        lemma_skip_ws_shift(a, b, 0);
    } else if spec_is_whitespace(a[p]) {
        assert((a + b)[p] == a[p]);
        lemma_skip_ws_prefix(a, b, p + 1);
    } else {
        assert((a + b)[p] == a[p]);
    }
}

/// A letter run in a concatenation, starting inside the left part, equals the
/// run in the left part alone, provided that a run reaching the seam does not
/// continue into the right part.
proof fn lemma_letter_run_prefix(a: Seq<char>, b: Seq<char>, p: int)
    requires
        0 <= p <= a.len(),
        letter_run_end(a, p) == a.len() ==> b.len() == 0 || !spec_is_letter(b[0]),
    ensures
        letter_run_end(a + b, p) == letter_run_end(a, p),
    decreases a.len() - p,
{
    if p == a.len() {
        if b.len() > 0 {
            assert((a + b)[a.len() as int] == b[0]);
        }
    } else if spec_is_letter(a[p]) {
        assert((a + b)[p] == a[p]);
        lemma_letter_run_prefix(a, b, p + 1);
    } else {
        assert((a + b)[p] == a[p]);
    }
}

/// A digit run in a concatenation, starting inside the left part, equals the
/// run in the left part alone, provided that a run reaching the seam does not
/// continue into the right part.
proof fn lemma_digit_run_prefix(a: Seq<char>, b: Seq<char>, p: int)
    requires
        0 <= p <= a.len(),
        digit_run_end(a, p) == a.len() ==> b.len() == 0 || !spec_is_digit(b[0]),
    ensures
        digit_run_end(a + b, p) == digit_run_end(a, p),
    decreases a.len() - p,
{
    if p == a.len() {
        if b.len() > 0 {
            assert((a + b)[a.len() as int] == b[0]);
        }
    } else if spec_is_digit(a[p]) {
        assert((a + b)[p] == a[p]);
        lemma_digit_run_prefix(a, b, p + 1);
    } else {
        assert((a + b)[p] == a[p]);
    }
}

/// Every token stream is non-empty and ends with the `Eof` sentinel.
proof fn lemma_tokens_form(input: Seq<char>, p: int)
    requires
        0 <= p <= input.len(),
    ensures
        spec_tokens(input, p).len() >= 1,
        spec_tokens(input, p).last() == (TokenKind::Eof, Seq::<char>::empty()),
    decreases input.len() - p,
{
    lemma_skip_ws_from(input, p);
    let q = skip_ws_from(input, p);
    if q < input.len() && input[q] != '\0' {
        let s = spec_step(input, q);
        assert(q < s.2 <= input.len()) by {
            lemma_letter_run_end(input, q);
            lemma_digit_run_end(input, q);
            if spec_is_letter(input[q]) {
                assert(letter_run_end(input, q) == letter_run_end(input, q + 1));
                lemma_letter_run_end(input, q + 1);
            }
            if spec_is_digit(input[q]) {
                assert(digit_run_end(input, q) == digit_run_end(input, q + 1));
                lemma_digit_run_end(input, q + 1);
            }
        }
        lemma_tokens_form(input, s.2);
        assert(spec_tokens(input, p) == seq![(s.0, s.1)] + spec_tokens(input, s.2));
        assert(spec_tokens(input, p).last() == spec_tokens(input, s.2).last());
    }
}

/// The token stream from a position equals the token stream from the first
/// non-whitespace position at or after it.
proof fn lemma_tokens_skip_ws(input: Seq<char>, p: int)
    requires
        0 <= p <= input.len(),
    ensures
        spec_tokens(input, p) == spec_tokens(input, skip_ws_from(input, p)),
{
    lemma_skip_ws_from(input, p);
    let q = skip_ws_from(input, p);
    assert(skip_ws_from(input, q) == q);
}

/// The token stream of a concatenation, scanned from inside the right part,
/// is the token stream of the right part alone.
proof fn lemma_tokens_shift(a: Seq<char>, b: Seq<char>, r: int)
    requires
        0 <= r <= b.len(),
    ensures
        spec_tokens(a + b, a.len() + r) == spec_tokens(b, r),
    decreases b.len() - r,
{
    lemma_skip_ws_from(b, r);
    lemma_skip_ws_shift(a, b, r);
    let q = skip_ws_from(b, r);
    assert((a + b).len() == a.len() + b.len());
    if q >= b.len() || b[q] == '\0' {
        if q < b.len() {
            assert((a + b)[a.len() + q] == b[q]);
        }
        assert(spec_tokens(a + b, a.len() + r) == seq![(TokenKind::Eof, Seq::<char>::empty())]);
    } else {
        assert((a + b)[a.len() + q] == b[q]);
        let c = b[q];
        let s = spec_step(b, q);
        let sc = spec_step(a + b, a.len() + q);
        lemma_letter_run_end(b, q);
        lemma_digit_run_end(b, q);
        match spec_punct_kind(c) {
            Some(k) => {
                assert(sc == (k, seq![c], a.len() + q + 1));
                lemma_tokens_shift(a, b, q + 1);
            },
            None => {
                if spec_is_letter(c) {
                    assert(letter_run_end(b, q) == letter_run_end(b, q + 1));
                    lemma_letter_run_end(b, q + 1);
                    let e = letter_run_end(b, q);
                    lemma_letter_run_shift(a, b, q);
                    assert((a + b).subrange(a.len() + q, a.len() + e) =~= b.subrange(q, e));
                    assert(sc.0 == s.0 && sc.1 == s.1 && sc.2 == a.len() + e);
                    lemma_tokens_shift(a, b, e);
                } else if spec_is_digit(c) {
                    assert(digit_run_end(b, q) == digit_run_end(b, q + 1));
                    lemma_digit_run_end(b, q + 1);
                    let e = digit_run_end(b, q);
                    lemma_digit_run_shift(a, b, q);
                    assert((a + b).subrange(a.len() + q, a.len() + e) =~= b.subrange(q, e));
                    assert(sc.0 == s.0 && sc.1 == s.1 && sc.2 == a.len() + e);
                    lemma_tokens_shift(a, b, e);
                } else {
                    assert(sc == (TokenKind::Illegal, seq![c], a.len() + q + 1));
                    lemma_tokens_shift(a, b, q + 1);
                }
            },
        }
        assert(spec_tokens(a + b, a.len() + r) == seq![(sc.0, sc.1)] + spec_tokens(
            a + b,
            sc.2,
        ));
        assert(spec_tokens(b, r) == seq![(s.0, s.1)] + spec_tokens(b, s.2));
    }
}

/// The seam between two pieces of input is a token boundary: no letter run
/// and no digit run continues across it. Whitespace, punctuation, the end of
/// the input and a class change all satisfy this.
pub open spec fn seam_ok(a: Seq<char>, b: Seq<char>) -> bool {
    a.len() == 0 || b.len() == 0 || ({
        &&& !(spec_is_letter(a[a.len() - 1]) && spec_is_letter(b[0]))
        &&& !(spec_is_digit(a[a.len() - 1]) && spec_is_digit(b[0]))
    })
}

/// Scanning a concatenation whose seam is a token boundary yields the tokens
/// of the left part (without its `Eof` sentinel) followed by the tokens of
/// the right part, provided the left part holds no NUL sentinel character.
proof fn lemma_tokens_concat(a: Seq<char>, b: Seq<char>, p: int)
    requires
        0 <= p <= a.len(),
        forall|j: int| p <= j < a.len() ==> #[trigger] a[j] != '\0',
        seam_ok(a, b),
    ensures
        spec_tokens(a + b, p) == spec_tokens(a, p).drop_last() + spec_tokens(b, 0),
    decreases a.len() - p,
{
    lemma_skip_ws_from(a, p);
    lemma_skip_ws_prefix(a, b, p);
    let q = skip_ws_from(a, p);
    assert((a + b).len() == a.len() + b.len());
    if q == a.len() {
        assert(spec_tokens(a, p) == seq![(TokenKind::Eof, Seq::<char>::empty())]);
        assert(spec_tokens(a, p).drop_last() =~= Seq::<(TokenKind, Seq<char>)>::empty());
        lemma_skip_ws_from(b, 0);
        let qb = skip_ws_from(b, 0);
        assert(skip_ws_from(a + b, p) == a.len() + qb);
        lemma_tokens_skip_ws(a + b, p);
        lemma_tokens_shift(a, b, qb);
        lemma_tokens_skip_ws(b, 0);
        assert(spec_tokens(a, p).drop_last() + spec_tokens(b, 0) =~= spec_tokens(b, 0));
    } else {
        assert(a[q] != '\0');
        let c = a[q];
        assert((a + b)[q] == c);
        assert(skip_ws_from(a + b, p) == q);
        let s = spec_step(a, q);
        let sc = spec_step(a + b, q);
        lemma_letter_run_end(a, q);
        lemma_digit_run_end(a, q);
        match spec_punct_kind(c) {
            Some(_) => {},
            None => {
                if spec_is_letter(c) {
                    assert(letter_run_end(a, q) == letter_run_end(a, q + 1));
                    lemma_letter_run_end(a, q + 1);
                    let e = letter_run_end(a, q);
                    if e == a.len() {
                        assert(spec_is_letter(a[a.len() - 1]));
                        assert(b.len() == 0 || !spec_is_letter(b[0]));
                    }
                    lemma_letter_run_prefix(a, b, q);
                    assert((a + b).subrange(q, e) =~= a.subrange(q, e));
                } else if spec_is_digit(c) {
                    assert(digit_run_end(a, q) == digit_run_end(a, q + 1));
                    lemma_digit_run_end(a, q + 1);
                    let e = digit_run_end(a, q);
                    if e == a.len() {
                        assert(spec_is_digit(a[a.len() - 1]));
                        assert(b.len() == 0 || !spec_is_digit(b[0]));
                    }
                    lemma_digit_run_prefix(a, b, q);
                    assert((a + b).subrange(q, e) =~= a.subrange(q, e));
                }
            },
        }
        assert(sc.0 == s.0 && sc.1 == s.1 && sc.2 == s.2);
        assert(q < s.2 <= a.len());
        lemma_tokens_concat(a, b, s.2);
        lemma_tokens_form(a, s.2);
        assert(spec_tokens(a + b, p) == seq![(s.0, s.1)] + spec_tokens(a + b, s.2));
        assert(spec_tokens(a, p) == seq![(s.0, s.1)] + spec_tokens(a, s.2));
        assert(spec_tokens(a, p).drop_last() =~= seq![(s.0, s.1)] + spec_tokens(
            a,
            s.2,
        ).drop_last());
        assert(spec_tokens(a + b, p) =~= spec_tokens(a, p).drop_last() + spec_tokens(b, 0));
    }
}

/// Whitespace-invariance: inserting whitespace characters at a token boundary
/// never changes the emitted token stream. The insertion point must not lie
/// inside a token (`seam_ok`), and the text before it must hold no NUL
/// sentinel character, since the scanner never looks past a NUL.
pub proof fn lemma_whitespace_invariance(a: Seq<char>, w: Seq<char>, b: Seq<char>)
    requires
        forall|j: int| 0 <= j < w.len() ==> spec_is_whitespace(#[trigger] w[j]),
        forall|j: int| 0 <= j < a.len() ==> #[trigger] a[j] != '\0',
        seam_ok(a, b),
    ensures
        spec_tokens(a + w + b, 0) == spec_tokens(a + b, 0),
{
    assert(seam_ok(a, w + b)) by {
        if a.len() > 0 && (w + b).len() > 0 {
            if w.len() > 0 {
                assert((w + b)[0] == w[0]);
                assert(spec_is_whitespace(w[0]));
            } else {
                assert(w + b =~= b);
            }
        }
    }
    lemma_tokens_concat(a, w + b, 0);
    lemma_tokens_concat(a, b, 0);
    assert(forall|j: int| 0 <= j < w.len() ==> #[trigger] w[j] != '\0');
    assert(seam_ok(w, b)) by {
        if w.len() > 0 && b.len() > 0 {
            assert(spec_is_whitespace(w[w.len() - 1]));
        }
    }
    lemma_tokens_concat(w, b, 0);
    lemma_skip_ws_from(w, 0);
    assert(skip_ws_from(w, 0) == w.len());
    assert(spec_tokens(w, 0) == seq![(TokenKind::Eof, Seq::<char>::empty())]);
    assert(spec_tokens(w, 0).drop_last() =~= Seq::<(TokenKind, Seq<char>)>::empty());
    assert(spec_tokens(w + b, 0) =~= spec_tokens(b, 0));
    assert(a + w + b =~= a + (w + b));
    assert(spec_tokens(a + w + b, 0) =~= spec_tokens(a + b, 0));
}

} // verus!
