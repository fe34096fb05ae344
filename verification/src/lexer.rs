use vstd::prelude::*;

use crate::token::{span, Span, Symbol, Token, TokenKindView, TokenView};

verus! {

// ---------------------------------------------------------------------------
// Character classes.  Letters, digits and whitespace are the ASCII ranges
// only: a non-ASCII character never starts or continues an identifier or a
// number and is not skipped as whitespace; it falls through to the symbol
// reader, which maps unknown characters to `Hash`.  (Unicode letter classes
// have no specification to verify against, so the language's classes are
// deliberately ASCII.)
// ---------------------------------------------------------------------------

pub open spec fn is_digit(c: char) -> bool {
    ('0' as u32) <= (c as u32) && (c as u32) <= ('9' as u32)
}

pub open spec fn is_alpha(c: char) -> bool {
    (('a' as u32) <= (c as u32) && (c as u32) <= ('z' as u32)) || (('A' as u32) <= (c as u32) && (c
        as u32) <= ('Z' as u32))
}

pub open spec fn is_ident_start(c: char) -> bool {
    is_alpha(c) || c == '_'
}

pub open spec fn is_ident_char(c: char) -> bool {
    is_alpha(c) || is_digit(c) || c == '_'
}

/// Whitespace skipped between tokens.  A newline is a statement separator,
/// not whitespace: it always becomes an explicit token, also after a
/// whitespace run.
pub open spec fn is_whitespace(c: char) -> bool {
    c == ' ' || c == '\t' || c == '\r' || c == '\u{b}' || c == '\u{c}'
}

pub open spec fn is_exp_marker(c: char) -> bool {
    c == 'e' || c == 'E' || c == 'p' || c == 'P'
}

pub open spec fn is_sign(c: char) -> bool {
    c == '+' || c == '-'
}

/// A character continues a numeric scan when it is alphanumeric, a point, or
/// a sign immediately following an exponent marker (the lookback rule that
/// lets `1e-5` scan as one literal).
pub open spec fn is_num_char(prev: char, c: char) -> bool {
    is_alpha(c) || is_digit(c) || c == '.' || (is_exp_marker(prev) && is_sign(c))
}

/// Characters trimmed from the right end of a float literal (type suffixes
/// and a dangling exponent sign).
pub open spec fn is_suffix_char(c: char) -> bool {
    is_alpha(c) || is_sign(c)
}

fn char_is_digit(c: char) -> (b: bool)
    ensures
        b == is_digit(c),
{
    let u = c as u32;
    ('0' as u32) <= u && u <= ('9' as u32)
}

fn char_is_alpha(c: char) -> (b: bool)
    ensures
        b == is_alpha(c),
{
    let u = c as u32;
    (('a' as u32) <= u && u <= ('z' as u32)) || (('A' as u32) <= u && u <= ('Z' as u32))
}

fn char_is_ident_start(c: char) -> (b: bool)
    ensures
        b == is_ident_start(c),
{
    char_is_alpha(c) || c == '_'
}

fn char_is_ident_char(c: char) -> (b: bool)
    ensures
        b == is_ident_char(c),
{
    char_is_alpha(c) || char_is_digit(c) || c == '_'
}

fn char_is_whitespace(c: char) -> (b: bool)
    ensures
        b == is_whitespace(c),
{
    c == ' ' || c == '\t' || c == '\r' || c == '\u{b}' || c == '\u{c}'
}

fn char_is_exp_marker(c: char) -> (b: bool)
    ensures
        b == is_exp_marker(c),
{
    c == 'e' || c == 'E' || c == 'p' || c == 'P'
}

fn char_is_sign(c: char) -> (b: bool)
    ensures
        b == is_sign(c),
{
    c == '+' || c == '-'
}

fn char_is_num_char(prev: char, c: char) -> (b: bool)
    ensures
        b == is_num_char(prev, c),
{
    char_is_alpha(c) || char_is_digit(c) || c == '.' || (char_is_exp_marker(prev)
        && char_is_sign(c))
}

fn char_is_suffix_char(c: char) -> (b: bool)
    ensures
        b == is_suffix_char(c),
{
    char_is_alpha(c) || char_is_sign(c)
}

// ---------------------------------------------------------------------------
// Errors.
// ---------------------------------------------------------------------------

/// A failure of the tokenizer, with the source range that triggered it.
#[derive(Clone, Copy, Debug, PartialEq, Eq, Structural)]
pub enum LexError {
    /// A string literal's closing quote was never found.
    UnterminatedString(Span),
    /// A scan ran past the end of the input.  The parser treats this as "no
    /// more tokens" at the top level and as a hard error mid-expression.
    UnexpectedEndOfInput(Span),
}

/// The span attached to an end-of-input failure: the point where input ran out.
pub open spec fn eoi_span(s: Seq<char>) -> Span {
    span(s.len() as int, s.len() as int)
}

/// Outcome of reading one token from position `p`: either a token and the
/// position after it, or a failure and the position where scanning stopped.
pub enum LexStep {
    Tok(TokenView, int),
    Fail(LexError, int),
}

// ---------------------------------------------------------------------------
// Scan-end positions.
// ---------------------------------------------------------------------------

/// First position at or after `p` whose character is not an identifier character.
pub open spec fn ident_end(s: Seq<char>, p: int) -> int
    decreases s.len() - p,
{
    if 0 <= p < s.len() && is_ident_char(s[p]) {
        ident_end(s, p + 1)
    } else {
        p
    }
}

/// First position at or after `p` whose character is not whitespace.
pub open spec fn ws_end(s: Seq<char>, p: int) -> int
    decreases s.len() - p,
{
    if 0 <= p < s.len() && is_whitespace(s[p]) {
        ws_end(s, p + 1)
    } else {
        p
    }
}

/// First position at or after `p` that ends a numeric scan begun with
/// preceding character `prev`.
pub open spec fn num_end(s: Seq<char>, prev: char, p: int) -> int
    decreases s.len() - p,
{
    if 0 <= p < s.len() && is_num_char(prev, s[p]) {
        num_end(s, s[p], p + 1)
    } else {
        p
    }
}

/// First position at or after `p` holding a double quote, or the input length.
pub open spec fn str_end(s: Seq<char>, p: int) -> int
    decreases s.len() - p,
{
    if 0 <= p < s.len() && s[p] != '"' {
        str_end(s, p + 1)
    } else {
        p
    }
}

pub proof fn lemma_ident_end_bounds(s: Seq<char>, p: int)
    requires
        0 <= p <= s.len(),
    ensures
        p <= ident_end(s, p) <= s.len(),
    decreases s.len() - p,
{
    if p < s.len() && is_ident_char(s[p]) {
        lemma_ident_end_bounds(s, p + 1);
    }
}

pub proof fn lemma_ws_end_bounds(s: Seq<char>, p: int)
    requires
        0 <= p <= s.len(),
    ensures
        p <= ws_end(s, p) <= s.len(),
    decreases s.len() - p,
{
    if p < s.len() && is_whitespace(s[p]) {
        lemma_ws_end_bounds(s, p + 1);
    }
}

pub proof fn lemma_num_end_bounds(s: Seq<char>, prev: char, p: int)
    requires
        0 <= p <= s.len(),
    ensures
        p <= num_end(s, prev, p) <= s.len(),
    decreases s.len() - p,
{
    if p < s.len() && is_num_char(prev, s[p]) {
        lemma_num_end_bounds(s, s[p], p + 1);
    }
}

pub proof fn lemma_str_end_bounds(s: Seq<char>, p: int)
    requires
        0 <= p <= s.len(),
    ensures
        p <= str_end(s, p) <= s.len(),
    decreases s.len() - p,
{
    if p < s.len() && s[p] != '"' {
        lemma_str_end_bounds(s, p + 1);
    }
}

// ---------------------------------------------------------------------------
// Integer literals: base dispatch on the prefix and a digit fold that
// silently skips characters outside the base's digit set, wrapping on
// overflow of the 64-bit accumulator.
// ---------------------------------------------------------------------------

/// The value of `c` as a digit in `base`, if it is one.  Hex letters count
/// only when the base admits them.
pub open spec fn digit_val(c: char, base: i64) -> Option<i64> {
    let u = c as u32;
    let v: int = if ('0' as u32) <= u && u <= ('9' as u32) {
        u - ('0' as u32)
    } else if ('a' as u32) <= u && u <= ('f' as u32) {
        u - ('a' as u32) + 10
    } else if ('A' as u32) <= u && u <= ('F' as u32) {
        u - ('A' as u32) + 10
    } else {
        base as int
    };
    if 0 <= v < base {
        Some(v as i64)
    } else {
        None
    }
}

/// Folds the digits of `t` in `base` into a 64-bit integer, left to right,
/// skipping characters that are not digits of the base and wrapping on
/// overflow.
pub open spec fn fold_digits(t: Seq<char>, base: i64) -> i64
    decreases t.len(),
{
    if t.len() == 0 {
        0
    } else {
        let pre = fold_digits(t.drop_last(), base);
        match digit_val(t.last(), base) {
            Some(d) => pre.wrapping_mul(base).wrapping_add(d),
            None => pre,
        }
    }
}

/// The value of an integer literal: `0x`/`0b` prefixes select hex/binary, a
/// leading `0` selects octal, anything else is decimal.
pub open spec fn int_token_value(t: Seq<char>) -> i64 {
    if t.len() > 2 && t[1] == 'x' {
        fold_digits(t.subrange(2, t.len() as int), 16)
    } else if t.len() > 2 && t[1] == 'b' {
        fold_digits(t.subrange(2, t.len() as int), 2)
    } else if t.len() > 0 && t[0] == '0' {
        fold_digits(t.subrange(1, t.len() as int), 8)
    } else {
        fold_digits(t, 10)
    }
}

/// A scanned numeric text is a float literal when it contains a point or a
/// signed exponent (a sign immediately after an exponent marker); otherwise
/// it is an integer literal.
pub open spec fn has_float_marker(t: Seq<char>) -> bool {
    (exists|i: int| 0 <= i < t.len() && t[i] == '.') || (exists|i: int|
        1 <= i < t.len() && is_sign(t[i]) && is_exp_marker(t[i - 1]))
}

/// Length of `t` once trailing suffix characters are trimmed from the right.
pub open spec fn trim_len(t: Seq<char>) -> int
    decreases t.len(),
{
    if t.len() > 0 && is_suffix_char(t.last()) {
        trim_len(t.drop_last())
    } else {
        t.len() as int
    }
}


/// The mathematical value of a digit string in a base, most significant
/// digit first.
pub open spec fn radix_value(t: Seq<char>, base: i64) -> int
    decreases t.len(),
{
    if t.len() == 0 {
        0
    } else {
        radix_value(t.drop_last(), base) * base + match digit_val(t.last(), base) {
            Some(d) => d as int,
            None => 0,
        }
    }
}

pub proof fn lemma_radix_value_nonneg(t: Seq<char>, base: i64)
    requires
        base >= 2,
    ensures
        radix_value(t, base) >= 0,
    decreases t.len(),
{
    if t.len() > 0 {
        lemma_radix_value_nonneg(t.drop_last(), base);
        let pre = radix_value(t.drop_last(), base);
        assert(pre * base >= 0) by (nonlinear_arith)
            requires
                pre >= 0,
                base >= 2,
        ;
    }
}

/// For a literal made of digits of the base whose value fits in the 64-bit
/// range, the digit fold yields exactly the value of the standard parse in
/// that radix.
pub proof fn lemma_fold_digits_exact(t: Seq<char>, base: i64)
    requires
        2 <= base <= 16,
        forall|i: int| 0 <= i < t.len() ==> digit_val(#[trigger] t[i], base) is Some,
        radix_value(t, base) <= i64::MAX,
    ensures
        fold_digits(t, base) == radix_value(t, base),
    decreases t.len(),
{
    if t.len() > 0 {
        let pre = t.drop_last();
        let pv = radix_value(pre, base);
        let d = digit_val(t.last(), base)->0 as int;
        assert(t.last() == t[t.len() - 1]);
        assert(digit_val(t.last(), base) is Some);
        assert(0 <= d < base);
        lemma_radix_value_nonneg(pre, base);
        assert(forall|i: int| 0 <= i < pre.len() ==> digit_val(#[trigger] pre[i], base) is Some)
            by {
            assert(forall|i: int| 0 <= i < pre.len() ==> pre[i] == t[i]);
        }
        assert(pv * base + d == radix_value(t, base));
        assert(pv <= pv * base) by (nonlinear_arith)
            requires
                pv >= 0,
                base >= 2,
        ;
        lemma_fold_digits_exact(pre, base);
        let p2 = pv * base;
        assert(0 <= p2 && p2 <= i64::MAX);
        assert(fold_digits(pre, base).wrapping_mul(base) == p2) by {
            assert(p2 % 0x1_0000_0000_0000_0000 == p2) by (nonlinear_arith)
                requires
                    0 <= p2 < 0x8000_0000_0000_0000,
            ;
        }
        assert(fold_digits(pre, base).wrapping_mul(base).wrapping_add(
            digit_val(t.last(), base)->0,
        ) == p2 + d);
    }
}

// ---------------------------------------------------------------------------
// The token-level model: what reading one token from position `p` yields.
// ---------------------------------------------------------------------------

pub open spec fn spec_read_ident(s: Seq<char>, p: int) -> LexStep {
    let e = ident_end(s, p);
    if e == s.len() {
        LexStep::Fail(LexError::UnexpectedEndOfInput(eoi_span(s)), e)
    } else {
        LexStep::Tok(
            TokenView { kind: TokenKindView::Identifier(s.subrange(p, e)), range: span(p, e) },
            e,
        )
    }
}

pub open spec fn spec_read_number(s: Seq<char>, p: int) -> LexStep {
    if p >= s.len() {
        LexStep::Fail(LexError::UnexpectedEndOfInput(eoi_span(s)), p)
    } else {
        let e = num_end(s, s[p], p);
        if e == s.len() {
            LexStep::Fail(LexError::UnexpectedEndOfInput(eoi_span(s)), e)
        } else {
            let t = s.subrange(p, e);
            if has_float_marker(t) {
                LexStep::Tok(
                    TokenView {
                        kind: TokenKindView::Float(t.subrange(0, trim_len(t))),
                        range: span(p, e),
                    },
                    e,
                )
            } else {
                LexStep::Tok(
                    TokenView { kind: TokenKindView::Int(int_token_value(t)), range: span(p, e) },
                    e,
                )
            }
        }
    }
}

pub open spec fn spec_read_string(s: Seq<char>, p: int) -> LexStep {
    let e = str_end(s, p + 1);
    if e >= s.len() {
        LexStep::Fail(LexError::UnterminatedString(span(p, s.len() as int)), s.len() as int)
    } else {
        LexStep::Tok(
            TokenView { kind: TokenKindView::Str(s.subrange(p + 1, e)), range: span(p, e + 1) },
            e + 1,
        )
    }
}

/// The symbol a single character denotes when no lookahead applies; unknown
/// punctuation maps to `Hash`.
pub open spec fn single_symbol(c: char) -> Symbol {
    if c == '(' {
        Symbol::OpeningParen
    } else if c == ')' {
        Symbol::ClosingParen
    } else if c == '[' {
        Symbol::OpeningBoxBracket
    } else if c == ']' {
        Symbol::ClosingBoxBracket
    } else if c == '{' {
        Symbol::OpeningBrace
    } else if c == '}' {
        Symbol::ClosingBrace
    } else if c == '.' {
        Symbol::Point
    } else if c == ',' {
        Symbol::Comma
    } else if c == ';' {
        Symbol::Semicolon
    } else if c == ':' {
        Symbol::Colon
    } else if c == '~' {
        Symbol::BitwiseNot
    } else if c == '?' {
        Symbol::Question
    } else {
        Symbol::Hash
    }
}

pub open spec fn sym_tok(sym: Symbol, start: int, end: int) -> LexStep {
    LexStep::Tok(TokenView { kind: TokenKindView::Symbol(sym), range: span(start, end) }, end)
}

/// Longest-match symbol reading with bounded lookahead.  A lookahead that
/// runs past the end of input fails, exactly as the scan does.
pub open spec fn spec_read_symbol(s: Seq<char>, p: int) -> LexStep {
    if p >= s.len() {
        LexStep::Fail(LexError::UnexpectedEndOfInput(eoi_span(s)), p)
    } else {
        let c = s[p];
        if c == '+' || c == '-' {
            if p + 1 >= s.len() {
                LexStep::Fail(LexError::UnexpectedEndOfInput(eoi_span(s)), p + 1)
            } else {
                let c2 = s[p + 1];
                if c2 == '=' {
                    sym_tok(
                        if c == '+' {
                            Symbol::AssignAdd
                        } else {
                            Symbol::AssignSub
                        },
                        p,
                        p + 2,
                    )
                } else if c2 == '>' {
                    sym_tok(
                        if c == '-' {
                            Symbol::Arrow
                        } else {
                            Symbol::Hash
                        },
                        p,
                        p + 2,
                    )
                } else if c2 == '+' {
                    sym_tok(
                        if c == '+' {
                            Symbol::Inc
                        } else {
                            Symbol::Hash
                        },
                        p,
                        p + 2,
                    )
                } else if c2 == '-' {
                    sym_tok(
                        if c == '-' {
                            Symbol::Dec
                        } else {
                            Symbol::Hash
                        },
                        p,
                        p + 2,
                    )
                } else {
                    sym_tok(
                        if c == '+' {
                            Symbol::Add
                        } else {
                            Symbol::Sub
                        },
                        p,
                        p + 1,
                    )
                }
            }
        } else if c == '*' || c == '/' || c == '%' || c == '=' || c == '^' || c == '!' {
            if p + 1 >= s.len() {
                LexStep::Fail(LexError::UnexpectedEndOfInput(eoi_span(s)), p + 1)
            } else if s[p + 1] == '=' {
                sym_tok(
                    if c == '*' {
                        Symbol::AssignMul
                    } else if c == '/' {
                        Symbol::AssignDiv
                    } else if c == '%' {
                        Symbol::AssignMod
                    } else if c == '=' {
                        Symbol::Eq
                    } else if c == '^' {
                        Symbol::AssignXor
                    } else {
                        Symbol::Ne
                    },
                    p,
                    p + 2,
                )
            } else {
                sym_tok(
                    if c == '*' {
                        Symbol::Asterisk
                    } else if c == '/' {
                        Symbol::Div
                    } else if c == '%' {
                        Symbol::Mod
                    } else if c == '=' {
                        Symbol::Assign
                    } else if c == '^' {
                        Symbol::Xor
                    } else {
                        Symbol::Not
                    },
                    p,
                    p + 1,
                )
            }
        } else if c == '<' || c == '>' || c == '&' || c == '|' {
            if p + 1 >= s.len() {
                LexStep::Fail(LexError::UnexpectedEndOfInput(eoi_span(s)), p + 1)
            } else if s[p + 1] == c {
                if p + 2 >= s.len() {
                    LexStep::Fail(LexError::UnexpectedEndOfInput(eoi_span(s)), p + 2)
                } else if s[p + 2] == '=' {
                    sym_tok(
                        if c == '<' {
                            Symbol::AssignShl
                        } else if c == '>' {
                            Symbol::AssignShr
                        } else if c == '&' {
                            Symbol::AssignLAnd
                        } else {
                            Symbol::AssignLOr
                        },
                        p,
                        p + 3,
                    )
                } else {
                    sym_tok(
                        if c == '<' {
                            Symbol::Shl
                        } else if c == '>' {
                            Symbol::Shr
                        } else if c == '&' {
                            Symbol::LAnd
                        } else {
                            Symbol::LOr
                        },
                        p,
                        p + 2,
                    )
                }
            } else if s[p + 1] == '=' {
                sym_tok(
                    if c == '<' {
                        Symbol::Le
                    } else if c == '>' {
                        Symbol::Ge
                    } else if c == '&' {
                        Symbol::AssignAnd
                    } else {
                        Symbol::AssignOr
                    },
                    p,
                    p + 2,
                )
            } else {
                sym_tok(
                    if c == '<' {
                        Symbol::Lt
                    } else if c == '>' {
                        Symbol::Gt
                    } else if c == '&' {
                        Symbol::And
                    } else {
                        Symbol::Or
                    },
                    p,
                    p + 1,
                )
            }
        } else {
            sym_tok(single_symbol(c), p, p + 1)
        }
    }
}

/// Reading one token from position `p`: classify on the current character,
/// skipping a whitespace run (newlines included) and retrying past it.
pub open spec fn spec_token(s: Seq<char>, p: int) -> LexStep
    decreases s.len() - p via spec_token_decreases
{
    if !(0 <= p < s.len()) {
        LexStep::Fail(LexError::UnexpectedEndOfInput(eoi_span(s)), p)
    } else {
        let c = s[p];
        if is_ident_start(c) {
            spec_read_ident(s, p)
        } else if is_digit(c) {
            spec_read_number(s, p)
        } else if c == '"' {
            spec_read_string(s, p)
        } else if c == '\n' {
            LexStep::Tok(TokenView { kind: TokenKindView::Newline, range: span(p, p + 1) }, p + 1)
        } else if is_whitespace(c) {
            let q = ws_end(s, p);
            if q >= s.len() {
                LexStep::Fail(LexError::UnexpectedEndOfInput(eoi_span(s)), q)
            } else {
                spec_token(s, q)
            }
        } else {
            spec_read_symbol(s, p)
        }
    }
}

#[via_fn]
proof fn spec_token_decreases(s: Seq<char>, p: int) {
    if 0 <= p < s.len() && is_whitespace(s[p]) {
        lemma_ws_end_bounds(s, p + 1);
        assert(ws_end(s, p) == ws_end(s, p + 1));
    }
}

/// On success the position strictly advances and stays within the input; on
/// failure it does not move backwards.
pub proof fn lemma_spec_token_advances(s: Seq<char>, p: int)
    requires
        0 <= p <= s.len(),
    ensures
        match spec_token(s, p) {
            LexStep::Tok(_, q) => p < q <= s.len(),
            LexStep::Fail(_, q) => p <= q <= s.len(),
        },
    decreases s.len() - p,
{
    if p < s.len() {
        let c = s[p];
        if is_ident_start(c) {
            lemma_ident_end_bounds(s, p + 1);
            assert(ident_end(s, p) == ident_end(s, p + 1));
        } else if is_digit(c) {
            lemma_num_end_bounds(s, s[p], p + 1);
            assert(num_end(s, s[p], p) == num_end(s, s[p], p + 1));
        } else if c == '"' {
            lemma_str_end_bounds(s, p + 1);
        } else if c == '\n' {
        } else if is_whitespace(c) {
            lemma_ws_end_bounds(s, p + 1);
            let q = ws_end(s, p);
            if q < s.len() {
                lemma_spec_token_advances(s, q);
            }
        } else {
        }
    }
}


/// An end-of-input failure always stops at the end of the input: reading
/// from there fails the same way again.
pub proof fn lemma_spec_token_eoi(s: Seq<char>, p: int)
    requires
        0 <= p <= s.len(),
    ensures
        spec_token(s, p) matches LexStep::Fail(e, q) ==> (e matches LexError::UnexpectedEndOfInput(
            _,
        ) ==> q == s.len()),
    decreases s.len() - p,
{
    if p < s.len() {
        let c = s[p];
        if is_ident_start(c) {
            lemma_ident_end_bounds(s, p + 1);
            assert(ident_end(s, p) == ident_end(s, p + 1));
        } else if is_digit(c) {
            lemma_num_end_bounds(s, s[p], p + 1);
            assert(num_end(s, s[p], p) == num_end(s, s[p], p + 1));
        } else if c == '"' {
            lemma_str_end_bounds(s, p + 1);
        } else if c == '\n' {
        } else if is_whitespace(c) {
            lemma_ws_end_bounds(s, p + 1);
            let q = ws_end(s, p);
            if q < s.len() {
                lemma_spec_token_eoi(s, q);
            }
        } else {
        }
    }
}

/// A token's range covers exactly text between the scan's start and the
/// position where reading stopped.
pub proof fn lemma_spec_token_range(s: Seq<char>, p: int)
    requires
        0 <= p <= s.len(),
        s.len() <= usize::MAX,
    ensures
        spec_token(s, p) matches LexStep::Tok(t, q) ==> p <= t.range.start as int
            && t.range.start <= t.range.end && t.range.end as int <= q,
    decreases s.len() - p,
{
    if p < s.len() {
        let c = s[p];
        if is_ident_start(c) {
            lemma_ident_end_bounds(s, p + 1);
            assert(ident_end(s, p) == ident_end(s, p + 1));
        } else if is_digit(c) {
            lemma_num_end_bounds(s, s[p], p + 1);
            assert(num_end(s, s[p], p) == num_end(s, s[p], p + 1));
        } else if c == '"' {
            lemma_str_end_bounds(s, p + 1);
        } else if c == '\n' {
        } else if is_whitespace(c) {
            lemma_ws_end_bounds(s, p + 1);
            let q = ws_end(s, p);
            if q < s.len() {
                lemma_spec_token_range(s, q);
            }
        } else {
        }
    }
}

/// Token ranges are non-decreasing across a single scan: a token read after
/// another one starts no earlier than the first one ended.
pub proof fn lemma_token_ranges_nondecreasing(s: Seq<char>, p: int)
    requires
        0 <= p <= s.len(),
        s.len() <= usize::MAX,
    ensures
        spec_token(s, p) matches LexStep::Tok(t1, q) ==> spec_token(s, q)
            matches LexStep::Tok(t2, _) ==> t1.range.end <= t2.range.start,
{
    lemma_spec_token_range(s, p);
    match spec_token(s, p) {
        LexStep::Tok(_, q) => {
            lemma_spec_token_advances(s, p);
            lemma_spec_token_range(s, q);
        },
        LexStep::Fail(_, _) => {},
    }
}

// ---------------------------------------------------------------------------
// The executable tokenizer.
// ---------------------------------------------------------------------------

/// Mathematical model of the tokenizer: the source characters and the
/// current position.
pub struct LexerView {
    pub chars: Seq<char>,
    pub pos: int,
}

/// On-demand tokenizer over a source string.
pub struct Lexer {
    source: String,
    length: usize,
    pos: usize,
}

impl View for Lexer {
    type V = LexerView;

    closed spec fn view(&self) -> LexerView {
        LexerView { chars: self.source@, pos: self.pos as int }
    }
}

impl Lexer {
    pub closed spec fn wf(&self) -> bool {
        self.length == self.source@.len() && self.pos <= self.length
    }

    pub proof fn lemma_wf(&self)
        requires
            self.wf(),
        ensures
            0 <= self@.pos <= self@.chars.len(),
            self@.chars.len() <= usize::MAX,
    {
    }

    /// Makes a tokenizer over an in-memory source string, positioned at its
    /// start.
    pub fn new_from_string(src: String) -> (l: Lexer)
        ensures
            l.wf(),
            l@.chars == src@,
            l@.pos == 0,
    {
        let length = src.as_str().unicode_len();
        Lexer { source: src, length, pos: 0 }
    }

    /// The character at the current position, if any.
    fn next_char(&self) -> (r: Option<char>)
        requires
            self.wf(),
        ensures
            r == (if self@.pos < self@.chars.len() {
                Some(self@.chars[self@.pos])
            } else {
                None::<char>
            }),
    {
        if self.pos < self.length {
            Some(self.source.as_str().get_char(self.pos))
        } else {
            None
        }
    }

    /// Consumes and returns the current character.
    fn skip_char(&mut self) -> (c: char)
        requires
            old(self).wf(),
            old(self)@.pos < old(self)@.chars.len(),
        ensures
            final(self).wf(),
            final(self)@.chars == old(self)@.chars,
            final(self)@.pos == old(self)@.pos + 1,
            c == old(self)@.chars[old(self)@.pos],
    {
        let c = self.source.as_str().get_char(self.pos);
        self.pos = self.pos + 1;
        c
    }

    /// Consumes the current character exactly when it equals `c`; fails at
    /// the end of the input.
    fn skip_char_is(&mut self, c: char) -> (r: Result<bool, LexError>)
        requires
            old(self).wf(),
        ensures
            final(self).wf(),
            final(self)@.chars == old(self)@.chars,
            old(self)@.pos < old(self)@.chars.len() ==> {
                let eq = old(self)@.chars[old(self)@.pos] == c;
                r == Ok::<bool, LexError>(eq) && final(self)@.pos == old(self)@.pos + (if eq {
                    1int
                } else {
                    0int
                })
            },
            old(self)@.pos >= old(self)@.chars.len() ==> r == Err::<bool, LexError>(
                LexError::UnexpectedEndOfInput(eoi_span(old(self)@.chars)),
            ) && final(self)@.pos == old(self)@.pos,
    {
        match self.next_char() {
            None => Err(LexError::UnexpectedEndOfInput(Span::new(self.length, self.length))),
            Some(cur) => {
                if cur == c {
                    self.pos = self.pos + 1;
                    Ok(true)
                } else {
                    Ok(false)
                }
            },
        }
    }

    /// Reads the next token, skipping whitespace before it.
    pub fn read_token(&mut self) -> (r: Result<Token, LexError>)
        requires
            old(self).wf(),
        ensures
            final(self).wf(),
            final(self)@.chars == old(self)@.chars,
            match spec_token(old(self)@.chars, old(self)@.pos) {
                LexStep::Tok(tv, q) => r matches Ok(t) && t@ == tv && final(self)@.pos == q,
                LexStep::Fail(e, q) => r == Err::<Token, LexError>(e) && final(self)@.pos == q,
            },
    {
        loop
            invariant
                self.wf(),
                self@.chars == old(self)@.chars,
                old(self)@.pos <= self@.pos <= self@.chars.len(),
                spec_token(old(self)@.chars, old(self)@.pos) == spec_token(
                    self@.chars,
                    self@.pos,
                ),
            decreases self@.chars.len() - self@.pos,
        {
            match self.next_char() {
                None => {
                    return Err(
                        LexError::UnexpectedEndOfInput(Span::new(self.length, self.length)),
                    );
                },
                Some(c) => {
                    if char_is_ident_start(c) {
                        return self.read_identifier();
                    } else if char_is_digit(c) {
                        return self.read_number();
                    } else if c == '"' {
                        return self.read_string_literal();
                    } else if c == '\n' {
                        return self.read_newline();
                    } else if char_is_whitespace(c) {
                        let ghost p = self@.pos;
                        let ghost s = self@.chars;
                        // consume the whitespace run; a newline ends it
                        while self.pos < self.length && char_is_whitespace(
                            self.source.as_str().get_char(self.pos),
                        )
                            invariant
                                self.wf(),
                                self@.chars == s,
                                p <= self@.pos <= s.len(),
                                ws_end(s, p) == ws_end(s, self@.pos),
                            decreases s.len() - self@.pos,
                        {
                            self.pos = self.pos + 1;
                        }
                        proof {
                            assert(ws_end(s, self@.pos) == self@.pos);
                            assert(spec_token(s, p) == spec_token(s, self@.pos));
                        }
                    } else {
                        return self.read_symbol();
                    }
                },
            }
        }
    }

    /// Reads a greedy run of identifier characters from the current position.
    pub fn read_identifier(&mut self) -> (r: Result<Token, LexError>)
        requires
            old(self).wf(),
        ensures
            final(self).wf(),
            final(self)@.chars == old(self)@.chars,
            match spec_read_ident(old(self)@.chars, old(self)@.pos) {
                LexStep::Tok(tv, q) => r matches Ok(t) && t@ == tv && final(self)@.pos == q,
                LexStep::Fail(e, q) => r == Err::<Token, LexError>(e) && final(self)@.pos == q,
            },
    {
        let ghost s = self@.chars;
        let start = self.pos;
        loop
            invariant
                self.wf(),
                self@.chars == s,
                start <= self@.pos <= s.len(),
                ident_end(s, start as int) == ident_end(s, self@.pos),
            ensures
                self.wf(),
                self@.chars == s,
                start <= self@.pos <= s.len(),
                ident_end(s, start as int) == self@.pos,
            decreases self@.chars.len() - self@.pos,
        {
            if self.pos < self.length {
                let c = self.source.as_str().get_char(self.pos);
                if char_is_ident_char(c) {
                    self.pos = self.pos + 1;
                } else {
                    proof {
                        assert(ident_end(s, self@.pos) == self@.pos);
                    }
                    break ;
                }
            } else {
                proof {
                    assert(ident_end(s, self@.pos) == self@.pos);
                }
                break ;
            }
        }
        if self.pos == self.length {
            Err(LexError::UnexpectedEndOfInput(Span::new(self.length, self.length)))
        } else {
            let name = self.source.as_str().substring_char(start, self.pos).to_owned();
            Ok(Token::new_identifier(name, Span::new(start, self.pos)))
        }
    }

    /// Reads a newline statement separator.
    pub fn read_newline(&mut self) -> (r: Result<Token, LexError>)
        requires
            old(self).wf(),
            old(self)@.pos < old(self)@.chars.len(),
            old(self)@.chars[old(self)@.pos] == '\n',
        ensures
            final(self).wf(),
            final(self)@.chars == old(self)@.chars,
            final(self)@.pos == old(self)@.pos + 1,
            r matches Ok(t) && t@ == (TokenView {
                kind: TokenKindView::Newline,
                range: span(old(self)@.pos, old(self)@.pos + 1),
            }),
    {
        let start = self.pos;
        let _ = self.skip_char();
        Ok(Token::new_newline(Span::new(start, self.pos)))
    }

    /// Reads a string literal: an opening quote, a raw run up to the closing
    /// quote, and the closing quote.  No escape sequences are interpreted.
    pub fn read_string_literal(&mut self) -> (r: Result<Token, LexError>)
        requires
            old(self).wf(),
            old(self)@.pos < old(self)@.chars.len(),
            old(self)@.chars[old(self)@.pos] == '"',
        ensures
            final(self).wf(),
            final(self)@.chars == old(self)@.chars,
            match spec_read_string(old(self)@.chars, old(self)@.pos) {
                LexStep::Tok(tv, q) => r matches Ok(t) && t@ == tv && final(self)@.pos == q,
                LexStep::Fail(e, q) => r == Err::<Token, LexError>(e) && final(self)@.pos == q,
            },
    {
        let ghost s = self@.chars;
        let start = self.pos;
        let _ = self.skip_char();
        loop
            invariant
                self.wf(),
                self@.chars == s,
                start + 1 <= self@.pos <= s.len(),
                str_end(s, start + 1) == str_end(s, self@.pos),
            ensures
                self.wf(),
                self@.chars == s,
                start + 1 <= self@.pos <= s.len(),
                str_end(s, start + 1) == self@.pos,
            decreases self@.chars.len() - self@.pos,
        {
            if self.pos < self.length {
                let c = self.source.as_str().get_char(self.pos);
                if c != '"' {
                    self.pos = self.pos + 1;
                } else {
                    proof {
                        assert(str_end(s, self@.pos) == self@.pos);
                    }
                    break ;
                }
            } else {
                proof {
                    assert(str_end(s, self@.pos) == self@.pos);
                }
                break ;
            }
        }
        if self.pos == self.length {
            self.pos = self.length;
            Err(LexError::UnterminatedString(Span::new(start, self.length)))
        } else {
            let content = self.source.as_str().substring_char(start + 1, self.pos).to_owned();
            let _ = self.skip_char();
            Ok(Token::new_string(content, Span::new(start, self.pos)))
        }
    }
}

fn single_symbol_exec(c: char) -> (sym: Symbol)
    ensures
        sym == single_symbol(c),
{
    if c == '(' {
        Symbol::OpeningParen
    } else if c == ')' {
        Symbol::ClosingParen
    } else if c == '[' {
        Symbol::OpeningBoxBracket
    } else if c == ']' {
        Symbol::ClosingBoxBracket
    } else if c == '{' {
        Symbol::OpeningBrace
    } else if c == '}' {
        Symbol::ClosingBrace
    } else if c == '.' {
        Symbol::Point
    } else if c == ',' {
        Symbol::Comma
    } else if c == ';' {
        Symbol::Semicolon
    } else if c == ':' {
        Symbol::Colon
    } else if c == '~' {
        Symbol::BitwiseNot
    } else if c == '?' {
        Symbol::Question
    } else {
        Symbol::Hash
    }
}

/// The value of `c` as a digit in `base`, executable form.
fn char_digit(c: char, base: i64) -> (r: Option<i64>)
    requires
        0 <= base <= 16,
    ensures
        r == digit_val(c, base),
{
    let u = c as u32;
    let v: i64 = if ('0' as u32) <= u && u <= ('9' as u32) {
        (u - ('0' as u32)) as i64
    } else if ('a' as u32) <= u && u <= ('f' as u32) {
        (u - ('a' as u32)) as i64 + 10
    } else if ('A' as u32) <= u && u <= ('F' as u32) {
        (u - ('A' as u32)) as i64 + 10
    } else {
        base
    };
    if 0 <= v && v < base {
        Some(v)
    } else {
        None
    }
}

/// Folds the digits of `text` from position `from` to its end, in `base`.
fn fold_digits_from(text: &str, from: usize, base: i64) -> (r: i64)
    requires
        from <= text@.len(),
        0 <= base <= 16,
    ensures
        r == fold_digits(text@.subrange(from as int, text@.len() as int), base),
{
    let ghost t = text@;
    let n = text.unicode_len();
    let mut acc: i64 = 0;
    let mut i = from;
    while i < n
        invariant
            from <= i <= n,
            n == t.len(),
            t == text@,
            0 <= base <= 16,
            acc == fold_digits(t.subrange(from as int, i as int), base),
        decreases n - i,
    {
        let c = text.get_char(i);
        proof {
            assert(t.subrange(from as int, i + 1).drop_last() =~= t.subrange(
                from as int,
                i as int,
            ));
            assert(t.subrange(from as int, i + 1).last() == t[i as int]);
        }
        match char_digit(c, base) {
            Some(d) => {
                acc = acc.wrapping_mul(base).wrapping_add(d);
            },
            None => {},
        }
        i = i + 1;
    }
    acc
}

impl Lexer {
    /// Reads a numeric literal: a greedy scan under the lookback rule, then
    /// float or integer interpretation of the scanned text.
    pub fn read_number(&mut self) -> (r: Result<Token, LexError>)
        requires
            old(self).wf(),
        ensures
            final(self).wf(),
            final(self)@.chars == old(self)@.chars,
            match spec_read_number(old(self)@.chars, old(self)@.pos) {
                LexStep::Tok(tv, q) => r matches Ok(t) && t@ == tv && final(self)@.pos == q,
                LexStep::Fail(e, q) => r == Err::<Token, LexError>(e) && final(self)@.pos == q,
            },
    {
        let ghost s = self@.chars;
        let start = self.pos;
        if self.pos >= self.length {
            return Err(LexError::UnexpectedEndOfInput(Span::new(self.length, self.length)));
        }
        let c0 = self.source.as_str().get_char(self.pos);
        let mut prev = c0;
        let mut saw_dot = false;
        let mut saw_signexp = false;
        loop
            invariant
                self.wf(),
                self@.chars == s,
                start <= self@.pos <= s.len(),
                start < s.len(),
                prev == (if self@.pos == start {
                    s[start as int]
                } else {
                    s[self@.pos - 1]
                }),
                num_end(s, s[start as int], start as int) == num_end(s, prev, self@.pos),
                saw_dot == (exists|i: int| start <= i < self@.pos && s[i] == '.'),
                saw_signexp == (exists|i: int|
                    start + 1 <= i < self@.pos && is_sign(s[i]) && is_exp_marker(s[i - 1])),
            ensures
                self.wf(),
                self@.chars == s,
                start <= self@.pos <= s.len(),
                num_end(s, s[start as int], start as int) == self@.pos,
                saw_dot == (exists|i: int| start <= i < self@.pos && s[i] == '.'),
                saw_signexp == (exists|i: int|
                    start + 1 <= i < self@.pos && is_sign(s[i]) && is_exp_marker(s[i - 1])),
            decreases s.len() - self@.pos,
        {
            if self.pos < self.length {
                let c = self.source.as_str().get_char(self.pos);
                if char_is_num_char(prev, c) {
                    if c == '.' {
                        saw_dot = true;
                    }
                    if char_is_sign(c) && char_is_exp_marker(prev) {
                        saw_signexp = true;
                    }
                    prev = c;
                    self.pos = self.pos + 1;
                } else {
                    proof {
                        assert(num_end(s, prev, self@.pos) == self@.pos);
                    }
                    break ;
                }
            } else {
                proof {
                    assert(num_end(s, prev, self@.pos) == self@.pos);
                }
                break ;
            }
        }
        let e = self.pos;
        if e == self.length {
            return Err(LexError::UnexpectedEndOfInput(Span::new(self.length, self.length)));
        }
        let ghost t = s.subrange(start as int, e as int);
        proof {
            if saw_dot {
                let i = choose|i: int| start <= i < e && s[i] == '.';
                assert(t[i - start] == '.');
                assert(has_float_marker(t));
            }
            if saw_signexp {
                let i = choose|i: int|
                    start + 1 <= i < e && is_sign(s[i]) && is_exp_marker(s[i - 1]);
                assert(t[i - start] == s[i] && t[i - start - 1] == s[i - 1]);
                assert(has_float_marker(t));
            }
            if has_float_marker(t) && !saw_dot && !saw_signexp {
                if exists|j: int| 0 <= j < t.len() && t[j] == '.' {
                    let j = choose|j: int| 0 <= j < t.len() && t[j] == '.';
                    assert(s[start + j] == '.');
                    assert(false);
                } else {
                    let j = choose|j: int|
                        1 <= j < t.len() && is_sign(t[j]) && is_exp_marker(t[j - 1]);
                    assert(s[start + j] == t[j] && s[start + j - 1] == t[j - 1]);
                    assert(false);
                }
            }
        }
        let is_f = saw_dot || saw_signexp;
        let text = self.source.as_str().substring_char(start, e).to_owned();
        let n = text.as_str().unicode_len();
        proof {
            assert(text@ == t);
            assert(n == e - start);
        }
        if is_f {
            proof {
                assert(t.subrange(0, t.len() as int) =~= t);
            }
            let mut k = n;
            loop
                invariant
                    0 <= k <= n,
                    n == t.len(),
                    text@ == t,
                    trim_len(t) == trim_len(t.subrange(0, k as int)),
                ensures
                    trim_len(t) == k as int,
                    0 <= k <= n,
                    text@ == t,
                decreases k,
            {
                if k > 0 {
                    let c = text.as_str().get_char(k - 1);
                    if char_is_suffix_char(c) {
                        proof {
                            assert(t.subrange(0, k as int).drop_last() =~= t.subrange(
                                0,
                                k - 1,
                            ));
                            assert(t.subrange(0, k as int).last() == t[k - 1]);
                        }
                        k = k - 1;
                    } else {
                        proof {
                            assert(t.subrange(0, k as int).last() == t[k - 1]);
                            assert(trim_len(t.subrange(0, k as int)) == k);
                        }
                        break ;
                    }
                } else {
                    proof {
                        assert(trim_len(t.subrange(0, 0)) == 0);
                    }
                    break ;
                }
            }
            let trimmed = text.as_str().substring_char(0, k).to_owned();
            Ok(Token::new_float(trimmed, Span::new(start, e)))
        } else {
            let val = if n > 2 && text.as_str().get_char(1) == 'x' {
                fold_digits_from(text.as_str(), 2, 16)
            } else if n > 2 && text.as_str().get_char(1) == 'b' {
                fold_digits_from(text.as_str(), 2, 2)
            } else if n > 0 && text.as_str().get_char(0) == '0' {
                fold_digits_from(text.as_str(), 1, 8)
            } else {
                fold_digits_from(text.as_str(), 0, 10)
            };
            proof {
                assert(t.subrange(0, t.len() as int) =~= t);
            }
            Ok(Token::new_int(val, Span::new(start, e)))
        }
    }

    /// Reads a symbol token with longest-match disambiguation via bounded
    /// lookahead.
    pub fn read_symbol(&mut self) -> (r: Result<Token, LexError>)
        requires
            old(self).wf(),
        ensures
            final(self).wf(),
            final(self)@.chars == old(self)@.chars,
            match spec_read_symbol(old(self)@.chars, old(self)@.pos) {
                LexStep::Tok(tv, q) => r matches Ok(t) && t@ == tv && final(self)@.pos == q,
                LexStep::Fail(e, q) => r == Err::<Token, LexError>(e) && final(self)@.pos == q,
            },
    {
        let start = self.pos;
        if self.pos >= self.length {
            return Err(LexError::UnexpectedEndOfInput(Span::new(self.length, self.length)));
        }
        let c = self.skip_char();
        if c == '+' || c == '-' {
            match self.next_char() {
                None => Err(LexError::UnexpectedEndOfInput(Span::new(self.length, self.length))),
                Some(c2) => {
                    if c2 == '=' {
                        let _ = self.skip_char();
                        let sym = if c == '+' {
                            Symbol::AssignAdd
                        } else {
                            Symbol::AssignSub
                        };
                        Ok(Token::new_symbol(sym, Span::new(start, self.pos)))
                    } else if c2 == '>' {
                        let _ = self.skip_char();
                        let sym = if c == '-' {
                            Symbol::Arrow
                        } else {
                            Symbol::Hash
                        };
                        Ok(Token::new_symbol(sym, Span::new(start, self.pos)))
                    } else if c2 == '+' {
                        let _ = self.skip_char();
                        let sym = if c == '+' {
                            Symbol::Inc
                        } else {
                            Symbol::Hash
                        };
                        Ok(Token::new_symbol(sym, Span::new(start, self.pos)))
                    } else if c2 == '-' {
                        let _ = self.skip_char();
                        let sym = if c == '-' {
                            Symbol::Dec
                        } else {
                            Symbol::Hash
                        };
                        Ok(Token::new_symbol(sym, Span::new(start, self.pos)))
                    } else {
                        let sym = if c == '+' {
                            Symbol::Add
                        } else {
                            Symbol::Sub
                        };
                        Ok(Token::new_symbol(sym, Span::new(start, self.pos)))
                    }
                },
            }
        } else if c == '*' || c == '/' || c == '%' || c == '=' || c == '^' || c == '!' {
            match self.skip_char_is('=') {
                Err(err) => Err(err),
                Ok(true) => {
                    let sym = if c == '*' {
                        Symbol::AssignMul
                    } else if c == '/' {
                        Symbol::AssignDiv
                    } else if c == '%' {
                        Symbol::AssignMod
                    } else if c == '=' {
                        Symbol::Eq
                    } else if c == '^' {
                        Symbol::AssignXor
                    } else {
                        Symbol::Ne
                    };
                    Ok(Token::new_symbol(sym, Span::new(start, self.pos)))
                },
                Ok(false) => {
                    let sym = if c == '*' {
                        Symbol::Asterisk
                    } else if c == '/' {
                        Symbol::Div
                    } else if c == '%' {
                        Symbol::Mod
                    } else if c == '=' {
                        Symbol::Assign
                    } else if c == '^' {
                        Symbol::Xor
                    } else {
                        Symbol::Not
                    };
                    Ok(Token::new_symbol(sym, Span::new(start, self.pos)))
                },
            }
        } else if c == '<' || c == '>' || c == '&' || c == '|' {
            match self.skip_char_is(c) {
                Err(err) => Err(err),
                Ok(true) => {
                    match self.skip_char_is('=') {
                        Err(err) => Err(err),
                        Ok(true) => {
                            let sym = if c == '<' {
                                Symbol::AssignShl
                            } else if c == '>' {
                                Symbol::AssignShr
                            } else if c == '&' {
                                Symbol::AssignLAnd
                            } else {
                                Symbol::AssignLOr
                            };
                            Ok(Token::new_symbol(sym, Span::new(start, self.pos)))
                        },
                        Ok(false) => {
                            let sym = if c == '<' {
                                Symbol::Shl
                            } else if c == '>' {
                                Symbol::Shr
                            } else if c == '&' {
                                Symbol::LAnd
                            } else {
                                Symbol::LOr
                            };
                            Ok(Token::new_symbol(sym, Span::new(start, self.pos)))
                        },
                    }
                },
                Ok(false) => {
                    match self.skip_char_is('=') {
                        Err(err) => Err(err),
                        Ok(true) => {
                            let sym = if c == '<' {
                                Symbol::Le
                            } else if c == '>' {
                                Symbol::Ge
                            } else if c == '&' {
                                Symbol::AssignAnd
                            } else {
                                Symbol::AssignOr
                            };
                            Ok(Token::new_symbol(sym, Span::new(start, self.pos)))
                        },
                        Ok(false) => {
                            let sym = if c == '<' {
                                Symbol::Lt
                            } else if c == '>' {
                                Symbol::Gt
                            } else if c == '&' {
                                Symbol::And
                            } else {
                                Symbol::Or
                            };
                            Ok(Token::new_symbol(sym, Span::new(start, self.pos)))
                        },
                    }
                },
            }
        } else {
            let sym = single_symbol_exec(c);
            Ok(Token::new_symbol(sym, Span::new(start, self.pos)))
        }
    }
}

} // verus!
