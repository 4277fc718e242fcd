//! The lexer: from the bytes of a source file to a sequence of tokens ending
//! in `Eof`. Whitespace, `//` line comments and `/* */` block comments
//! separate tokens and are dropped.
use vstd::prelude::*;

use crate::error::{CompileError, ErrorView};
use crate::text::push_char;
use crate::token::{token_views, Token, TokenView};
use vstd::string::StringSliceAdditionalSpecFns;

verus! {

pub const TAB: u8 = 9;
pub const NEWLINE: u8 = 10;
pub const CARRIAGE_RETURN: u8 = 13;
pub const SPACE: u8 = 32;
pub const BANG: u8 = 33;
pub const PERCENT: u8 = 37;
pub const AMPERSAND: u8 = 38;
pub const LEFT_PAREN: u8 = 40;
pub const RIGHT_PAREN: u8 = 41;
pub const ASTERISK: u8 = 42;
pub const PLUS: u8 = 43;
pub const MINUS: u8 = 45;
pub const SLASH: u8 = 47;
pub const DIGIT_ZERO: u8 = 48;
pub const DIGIT_NINE: u8 = 57;
pub const SEMICOLON: u8 = 59;
pub const LESS: u8 = 60;
pub const EQUALS: u8 = 61;
pub const GREATER: u8 = 62;
pub const UPPER_A: u8 = 65;
pub const UPPER_Z: u8 = 90;
pub const CARET: u8 = 94;
pub const UNDERSCORE: u8 = 95;
pub const LOWER_A: u8 = 97;
pub const LOWER_Z: u8 = 122;
pub const LEFT_BRACE: u8 = 123;
pub const PIPE: u8 = 124;
pub const RIGHT_BRACE: u8 = 125;
pub const TILDE: u8 = 126;

pub open spec fn is_space(c: u8) -> bool {
    c == SPACE || c == TAB || c == CARRIAGE_RETURN || c == NEWLINE
}

pub open spec fn is_digit(c: u8) -> bool {
    DIGIT_ZERO <= c <= DIGIT_NINE
}

pub open spec fn is_ident_start(c: u8) -> bool {
    (LOWER_A <= c <= LOWER_Z) || (UPPER_A <= c <= UPPER_Z) || c == UNDERSCORE
}

pub open spec fn is_ident_char(c: u8) -> bool {
    is_ident_start(c) || is_digit(c)
}

/// The byte after position `i` exists and is `c`.
pub open spec fn next_is(b: Seq<u8>, i: int, c: u8) -> bool {
    i + 1 < b.len() && b[i + 1] == c
}

/// The end of the run of digits that starts at `k`.
pub open spec fn digits_end(b: Seq<u8>, k: int) -> int
    decreases b.len() - k,
{
    if 0 <= k < b.len() && is_digit(b[k]) {
        digits_end(b, k + 1)
    } else {
        k
    }
}

/// The end of the run of identifier characters that starts at `k`.
pub open spec fn ident_end(b: Seq<u8>, k: int) -> int
    decreases b.len() - k,
{
    if 0 <= k < b.len() && is_ident_char(b[k]) {
        ident_end(b, k + 1)
    } else {
        k
    }
}

/// The first newline at or after `k`, or the end of the input.
pub open spec fn line_end(b: Seq<u8>, k: int) -> int
    decreases b.len() - k,
{
    if 0 <= k < b.len() && b[k] != NEWLINE {
        line_end(b, k + 1)
    } else {
        k
    }
}

/// The first position at or after `k` where `*/` starts, if there is one.
pub open spec fn comment_close(b: Seq<u8>, k: int) -> Option<int>
    decreases b.len() - k,
{
    if 0 <= k && k + 1 < b.len() {
        if b[k] == ASTERISK && b[k + 1] == SLASH {
            Some(k)
        } else {
            comment_close(b, k + 1)
        }
    } else {
        None
    }
}

/// The value of a sequence of decimal digits, most significant first.
pub open spec fn decimal_value(s: Seq<u8>) -> int
    decreases s.len(),
{
    if s.len() == 0 {
        0
    } else {
        decimal_value(s.drop_last()) * 10 + (s.last() - DIGIT_ZERO)
    }
}

/// The token of an identifier-like word: a keyword or an identifier.
pub open spec fn word_token(w: Seq<u8>) -> TokenView {
    if w =~= seq![105u8, 110u8, 116u8] {
        TokenView::Int
    } else if w =~= seq![118u8, 111u8, 105u8, 100u8] {
        TokenView::Void
    } else if w =~= seq![114u8, 101u8, 116u8, 117u8, 114u8, 110u8] {
        TokenView::Return
    } else {
        TokenView::Ident(w.map_values(|c: u8| c as char))
    }
}

/// The operator spelled by two bytes, if any.
pub open spec fn two_byte_token(c: u8, d: u8) -> Option<TokenView> {
    if c == EQUALS && d == EQUALS {
        Some(TokenView::EqEq)
    } else if c == BANG && d == EQUALS {
        Some(TokenView::NotEq)
    } else if c == LESS && d == EQUALS {
        Some(TokenView::Le)
    } else if c == GREATER && d == EQUALS {
        Some(TokenView::Ge)
    } else if c == LESS && d == LESS {
        Some(TokenView::Shl)
    } else if c == GREATER && d == GREATER {
        Some(TokenView::Shr)
    } else {
        None
    }
}

/// The token spelled by one byte, if any.
pub open spec fn one_byte_token(c: u8) -> Option<TokenView> {
    if c == BANG {
        Some(TokenView::Bang)
    } else if c == TILDE {
        Some(TokenView::Tilde)
    } else if c == AMPERSAND {
        Some(TokenView::Amp)
    } else if c == CARET {
        Some(TokenView::Caret)
    } else if c == PIPE {
        Some(TokenView::Pipe)
    } else if c == LESS {
        Some(TokenView::Lt)
    } else if c == GREATER {
        Some(TokenView::Gt)
    } else if c == PLUS {
        Some(TokenView::Plus)
    } else if c == MINUS {
        Some(TokenView::Minus)
    } else if c == ASTERISK {
        Some(TokenView::Star)
    } else if c == SLASH {
        Some(TokenView::Slash)
    } else if c == PERCENT {
        Some(TokenView::Percent)
    } else if c == LEFT_PAREN {
        Some(TokenView::LParen)
    } else if c == RIGHT_PAREN {
        Some(TokenView::RParen)
    } else if c == LEFT_BRACE {
        Some(TokenView::LBrace)
    } else if c == RIGHT_BRACE {
        Some(TokenView::RBrace)
    } else if c == SEMICOLON {
        Some(TokenView::Semi)
    } else {
        None
    }
}

/// What the lexer does at one position of the input.
pub enum Scan {
    /// Nothing is emitted; lexing goes on at `next`.
    Skip { next: int },
    /// `token` is emitted; lexing goes on at `next`.
    Emit { token: TokenView, next: int },
    /// Lexing stops with `error`.
    Fail { error: ErrorView },
}

/// The step of the lexer at position `i` of `b` (for `0 <= i < b.len()`).
pub open spec fn scan(b: Seq<u8>, i: int) -> Scan {
    let c = b[i];
    if is_space(c) {
        Scan::Skip { next: i + 1 }
    } else if c == SLASH && next_is(b, i, SLASH) {
        Scan::Skip { next: line_end(b, i + 2) }
    } else if c == SLASH && next_is(b, i, ASTERISK) {
        match comment_close(b, i + 2) {
            Some(k) => Scan::Skip { next: k + 2 },
            None => Scan::Fail { error: ErrorView::UnterminatedComment { offset: i as nat } },
        }
    } else if i + 1 < b.len() && two_byte_token(c, b[i + 1]) is Some {
        Scan::Emit { token: two_byte_token(c, b[i + 1])->0, next: i + 2 }
    } else if one_byte_token(c) is Some {
        Scan::Emit { token: one_byte_token(c)->0, next: i + 1 }
    } else if is_digit(c) {
        let j = digits_end(b, i);
        let v = decimal_value(b.subrange(i, j));
        if v <= i64::MAX {
            Scan::Emit { token: TokenView::Number(v as i64), next: j }
        } else {
            Scan::Fail { error: ErrorView::InvalidIntegerLiteral { offset: i as nat } }
        }
    } else if is_ident_start(c) {
        let j = ident_end(b, i);
        Scan::Emit { token: word_token(b.subrange(i, j)), next: j }
    } else {
        Scan::Fail { error: ErrorView::UnexpectedByte { byte: c, offset: i as nat } }
    }
}

/// The tokens of `b` from position `i` on, ending in `Eof`, or the first error.
pub open spec fn lex_from(b: Seq<u8>, i: int) -> Result<Seq<TokenView>, ErrorView>
    decreases b.len() - i,
    via lex_from_decreases
{
    if i < 0 || i >= b.len() {
        Ok(seq![TokenView::Eof])
    } else {
        match scan(b, i) {
            Scan::Skip { next } => lex_from(b, next),
            Scan::Emit { token, next } => match lex_from(b, next) {
                Ok(ts) => Ok(seq![token] + ts),
                Err(e) => Err(e),
            },
            Scan::Fail { error } => Err(error),
        }
    }
}

/// The tokens of a whole source file.
pub open spec fn lex_bytes(b: Seq<u8>) -> Result<Seq<TokenView>, ErrorView> {
    lex_from(b, 0)
}

#[via_fn]
proof fn lex_from_decreases(b: Seq<u8>, i: int) {
    if 0 <= i < b.len() {
        lemma_scan_progress(b, i);
    }
}

proof fn lemma_digits_end(b: Seq<u8>, k: int)
    requires
        0 <= k <= b.len(),
    ensures
        k <= digits_end(b, k) <= b.len(),
        forall|m: int| k <= m < digits_end(b, k) ==> is_digit(#[trigger] b[m]),
    decreases b.len() - k,
{
    if k < b.len() && is_digit(b[k]) {
        lemma_digits_end(b, k + 1);
    }
}

proof fn lemma_ident_end(b: Seq<u8>, k: int)
    requires
        0 <= k <= b.len(),
    ensures
        k <= ident_end(b, k) <= b.len(),
        forall|m: int| k <= m < ident_end(b, k) ==> is_ident_char(#[trigger] b[m]),
    decreases b.len() - k,
{
    if k < b.len() && is_ident_char(b[k]) {
        lemma_ident_end(b, k + 1);
    }
}

proof fn lemma_line_end(b: Seq<u8>, k: int)
    requires
        0 <= k <= b.len(),
    ensures
        k <= line_end(b, k) <= b.len(),
    decreases b.len() - k,
{
    if k < b.len() && b[k] != NEWLINE {
        lemma_line_end(b, k + 1);
    }
}

proof fn lemma_comment_close(b: Seq<u8>, k: int)
    requires
        0 <= k,
    ensures
        comment_close(b, k) matches Some(m) ==> k <= m && m + 1 < b.len(),
    decreases b.len() - k,
{
    if k + 1 < b.len() && !(b[k] == ASTERISK && b[k + 1] == SLASH) {
        lemma_comment_close(b, k + 1);
    }
}

/// Every step that does not fail moves forward and stays within the input.
pub proof fn lemma_scan_progress(b: Seq<u8>, i: int)
    requires
        0 <= i < b.len(),
    ensures
        scan(b, i) matches Scan::Skip { next } ==> i < next <= b.len(),
        scan(b, i) matches Scan::Emit { next, .. } ==> i < next <= b.len(),
{
    let c = b[i];
    if c == SLASH && next_is(b, i, SLASH) {
        lemma_line_end(b, i + 2);
    } else if c == SLASH && next_is(b, i, ASTERISK) {
        lemma_comment_close(b, i + 2);
    } else if is_digit(c) {
        lemma_digits_end(b, i + 1);
    } else if is_ident_start(c) {
        lemma_ident_end(b, i + 1);
    }
}

/// A successful lexing ends with exactly one `Eof`, and only there.
pub proof fn lemma_lex_ends_with_eof(b: Seq<u8>, i: int)
    ensures
        lex_from(b, i) matches Ok(ts) ==> ts.len() > 0 && ts.last() == TokenView::Eof && forall|
            k: int,
        |
            0 <= k < ts.len() - 1 ==> ts[k] != TokenView::Eof,
    decreases b.len() - i,
{
    if 0 <= i < b.len() {
        lemma_scan_progress(b, i);
        match scan(b, i) {
            Scan::Skip { next } => lemma_lex_ends_with_eof(b, next),
            Scan::Emit { token, next } => {
                lemma_lex_ends_with_eof(b, next);
                lemma_scan_never_emits_eof(b, i);
                if let Ok(ts) = lex_from(b, next) {
                    let all = seq![token] + ts;
                    assert forall|k: int| 0 <= k < all.len() - 1 implies all[k]
                        != TokenView::Eof by {
                        if k > 0 {
                            assert(all[k] == ts[k - 1]);
                        }
                    }
                }
            },
            Scan::Fail { .. } => {},
        }
    }
}

/// Every number token of a successful lexing is non-negative.
pub open spec fn numbers_nonnegative(ts: Seq<TokenView>) -> bool {
    forall|k: int| 0 <= k < ts.len() ==> (#[trigger] ts[k] matches TokenView::Number(v) ==> v >= 0)
}

/// The lexer reads only non-negative numbers: a literal has no sign.
pub proof fn lemma_lexed_numbers_nonnegative(b: Seq<u8>, i: int)
    ensures
        lex_from(b, i) matches Ok(ts) ==> numbers_nonnegative(ts),
    decreases b.len() - i,
{
    if 0 <= i < b.len() {
        lemma_scan_progress(b, i);
        match scan(b, i) {
            Scan::Skip { next } => lemma_lexed_numbers_nonnegative(b, next),
            Scan::Emit { token, next } => {
                lemma_lexed_numbers_nonnegative(b, next);
                if is_digit(b[i]) && !is_space(b[i]) && one_byte_token(b[i]) is None {
                    let j = digits_end(b, i);
                    lemma_digits_end(b, i);
                    let run = b.subrange(i, j);
                    assert forall|m: int| 0 <= m < run.len() implies is_digit(#[trigger] run[m]) by {
                        assert(run[m] == b[i + m]);
                    }
                    lemma_decimal_nonneg(run);
                }
                if let Ok(ts) = lex_from(b, next) {
                    let all = seq![token] + ts;
                    assert forall|k: int| 0 <= k < all.len() implies (#[trigger] all[k] matches TokenView::Number(v) ==> v >= 0) by {
                        if k > 0 {
                            assert(all[k] == ts[k - 1]);
                        }
                    }
                }
            },
            Scan::Fail { .. } => {},
        }
    }
}

/// The lexer emits `Eof` only at the end of the input.
pub proof fn lemma_scan_never_emits_eof(b: Seq<u8>, i: int)
    requires
        0 <= i < b.len(),
    ensures
        scan(b, i) matches Scan::Emit { token, .. } ==> token != TokenView::Eof,
{
}

/// An error of lexing with its offset moved `n` bytes further.
pub open spec fn shift_error(e: ErrorView, n: nat) -> ErrorView {
    match e {
        ErrorView::UnterminatedComment { offset } => ErrorView::UnterminatedComment {
            offset: offset + n,
        },
        ErrorView::UnexpectedByte { byte, offset } => ErrorView::UnexpectedByte {
            byte,
            offset: offset + n,
        },
        ErrorView::InvalidIntegerLiteral { offset } => ErrorView::InvalidIntegerLiteral {
            offset: offset + n,
        },
        other => other,
    }
}

/// A lexing result with its error offset, if any, moved `n` bytes further.
pub open spec fn shift_result(r: Result<Seq<TokenView>, ErrorView>, n: nat) -> Result<
    Seq<TokenView>,
    ErrorView,
> {
    match r {
        Ok(ts) => Ok(ts),
        Err(e) => Err(shift_error(e, n)),
    }
}

proof fn lemma_digits_end_shift(a: Seq<u8>, b: Seq<u8>, k: int)
    requires
        0 <= k,
    ensures
        digits_end(a + b, a.len() + k) == a.len() + digits_end(b, k),
    decreases b.len() - k,
{
    if k < b.len() {
        assert((a + b)[a.len() + k] == b[k]);
        lemma_digits_end_shift(a, b, k + 1);
    }
}

proof fn lemma_ident_end_shift(a: Seq<u8>, b: Seq<u8>, k: int)
    requires
        0 <= k,
    ensures
        ident_end(a + b, a.len() + k) == a.len() + ident_end(b, k),
    decreases b.len() - k,
{
    if k < b.len() {
        assert((a + b)[a.len() + k] == b[k]);
        lemma_ident_end_shift(a, b, k + 1);
    }
}

proof fn lemma_line_end_shift(a: Seq<u8>, b: Seq<u8>, k: int)
    requires
        0 <= k,
    ensures
        line_end(a + b, a.len() + k) == a.len() + line_end(b, k),
    decreases b.len() - k,
{
    if k < b.len() {
        assert((a + b)[a.len() + k] == b[k]);
        lemma_line_end_shift(a, b, k + 1);
    }
}

proof fn lemma_comment_close_shift(a: Seq<u8>, b: Seq<u8>, k: int)
    requires
        0 <= k,
    ensures
        comment_close(a + b, a.len() + k) == (match comment_close(b, k) {
            Some(m) => Some(a.len() + m),
            None => None::<int>,
        }),
    decreases b.len() - k,
{
    if k + 1 < b.len() {
        assert((a + b)[a.len() + k] == b[k]);
        assert((a + b)[a.len() + k + 1] == b[k + 1]);
        lemma_comment_close_shift(a, b, k + 1);
    }
}

/// Lexing looks only forward: the step at a position does not depend on
/// what stands before it, but for the offsets it reports.
proof fn lemma_scan_shift(a: Seq<u8>, b: Seq<u8>, i: int)
    requires
        0 <= i < b.len(),
    ensures
        scan(a + b, a.len() + i) == (match scan(b, i) {
            Scan::Skip { next } => Scan::Skip { next: a.len() + next },
            Scan::Emit { token, next } => Scan::Emit { token, next: a.len() + next },
            Scan::Fail { error } => Scan::Fail { error: shift_error(error, a.len()) },
        }),
{
    let ab = a + b;
    let n = a.len() as int;
    assert(ab[n + i] == b[i]);
    if i + 1 < b.len() {
        assert(ab[n + i + 1] == b[i + 1]);
    }
    lemma_line_end_shift(a, b, i + 2);
    lemma_comment_close_shift(a, b, i + 2);
    lemma_digits_end_shift(a, b, i);
    lemma_ident_end_shift(a, b, i);
    lemma_digits_end(b, i);
    lemma_ident_end(b, i);
    assert(ab.subrange(n + i, n + digits_end(b, i)) =~= b.subrange(i, digits_end(b, i)));
    assert(ab.subrange(n + i, n + ident_end(b, i)) =~= b.subrange(i, ident_end(b, i)));
}

/// The tokens of a source from position `i` on are those of the same bytes
/// with anything put in front; only the offsets of errors move.
pub proof fn law_lexing_ignores_what_precedes(a: Seq<u8>, b: Seq<u8>, i: int)
    requires
        0 <= i,
    ensures
        lex_from(a + b, a.len() + i) == shift_result(lex_from(b, i), a.len()),
    decreases b.len() - i,
{
    if i < b.len() {
        lemma_scan_shift(a, b, i);
        lemma_scan_progress(b, i);
        match scan(b, i) {
            Scan::Skip { next } => law_lexing_ignores_what_precedes(a, b, next),
            Scan::Emit { next, .. } => law_lexing_ignores_what_precedes(a, b, next),
            Scan::Fail { .. } => {},
        }
    }
}

/// A whitespace byte in front of a source changes none of its tokens; the
/// offsets of errors move by one.
pub proof fn law_leading_whitespace_is_ignored(c: u8, b: Seq<u8>)
    requires
        is_space(c),
    ensures
        lex_bytes(seq![c] + b) == shift_result(lex_bytes(b), 1),
{
    law_lexing_ignores_what_precedes(seq![c], b, 0);
    assert((seq![c] + b)[0] == c);
}

/// `c` is a block comment: `/*`, then anything without `*/`, then `*/`.
pub open spec fn is_block_comment(c: Seq<u8>) -> bool {
    &&& c.len() >= 4
    &&& c[0] == SLASH
    &&& c[1] == ASTERISK
    &&& c[c.len() - 2] == ASTERISK
    &&& c[c.len() - 1] == SLASH
    &&& forall|k: int| 2 <= k < c.len() - 2 ==> !(#[trigger] c[k] == ASTERISK && c[k + 1] == SLASH)
}

proof fn lemma_block_comment_close(c: Seq<u8>, b: Seq<u8>, k: int)
    requires
        is_block_comment(c),
        2 <= k <= c.len() - 2,
    ensures
        comment_close(c + b, k) == Some(c.len() - 2),
    decreases c.len() - k,
{
    let cb = c + b;
    assert(cb[k] == c[k]);
    assert(cb[k + 1] == c[k + 1]);
    if k < c.len() - 2 {
        lemma_block_comment_close(c, b, k + 1);
    }
}

/// A block comment in front of a source changes none of its tokens; the
/// offsets of errors move by the comment's length.
pub proof fn law_leading_block_comment_is_ignored(c: Seq<u8>, b: Seq<u8>)
    requires
        is_block_comment(c),
    ensures
        lex_bytes(c + b) == shift_result(lex_bytes(b), c.len()),
{
    let cb = c + b;
    assert(cb[0] == SLASH);
    assert(cb[1] == ASTERISK);
    lemma_block_comment_close(c, b, 2);
    assert(scan(cb, 0) == Scan::Skip { next: c.len() as int });
    law_lexing_ignores_what_precedes(c, b, 0);
}

/// `c` is a line comment: `//`, then anything without a newline, then a newline.
pub open spec fn is_line_comment(c: Seq<u8>) -> bool {
    &&& c.len() >= 3
    &&& c[0] == SLASH
    &&& c[1] == SLASH
    &&& c[c.len() - 1] == NEWLINE
    &&& forall|k: int| 2 <= k < c.len() - 1 ==> #[trigger] c[k] != NEWLINE
}

proof fn lemma_line_comment_end(c: Seq<u8>, b: Seq<u8>, k: int)
    requires
        is_line_comment(c),
        2 <= k <= c.len() - 1,
    ensures
        line_end(c + b, k) == c.len() - 1,
    decreases c.len() - k,
{
    assert((c + b)[k] == c[k]);
    if k < c.len() - 1 {
        lemma_line_comment_end(c, b, k + 1);
    }
}

/// A line comment in front of a source changes none of its tokens; the
/// offsets of errors move by the comment's length.
pub proof fn law_leading_line_comment_is_ignored(c: Seq<u8>, b: Seq<u8>)
    requires
        is_line_comment(c),
    ensures
        lex_bytes(c + b) == shift_result(lex_bytes(b), c.len()),
{
    let cb = c + b;
    assert(cb[0] == SLASH);
    assert(cb[1] == SLASH);
    lemma_line_comment_end(c, b, 2);
    assert(scan(cb, 0) == Scan::Skip { next: c.len() - 1 });
    assert(cb[c.len() - 1] == NEWLINE);
    assert(scan(cb, c.len() - 1) == Scan::Skip { next: c.len() as int });
    assert(lex_from(cb, 0) == lex_from(cb, c.len() - 1));
    law_lexing_ignores_what_precedes(c, b, 0);
}

/// `a` ends with a newline.
pub open spec fn ends_line(a: Seq<u8>) -> bool {
    a.len() > 0 && a[a.len() - 1] == NEWLINE
}

proof fn lemma_digits_end_extend(a: Seq<u8>, x: Seq<u8>, k: int)
    requires
        ends_line(a),
        0 <= k < a.len(),
    ensures
        digits_end(a + x, k) == digits_end(a, k),
    decreases a.len() - k,
{
    assert((a + x)[k] == a[k]);
    if is_digit(a[k]) {
        lemma_digits_end_extend(a, x, k + 1);
    }
}

proof fn lemma_ident_end_extend(a: Seq<u8>, x: Seq<u8>, k: int)
    requires
        ends_line(a),
        0 <= k < a.len(),
    ensures
        ident_end(a + x, k) == ident_end(a, k),
    decreases a.len() - k,
{
    assert((a + x)[k] == a[k]);
    if is_ident_char(a[k]) {
        lemma_ident_end_extend(a, x, k + 1);
    }
}

proof fn lemma_line_end_extend(a: Seq<u8>, x: Seq<u8>, k: int)
    requires
        ends_line(a),
        0 <= k < a.len(),
    ensures
        line_end(a + x, k) == line_end(a, k),
    decreases a.len() - k,
{
    assert((a + x)[k] == a[k]);
    if a[k] != NEWLINE {
        lemma_line_end_extend(a, x, k + 1);
    }
}

proof fn lemma_comment_close_extend(a: Seq<u8>, x: Seq<u8>, k: int)
    requires
        0 <= k,
        comment_close(a, k) is Some,
    ensures
        comment_close(a + x, k) == comment_close(a, k),
    decreases a.len() - k,
{
    assert((a + x)[k] == a[k]);
    assert((a + x)[k + 1] == a[k + 1]);
    if !(a[k] == ASTERISK && a[k + 1] == SLASH) {
        lemma_comment_close_extend(a, x, k + 1);
    }
}

/// Lexing within a source that ends with a newline does not look past it:
/// a step that does not fail there is the same step with anything after.
proof fn lemma_scan_extend(a: Seq<u8>, x: Seq<u8>, j: int)
    requires
        ends_line(a),
        0 <= j < a.len(),
        !(scan(a, j) is Fail),
    ensures
        scan(a + x, j) == scan(a, j),
{
    let ax = a + x;
    assert(ax[j] == a[j]);
    if j + 1 < a.len() {
        assert(ax[j + 1] == a[j + 1]);
    }
    let c = a[j];
    if !is_space(c) {
        assert(j + 1 < a.len());
        if c == SLASH && next_is(a, j, SLASH) {
            lemma_line_end_extend(a, x, j + 2);
        } else if c == SLASH && next_is(a, j, ASTERISK) {
            lemma_comment_close_extend(a, x, j + 2);
        } else {
            lemma_digits_end_extend(a, x, j);
            lemma_ident_end_extend(a, x, j);
            lemma_digits_end(a, j);
            lemma_ident_end(a, j);
            assert(ax.subrange(j, digits_end(a, j)) =~= a.subrange(j, digits_end(a, j)));
            assert(ax.subrange(j, ident_end(a, j)) =~= a.subrange(j, ident_end(a, j)));
        }
    }
}

/// `ts`, then the result `r` of lexing what follows.
pub open spec fn prepend(ts: Seq<TokenView>, r: Result<Seq<TokenView>, ErrorView>) -> Result<
    Seq<TokenView>,
    ErrorView,
> {
    match r {
        Ok(us) => Ok(ts + us),
        Err(e) => Err(e),
    }
}

proof fn lemma_lex_extend(a: Seq<u8>, x: Seq<u8>, j: int)
    requires
        ends_line(a),
        0 <= j <= a.len(),
        lex_from(a, j) is Ok,
    ensures
        lex_from(a + x, j) == prepend(lex_from(a, j)->Ok_0.drop_last(), lex_from(a + x, a.len() as int)),
    decreases a.len() - j,
{
    if j == a.len() {
        assert(lex_from(a, j)->Ok_0.drop_last() =~= Seq::<TokenView>::empty());
        match lex_from(a + x, a.len() as int) {
            Ok(us) => assert(Seq::<TokenView>::empty() + us =~= us),
            Err(_) => {},
        }
    } else {
        lemma_scan_progress(a, j);
        lemma_scan_extend(a, x, j);
        match scan(a, j) {
            Scan::Skip { next } => lemma_lex_extend(a, x, next),
            Scan::Emit { token, next } => {
                lemma_lex_extend(a, x, next);
                lemma_lex_ends_with_eof(a, next);
                let ts = lex_from(a, next)->Ok_0;
                assert((seq![token] + ts).drop_last() =~= seq![token] + ts.drop_last());
                match lex_from(a + x, a.len() as int) {
                    Ok(us) => assert(seq![token] + (ts.drop_last() + us) =~= (seq![token]
                        + ts.drop_last()) + us),
                    Err(_) => {},
                }
            },
            Scan::Fail { .. } => {},
        }
    }
}

/// Law: lexing goes line by line. A source that ends with a newline and
/// lexes on its own gives its tokens, but for the final `Eof`, to whatever
/// follows it, and the tokens of what follows come after them unchanged;
/// only the offsets of errors move.
pub proof fn law_lexing_goes_line_by_line(a: Seq<u8>, x: Seq<u8>)
    requires
        ends_line(a),
        lex_bytes(a) is Ok,
    ensures
        lex_bytes(a + x) == prepend(lex_bytes(a)->Ok_0.drop_last(), shift_result(lex_bytes(x), a.len())),
{
    lemma_lex_extend(a, x, 0);
    law_lexing_ignores_what_precedes(a, x, 0);
}

/// A separator: one whitespace byte, a block comment or a line comment.
pub open spec fn is_separator(s: Seq<u8>) -> bool {
    (s.len() == 1 && is_space(s[0])) || is_block_comment(s) || is_line_comment(s)
}

/// Law: whitespace and comments between lines change no token. A separator
/// put after a source that ends with a newline and lexes on its own leaves
/// the tokens of the whole as they were; the offsets of errors move by the
/// separator's length.
pub proof fn law_separator_between_lines_is_ignored(a: Seq<u8>, s: Seq<u8>, x: Seq<u8>)
    requires
        ends_line(a),
        lex_bytes(a) is Ok,
        is_separator(s),
    ensures
        lex_bytes(a + (s + x)) == shift_result(lex_bytes(a + x), s.len()),
{
    law_lexing_goes_line_by_line(a, s + x);
    law_lexing_goes_line_by_line(a, x);
    if s.len() == 1 && is_space(s[0]) {
        assert(s =~= seq![s[0]]);
        law_leading_whitespace_is_ignored(s[0], x);
    } else if is_block_comment(s) {
        law_leading_block_comment_is_ignored(s, x);
    } else {
        law_leading_line_comment_is_ignored(s, x);
    }
}

/// No `*/` starts at or after `k`.
pub open spec fn never_closed(b: Seq<u8>, k: int) -> bool {
    forall|m: int| k <= m && m + 1 < b.len() ==> !(#[trigger] b[m] == ASTERISK && b[m + 1] == SLASH)
}

proof fn lemma_comment_close_none(b: Seq<u8>, k: int)
    requires
        0 <= k,
        comment_close(b, k) is None,
    ensures
        never_closed(b, k),
    decreases b.len() - k,
{
    if k + 1 < b.len() {
        lemma_comment_close_none(b, k + 1);
    }
}

proof fn lemma_unterminated_from(b: Seq<u8>, i: int, k: nat)
    requires
        0 <= i,
        lex_from(b, i) == Err::<Seq<TokenView>, ErrorView>(ErrorView::UnterminatedComment { offset: k }),
    ensures
        k + 1 < b.len(),
        b[k as int] == SLASH,
        b[k + 1int] == ASTERISK,
        never_closed(b, k + 2int),
    decreases b.len() - i,
{
    lemma_scan_progress(b, i);
    match scan(b, i) {
        Scan::Skip { next } => lemma_unterminated_from(b, next, k),
        Scan::Emit { next, .. } => lemma_unterminated_from(b, next, k),
        Scan::Fail { .. } => lemma_comment_close_none(b, i + 2),
    }
}

/// Law: lexing fails with an unterminated comment at offset `k` only where
/// `/*` opens a comment at `k` and no `*/` follows the opener (its own `*`
/// does not close it).
pub proof fn law_unterminated_comment_is_never_closed(b: Seq<u8>, k: nat)
    requires
        lex_bytes(b) == Err::<Seq<TokenView>, ErrorView>(ErrorView::UnterminatedComment { offset: k }),
    ensures
        k + 1 < b.len(),
        b[k as int] == SLASH,
        b[k + 1int] == ASTERISK,
        never_closed(b, k + 2int),
{
    lemma_unterminated_from(b, 0, k);
}

/// Lexing from `i` starts a step at position `j`: `j` lies between tokens
/// and outside every comment.
pub open spec fn passes(b: Seq<u8>, i: int, j: int) -> bool
    decreases b.len() - i,
    via passes_decreases
{
    if i == j {
        true
    } else if 0 <= i < j && i < b.len() {
        match scan(b, i) {
            Scan::Skip { next } => passes(b, next, j),
            Scan::Emit { next, .. } => passes(b, next, j),
            Scan::Fail { .. } => false,
        }
    } else {
        false
    }
}

#[via_fn]
proof fn passes_decreases(b: Seq<u8>, i: int, j: int) {
    if 0 <= i < b.len() {
        lemma_scan_progress(b, i);
    }
}

/// `b` with the byte at `j` replaced by `w`.
pub open spec fn with_gap(b: Seq<u8>, j: int, w: Seq<u8>) -> Seq<u8> {
    b.subrange(0, j) + w + b.subrange(j + 1, b.len() as int)
}

/// Every byte of `w` is whitespace.
pub open spec fn all_space(w: Seq<u8>) -> bool {
    forall|k: int| 0 <= k < w.len() ==> is_space(#[trigger] w[k])
}

/// `b` and `c` agree before position `j`, and at `j` both hold whitespace or
/// end.
spec fn agree_below(b: Seq<u8>, c: Seq<u8>, j: int) -> bool {
    &&& 0 <= j <= b.len()
    &&& j <= c.len()
    &&& forall|m: int| 0 <= m < j ==> #[trigger] b[m] == c[m]
    &&& j < b.len() ==> is_space(b[j])
    &&& j < c.len() ==> is_space(c[j])
}

proof fn lemma_digits_end_agree(b: Seq<u8>, c: Seq<u8>, j: int, k: int)
    requires
        agree_below(b, c, j),
        0 <= k <= j,
    ensures
        digits_end(b, k) == digits_end(c, k),
    decreases j - k,
{
    if k < j {
        assert(b[k] == c[k]);
        lemma_digits_end_agree(b, c, j, k + 1);
    }
}

proof fn lemma_ident_end_agree(b: Seq<u8>, c: Seq<u8>, j: int, k: int)
    requires
        agree_below(b, c, j),
        0 <= k <= j,
    ensures
        ident_end(b, k) == ident_end(c, k),
    decreases j - k,
{
    if k < j {
        assert(b[k] == c[k]);
        lemma_ident_end_agree(b, c, j, k + 1);
    }
}

proof fn lemma_line_end_agree(b: Seq<u8>, c: Seq<u8>, j: int, k: int)
    requires
        agree_below(b, c, j),
        0 <= k <= b.len(),
        line_end(b, k) < j,
    ensures
        line_end(c, k) == line_end(b, k),
    decreases j - k,
{
    lemma_line_end(b, k);
    assert(b[k] == c[k]);
    if b[k] != NEWLINE {
        lemma_line_end_agree(b, c, j, k + 1);
    }
}

proof fn lemma_comment_close_agree(b: Seq<u8>, c: Seq<u8>, j: int, k: int)
    requires
        agree_below(b, c, j),
        0 <= k,
        comment_close(b, k) matches Some(m) && m + 1 < j,
    ensures
        comment_close(c, k) == comment_close(b, k),
    decreases j - k,
{
    lemma_comment_close(b, k);
    assert(b[k] == c[k]);
    assert(b[k + 1] == c[k + 1]);
    if !(b[k] == ASTERISK && b[k + 1] == SLASH) {
        lemma_comment_close_agree(b, c, j, k + 1);
    }
}

/// A step that ends at or before `j`, other than a line comment that ends
/// right at `j`, is the same step in a source that agrees with `b` before `j`.
proof fn lemma_scan_agree(b: Seq<u8>, c: Seq<u8>, j: int, i: int)
    requires
        agree_below(b, c, j),
        0 <= i < j,
        scan(b, i) matches Scan::Skip { next } ==> next <= j,
        scan(b, i) matches Scan::Emit { next, .. } ==> next <= j,
        !(scan(b, i) is Fail),
        !(b[i] == SLASH && next_is(b, i, SLASH) && line_end(b, i + 2) == j),
    ensures
        scan(c, i) == scan(b, i),
{
    assert(b[i] == c[i]);
    if i + 1 < j {
        assert(b[i + 1] == c[i + 1]);
    }
    let ch = b[i];
    if !is_space(ch) {
        if ch == SLASH && next_is(b, i, SLASH) {
            lemma_line_end(b, i + 2);
            lemma_line_end_agree(b, c, j, i + 2);
        } else if ch == SLASH && next_is(b, i, ASTERISK) {
            lemma_comment_close_agree(b, c, j, i + 2);
        } else {
            lemma_digits_end_agree(b, c, j, i);
            lemma_ident_end_agree(b, c, j, i);
            lemma_digits_end(b, i);
            lemma_ident_end(b, i);
            assert(c.subrange(i, digits_end(b, i)) =~= b.subrange(i, digits_end(b, i)));
            assert(c.subrange(i, ident_end(b, i)) =~= b.subrange(i, ident_end(b, i)));
        }
    }
}

proof fn lemma_shift_twice(r: Result<Seq<TokenView>, ErrorView>, m: nat, n: nat)
    ensures
        shift_result(shift_result(r, m), n) == shift_result(r, m + n),
{
}

/// Lexing from a position where only whitespace stands up to `k` goes on at `k`.
proof fn lemma_skip_space(c: Seq<u8>, i: int, k: int)
    requires
        0 <= i <= k <= c.len(),
        forall|m: int| i <= m < k ==> is_space(#[trigger] c[m]),
    ensures
        lex_from(c, i) == lex_from(c, k),
    decreases k - i,
{
    if i < k {
        assert(is_space(c[i]));
        lemma_skip_space(c, i + 1, k);
    }
}

proof fn lemma_line_end_bounds(c: Seq<u8>, k: int, m: int)
    requires
        0 <= k <= m < c.len(),
        c[m] == NEWLINE,
    ensures
        k <= line_end(c, k) <= m,
    decreases m - k,
{
    if c[k] != NEWLINE {
        lemma_line_end_bounds(c, k + 1, m);
    }
}

proof fn lemma_line_end_passes(c: Seq<u8>, k: int, j: int)
    requires
        0 <= k <= j,
        forall|m: int| k <= m < j ==> #[trigger] c[m] != NEWLINE,
        j <= c.len(),
    ensures
        line_end(c, k) == line_end(c, j),
    decreases j - k,
{
    if k < j {
        lemma_line_end_passes(c, k + 1, j);
    }
}

proof fn lemma_line_end_clear(b: Seq<u8>, k: int)
    requires
        0 <= k <= b.len(),
    ensures
        forall|m: int| k <= m < line_end(b, k) ==> #[trigger] b[m] != NEWLINE,
        line_end(b, k) < b.len() ==> b[line_end(b, k)] == NEWLINE,
    decreases b.len() - k,
{
    if k < b.len() && b[k] != NEWLINE {
        lemma_line_end_clear(b, k + 1);
    }
}

proof fn lemma_passes_before(b: Seq<u8>, i: int, j: int)
    requires
        passes(b, i, j),
    ensures
        i <= j,
{
}

/// The gap in `with_gap(b, j, w)`: what stands before it agrees with `b`,
/// it is whitespace, and what follows it lexes as what follows `j` in `b`.
proof fn lemma_gap_shape(b: Seq<u8>, j: int, w: Seq<u8>)
    requires
        0 <= j < b.len(),
        is_space(b[j]),
        w.len() >= 1,
        all_space(w),
    ensures
        agree_below(b, with_gap(b, j, w), j),
        with_gap(b, j, w).len() == b.len() - 1 + w.len(),
        forall|m: int| j <= m < j + w.len() ==> #[trigger] with_gap(b, j, w)[m] == w[m - j],
        forall|k: int| j <= k <= j + w.len() ==> #[trigger] lex_from(with_gap(b, j, w), k) == lex_from(
            with_gap(b, j, w),
            j + w.len(),
        ),
        lex_from(with_gap(b, j, w), j + w.len()) == shift_result(lex_from(b, j), (w.len() - 1) as nat),
{
    let c = with_gap(b, j, w);
    let n = w.len() as int;
    let sfx = b.subrange(j + 1, b.len() as int);
    assert forall|m: int| 0 <= m < j implies #[trigger] b[m] == c[m] by {
        assert(c[m] == b.subrange(0, j)[m]);
    }
    assert forall|m: int| j <= m < j + n implies #[trigger] c[m] == w[m - j] by {
        assert(c[m] == (b.subrange(0, j) + w)[m]);
    }
    assert(c[j] == w[0]);
    assert forall|m: int| j <= m < j + n implies is_space(#[trigger] c[m]) by {
        assert(c[m] == w[m - j]);
    }
    assert forall|k: int| j <= k <= j + n implies #[trigger] lex_from(c, k) == lex_from(c, j + n) by {
        lemma_skip_space(c, k, j + n);
    }
    assert(c =~= (b.subrange(0, j) + w) + sfx);
    law_lexing_ignores_what_precedes(b.subrange(0, j) + w, sfx, 0);
    assert(b =~= b.subrange(0, j + 1) + sfx);
    law_lexing_ignores_what_precedes(b.subrange(0, j + 1), sfx, 0);
    lemma_shift_twice(lex_from(sfx, 0), (j + 1) as nat, (n - 1) as nat);
    assert(scan(b, j) == Scan::Skip { next: j + 1 });
}

/// A line comment that ends at the newline at `j` ends, in the gap, at the
/// first newline of `w`: lexing from it goes on after the gap.
proof fn lemma_gap_line_comment(b: Seq<u8>, j: int, w: Seq<u8>, i: int)
    requires
        0 <= i < j < b.len(),
        is_space(b[j]),
        w.len() >= 1,
        all_space(w),
        b[j] == NEWLINE ==> w.contains(NEWLINE),
        b[i] == SLASH,
        next_is(b, i, SLASH),
        line_end(b, i + 2) == j,
    ensures
        lex_from(with_gap(b, j, w), i) == lex_from(with_gap(b, j, w), j + w.len()),
        lex_from(b, i) == lex_from(b, j),
{
    let c = with_gap(b, j, w);
    lemma_gap_shape(b, j, w);
    lemma_line_end_clear(b, i + 2);
    assert(b[j] == NEWLINE);
    let t = choose|t: int| 0 <= t < w.len() && w[t] == NEWLINE;
    assert(c[j + t] == w[t]);
    assert(c[i] == b[i] && c[i + 1] == b[i + 1]);
    assert forall|m: int| i + 2 <= m < j implies #[trigger] c[m] != NEWLINE by {
        assert(b[m] != NEWLINE);
        assert(b[m] == c[m]);
    }
    lemma_line_end_passes(c, i + 2, j);
    lemma_line_end_bounds(c, j, j + t);
    let e = line_end(c, i + 2);
    assert(scan(c, i) == Scan::Skip { next: e });
    assert(lex_from(c, i) == lex_from(c, e));
    assert(j <= e <= j + w.len());
    assert(lex_from(c, e) == lex_from(c, j + w.len()));
}

proof fn lemma_gap_from(b: Seq<u8>, j: int, w: Seq<u8>, i: int)
    requires
        0 <= j < b.len(),
        is_space(b[j]),
        w.len() >= 1,
        all_space(w),
        b[j] == NEWLINE ==> w.contains(NEWLINE),
        0 <= i <= j,
        passes(b, i, j),
    ensures
        lex_from(with_gap(b, j, w), i) == shift_result(lex_from(b, i), (w.len() - 1) as nat),
    decreases j - i,
{
    let c = with_gap(b, j, w);
    lemma_gap_shape(b, j, w);
    if i < j {
        lemma_scan_progress(b, i);
        match scan(b, i) {
            Scan::Skip { next } => lemma_passes_before(b, next, j),
            Scan::Emit { next, .. } => lemma_passes_before(b, next, j),
            Scan::Fail { .. } => {},
        }
        if b[i] == SLASH && next_is(b, i, SLASH) && line_end(b, i + 2) == j {
            lemma_gap_line_comment(b, j, w, i);
        } else {
            lemma_scan_agree(b, c, j, i);
            match scan(b, i) {
                Scan::Skip { next } => lemma_gap_from(b, j, w, next),
                Scan::Emit { next, .. } => lemma_gap_from(b, j, w, next),
                Scan::Fail { .. } => {},
            }
        }
    }
}

/// Law: how much whitespace stands between tokens, and of which kind, does
/// not matter. Where lexing passes a whitespace byte (between tokens, outside
/// every comment), putting any nonempty run of whitespace in its place, with
/// a newline in it if the byte was one, changes no token; the offsets of
/// errors after it move by the difference in length.
pub proof fn law_whitespace_between_tokens_is_free(b: Seq<u8>, j: int, w: Seq<u8>)
    requires
        0 <= j < b.len(),
        passes(b, 0, j),
        is_space(b[j]),
        w.len() >= 1,
        all_space(w),
        b[j] == NEWLINE ==> w.contains(NEWLINE),
    ensures
        lex_bytes(with_gap(b, j, w)) == shift_result(lex_bytes(b), (w.len() - 1) as nat),
{
    lemma_gap_from(b, j, w, 0);
}

/// Where the tokens of `lex_from(b, i)` start, but for the final `Eof`.
pub open spec fn token_starts(b: Seq<u8>, i: int) -> Seq<int>
    decreases b.len() - i,
    via token_starts_decreases
{
    if i < 0 || i >= b.len() {
        Seq::empty()
    } else {
        match scan(b, i) {
            Scan::Skip { next } => token_starts(b, next),
            Scan::Emit { next, .. } => seq![i] + token_starts(b, next),
            Scan::Fail { .. } => Seq::empty(),
        }
    }
}

#[via_fn]
proof fn token_starts_decreases(b: Seq<u8>, i: int) {
    if 0 <= i < b.len() {
        lemma_scan_progress(b, i);
    }
}

/// No run of digits goes on across position `i`: the bytes on either side of
/// it are not both digits.
pub open spec fn digit_boundary(b: Seq<u8>, i: int) -> bool {
    i <= 0 || i >= b.len() || !is_digit(b[i - 1]) || !is_digit(b[i])
}

/// The token `t` that starts at position `p` is as written there: a number
/// is the value of the whole run of digits that starts at `p` (no digit
/// before it, and it ends where the digits end), and a `-` is a `Minus`
/// token.
pub open spec fn token_from(b: Seq<u8>, p: int, t: TokenView) -> bool {
    &&& 0 <= p < b.len()
    &&& (t matches TokenView::Number(n) ==> {
        &&& is_digit(b[p])
        &&& (p == 0 || !is_digit(b[p - 1]))
        &&& n == decimal_value(b.subrange(p, digits_end(b, p)))
    })
    &&& (b[p] == MINUS ==> t == TokenView::Minus)
}

proof fn lemma_digits_end_stops(b: Seq<u8>, k: int)
    requires
        0 <= k <= b.len(),
    ensures
        digits_end(b, k) < b.len() ==> !is_digit(b[digits_end(b, k)]),
    decreases b.len() - k,
{
    if k < b.len() && is_digit(b[k]) {
        lemma_digits_end_stops(b, k + 1);
    }
}

proof fn lemma_ident_end_stops(b: Seq<u8>, k: int)
    requires
        0 <= k <= b.len(),
    ensures
        ident_end(b, k) < b.len() ==> !is_ident_char(b[ident_end(b, k)]),
    decreases b.len() - k,
{
    if k < b.len() && is_ident_char(b[k]) {
        lemma_ident_end_stops(b, k + 1);
    }
}

proof fn lemma_comment_close_found(b: Seq<u8>, k: int)
    requires
        0 <= k,
    ensures
        comment_close(b, k) matches Some(m) ==> b[m + 1] == SLASH,
    decreases b.len() - k,
{
    if k + 1 < b.len() && !(b[k] == ASTERISK && b[k + 1] == SLASH) {
        lemma_comment_close_found(b, k + 1);
    }
}

/// A step that does not fail ends where no run of digits goes on.
proof fn lemma_step_boundary(b: Seq<u8>, i: int)
    requires
        0 <= i < b.len(),
    ensures
        scan(b, i) matches Scan::Skip { next } ==> digit_boundary(b, next),
        scan(b, i) matches Scan::Emit { next, .. } ==> digit_boundary(b, next),
{
    let c = b[i];
    if !is_space(c) {
        if c == SLASH && next_is(b, i, SLASH) {
            lemma_line_end_clear(b, i + 2);
        } else if c == SLASH && next_is(b, i, ASTERISK) {
            lemma_comment_close_found(b, i + 2);
            lemma_comment_close(b, i + 2);
        } else {
            lemma_digits_end(b, i);
            lemma_digits_end_stops(b, i);
            lemma_ident_end(b, i);
            lemma_ident_end_stops(b, i);
        }
    }
}

/// The token emitted at a position where no run of digits goes on is as
/// written there.
proof fn lemma_emitted_token(b: Seq<u8>, i: int)
    requires
        0 <= i < b.len(),
        digit_boundary(b, i),
    ensures
        scan(b, i) matches Scan::Emit { token, .. } ==> token_from(b, i, token),
{
    let c = b[i];
    if is_digit(c) && !is_space(c) && one_byte_token(c) is None {
        let j = digits_end(b, i);
        lemma_digits_end(b, i);
        let run = b.subrange(i, j);
        assert forall|m: int| 0 <= m < run.len() implies is_digit(#[trigger] run[m]) by {
            assert(run[m] == b[i + m]);
        }
        lemma_decimal_nonneg(run);
    }
}

proof fn lemma_tokens_as_written(b: Seq<u8>, i: int)
    requires
        0 <= i,
        digit_boundary(b, i),
        lex_from(b, i) is Ok,
    ensures
        token_starts(b, i).len() + 1 == lex_from(b, i)->Ok_0.len(),
        forall|k: int|
            0 <= k < token_starts(b, i).len() ==> token_from(
                b,
                #[trigger] token_starts(b, i)[k],
                lex_from(b, i)->Ok_0[k],
            ),
    decreases b.len() - i,
{
    if i < b.len() {
        lemma_scan_progress(b, i);
        lemma_step_boundary(b, i);
        match scan(b, i) {
            Scan::Skip { next } => lemma_tokens_as_written(b, next),
            Scan::Emit { token, next } => {
                lemma_emitted_token(b, i);
                lemma_tokens_as_written(b, next);
                let ps = token_starts(b, next);
                let ts = lex_from(b, next)->Ok_0;
                assert forall|k: int| 0 <= k < (seq![i] + ps).len() implies token_from(
                    b,
                    #[trigger] (seq![i] + ps)[k],
                    (seq![token] + ts)[k],
                ) by {
                    if k > 0 {
                        assert((seq![i] + ps)[k] == ps[k - 1]);
                        assert((seq![token] + ts)[k] == ts[k - 1]);
                    }
                }
            },
            Scan::Fail { .. } => {},
        }
    }
}

/// Law: numbers and minus signs lex as written. Every token of a source
/// that lexes starts at a position of it (`token_starts`); a `Number` token
/// there is the value of the whole run of decimal digits that starts at that
/// position, leading zeros allowed, with no digit just before it; and a `-`
/// that is lexed is a `Minus` token of its own, never the sign of a number.
pub proof fn law_tokens_as_written(b: Seq<u8>)
    requires
        lex_bytes(b) is Ok,
    ensures
        token_starts(b, 0).len() + 1 == lex_bytes(b)->Ok_0.len(),
        forall|k: int|
            0 <= k < token_starts(b, 0).len() ==> token_from(
                b,
                #[trigger] token_starts(b, 0)[k],
                lex_bytes(b)->Ok_0[k],
            ),
{
    lemma_tokens_as_written(b, 0);
}

/// An ASCII letter (`A`..=`Z`, `a`..=`z`) or an underscore.
pub open spec fn ascii_word_start(c: u8) -> bool {
    (65 <= c <= 90) || (97 <= c <= 122) || c == 95
}

/// An ASCII letter, an ASCII digit (`0`..=`9`) or an underscore.
pub open spec fn ascii_word_char(c: u8) -> bool {
    ascii_word_start(c) || (48 <= c <= 57)
}

/// One of the keywords `int`, `void` and `return`.
pub open spec fn is_keyword(w: Seq<u8>) -> bool {
    ||| w == seq![105u8, 110u8, 116u8]
    ||| w == seq![118u8, 111u8, 105u8, 100u8]
    ||| w == seq![114u8, 101u8, 116u8, 117u8, 114u8, 110u8]
}

/// A name: a nonempty run of ASCII letters, digits and underscores that
/// starts with a letter or an underscore and is no keyword.
pub open spec fn is_name(w: Seq<u8>) -> bool {
    &&& w.len() > 0
    &&& ascii_word_start(w[0])
    &&& forall|i: int| 0 <= i < w.len() ==> ascii_word_char(#[trigger] w[i])
    &&& !is_keyword(w)
}

proof fn lemma_name_run(b: Seq<u8>, n: int, k: int)
    requires
        0 <= k <= n <= b.len(),
        forall|i: int| 0 <= i < n ==> ascii_word_char(#[trigger] b[i]),
        n == b.len() || !ascii_word_char(b[n]),
    ensures
        ident_end(b, k) == n,
    decreases n - k,
{
    if k < n {
        assert(ascii_word_char(b[k]));
        lemma_name_run(b, n, k + 1);
    }
}

/// A name at the start of `b`, ending where `b` ends or before a space, is
/// one identifier token, and lexing goes on after it.
proof fn lemma_name_at_start(w: Seq<u8>, b: Seq<u8>)
    requires
        is_name(w),
        b.len() >= w.len(),
        b.subrange(0, w.len() as int) == w,
        b.len() == w.len() || b[w.len() as int] == 32,
    ensures
        scan(b, 0) == (Scan::Emit {
            token: TokenView::Ident(w.map_values(|c: u8| c as char)),
            next: w.len() as int,
        }),
{
    assert forall|i: int| 0 <= i < w.len() implies ascii_word_char(#[trigger] b[i]) by {
        assert(b[i] == b.subrange(0, w.len() as int)[i]);
    }
    assert(b[0] == w[0]);
    lemma_name_run(b, w.len() as int, 0);
    assert(b.subrange(0, ident_end(b, 0)) == w);
}

/// Law: names lex as themselves. A name (a nonempty run of ASCII letters,
/// digits and underscores that starts with a letter or an underscore and is
/// no keyword), alone or followed by a space, lexes to one identifier token
/// that carries the name.
pub proof fn law_names_lex_as_identifiers(w: Seq<u8>)
    requires
        is_name(w),
    ensures
        lex_bytes(w) == Ok::<Seq<TokenView>, ErrorView>(
            seq![TokenView::Ident(w.map_values(|c: u8| c as char)), TokenView::Eof],
        ),
        lex_bytes(w.push(32u8)) == Ok::<Seq<TokenView>, ErrorView>(
            seq![TokenView::Ident(w.map_values(|c: u8| c as char)), TokenView::Eof],
        ),
{
    let t = TokenView::Ident(w.map_values(|c: u8| c as char));
    assert(w.subrange(0, w.len() as int) =~= w);
    lemma_name_at_start(w, w);
    assert(lex_from(w, w.len() as int) == Ok::<Seq<TokenView>, ErrorView>(seq![TokenView::Eof]));
    assert(seq![t] + seq![TokenView::Eof] =~= seq![t, TokenView::Eof]);
    let b = w.push(32u8);
    assert(b.subrange(0, w.len() as int) =~= w);
    lemma_name_at_start(w, b);
    assert(scan(b, w.len() as int) == Scan::Skip { next: b.len() as int });
    assert(lex_from(b, b.len() as int) == Ok::<Seq<TokenView>, ErrorView>(seq![TokenView::Eof]));
    assert(lex_from(b, w.len() as int) == Ok::<Seq<TokenView>, ErrorView>(seq![TokenView::Eof]));
    assert(lex_from(b, 0) == Ok::<Seq<TokenView>, ErrorView>(seq![t] + seq![TokenView::Eof]));
}

/// Every prefix of a run of digits has a value no greater than the whole run.
proof fn lemma_decimal_prefix(s: Seq<u8>, n: int)
    requires
        0 <= n <= s.len(),
        forall|m: int| 0 <= m < s.len() ==> is_digit(#[trigger] s[m]),
    ensures
        0 <= decimal_value(s.take(n)) <= decimal_value(s),
    decreases s.len() - n,
{
    lemma_decimal_nonneg(s);
    if n < s.len() {
        lemma_decimal_prefix(s.drop_last(), n);
        assert(s.drop_last().take(n) =~= s.take(n));
        lemma_decimal_nonneg(s.drop_last());
    } else {
        assert(s.take(n) =~= s);
    }
}

proof fn lemma_decimal_nonneg(s: Seq<u8>)
    requires
        forall|m: int| 0 <= m < s.len() ==> is_digit(#[trigger] s[m]),
    ensures
        decimal_value(s) >= 0,
    decreases s.len(),
{
    if s.len() > 0 {
        lemma_decimal_nonneg(s.drop_last());
    }
}

/// What the lexer does at one position, as computed.
pub enum Scanned {
    Skip { next: usize },
    Emit { token: Token, next: usize },
    Fail { error: CompileError },
}

impl View for Scanned {
    type V = Scan;

    open spec fn view(&self) -> Scan {
        match self {
            Scanned::Skip { next } => Scan::Skip { next: *next as int },
            Scanned::Emit { token, next } => Scan::Emit { token: token@, next: *next as int },
            Scanned::Fail { error } => Scan::Fail { error: error@ },
        }
    }
}

fn scan_digits(b: &[u8], i: usize) -> (r: Scanned)
    requires
        i < b.len(),
        is_digit(b@[i as int]),
    ensures
        r@ == scan(b@, i as int),
{
    let ghost s = b@;
    proof {
        lemma_digits_end(s, i as int);
    }
    let mut j = i;
    while j < b.len() && DIGIT_ZERO <= b[j] && b[j] <= DIGIT_NINE
        invariant
            i <= j <= b.len(),
            s == b@,
            digits_end(s, i as int) == digits_end(s, j as int),
        decreases b.len() - j,
    {
        j = j + 1;
    }
    let ghost run = s.subrange(i as int, j as int);
    proof {
        lemma_digits_end(s, i as int);
        assert forall|m: int| 0 <= m < run.len() implies is_digit(#[trigger] run[m]) by {
            assert(run[m] == s[i + m]);
        }
    }
    let mut value: i64 = 0;
    let mut k = i;
    while k < j
        invariant
            i <= k <= j <= b.len(),
            s == b@,
            run == s.subrange(i as int, j as int),
            j == digits_end(s, i as int),
            forall|m: int| 0 <= m < run.len() ==> is_digit(#[trigger] run[m]),
            value == decimal_value(s.subrange(i as int, k as int)),
        decreases j - k,
    {
        assert(run[k - i] == s[k as int]);
        let d: i64 = (b[k] - DIGIT_ZERO) as i64;
        let ghost prefix = s.subrange(i as int, k + 1);
        assert(prefix.drop_last() =~= s.subrange(i as int, k as int));
        proof {
            lemma_decimal_nonneg(s.subrange(i as int, k as int));
            assert(run.take(k - i) =~= s.subrange(i as int, k as int));
        }
        if value > (i64::MAX - d) / 10 {
            proof {
                assert(value * 10 + d > i64::MAX) by (nonlinear_arith)
                    requires
                        value > (i64::MAX - d) / 10,
                        0 <= d <= 9,
                ;
                assert(decimal_value(prefix) > i64::MAX);
                assert(run.take(k + 1 - i) =~= prefix);
                lemma_decimal_prefix(run, k + 1 - i);
            }
            return Scanned::Fail { error: CompileError::InvalidIntegerLiteral { offset: i } };
        }
        assert(value * 10 + d <= i64::MAX) by (nonlinear_arith)
            requires
                value <= (i64::MAX - d) / 10,
                0 <= d <= 9,
                value >= 0,
        ;
        value = value * 10 + d;
        k = k + 1;
    }
    Scanned::Emit { token: Token::Number(value), next: j }
}

fn scan_word(b: &[u8], i: usize) -> (r: Scanned)
    requires
        i < b.len(),
        is_ident_start(b@[i as int]),
        !is_digit(b@[i as int]),
    ensures
        r@ == scan(b@, i as int),
{
    let ghost s = b@;
    proof {
        lemma_ident_end(s, i as int);
    }
    let mut j = i;
    while j < b.len() && (LOWER_A <= b[j] && b[j] <= LOWER_Z || UPPER_A <= b[j] && b[j] <= UPPER_Z
        || b[j] == UNDERSCORE || DIGIT_ZERO <= b[j] && b[j] <= DIGIT_NINE)
        invariant
            i <= j <= b.len(),
            s == b@,
            ident_end(s, i as int) == ident_end(s, j as int),
        decreases b.len() - j,
    {
        j = j + 1;
    }
    let ghost w = s.subrange(i as int, j as int);
    let len = j - i;
    if len == 3 && b[i] == 105 && b[i + 1] == 110 && b[i + 2] == 116 {
        assert(w =~= seq![105u8, 110u8, 116u8]);
        return Scanned::Emit { token: Token::Int, next: j };
    }
    if len == 4 && b[i] == 118 && b[i + 1] == 111 && b[i + 2] == 105 && b[i + 3] == 100 {
        assert(w =~= seq![118u8, 111u8, 105u8, 100u8]);
        return Scanned::Emit { token: Token::Void, next: j };
    }
    if len == 6 && b[i] == 114 && b[i + 1] == 101 && b[i + 2] == 116 && b[i + 3] == 117 && b[i
        + 4] == 114 && b[i + 5] == 110 {
        assert(w =~= seq![114u8, 101u8, 116u8, 117u8, 114u8, 110u8]);
        return Scanned::Emit { token: Token::Return, next: j };
    }
    proof {
        if w =~= seq![105u8, 110u8, 116u8] {
            assert(w[0] == s[i as int] && w[1] == s[i + 1] && w[2] == s[i + 2]);
        }
        if w =~= seq![118u8, 111u8, 105u8, 100u8] {
            assert(w[0] == s[i as int] && w[1] == s[i + 1] && w[2] == s[i + 2] && w[3] == s[i
                + 3]);
        }
        if w =~= seq![114u8, 101u8, 116u8, 117u8, 114u8, 110u8] {
            assert(w[0] == s[i as int] && w[1] == s[i + 1] && w[2] == s[i + 2] && w[3] == s[i
                + 3] && w[4] == s[i + 4] && w[5] == s[i + 5]);
        }
    }
    let mut name = String::new();
    let mut k = i;
    while k < j
        invariant
            i <= k <= j <= b.len(),
            s == b@,
            name@ =~= s.subrange(i as int, k as int).map_values(|c: u8| c as char),
        decreases j - k,
    {
        push_char(&mut name, b[k] as char);
        k = k + 1;
    }
    Scanned::Emit { token: Token::Ident(name), next: j }
}

/// The step of the lexer at position `i`.
pub fn scan_at(b: &[u8], i: usize) -> (r: Scanned)
    requires
        i < b.len(),
    ensures
        r@ == scan(b@, i as int),
{
    let ghost s = b@;
    let c = b[i];
    let has_next = i + 1 < b.len();
    if c == SPACE || c == TAB || c == CARRIAGE_RETURN || c == NEWLINE {
        return Scanned::Skip { next: i + 1 };
    }
    if c == SLASH && has_next && b[i + 1] == SLASH {
        let mut k = i + 2;
        while k < b.len() && b[k] != NEWLINE
            invariant
                i + 2 <= k <= b.len(),
                s == b@,
                line_end(s, i + 2) == line_end(s, k as int),
            decreases b.len() - k,
        {
            k = k + 1;
        }
        return Scanned::Skip { next: k };
    }
    if c == SLASH && has_next && b[i + 1] == ASTERISK {
        let mut k = i + 2;
        let last = b.len() - 1;
        while k < last && !(b[k] == ASTERISK && b[k + 1] == SLASH)
            invariant
                i + 2 <= k,
                last == b.len() - 1,
                s == b@,
                comment_close(s, i + 2) == comment_close(s, k as int),
            decreases b.len() - k,
        {
            k = k + 1;
        }
        if k >= last {
            return Scanned::Fail { error: CompileError::UnterminatedComment { offset: i } };
        }
        return Scanned::Skip { next: k + 2 };
    }
    if has_next {
        let d = b[i + 1];
        if c == EQUALS && d == EQUALS {
            return Scanned::Emit { token: Token::EqEq, next: i + 2 };
        }
        if c == BANG && d == EQUALS {
            return Scanned::Emit { token: Token::NotEq, next: i + 2 };
        }
        if c == LESS && d == EQUALS {
            return Scanned::Emit { token: Token::Le, next: i + 2 };
        }
        if c == GREATER && d == EQUALS {
            return Scanned::Emit { token: Token::Ge, next: i + 2 };
        }
        if c == LESS && d == LESS {
            return Scanned::Emit { token: Token::Shl, next: i + 2 };
        }
        if c == GREATER && d == GREATER {
            return Scanned::Emit { token: Token::Shr, next: i + 2 };
        }
    }
    let single = if c == BANG {
        Some(Token::Bang)
    } else if c == TILDE {
        Some(Token::Tilde)
    } else if c == AMPERSAND {
        Some(Token::Amp)
    } else if c == CARET {
        Some(Token::Caret)
    } else if c == PIPE {
        Some(Token::Pipe)
    } else if c == LESS {
        Some(Token::Lt)
    } else if c == GREATER {
        Some(Token::Gt)
    } else if c == PLUS {
        Some(Token::Plus)
    } else if c == MINUS {
        Some(Token::Minus)
    } else if c == ASTERISK {
        Some(Token::Star)
    } else if c == SLASH {
        Some(Token::Slash)
    } else if c == PERCENT {
        Some(Token::Percent)
    } else if c == LEFT_PAREN {
        Some(Token::LParen)
    } else if c == RIGHT_PAREN {
        Some(Token::RParen)
    } else if c == LEFT_BRACE {
        Some(Token::LBrace)
    } else if c == RIGHT_BRACE {
        Some(Token::RBrace)
    } else if c == SEMICOLON {
        Some(Token::Semi)
    } else {
        None
    };
    match single {
        Some(token) => {
            return Scanned::Emit { token, next: i + 1 };
        },
        None => {},
    }
    if DIGIT_ZERO <= c && c <= DIGIT_NINE {
        return scan_digits(b, i);
    }
    if LOWER_A <= c && c <= LOWER_Z || UPPER_A <= c && c <= UPPER_Z || c == UNDERSCORE {
        return scan_word(b, i);
    }
    Scanned::Fail { error: CompileError::UnexpectedByte { byte: c, offset: i } }
}

/// The tokens in front of the rest of a lexing, or the rest's error.
pub open spec fn after_tokens(
    done: Seq<TokenView>,
    rest: Result<Seq<TokenView>, ErrorView>,
) -> Result<Seq<TokenView>, ErrorView> {
    match rest {
        Ok(ts) => Ok(done + ts),
        Err(e) => Err(e),
    }
}

/// Splits a source file into tokens. On success the last token is `Eof`; the
/// result is exactly `lex_bytes` of the source's bytes.
pub fn lex(source: &str) -> (r: Result<Vec<Token>, CompileError>)
    ensures
        match lex_bytes(source.spec_bytes()) {
            Ok(ts) => r is Ok && token_views(r->Ok_0@) == ts,
            Err(e) => r is Err && r->Err_0@ == e,
        },
{
    let b = source.as_bytes();
    let mut out: Vec<Token> = Vec::new();
    let mut i: usize = 0;
    while i < b.len()
        invariant
            i <= b.len(),
            b@ == source.spec_bytes(),
            lex_bytes(b@) == after_tokens(token_views(out@), lex_from(b@, i as int)),
        decreases b.len() - i,
    {
        let ghost before = token_views(out@);
        proof {
            lemma_scan_progress(b@, i as int);
        }
        match scan_at(b, i) {
            Scanned::Skip { next } => {
                i = next;
            },
            Scanned::Emit { token, next } => {
                let ghost t = token@;
                out.push(token);
                assert(token_views(out@) =~= before + seq![t]);
                proof {
                    match lex_from(b@, next as int) {
                        Ok(ts) => {
                            assert(before + (seq![t] + ts) =~= before + seq![t] + ts);
                        },
                        Err(_) => {},
                    }
                }
                i = next;
            },
            Scanned::Fail { error } => {
                return Err(error);
            },
        }
    }
    let ghost before = token_views(out@);
    out.push(Token::Eof);
    assert(token_views(out@) =~= before + seq![TokenView::Eof]);
    Ok(out)
}

} // verus!
