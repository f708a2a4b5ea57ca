//! The language's lexical grammar, as functions on byte sequences.
//!
//! A source buffer is a sequence of bytes. `token_at` says which token starts
//! at a given offset, `token_end` where that token stops, and `scan` is the
//! whole token sequence of a buffer.

use vstd::prelude::*;
use vstd::utf8::*;
use crate::parse::token::{SourceSpan, TokenKindView, TokenView};

verus! {

/// Horizontal tab.
pub const TAB: u8 = 0x09;

/// Line feed, the end of a line.
pub const NEWLINE: u8 = 0x0a;

/// Space.
pub const SPACE: u8 = 0x20;

/// `#`, which opens a comment.
pub const HASH: u8 = 0x23;

/// `(`
pub const OPEN_PAREN: u8 = 0x28;

/// `)`
pub const CLOSE_PAREN: u8 = 0x29;

/// `,`
pub const COMMA: u8 = 0x2c;

/// `-`
pub const DASH: u8 = 0x2d;

/// `0`, the first digit.
pub const DIGIT_ZERO: u8 = 0x30;

/// `9`, the last digit.
pub const DIGIT_NINE: u8 = 0x39;

/// `:`
pub const COLON: u8 = 0x3a;

/// `>`, the second byte of an arrow.
pub const GREATER: u8 = 0x3e;

/// `@`, which marks a directive.
pub const AT_SIGN: u8 = 0x40;

/// `A`
pub const UPPER_A: u8 = 0x41;

/// `Z`
pub const UPPER_Z: u8 = 0x5a;

/// `[`
pub const OPEN_BRACKET: u8 = 0x5b;

/// `]`
pub const CLOSE_BRACKET: u8 = 0x5d;

/// `_`
pub const UNDERSCORE: u8 = 0x5f;

/// `a`
pub const LOWER_A: u8 = 0x61;

/// `z`
pub const LOWER_Z: u8 = 0x7a;

/// An ASCII letter.
pub open spec fn is_letter(b: u8) -> bool {
    (LOWER_A <= b <= LOWER_Z) || (UPPER_A <= b <= UPPER_Z)
}

/// A byte that may continue an identifier: a letter or an underscore.
pub open spec fn is_ident_byte(b: u8) -> bool {
    is_letter(b) || b == UNDERSCORE
}

/// An ASCII decimal digit.
pub open spec fn is_digit(b: u8) -> bool {
    DIGIT_ZERO <= b <= DIGIT_NINE
}

/// The byte classes that the variable-length tokens are made of.
pub enum ByteClass {
    /// Letters and underscore.
    Ident,
    /// Decimal digits.
    Digit,
    /// Everything but the newline.
    CommentText,
}

impl ByteClass {
    /// Whether `b` belongs to the class.
    pub open spec fn contains(self, b: u8) -> bool {
        match self {
            ByteClass::Ident => is_ident_byte(b),
            ByteClass::Digit => is_digit(b),
            ByteClass::CommentText => b != NEWLINE,
        }
    }
}

/// The byte at offset `i`, if the buffer has one there.
pub open spec fn byte_at(s: Seq<u8>, i: int) -> Option<u8> {
    if 0 <= i < s.len() {
        Some(s[i])
    } else {
        None
    }
}

/// `start..end` is the longest stretch of `class` bytes that begins at `start`.
pub open spec fn is_maximal_run(s: Seq<u8>, start: int, end: int, class: ByteClass) -> bool {
    &&& 0 <= start <= end <= s.len()
    &&& forall|k: int| start <= k < end ==> class.contains(#[trigger] s[k])
    &&& end < s.len() ==> !class.contains(s[end])
}

/// Where the longest stretch of `class` bytes that begins at `start` ends.
pub open spec fn run_end(s: Seq<u8>, start: int, class: ByteClass) -> int
    decreases s.len() - start,
{
    if 0 <= start < s.len() && class.contains(s[start]) {
        run_end(s, start + 1, class)
    } else {
        start
    }
}

/// The text that the bytes `start..end` spell.
pub open spec fn literal_text(s: Seq<u8>, start: int, end: int) -> Seq<char> {
    decode_utf8(s.subrange(start, end))
}

/// The one-based line of offset `i`: one more than the newlines before it.
pub open spec fn line_at(s: Seq<u8>, i: int) -> int
    decreases i,
{
    if i <= 0 {
        1
    } else if s[i - 1] == NEWLINE {
        line_at(s, i - 1) + 1
    } else {
        line_at(s, i - 1)
    }
}

/// The one-based column of offset `i`. Columns count bytes from the start of
/// the buffer and do not start over at a newline.
pub open spec fn column_at(i: int) -> int {
    i + 1
}

/// Where the token that starts at offset `i` ends.
pub open spec fn token_end(s: Seq<u8>, i: int) -> int {
    let b = s[i];
    if b == HASH {
        run_end(s, i + 1, ByteClass::CommentText)
    } else if b == DASH && byte_at(s, i + 1) == Some(GREATER) {
        i + 2
    } else if is_letter(b) {
        run_end(s, i, ByteClass::Ident)
    } else if is_digit(b) {
        run_end(s, i, ByteClass::Digit)
    } else {
        i + 1
    }
}

/// The kind of the token that starts at offset `i`.
pub open spec fn token_kind(s: Seq<u8>, i: int) -> TokenKindView {
    let b = s[i];
    let end = token_end(s, i);
    if b == NEWLINE {
        TokenKindView::EOL
    } else if b == SPACE || b == TAB {
        TokenKindView::Space
    } else if b == OPEN_BRACKET {
        TokenKindView::OpenBrace
    } else if b == CLOSE_BRACKET {
        TokenKindView::CloseBrace
    } else if b == OPEN_PAREN {
        TokenKindView::OpenParenthesis
    } else if b == CLOSE_PAREN {
        TokenKindView::CloseParenthesis
    } else if b == HASH {
        TokenKindView::Comment(literal_text(s, i + 1, end))
    } else if b == COLON {
        TokenKindView::Colon
    } else if b == COMMA {
        TokenKindView::Comma
    } else if b == AT_SIGN {
        TokenKindView::Directive
    } else if b == DASH {
        if byte_at(s, i + 1) == Some(GREATER) {
            TokenKindView::Arrow
        } else {
            TokenKindView::Dash
        }
    } else if is_letter(b) {
        TokenKindView::IdentLiteral(literal_text(s, i, end))
    } else if is_digit(b) {
        TokenKindView::Number(literal_text(s, i, end))
    } else {
        TokenKindView::Invalid
    }
}

/// The span `start..end` with the line and column of `start`.
pub open spec fn span_at(s: Seq<u8>, start: int, end: int) -> SourceSpan {
    SourceSpan {
        start,
        line: line_at(s, start),
        column: column_at(start),
        end,
        len: end - start,
    }
}

/// A token of the given kind over `start..end`, labelled as its kind is.
pub open spec fn token_of(s: Seq<u8>, kind: TokenKindView, start: int, end: int) -> TokenView {
    TokenView { lexme: kind.label(), kind, pos: span_at(s, start, end) }
}

/// The token that starts at offset `i`.
pub open spec fn token_at(s: Seq<u8>, i: int) -> TokenView {
    token_of(s, token_kind(s, i), i, token_end(s, i))
}

/// The tokens of the buffer from offset `i` on, in source order.
pub open spec fn scan_from(s: Seq<u8>, i: int) -> Seq<TokenView>
    decreases s.len() - i,
{
    if 0 <= i < s.len() {
        proof {
            lemma_token_end_bounds(s, i);
        }
        seq![token_at(s, i)] + scan_from(s, token_end(s, i))
    } else {
        Seq::empty()
    }
}

/// The tokens of the whole buffer.
pub open spec fn scan(s: Seq<u8>) -> Seq<TokenView> {
    scan_from(s, 0)
}

/// `run_end` is the end of the maximal run.
pub proof fn lemma_run_end_is_maximal(s: Seq<u8>, start: int, class: ByteClass)
    requires
        0 <= start <= s.len(),
    ensures
        is_maximal_run(s, start, run_end(s, start, class), class),
    decreases s.len() - start,
{
    if start < s.len() && class.contains(s[start]) {
        lemma_run_end_is_maximal(s, start + 1, class);
    }
}

/// A maximal run ends where `run_end` says, and nowhere else.
pub proof fn lemma_maximal_run_is_run_end(s: Seq<u8>, start: int, end: int, class: ByteClass)
    requires
        is_maximal_run(s, start, end, class),
    ensures
        end == run_end(s, start, class),
    decreases end - start,
{
    if start < end {
        assert(class.contains(s[start]));
        lemma_maximal_run_is_run_end(s, start + 1, end, class);
    }
}

/// Every token holds at least one byte and stays inside the buffer.
pub proof fn lemma_token_end_bounds(s: Seq<u8>, i: int)
    requires
        0 <= i < s.len(),
    ensures
        i < token_end(s, i) <= s.len(),
{
    lemma_run_end_is_maximal(s, i + 1, ByteClass::CommentText);
    lemma_run_end_is_maximal(s, i + 1, ByteClass::Ident);
    lemma_run_end_is_maximal(s, i + 1, ByteClass::Digit);
}

/// Offset `i` lies on a line between the first and the `i + 1`-th.
pub proof fn lemma_line_at_bounds(s: Seq<u8>, i: int)
    requires
        0 <= i,
    ensures
        1 <= line_at(s, i) <= i + 1,
    decreases i,
{
    if i > 0 {
        lemma_line_at_bounds(s, i - 1);
    }
}

} // verus!
