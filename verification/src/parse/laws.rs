//! What holds of every scan.
//!
//! The laws speak of `scan` and `scan_from`, in which `Lex::load` states what
//! it appends. Some ask for UTF-8 text: the bytes of a `str` are that
//! (`vstd::utf8::encode_utf8_valid_utf8`).

use vstd::prelude::*;
use vstd::utf8::*;
use crate::parse::grammar::{
    is_digit, is_letter, is_maximal_run, lemma_run_end_is_maximal, lemma_token_end_bounds,
    line_at, literal_text, scan, scan_from, token_at, token_end, token_kind, token_of, ByteClass,
    AT_SIGN, CLOSE_BRACKET, CLOSE_PAREN, COLON, COMMA, DASH, GREATER, HASH, NEWLINE,
    OPEN_BRACKET, OPEN_PAREN, SPACE, TAB, UNDERSCORE,
};
use crate::parse::text::{
    is_ascii_byte, lemma_char_starts_after_ascii, lemma_char_starts_at_ascii,
    lemma_text_between_boundaries,
};
use crate::parse::token::{TokenKindView, TokenView};

verus! {

/// One of the seven marks `[ ] ( ) : , @`, each a token by itself.
pub open spec fn is_mark(b: u8) -> bool {
    ||| b == OPEN_BRACKET
    ||| b == CLOSE_BRACKET
    ||| b == OPEN_PAREN
    ||| b == CLOSE_PAREN
    ||| b == COLON
    ||| b == COMMA
    ||| b == AT_SIGN
}

/// The kind of the token that a mark is.
pub open spec fn mark_kind(b: u8) -> TokenKindView {
    if b == OPEN_BRACKET {
        TokenKindView::OpenBrace
    } else if b == CLOSE_BRACKET {
        TokenKindView::CloseBrace
    } else if b == OPEN_PAREN {
        TokenKindView::OpenParenthesis
    } else if b == CLOSE_PAREN {
        TokenKindView::CloseParenthesis
    } else if b == COLON {
        TokenKindView::Colon
    } else if b == COMMA {
        TokenKindView::Comma
    } else {
        TokenKindView::Directive
    }
}

/// A byte that some token of the language starts with.
pub open spec fn starts_token(b: u8) -> bool {
    ||| is_mark(b)
    ||| b == NEWLINE
    ||| b == SPACE
    ||| b == TAB
    ||| b == HASH
    ||| b == DASH
    ||| is_letter(b)
    ||| is_digit(b)
}

/// The tokens `tokens` lie end to end over `from..to`: the first starts at
/// `from`, each next one starts where the one before it ends, the last ends
/// at `to`, and none is empty.
pub open spec fn tiles(tokens: Seq<TokenView>, from: int, to: int) -> bool {
    &&& tokens.len() == 0 <==> from == to
    &&& tokens.len() > 0 ==> tokens[0].pos.start == from && tokens.last().pos.end == to
    &&& forall|k: int|
        0 <= k < tokens.len() ==> from <= (#[trigger] tokens[k]).pos.start < tokens[k].pos.end
            <= to
    &&& forall|k: int|
        0 <= k < tokens.len() - 1 ==> (#[trigger] tokens[k]).pos.end == tokens[k + 1].pos.start
}

/// The bytes that a token of this kind is written with, as far as the kind
/// tells: a run of white space is spelled as one space, and an invalid
/// token as nothing.
pub open spec fn spelling(kind: TokenKindView) -> Seq<u8> {
    match kind {
        TokenKindView::EOL => seq![NEWLINE],
        TokenKindView::Space => seq![SPACE],
        TokenKindView::OpenBrace => seq![OPEN_BRACKET],
        TokenKindView::CloseBrace => seq![CLOSE_BRACKET],
        TokenKindView::OpenParenthesis => seq![OPEN_PAREN],
        TokenKindView::CloseParenthesis => seq![CLOSE_PAREN],
        TokenKindView::Colon => seq![COLON],
        TokenKindView::Comma => seq![COMMA],
        TokenKindView::Directive => seq![AT_SIGN],
        TokenKindView::Dash => seq![DASH],
        TokenKindView::Arrow => seq![DASH, GREATER],
        TokenKindView::Comment(text) => seq![HASH] + encode_utf8(text),
        TokenKindView::IdentLiteral(text) => encode_utf8(text),
        TokenKindView::Number(text) => encode_utf8(text),
        TokenKindView::Invalid => Seq::empty(),
    }
}

/// The spellings of the tokens, one after the other.
pub open spec fn spell_all(tokens: Seq<TokenView>) -> Seq<u8>
    decreases tokens.len(),
{
    if tokens.len() == 0 {
        Seq::empty()
    } else {
        spelling(tokens[0].kind) + spell_all(tokens.drop_first())
    }
}

/// The token's kind tells which bytes it was read from: it is not an invalid
/// token, and if it is white space, it was read from a space.
pub open spec fn kind_tells_bytes(s: Seq<u8>, token: TokenView) -> bool {
    &&& !(token.kind is Invalid)
    &&& token.kind is Space ==> s[token.pos.start] == SPACE
}

/// The bytes `start..end`, each read as a character.
pub open spec fn ascii_text(s: Seq<u8>, start: int, end: int) -> Seq<char> {
    Seq::new((end - start) as nat, |k: int| s[start + k] as char)
}

/// The text that ASCII bytes spell is the bytes themselves, each read as a
/// character.
pub proof fn lemma_ascii_literal_text(s: Seq<u8>, start: int, end: int)
    requires
        0 <= start <= end <= s.len(),
        forall|k: int| start <= k < end ==> is_ascii_byte(#[trigger] s[k]),
    ensures
        literal_text(s, start, end) == ascii_text(s, start, end),
{
    let chars = ascii_text(s, start, end);
    assert forall|k: int| 0 <= k < chars.len() implies '\0' <= #[trigger] chars[k] <= '\u{7f}'
        && chars[k] as u8 == s[start + k] by {
        assert(is_ascii_byte(s[start + k]));
    }
    is_ascii_chars_encode_utf8(chars);
    assert(encode_utf8(chars) =~= s.subrange(start, end));
    encode_utf8_decode_utf8(chars);
}

/// At a letter starts an identifier: the longest run of letters and
/// underscores from there on, with those bytes as its text.
pub proof fn lemma_identifier_at_letter(s: Seq<u8>, i: int)
    requires
        0 <= i < s.len(),
        is_letter(s[i]),
    ensures
        is_maximal_run(s, i, token_end(s, i), ByteClass::Ident),
        token_kind(s, i) == TokenKindView::IdentLiteral(ascii_text(s, i, token_end(s, i))),
{
    lemma_run_end_is_maximal(s, i, ByteClass::Ident);
    lemma_ascii_literal_text(s, i, token_end(s, i));
}

/// At a digit starts a number: the longest run of digits from there on,
/// with those bytes as its text.
pub proof fn lemma_number_at_digit(s: Seq<u8>, i: int)
    requires
        0 <= i < s.len(),
        is_digit(s[i]),
    ensures
        is_maximal_run(s, i, token_end(s, i), ByteClass::Digit),
        token_kind(s, i) == TokenKindView::Number(ascii_text(s, i, token_end(s, i))),
{
    lemma_run_end_is_maximal(s, i, ByteClass::Digit);
    lemma_ascii_literal_text(s, i, token_end(s, i));
}

/// At a `#` starts a comment: it runs up to the next newline, or to the end
/// of the buffer where none follows, and its text is what stands between
/// the `#` and that place.
pub proof fn lemma_comment_at_hash(s: Seq<u8>, i: int)
    requires
        0 <= i < s.len(),
        s[i] == HASH,
    ensures
        is_maximal_run(s, i + 1, token_end(s, i), ByteClass::CommentText),
        token_kind(s, i) == TokenKindView::Comment(literal_text(s, i + 1, token_end(s, i))),
{
    lemma_run_end_is_maximal(s, i + 1, ByteClass::CommentText);
}

/// In UTF-8 text, the text of every comment, identifier and number is
/// UTF-8 text itself.
pub proof fn lemma_literal_is_utf8(s: Seq<u8>, i: int)
    requires
        valid_utf8(s),
        0 <= i < s.len(),
    ensures
        s[i] == HASH ==> valid_utf8(s.subrange(i + 1, token_end(s, i))),
        is_letter(s[i]) || is_digit(s[i]) ==> valid_utf8(s.subrange(i, token_end(s, i))),
{
    let end = token_end(s, i);
    lemma_token_end_bounds(s, i);
    if s[i] == HASH {
        lemma_run_end_is_maximal(s, i + 1, ByteClass::CommentText);
        lemma_char_starts_after_ascii(s, i);
        if end < s.len() {
            lemma_char_starts_at_ascii(s, end);
        } else {
            is_char_boundary_start_end_of_seq(s);
        }
        lemma_text_between_boundaries(s, i + 1, end);
    } else if is_letter(s[i]) || is_digit(s[i]) {
        lemma_run_end_is_maximal(s, i, ByteClass::Ident);
        lemma_run_end_is_maximal(s, i, ByteClass::Digit);
        lemma_char_starts_at_ascii(s, i);
        assert(is_ascii_byte(s[end - 1]));
        lemma_char_starts_after_ascii(s, end - 1);
        lemma_text_between_boundaries(s, i, end);
    }
}

/// The scan from `i` on consists of the tokens that start where the one
/// before ended, and together they cover the buffer from `i` to its end.
pub proof fn lemma_scan_from_tiles(s: Seq<u8>, i: int)
    requires
        0 <= i <= s.len(),
    ensures
        tiles(scan_from(s, i), i, s.len() as int),
        forall|k: int|
            0 <= k < scan_from(s, i).len() ==> #[trigger] scan_from(s, i)[k] == token_at(
                s,
                scan_from(s, i)[k].pos.start,
            ),
    decreases s.len() - i,
{
    if i < s.len() {
        let next = token_end(s, i);
        let rest = scan_from(s, next);
        let all = scan_from(s, i);
        lemma_token_end_bounds(s, i);
        lemma_scan_from_tiles(s, next);
        assert(all =~= seq![token_at(s, i)] + rest);
        assert forall|k: int| 0 <= k < all.len() implies i <= (#[trigger] all[k]).pos.start
            < all[k].pos.end <= s.len() && all[k] == token_at(s, all[k].pos.start) by {
            if k > 0 {
                assert(all[k] == rest[k - 1]);
            }
        }
        assert forall|k: int| 0 <= k < all.len() - 1 implies (#[trigger] all[k]).pos.end == all[k
            + 1].pos.start by {
            assert(all[k + 1] == rest[k]);
            if k > 0 {
                assert(all[k] == rest[k - 1]);
            }
        }
        if rest.len() > 0 {
            assert(all.last() == rest.last());
        }
    }
}

/// Every scan runs to completion: the tokens of a buffer cover it from its
/// first byte to its last, end to end, whatever bytes it holds. Each is the
/// token that the grammar puts at its start, with a well-formed span and the
/// label of its kind.
pub proof fn lemma_scan_covers_buffer(s: Seq<u8>)
    ensures
        tiles(scan(s), 0, s.len() as int),
        forall|k: int|
            0 <= k < scan(s).len() ==> #[trigger] scan(s)[k] == token_at(s, scan(s)[k].pos.start),
        forall|k: int|
            0 <= k < scan(s).len() ==> (#[trigger] scan(s)[k]).pos.wf() && scan(s)[k].lexme
                == scan(s)[k].kind.label(),
{
    lemma_scan_from_tiles(s, 0);
}

/// No line comes before an earlier one.
pub proof fn lemma_line_at_is_monotonic(s: Seq<u8>, i: int, j: int)
    requires
        0 <= i <= j,
    ensures
        line_at(s, i) <= line_at(s, j),
    decreases j - i,
{
    if i < j {
        lemma_line_at_is_monotonic(s, i, j - 1);
    }
}

/// Tokens come in source order: a later token starts at or after the end of
/// an earlier one, at a greater column, and on no earlier line.
pub proof fn lemma_positions_are_monotonic(s: Seq<u8>, j: int, k: int)
    requires
        0 <= j < k < scan(s).len(),
    ensures
        scan(s)[j].pos.end <= scan(s)[k].pos.start,
        scan(s)[j].pos.column < scan(s)[k].pos.column,
        scan(s)[j].pos.line <= scan(s)[k].pos.line,
    decreases k - j,
{
    lemma_scan_from_tiles(s, 0);
    let tokens = scan(s);
    assert(tokens[k - 1].pos.end == tokens[k].pos.start);
    if j < k - 1 {
        lemma_positions_are_monotonic(s, j, k - 1);
    }
    assert(tokens[j] == token_at(s, tokens[j].pos.start));
    assert(tokens[k] == token_at(s, tokens[k].pos.start));
    lemma_line_at_is_monotonic(s, tokens[j].pos.start, tokens[k].pos.start);
}

/// The empty buffer has no tokens, and no other buffer has none.
pub proof fn lemma_scan_empty(s: Seq<u8>)
    ensures
        scan(s).len() == 0 <==> s.len() == 0,
{
    lemma_scan_from_tiles(s, 0);
}

/// A byte that starts no token of the language does not end the scan: it
/// becomes an invalid token of one byte at its own offset, and the tokens of
/// the rest of the buffer follow it.
pub proof fn lemma_scan_goes_on_after_invalid(s: Seq<u8>, i: int)
    requires
        0 <= i < s.len(),
        !starts_token(s[i]),
    ensures
        token_at(s, i) == token_of(s, TokenKindView::Invalid, i, i + 1),
        scan_from(s, i) == seq![token_at(s, i)] + scan_from(s, i + 1),
{
}

/// A token is invalid exactly where the byte at its start is one that
/// starts no token of the language.
pub proof fn lemma_invalid_exactly_at_foreign_byte(s: Seq<u8>, i: int)
    requires
        0 <= i < s.len(),
    ensures
        token_kind(s, i) is Invalid <==> !starts_token(s[i]),
{
}

/// A byte that no token but a comment holds: it starts none, and it is
/// neither the underscore of an identifier nor the `>` of an arrow.
pub open spec fn is_foreign(b: u8) -> bool {
    !starts_token(b) && b != UNDERSCORE && b != GREATER
}

proof fn lemma_covering_token_from(s: Seq<u8>, from: int, i: int) -> (k: int)
    requires
        0 <= from <= i < s.len(),
    ensures
        0 <= k < scan_from(s, from).len(),
        scan_from(s, from)[k].pos.start <= i < scan_from(s, from)[k].pos.end,
    decreases s.len() - from,
{
    let next = token_end(s, from);
    lemma_token_end_bounds(s, from);
    assert(scan_from(s, from) =~= seq![token_at(s, from)] + scan_from(s, next));
    if i < next {
        0
    } else {
        let k = lemma_covering_token_from(s, next, i);
        assert(scan_from(s, from)[k + 1] == scan_from(s, next)[k]);
        k + 1
    }
}

/// Every byte of the buffer lies in the span of a token, whose index the
/// proof returns.
pub proof fn lemma_offset_is_covered(s: Seq<u8>, i: int) -> (k: int)
    requires
        0 <= i < s.len(),
    ensures
        0 <= k < scan(s).len(),
        scan(s)[k].pos.start <= i < scan(s)[k].pos.end,
{
    lemma_covering_token_from(s, 0, i)
}

/// A foreign byte never goes unseen: it lies in a comment, or it is an
/// invalid token of one byte at its own offset. The proof returns the index
/// of that token.
pub proof fn lemma_foreign_byte_is_reported(s: Seq<u8>, i: int) -> (k: int)
    requires
        0 <= i < s.len(),
        is_foreign(s[i]),
    ensures
        0 <= k < scan(s).len(),
        scan(s)[k].pos.start <= i < scan(s)[k].pos.end,
        scan(s)[k].kind is Comment || scan(s)[k] == token_of(s, TokenKindView::Invalid, i, i + 1),
{
    let k = lemma_offset_is_covered(s, i);
    lemma_scan_from_tiles(s, 0);
    let token = scan(s)[k];
    let start = token.pos.start;
    assert(token == token_at(s, start));
    lemma_run_end_is_maximal(s, start, ByteClass::Ident);
    lemma_run_end_is_maximal(s, start, ByteClass::Digit);
    if is_letter(s[start]) {
        assert(ByteClass::Ident.contains(s[i]));
    } else if is_digit(s[start]) {
        assert(ByteClass::Digit.contains(s[i]));
    }
    k
}

/// In a buffer made of the marks `[ ] ( ) : , @` alone, every byte is one
/// token: the `i`-th token is the mark at offset `i`, and its span is
/// `i..i + 1`.
pub proof fn lemma_marks_scan_one_to_one(s: Seq<u8>)
    requires
        forall|i: int| 0 <= i < s.len() ==> is_mark(#[trigger] s[i]),
    ensures
        scan(s).len() == s.len(),
        forall|i: int|
            0 <= i < s.len() ==> #[trigger] scan(s)[i] == token_of(s, mark_kind(s[i]), i, i + 1),
{
    lemma_marks_scan_from(s, 0);
    assert forall|i: int| 0 <= i < s.len() implies #[trigger] scan(s)[i] == token_of(
        s,
        mark_kind(s[i]),
        i,
        i + 1,
    ) by {
        assert(scan(s)[i] == scan_from(s, 0)[i - 0]);
    }
}

proof fn lemma_marks_scan_from(s: Seq<u8>, from: int)
    requires
        0 <= from <= s.len(),
        forall|i: int| 0 <= i < s.len() ==> is_mark(#[trigger] s[i]),
    ensures
        scan_from(s, from).len() == s.len() - from,
        forall|i: int|
            from <= i < s.len() ==> #[trigger] scan_from(s, from)[i - from] == token_of(
                s,
                mark_kind(s[i]),
                i,
                i + 1,
            ),
    decreases s.len() - from,
{
    if from < s.len() {
        assert(is_mark(s[from]));
        lemma_marks_scan_from(s, from + 1);
        let all = scan_from(s, from);
        let rest = scan_from(s, from + 1);
        assert(all =~= seq![token_at(s, from)] + rest);
        assert forall|i: int| from <= i < s.len() implies #[trigger] all[i - from] == token_of(
            s,
            mark_kind(s[i]),
            i,
            i + 1,
        ) by {
            if i > from {
                assert(all[i - from] == rest[i - (from + 1)]);
            }
        }
    }
}

/// A token whose kind tells its bytes is spelled as the bytes of its span.
pub proof fn lemma_spelling_is_span(s: Seq<u8>, i: int)
    requires
        valid_utf8(s),
        0 <= i < s.len(),
        kind_tells_bytes(s, token_at(s, i)),
    ensures
        spelling(token_kind(s, i)) == s.subrange(i, token_end(s, i)),
{
    let end = token_end(s, i);
    lemma_token_end_bounds(s, i);
    lemma_literal_is_utf8(s, i);
    if s[i] == HASH {
        decode_utf8_encode_utf8(s.subrange(i + 1, end));
        assert(seq![HASH] + s.subrange(i + 1, end) =~= s.subrange(i, end));
    } else if is_letter(s[i]) || is_digit(s[i]) {
        decode_utf8_encode_utf8(s.subrange(i, end));
    } else {
        assert(spelling(token_kind(s, i)) =~= s.subrange(i, end));
    }
}

proof fn lemma_round_trip_from(s: Seq<u8>, i: int)
    requires
        valid_utf8(s),
        0 <= i <= s.len(),
        forall|k: int|
            0 <= k < scan_from(s, i).len() ==> kind_tells_bytes(s, #[trigger] scan_from(s, i)[k]),
    ensures
        spell_all(scan_from(s, i)) == s.subrange(i, s.len() as int),
    decreases s.len() - i,
{
    if i < s.len() {
        let next = token_end(s, i);
        let rest = scan_from(s, next);
        let all = scan_from(s, i);
        lemma_token_end_bounds(s, i);
        assert(all =~= seq![token_at(s, i)] + rest);
        assert(all.drop_first() =~= rest);
        assert(all[0] == token_at(s, i));
        assert forall|k: int| 0 <= k < rest.len() implies kind_tells_bytes(
            s,
            #[trigger] rest[k],
        ) by {
            assert(rest[k] == all[k + 1]);
        }
        lemma_round_trip_from(s, next);
        lemma_spelling_is_span(s, i);
        assert(s.subrange(i, next) + s.subrange(next, s.len() as int) =~= s.subrange(
            i,
            s.len() as int,
        ));
    } else {
        assert(s.subrange(i, s.len() as int) =~= Seq::<u8>::empty());
    }
}

/// Spelling the tokens of a buffer of UTF-8 text one after the other gives
/// the buffer back, byte for byte, provided that the kind of each token
/// tells its bytes.
pub proof fn lemma_round_trip(s: Seq<u8>)
    requires
        valid_utf8(s),
        forall|k: int| 0 <= k < scan(s).len() ==> kind_tells_bytes(s, #[trigger] scan(s)[k]),
    ensures
        spell_all(scan(s)) == s,
{
    assert forall|k: int| 0 <= k < scan_from(s, 0).len() implies kind_tells_bytes(
        s,
        #[trigger] scan_from(s, 0)[k],
    ) by {
        assert(scan_from(s, 0)[k] == scan(s)[k]);
    }
    lemma_round_trip_from(s, 0);
    assert(s.subrange(0, s.len() as int) =~= s);
}

/// No token is spelled with more bytes than its span holds.
proof fn lemma_spelling_fits_span(s: Seq<u8>, i: int)
    requires
        valid_utf8(s),
        0 <= i < s.len(),
    ensures
        spelling(token_kind(s, i)).len() <= token_end(s, i) - i,
{
    let end = token_end(s, i);
    lemma_token_end_bounds(s, i);
    lemma_literal_is_utf8(s, i);
    if s[i] == HASH {
        decode_utf8_encode_utf8(s.subrange(i + 1, end));
    } else if is_letter(s[i]) || is_digit(s[i]) {
        decode_utf8_encode_utf8(s.subrange(i, end));
    }
}

proof fn lemma_spell_all_fits_buffer(s: Seq<u8>, i: int)
    requires
        valid_utf8(s),
        0 <= i <= s.len(),
    ensures
        spell_all(scan_from(s, i)).len() <= s.len() - i,
    decreases s.len() - i,
{
    if i < s.len() {
        let all = scan_from(s, i);
        let rest = scan_from(s, token_end(s, i));
        lemma_token_end_bounds(s, i);
        assert(all =~= seq![token_at(s, i)] + rest);
        assert(all.drop_first() =~= rest);
        lemma_spelling_fits_span(s, i);
        lemma_spell_all_fits_buffer(s, token_end(s, i));
    }
}

proof fn lemma_round_trip_fails_from(s: Seq<u8>, i: int, k: int)
    requires
        valid_utf8(s),
        0 <= i <= s.len(),
        0 <= k < scan_from(s, i).len(),
        !kind_tells_bytes(s, scan_from(s, i)[k]),
    ensures
        spell_all(scan_from(s, i)) != s.subrange(i, s.len() as int),
    decreases k,
{
    let next = token_end(s, i);
    let all = scan_from(s, i);
    let rest = scan_from(s, next);
    let first = spelling(token_kind(s, i));
    let whole = s.subrange(i, s.len() as int);
    lemma_token_end_bounds(s, i);
    assert(all =~= seq![token_at(s, i)] + rest);
    assert(all.drop_first() =~= rest);
    assert(spell_all(all) == first + spell_all(rest));
    if !kind_tells_bytes(s, token_at(s, i)) {
        if token_kind(s, i) is Invalid {
            lemma_spell_all_fits_buffer(s, next);
        } else {
            assert(spell_all(all)[0] == SPACE);
            assert(whole[0] == s[i]);
        }
    } else {
        assert(rest[k - 1] == all[k]);
        lemma_round_trip_fails_from(s, next, k - 1);
        lemma_spelling_is_span(s, i);
        if spell_all(all) == whole {
            assert(spell_all(rest) =~= spell_all(all).subrange(
                first.len() as int,
                spell_all(all).len() as int,
            ));
            assert(s.subrange(next, s.len() as int) =~= whole.subrange(
                first.len() as int,
                whole.len() as int,
            ));
        }
    }
}

/// Where the kind of some token does not tell its bytes, spelling the tokens
/// does not give the buffer back.
pub proof fn lemma_round_trip_fails_otherwise(s: Seq<u8>, k: int)
    requires
        valid_utf8(s),
        0 <= k < scan(s).len(),
        !kind_tells_bytes(s, scan(s)[k]),
    ensures
        spell_all(scan(s)) != s,
{
    lemma_round_trip_fails_from(s, 0, k);
    assert(s.subrange(0, s.len() as int) =~= s);
}

} // verus!
