//! Where a buffer of UTF-8 text may be cut.

use vstd::prelude::*;
use vstd::utf8::*;

verus! {

/// A byte of the ASCII range.
pub open spec fn is_ascii_byte(b: u8) -> bool {
    b <= 0x7f
}

/// In UTF-8 text an ASCII byte is a character of its own: one starts at it.
pub proof fn lemma_char_starts_at_ascii(s: Seq<u8>, i: int)
    requires
        valid_utf8(s),
        0 <= i < s.len(),
        is_ascii_byte(s[i]),
    ensures
        is_char_boundary(s, i),
{
    assert(is_leading_byte_width_1(s[i]));
    is_char_boundary_iff_is_leading_byte(s, i);
}

/// In UTF-8 text an ASCII byte is a character of its own: the next one
/// starts right after it.
pub proof fn lemma_char_starts_after_ascii(s: Seq<u8>, i: int)
    requires
        valid_utf8(s),
        0 <= i < s.len(),
        is_ascii_byte(s[i]),
    ensures
        is_char_boundary(s, i + 1),
{
    lemma_char_starts_at_ascii(s, i);
    valid_utf8_split(s, i);
    let tail = s.subrange(i, s.len() as int);
    assert(tail[0] == s[i]);
    assert(is_leading_byte_width_1(tail[0]));
    let rest = pop_first_scalar(tail);
    assert(rest =~= s.subrange(i + 1, s.len() as int));
    assert(valid_utf8(rest));
    if i + 1 < s.len() {
        is_char_boundary_start_end_of_seq(rest);
        is_char_boundary_iff_is_leading_byte(rest, 0);
        assert(rest[0] == s[i + 1]);
        is_char_boundary_iff_is_leading_byte(s, i + 1);
    } else {
        is_char_boundary_start_end_of_seq(s);
    }
}

/// Between two places where characters start lies UTF-8 text, and the first
/// place is one where a character starts in the text before the second.
pub proof fn lemma_text_between_boundaries(s: Seq<u8>, start: int, end: int)
    requires
        valid_utf8(s),
        0 <= start <= end <= s.len(),
        is_char_boundary(s, start),
        is_char_boundary(s, end),
    ensures
        valid_utf8(s.subrange(0, end)),
        is_char_boundary(s.subrange(0, end), start),
        valid_utf8(s.subrange(start, end)),
{
    let head = s.subrange(0, end);
    valid_utf8_split(s, end);
    if start < end {
        is_char_boundary_iff_is_leading_byte(s, start);
        assert(head[start] == s[start]);
        is_char_boundary_iff_is_leading_byte(head, start);
    } else {
        is_char_boundary_start_end_of_seq(head);
    }
    valid_utf8_split(head, start);
    assert(head.subrange(start, head.len() as int) =~= s.subrange(start, end));
}

} // verus!
