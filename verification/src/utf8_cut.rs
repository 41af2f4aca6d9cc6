//! Texts in UTF-8 that are cut off somewhere: what is left may end within a character.

use vstd::prelude::*;
use vstd::slice::slice_subrange;
use vstd::utf8::{
    codepoint_width_2, codepoint_width_3, codepoint_width_4, is_continuation_byte,
    is_leading_byte_width_2, is_leading_byte_width_3, is_leading_byte_width_4,
    length_of_first_scalar, pop_first_scalar, valid_first_scalar, valid_utf8, valid_utf8_concat,
};
use crate::text::is_utf8;

verus! {

/// Whether bytes are UTF-8 but for a last character of which up to three bytes may be missing.
pub open spec fn begins_text(bytes: Seq<u8>) -> bool {
    exists|more: Seq<u8>| more.len() <= 3 && #[trigger] valid_utf8(bytes + more)
}

/// Whether a byte can follow the first byte of a character of several bytes.
pub open spec fn may_follow_first(first: u8, second: u8) -> bool {
    &&& is_continuation_byte(second)
    &&& first == 0xe0 ==> second >= 0xa0
    &&& first == 0xed ==> second <= 0x9f
    &&& first == 0xf0 ==> second >= 0x90
    &&& first == 0xf4 ==> second <= 0x8f
}

/// Whether bytes are the beginning of a character that has more bytes.
pub open spec fn is_cut_character(bytes: Seq<u8>) -> bool {
    &&& 0 < bytes.len() <= 3
    &&& 0xc2 <= bytes[0] <= 0xf4
    &&& bytes.len() >= 2 ==> bytes[0] >= 0xe0 && may_follow_first(bytes[0], bytes[1])
    &&& bytes.len() == 3 ==> bytes[0] >= 0xf0 && is_continuation_byte(bytes[2])
}

/// Which pairs of bytes are characters.
proof fn lemma_width_2(a: u8, b: u8)
    by (bit_vector)
    requires
        is_leading_byte_width_2(a),
        is_continuation_byte(b),
    ensures
        0x80 <= codepoint_width_2(a, b) <==> 0xc2 <= a,
        codepoint_width_2(a, b) <= 0x7ff,
{
}

/// Which three bytes are characters.
proof fn lemma_width_3(a: u8, b: u8, c: u8)
    by (bit_vector)
    requires
        is_leading_byte_width_3(a),
        is_continuation_byte(b),
        is_continuation_byte(c),
    ensures
        (0x800 <= codepoint_width_3(a, b, c) && !(0xd800 <= codepoint_width_3(a, b, c) <= 0xdfff))
            <==> (a == 0xe0 ==> b >= 0xa0) && (a == 0xed ==> b <= 0x9f),
{
}

/// Which four bytes are characters.
proof fn lemma_width_4(a: u8, b: u8, c: u8, d: u8)
    by (bit_vector)
    requires
        is_leading_byte_width_4(a),
        is_continuation_byte(b),
        is_continuation_byte(c),
        is_continuation_byte(d),
    ensures
        0x10000 <= codepoint_width_4(a, b, c, d) <= 0x10ffff <==> a <= 0xf4 && (a == 0xf0 ==> b
            >= 0x90) && (a == 0xf4 ==> b <= 0x8f),
{
}

/// What a character begins with, short of all of it, is the beginning of a character.
proof fn lemma_cut_within_character(bytes: Seq<u8>, n: int)
    requires
        valid_first_scalar(bytes),
        0 < n < length_of_first_scalar(bytes),
    ensures
        is_cut_character(bytes.take(n)),
{
    let width = length_of_first_scalar(bytes);
    if width == 2 {
        lemma_width_2(bytes[0], bytes[1]);
    } else if width == 3 {
        lemma_width_3(bytes[0], bytes[1], bytes[2]);
    } else {
        lemma_width_4(bytes[0], bytes[1], bytes[2], bytes[3]);
    }
}

/// The beginning of a character can be made whole.
proof fn lemma_cut_character_can_be_completed(bytes: Seq<u8>) -> (more: Seq<u8>)
    requires
        is_cut_character(bytes),
    ensures
        more.len() <= 3,
        valid_utf8(bytes + more),
{
    let a = bytes[0];
    let b: u8 = if bytes.len() >= 2 {
        bytes[1]
    } else if a == 0xe0 {
        0xa0
    } else if a == 0xf0 {
        0x90
    } else {
        0x80
    };
    let c: u8 = if bytes.len() >= 3 {
        bytes[2]
    } else {
        0x80
    };
    let whole = if a <= 0xdf {
        lemma_width_2(a, b);
        seq![a, b]
    } else if a <= 0xef {
        lemma_width_3(a, b, c);
        seq![a, b, c]
    } else {
        lemma_width_4(a, b, c, 0x80);
        seq![a, b, c, 0x80u8]
    };
    let more = whole.skip(bytes.len() as int);
    assert(bytes + more =~= whole);
    assert(valid_first_scalar(whole));
    assert(pop_first_scalar(whole) =~= Seq::<u8>::empty());
    assert(valid_utf8(pop_first_scalar(whole)));
    more
}

/// Where a text is cut off, at most three bytes of a character are left at the end of it; what
/// is in front of them is a text.
proof fn lemma_cut_text(bytes: Seq<u8>, n: int) -> (k: int)
    requires
        valid_utf8(bytes),
        0 <= n <= bytes.len(),
    ensures
        0 <= k <= 3,
        k <= n,
        valid_utf8(bytes.take(n - k)),
        k > 0 ==> is_cut_character(bytes.subrange(n - k, n)),
    decreases bytes.len(),
{
    if n == 0 {
        assert(bytes.take(0) =~= Seq::<u8>::empty());
        0
    } else {
        let width = length_of_first_scalar(bytes);
        if n < width {
            lemma_cut_within_character(bytes, n);
            assert(bytes.take(0) =~= Seq::<u8>::empty());
            assert(bytes.subrange(0, n) =~= bytes.take(n));
            n
        } else {
            let rest = pop_first_scalar(bytes);
            let k = lemma_cut_text(rest, n - width);
            let front = bytes.take(n - k);
            assert(rest.subrange(n - width - k, n - width) =~= bytes.subrange(n - k, n));
            assert(front.len() >= width);
            assert(valid_first_scalar(front));
            assert(pop_first_scalar(front) =~= rest.take(n - width - k));
            k
        }
    }
}

/// Bytes in front of the beginning of a character begin a text if they are one themselves.
proof fn lemma_text_and_cut_character(bytes: Seq<u8>, k: int)
    requires
        0 <= k <= bytes.len(),
        valid_utf8(bytes.take(bytes.len() - k)),
        k > 0 ==> is_cut_character(bytes.skip(bytes.len() - k)),
    ensures
        begins_text(bytes),
{
    let front = bytes.take(bytes.len() - k);
    if k == 0 {
        assert(front =~= bytes + Seq::<u8>::empty());
    } else {
        let tail = bytes.skip(bytes.len() - k);
        let more = lemma_cut_character_can_be_completed(tail);
        valid_utf8_concat(front, tail + more);
        assert(bytes + more =~= front + (tail + more));
    }
}

/// A text begins one wherever it is cut off.
pub proof fn law_cut_text_begins_text(text: Seq<u8>, n: int)
    requires
        valid_utf8(text),
        0 <= n <= text.len(),
    ensures
        begins_text(text.take(n)),
{
    let k = lemma_cut_text(text, n);
    let head = text.take(n);
    assert(head.take(n - k) =~= text.take(n - k));
    assert(head.skip(n - k) =~= text.subrange(n - k, n));
    lemma_text_and_cut_character(head, k);
}

/// Bytes begin a text only if there is a text that begins with them.
pub proof fn law_beginning_has_a_text(bytes: Seq<u8>)
    ensures
        begins_text(bytes) <==> exists|text: Seq<u8>| #[trigger]
            valid_utf8(text) && bytes.is_prefix_of(text),
{
    if begins_text(bytes) {
        let more = choose|more: Seq<u8>| more.len() <= 3 && #[trigger] valid_utf8(bytes + more);
        let text = bytes + more;
        assert(text.subrange(0, bytes.len() as int) =~= bytes);
        assert(valid_utf8(text) && bytes.is_prefix_of(text));
    }
    if exists|text: Seq<u8>| #[trigger] valid_utf8(text) && bytes.is_prefix_of(text) {
        let text = choose|text: Seq<u8>| #[trigger] valid_utf8(text) && bytes.is_prefix_of(text);
        law_cut_text_begins_text(text, bytes.len() as int);
        assert(text.take(bytes.len() as int) =~= bytes);
    }
}

/// Whether bytes are the beginning of a character that has more bytes.
fn ends_early(bytes: &[u8]) -> (r: bool)
    ensures
        r == is_cut_character(bytes@),
{
    let n: usize = bytes.len();
    if n == 0 || n > 3 {
        return false;
    }
    let first: u8 = bytes[0];
    if first < 0xc2 || first > 0xf4 {
        return false;
    }
    if n >= 2 {
        let second: u8 = bytes[1];
        if first < 0xe0 || second < 0x80 || second > 0xbf || (first == 0xe0 && second < 0xa0) || (
        first == 0xed && second > 0x9f) || (first == 0xf0 && second < 0x90) || (first == 0xf4
            && second > 0x8f) {
            return false;
        }
    }
    if n == 3 {
        let third: u8 = bytes[2];
        if first < 0xf0 || third < 0x80 || third > 0xbf {
            return false;
        }
    }
    true
}

/// Whether bytes are UTF-8 but for a last character of which bytes may be missing.
pub fn is_beginning_of_text(bytes: &[u8]) -> (r: bool)
    ensures
        r == begins_text(bytes@),
{
    let n: usize = bytes.len();
    let mut k: usize = 0;
    while k <= 3 && k <= n
        invariant
            n == bytes@.len(),
            k <= 4,
            forall|j: int|
                0 <= j < k && j <= n ==> !(#[trigger] valid_utf8(bytes@.take(n - j)) && (j == 0
                    || is_cut_character(bytes@.skip(n - j)))),
        decreases 4 - k,
    {
        let front = slice_subrange(bytes, 0, n - k);
        let tail = slice_subrange(bytes, n - k, n);
        assert(front@ =~= bytes@.take(n - k));
        assert(tail@ =~= bytes@.skip(n - k));
        if is_utf8(front) && (k == 0 || ends_early(tail)) {
            proof {
                lemma_text_and_cut_character(bytes@, k as int);
            }
            return true;
        }
        k = k + 1;
    }
    assert(!begins_text(bytes@)) by {
        if begins_text(bytes@) {
            let more = choose|more: Seq<u8>|
                more.len() <= 3 && #[trigger] valid_utf8(bytes@ + more);
            let whole = bytes@ + more;
            let j = lemma_cut_text(whole, n as int);
            assert(whole.take(n - j) =~= bytes@.take(n - j));
            assert(whole.subrange(n - j, n as int) =~= bytes@.skip(n - j));
            assert(valid_utf8(bytes@.take(n - j)));
        }
    }
    false
}

} // verus!
