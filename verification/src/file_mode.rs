//! Unix permissions as text.

use vstd::prelude::*;
use crate::number::{digit_value, octal3};

verus! {

/// Which of reading, writing and running three permission bits allow, as letters.
pub open spec fn rwx(bits: u32) -> Seq<char> {
    seq![
        if bits & 4 != 0 {
            'r'
        } else {
            '-'
        },
        if bits & 2 != 0 {
            'w'
        } else {
            '-'
        },
        if bits & 1 != 0 {
            'x'
        } else {
            '-'
        },
    ]
}

/// The letter for a kind of file. A symbolic link is one whatever else it is.
pub open spec fn kind_letter(is_dir: bool, is_symlink: bool) -> char {
    if is_symlink {
        'l'
    } else if is_dir {
        'd'
    } else {
        '-'
    }
}

/// A mode as `ls -l` shows it: the kind, then what the owner, the group and all others may do.
pub open spec fn mode_text(mode: u32, is_dir: bool, is_symlink: bool) -> Seq<char> {
    seq![kind_letter(is_dir, is_symlink)] + rwx((mode >> 6) & 7) + rwx((mode >> 3) & 7) + rwx(
        mode & 7,
    )
}

/// The octal digit that three permission letters stand for.
pub open spec fn letters_value(letters: Seq<char>) -> int {
    (if letters[0] == 'r' {
        4int
    } else {
        0
    }) + (if letters[1] == 'w' {
        2int
    } else {
        0
    }) + (if letters[2] == 'x' {
        1int
    } else {
        0
    })
}

/// The letters of a mode and its octal digits say the same: each group of three letters
/// stands for the digit in its place.
pub proof fn law_mode_letters_match_digits(mode: u32, is_dir: bool, is_symlink: bool)
    ensures
        mode_text(mode, is_dir, is_symlink).len() == 10,
        octal3(mode).len() == 3,
        forall|k: int|
            0 <= k < 3 ==> letters_value(
                mode_text(mode, is_dir, is_symlink).subrange(1 + 3 * k, 4 + 3 * k),
            ) == digit_value(#[trigger] octal3(mode)[k]),
{
    let text = mode_text(mode, is_dir, is_symlink);
    let a = (mode >> 6) & 7;
    let b = (mode >> 3) & 7;
    let c = mode & 7;
    lemma_letters(a);
    lemma_letters(b);
    lemma_letters(c);
    assert(a < 8 && b < 8 && c < 8) by (bit_vector)
        requires
            a == (mode >> 6) & 7,
            b == (mode >> 3) & 7,
            c == mode & 7,
    ;
    assert(text.subrange(1, 4) =~= rwx(a));
    assert(text.subrange(4, 7) =~= rwx(b));
    assert(text.subrange(7, 10) =~= rwx(c));
    assert forall|k: int| 0 <= k < 3 implies letters_value(text.subrange(1 + 3 * k, 4 + 3 * k))
        == digit_value(#[trigger] octal3(mode)[k]) by {
        assert(k == 0 || k == 1 || k == 2);
    }
}

/// What stands in a place that is marked or not.
pub open spec fn mark(on: bool, letter: char) -> char {
    if on {
        letter
    } else {
        '-'
    }
}

/// A mode is shown bit by bit: behind the letter of the kind stand r, w and x for the owner, the
/// group and all others, each where the bit for it is set and a dash where it is not; the octal
/// digits are those of the nine bits. Bits above them do not count.
pub proof fn law_mode_is_shown_bit_by_bit(mode: u32, is_dir: bool, is_symlink: bool)
    ensures
        ({
            let text = mode_text(mode, is_dir, is_symlink);
            &&& text.len() == 10
            &&& is_symlink ==> text[0] == 'l'
            &&& !is_symlink && is_dir ==> text[0] == 'd'
            &&& !is_symlink && !is_dir ==> text[0] == '-'
            &&& text[1] == mark(mode & 256 != 0, 'r')
            &&& text[2] == mark(mode & 128 != 0, 'w')
            &&& text[3] == mark(mode & 64 != 0, 'x')
            &&& text[4] == mark(mode & 32 != 0, 'r')
            &&& text[5] == mark(mode & 16 != 0, 'w')
            &&& text[6] == mark(mode & 8 != 0, 'x')
            &&& text[7] == mark(mode & 4 != 0, 'r')
            &&& text[8] == mark(mode & 2 != 0, 'w')
            &&& text[9] == mark(mode & 1 != 0, 'x')
        }),
        octal3(mode).len() == 3,
        octal3(mode)[0] as u32 == 48 + (mode / 64) % 8,
        octal3(mode)[1] as u32 == 48 + (mode / 8) % 8,
        octal3(mode)[2] as u32 == 48 + mode % 8,
{
    let a = (mode >> 6) & 7;
    let b = (mode >> 3) & 7;
    let c = mode & 7;
    assert((a & 4 != 0) == (mode & 256 != 0) && (a & 2 != 0) == (mode & 128 != 0) && (a & 1 != 0)
        == (mode & 64 != 0)) by (bit_vector)
        requires
            a == (mode >> 6) & 7,
    ;
    assert((b & 4 != 0) == (mode & 32 != 0) && (b & 2 != 0) == (mode & 16 != 0) && (b & 1 != 0) == (
    mode & 8 != 0)) by (bit_vector)
        requires
            b == (mode >> 3) & 7,
    ;
    assert((c & 4 != 0) == (mode & 4 != 0) && (c & 2 != 0) == (mode & 2 != 0) && (c & 1 != 0) == (
    mode & 1 != 0)) by (bit_vector)
        requires
            c == mode & 7,
    ;
    assert(a == (mode / 64) % 8 && b == (mode / 8) % 8 && c == mode % 8) by (bit_vector)
        requires
            a == (mode >> 6) & 7,
            b == (mode >> 3) & 7,
            c == mode & 7,
    ;
}

/// The letters for three bits stand for the number that the bits make.
proof fn lemma_letters(bits: u32)
    ensures
        bits < 8 ==> letters_value(rwx(bits)) == bits,
{
    assert(bits < 8 ==> bits == (if bits & 4 != 0 {
        4u32
    } else {
        0u32
    }) + (if bits & 2 != 0 {
        2u32
    } else {
        0u32
    }) + (if bits & 1 != 0 {
        1u32
    } else {
        0u32
    })) by (bit_vector);
}

/// Renders three permission bits as letters.
pub fn rwx_triplet(bits: u32) -> (r: String)
    ensures
        r@ == rwx(bits),
{
    let mut r = String::new();
    r.push(if bits & 4 != 0 { 'r' } else { '-' });
    r.push(if bits & 2 != 0 { 'w' } else { '-' });
    r.push(if bits & 1 != 0 { 'x' } else { '-' });
    assert(r@ =~= rwx(bits));
    r
}

/// Renders a mode as `ls -l` shows it.
pub fn mode_to_string(mode: u32, is_dir: bool, is_symlink: bool) -> (r: String)
    ensures
        r@ == mode_text(mode, is_dir, is_symlink),
{
    let kind: char = if is_symlink {
        'l'
    } else if is_dir {
        'd'
    } else {
        '-'
    };
    let user = rwx_triplet((mode >> 6) & 7);
    let group = rwx_triplet((mode >> 3) & 7);
    let other = rwx_triplet(mode & 7);
    let mut r = String::new();
    r.push(kind);
    r.append(user.as_str());
    r.append(group.as_str());
    r.append(other.as_str());
    assert(r@ =~= mode_text(mode, is_dir, is_symlink));
    r
}

} // verus!
