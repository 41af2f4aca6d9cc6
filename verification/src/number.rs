//! Numbers as text: decimal rendering, port numbers, octal permission bits.

use vstd::prelude::*;
use crate::text::chars_of;

verus! {

/// The character that stands for the digit `d`.
pub open spec fn digit(d: int) -> char {
    ('0' as u32 + d) as char
}

/// Whether `c` is one of the ten decimal digits.
pub open spec fn is_digit(c: char) -> bool {
    '0' <= c <= '9'
}

/// The number that a decimal digit stands for.
pub open spec fn digit_value(c: char) -> int {
    c as u32 - '0' as u32
}

/// `n` in decimal, without leading zeros.
pub open spec fn decimal(n: nat) -> Seq<char>
    decreases n,
{
    if n < 10 {
        seq![digit(n as int)]
    } else {
        decimal(n / 10).push(digit((n % 10) as int))
    }
}

/// The number that a sequence of decimal digits stands for.
pub open spec fn decimal_value(digits: Seq<char>) -> nat
    decreases digits.len(),
{
    if digits.len() == 0 {
        0
    } else {
        (decimal_value(digits.drop_last()) * 10 + digit_value(digits.last())) as nat
    }
}

/// Whether every character is a decimal digit.
pub open spec fn all_digits(text: Seq<char>) -> bool {
    forall|i: int| 0 <= i < text.len() ==> is_digit(#[trigger] text[i])
}

/// `text` without the plus sign that a number may begin with.
pub open spec fn unsigned_part(text: Seq<char>) -> Seq<char> {
    if 0 < text.len() && text[0] == '+' {
        text.skip(1)
    } else {
        text
    }
}

/// The port that a text names: an optional plus sign and at least one decimal digit, with a
/// value that fits sixteen bits.
pub open spec fn port_number(text: Seq<char>) -> Option<u16> {
    let digits = unsigned_part(text);
    if 0 < digits.len() && all_digits(digits) && decimal_value(digits) <= u16::MAX {
        Some(decimal_value(digits) as u16)
    } else {
        None
    }
}

/// A longer run of digits stands for no smaller number.
proof fn lemma_value_grows(digits: Seq<char>, n: int)
    requires
        all_digits(digits),
        0 <= n <= digits.len(),
    ensures
        decimal_value(digits.take(n)) <= decimal_value(digits),
    decreases digits.len(),
{
    if n == digits.len() {
        assert(digits.take(n) =~= digits);
    } else {
        let shorter = digits.drop_last();
        assert(all_digits(shorter));
        lemma_value_grows(shorter, n);
        assert(shorter.take(n) =~= digits.take(n));
        assert(is_digit(digits[digits.len() - 1]));
    }
}

/// Renders `n` in decimal.
pub fn decimal_text(n: u64) -> (r: String)
    ensures
        r@ == decimal(n as nat),
    decreases n,
{
    let d: u8 = (n % 10) as u8;
    let c: char = (48u8 + d) as char;
    assert(c == digit((n % 10) as int));
    if n < 10 {
        let mut r = String::new();
        r.push(c);
        assert(r@ =~= decimal(n as nat));
        r
    } else {
        let mut r = decimal_text(n / 10);
        r.push(c);
        r
    }
}

/// `n` in decimal, with a minus sign where it is negative.
pub open spec fn signed_decimal(n: i64) -> Seq<char> {
    if n < 0 {
        seq!['-'] + decimal((-n) as nat)
    } else {
        decimal(n as nat)
    }
}

/// Renders `n` in decimal, with a minus sign where it is negative.
pub fn signed_decimal_text(n: i64) -> (r: String)
    ensures
        r@ == signed_decimal(n),
{
    if n < 0 {
        let size: u64 = (-(n + 1)) as u64 + 1;
        let digits = decimal_text(size);
        let mut r = String::new();
        r.push('-');
        r.append(digits.as_str());
        assert(r@ =~= signed_decimal(n));
        r
    } else {
        decimal_text(n as u64)
    }
}

/// Reads a port number.
pub fn parse_port(text: &str) -> (r: Option<u16>)
    ensures
        r == port_number(text@),
{
    let chars = chars_of(text);
    let start: usize = if chars.len() > 0 && chars[0] == '+' { 1 } else { 0 };
    let ghost digits = unsigned_part(text@);
    assert(digits =~= chars@.skip(start as int));
    if start == chars.len() {
        return None;
    }
    let mut value: u32 = 0;
    let mut i: usize = start;
    assert(digits.take(0) =~= Seq::<char>::empty());
    while i < chars.len()
        invariant
            start <= i <= chars@.len(),
            digits == chars@.skip(start as int),
            digits == unsigned_part(text@),
            all_digits(digits.take(i - start)),
            value == decimal_value(digits.take(i - start)),
            value <= 65535,
        decreases chars@.len() - i,
    {
        let c = chars[i];
        assert(digits[i - start] == c);
        if c < '0' || '9' < c {
            assert(!all_digits(digits));
            return None;
        }
        let ghost longer = digits.take(i - start + 1);
        assert(longer.drop_last() =~= digits.take(i - start));
        assert(longer.last() == c);
        assert(all_digits(longer)) by {
            assert forall|k: int| 0 <= k < longer.len() implies is_digit(#[trigger] longer[k]) by {
                if k < i - start {
                    assert(is_digit(digits.take(i - start)[k]));
                }
            }
        }
        let d: u32 = c as u32 - 48;
        let next: u32 = value * 10 + d;
        assert(next == decimal_value(longer));
        if next > 65535 {
            proof {
                if all_digits(digits) {
                    lemma_value_grows(digits, i - start + 1);
                }
            }
            return None;
        }
        value = next;
        i = i + 1;
    }
    assert(digits.take(i - start) =~= digits);
    Some(value as u16)
}

/// Every decimal rendering is made of digits and stands for the number rendered.
pub proof fn lemma_decimal_value(n: nat)
    ensures
        0 < decimal(n).len(),
        all_digits(decimal(n)),
        decimal_value(decimal(n)) == n,
    decreases n,
{
    let last = digit((n % 10) as int);
    assert(is_digit(last) && digit_value(last) == n % 10);
    if n < 10 {
        assert(decimal(n).drop_last() =~= Seq::<char>::empty());
        assert(decimal_value(Seq::<char>::empty()) == 0);
        assert(decimal_value(decimal(n)) == 0 * 10 + digit_value(last));
    } else {
        lemma_decimal_value(n / 10);
        assert(decimal(n).drop_last() =~= decimal(n / 10));
    }
}

/// A port that was rendered in decimal is read back as the same port.
pub proof fn law_port_text_round_trips(port: u16)
    ensures
        port_number(decimal(port as nat)) == Some(port),
{
    lemma_decimal_value(port as nat);
    assert(is_digit(decimal(port as nat)[0]));
    assert(unsigned_part(decimal(port as nat)) == decimal(port as nat));
}

/// Numbers are written with the ten digits from 0 to 9, and without leading zeros.
pub proof fn law_decimal_is_plain(n: nat)
    ensures
        n < 10 ==> decimal(n).len() == 1 && decimal(n)[0] as u32 == 48 + n,
        forall|i: int| 0 <= i < decimal(n).len() ==> 48 <= #[trigger] decimal(n)[i] as u32 <= 57,
        n >= 10 ==> decimal(n)[0] != '0' && decimal(n).len() == decimal(n / 10).len() + 1,
        n >= 10 ==> decimal(n).drop_last() == decimal(n / 10) && decimal(n).last() as u32 == 48 + n
            % 10,
    decreases n,
{
    lemma_decimal_value(n);
    assert forall|i: int| 0 <= i < decimal(n).len() implies 48 <= #[trigger] decimal(n)[i] as u32
        <= 57 by {
        assert(is_digit(decimal(n)[i]));
    }
    if n >= 10 {
        law_decimal_is_plain(n / 10);
        assert(decimal(n).drop_last() =~= decimal(n / 10));
        assert(decimal(n)[0] == decimal(n / 10)[0]);
        if n / 10 < 10 {
            assert(decimal(n / 10)[0] as u32 == 48 + n / 10);
        }
    }
}

/// A negative number is written as its opposite behind a minus sign, any other without a sign.
pub proof fn law_negative_numbers_have_a_sign(n: i64)
    ensures
        n >= 0 ==> signed_decimal(n) == decimal(n as nat),
        n < 0 ==> signed_decimal(n) == seq!['-'] + decimal((0 - n) as nat),
{
}

/// A text names a port if it is a decimal number up to 65535: a larger one does not, nor does a
/// text without digits or with anything else in it. A plus sign in front does not count, nor do
/// leading zeros.
pub proof fn law_ports_are_decimal_numbers(n: nat, text: Seq<char>)
    ensures
        port_number(decimal(n)) == if n <= 65535 {
            Some(n as u16)
        } else {
            None
        },
        text.len() > 0 && (forall|i: int| 0 <= i < text.len() ==> '0' <= #[trigger] text[i] <= '9')
            ==> port_number(seq!['+'] + text) == port_number(text) && port_number(seq!['0'] + text)
            == port_number(text),
        text.len() == 0 ==> port_number(text) is None,
        port_number(text) is Some ==> forall|i: int|
            0 <= i < text.len() ==> (i == 0 && text[0] == '+') || '0' <= #[trigger] text[i] <= '9',
        port_number(text) is Some ==> text != seq!['+'],
{
    let d = decimal(n);
    lemma_decimal_value(n);
    assert(is_digit(d[0]));
    assert(unsigned_part(d) == d);
    if text.len() > 0 && (forall|i: int| 0 <= i < text.len() ==> '0' <= #[trigger] text[i] <= '9') {
        assert((seq!['+'] + text).skip(1) =~= text);
        let zeroed = seq!['0'] + text;
        assert(unsigned_part(text) == text);
        assert(unsigned_part(zeroed) == zeroed);
        assert(all_digits(zeroed)) by {
            assert forall|i: int| 0 <= i < zeroed.len() implies is_digit(#[trigger] zeroed[i]) by {
                if i > 0 {
                    assert('0' <= text[i - 1] <= '9');
                }
            }
        }
        lemma_leading_zero(text);
    }
    if port_number(text) is Some {
        let digits = unsigned_part(text);
        assert forall|i: int| 0 <= i < text.len() implies (i == 0 && text[0] == '+') || '0'
            <= #[trigger] text[i] <= '9' by {
            if text[0] == '+' {
                if i > 0 {
                    assert(digits[i - 1] == text[i]);
                    assert(is_digit(digits[i - 1]));
                }
            } else {
                assert(is_digit(digits[i]));
            }
        }
        if text == seq!['+'] {
            assert(text.skip(1).len() == 0);
        }
    }
}

/// A zero in front does not change the number that digits stand for.
proof fn lemma_leading_zero(digits: Seq<char>)
    ensures
        decimal_value(seq!['0'] + digits) == decimal_value(digits),
    decreases digits.len(),
{
    let longer = seq!['0'] + digits;
    if digits.len() == 0 {
        assert(longer.drop_last() =~= digits);
        assert(decimal_value(longer) == decimal_value(digits) * 10 + digit_value(longer.last()));
    } else {
        assert(longer.drop_last() =~= seq!['0'] + digits.drop_last());
        lemma_leading_zero(digits.drop_last());
    }
}

/// The three octal digits of the lowest nine bits of `mode`.
pub open spec fn octal3(mode: u32) -> Seq<char> {
    seq![
        digit(((mode >> 6) & 7) as int),
        digit(((mode >> 3) & 7) as int),
        digit((mode & 7) as int),
    ]
}

/// Renders the lowest nine bits of `mode` as three octal digits.
pub fn octal3_text(mode: u32) -> (r: String)
    ensures
        r@ == octal3(mode),
{
    let a: u32 = (mode >> 6) & 7;
    let b: u32 = (mode >> 3) & 7;
    let c: u32 = mode & 7;
    assert(a < 8 && b < 8 && c < 8) by (bit_vector)
        requires
            a == (mode >> 6) & 7,
            b == (mode >> 3) & 7,
            c == mode & 7,
    ;
    let mut r = String::new();
    r.push((48u8 + a as u8) as char);
    r.push((48u8 + b as u8) as char);
    r.push((48u8 + c as u8) as char);
    assert(r@ =~= octal3(mode));
    r
}

} // verus!
