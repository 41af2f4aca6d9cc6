//! Text primitives: prefixes and suffixes, trimming and joining.

use vstd::prelude::*;

verus! {

/// `String::push` appends the given character to the end of the string.
pub assume_specification[ String::push ](s: &mut String, ch: char)
    ensures
        final(s)@ == old(s)@.push(ch),
;

/// The lower-case equivalent that `str::to_lowercase` gives for a text.
pub uninterp spec fn lowercase(text: Seq<char>) -> Seq<char>;

/// Calls `str::to_lowercase`. The full Unicode mapping is not written out: the result is
/// only named, as a function of the text alone.
#[verifier::external_body]
pub(crate) fn to_lowercase(text: &str) -> (r: String)
    ensures
        r@ == lowercase(text@),
{
    text.to_lowercase()
}

/// Calls `std::str::from_utf8` and reports whether it accepted the bytes, which it does
/// exactly when they are well-formed UTF-8.
#[verifier::external_body]
pub(crate) fn is_utf8(bytes: &[u8]) -> (r: bool)
    ensures
        r == vstd::utf8::valid_utf8(bytes@),
{
    std::str::from_utf8(bytes).is_ok()
}

/// What `String::from_utf8_lossy` makes of a byte string.
pub uninterp spec fn utf8_lossy(bytes: Seq<u8>) -> Seq<char>;

/// Calls `String::from_utf8_lossy`. The result is named; of well-formed bytes it is the text
/// that they encode.
#[verifier::external_body]
pub(crate) fn from_utf8_lossy(bytes: &[u8]) -> (r: String)
    ensures
        r@ == utf8_lossy(bytes@),
        vstd::utf8::valid_utf8(bytes@) ==> r@ == vstd::utf8::decode_utf8(bytes@),
{
    String::from_utf8_lossy(bytes).into_owned()
}

/// The characters of a text, in order.
pub fn chars_of(text: &str) -> (r: Vec<char>)
    ensures
        r@ == text@,
{
    let mut r: Vec<char> = Vec::new();
    for c in it: text.chars()
        invariant
            it.seq() == text@,
            r@ == text@.take(it.index() as int),
    {
        r.push(c);
        assert(text@.take(it.index() as int).push(c) =~= text@.take(it.index() + 1));
    }
    assert(text@.take(text@.len() as int) =~= text@);
    r
}

/// The text made of `chars[from..to]`.
pub fn text_of(chars: &Vec<char>, from: usize, to: usize) -> (r: String)
    requires
        from <= to <= chars@.len(),
    ensures
        r@ == chars@.subrange(from as int, to as int),
{
    let mut r = String::new();
    let mut i: usize = from;
    while i < to
        invariant
            from <= i <= to <= chars@.len(),
            r@ == chars@.subrange(from as int, i as int),
        decreases to - i,
    {
        r.push(chars[i]);
        assert(chars@.subrange(from as int, i as int).push(chars@[i as int]) =~= chars@.subrange(
            from as int,
            i + 1,
        ));
        i = i + 1;
    }
    r
}

/// Whether two strings of characters are the same.
pub fn same_chars(a: &Vec<char>, b: &Vec<char>) -> (r: bool)
    ensures
        r == (a@ == b@),
{
    if a.len() != b.len() {
        return false;
    }
    let mut i: usize = 0;
    while i < a.len()
        invariant
            a@.len() == b@.len(),
            i <= a@.len(),
            forall|k: int| 0 <= k < i ==> a@[k] == b@[k],
        decreases a@.len() - i,
    {
        if a[i] != b[i] {
            return false;
        }
        i = i + 1;
    }
    assert(a@ =~= b@);
    true
}

/// Whether two texts hold the same characters.
pub fn same_text(a: &str, b: &str) -> (r: bool)
    ensures
        r == (a@ == b@),
{
    same_chars(&chars_of(a), &chars_of(b))
}

/// Whether `chars` holds `part` at `at`.
fn holds_at(chars: &Vec<char>, at: usize, part: &Vec<char>) -> (r: bool)
    requires
        at <= chars@.len(),
    ensures
        r == part@.is_prefix_of(chars@.skip(at as int)),
{
    if chars.len() - at < part.len() {
        return false;
    }
    let mut i: usize = 0;
    while i < part.len()
        invariant
            at + part@.len() <= chars.len(),
            i <= part@.len(),
            forall|k: int| 0 <= k < i ==> chars@[at + k] == part@[k],
        decreases part@.len() - i,
    {
        if chars[at + i] != part[i] {
            assert(chars@.skip(at as int)[i as int] != part@[i as int]);
            assert(chars@.skip(at as int).subrange(0, part@.len() as int)[i as int] != part@[i as int]);
            return false;
        }
        i = i + 1;
    }
    assert(chars@.skip(at as int).subrange(0, part@.len() as int) =~= part@);
    true
}

/// Whether `text` begins with `prefix`.
pub fn starts_with(text: &str, prefix: &str) -> (r: bool)
    ensures
        r == prefix@.is_prefix_of(text@),
{
    let chars = chars_of(text);
    let part = chars_of(prefix);
    assert(chars@.skip(0) =~= text@);
    holds_at(&chars, 0, &part)
}

/// Whether `text` ends with `suffix`.
pub fn ends_with(text: &str, suffix: &str) -> (r: bool)
    ensures
        r == suffix@.is_suffix_of(text@),
{
    let chars = chars_of(text);
    let part = chars_of(suffix);
    if part.len() > chars.len() {
        return false;
    }
    let at: usize = chars.len() - part.len();
    assert(chars@.skip(at as int) =~= text@.subrange(at as int, text@.len() as int));
    assert(chars@.skip(at as int).subrange(0, part@.len() as int) =~= chars@.skip(at as int));
    holds_at(&chars, at, &part)
}

/// `text` with every leading copy of `prefix` taken off, one after the other.
pub open spec fn without_leading(text: Seq<char>, prefix: Seq<char>) -> Seq<char>
    decreases text.len(),
{
    if 0 < prefix.len() && prefix.is_prefix_of(text) {
        without_leading(text.skip(prefix.len() as int), prefix)
    } else {
        text
    }
}

/// `text` with every trailing copy of `suffix` taken off, one after the other.
pub open spec fn without_trailing(text: Seq<char>, suffix: Seq<char>) -> Seq<char>
    decreases text.len(),
{
    if 0 < suffix.len() && suffix.is_suffix_of(text) {
        without_trailing(text.take(text.len() - suffix.len()), suffix)
    } else {
        text
    }
}

/// Takes every leading copy of `prefix` off `text`.
pub fn trim_leading(text: &str, prefix: &str) -> (r: String)
    ensures
        r@ == without_leading(text@, prefix@),
{
    let chars = chars_of(text);
    let part = chars_of(prefix);
    let mut at: usize = 0;
    assert(chars@.skip(0) =~= text@);
    if part.len() > 0 {
        while holds_at(&chars, at, &part)
            invariant
                0 < part@.len(),
                part@ == prefix@,
                at <= chars.len(),
                without_leading(text@, prefix@) == without_leading(chars@.skip(at as int), prefix@),
            decreases chars@.len() - at,
        {
            assert(chars@.skip(at as int).skip(part@.len() as int) =~= chars@.skip(
                at + part@.len(),
            ));
            at = at + part.len();
        }
    }
    assert(chars@.skip(at as int) =~= chars@.subrange(at as int, chars@.len() as int));
    text_of(&chars, at, chars.len())
}

/// Takes every trailing copy of `suffix` off `text`.
pub fn trim_trailing(text: &str, suffix: &str) -> (r: String)
    ensures
        r@ == without_trailing(text@, suffix@),
{
    let chars = chars_of(text);
    let part = chars_of(suffix);
    let mut end: usize = chars.len();
    assert(chars@.take(end as int) =~= text@);
    if part.len() > 0 {
        while end >= part.len()
            invariant
                0 < part@.len(),
                part@ == suffix@,
                end <= chars@.len(),
                without_trailing(text@, suffix@) == without_trailing(chars@.take(end as int), suffix@),
            ensures
                end <= chars@.len(),
                without_trailing(text@, suffix@) == chars@.take(end as int),
            decreases end,
        {
            let at: usize = end - part.len();
            let ghost front = chars@.take(end as int);
            assert(part@.is_suffix_of(front) == part@.is_prefix_of(chars@.skip(at as int))) by {
                assert(front.subrange(at as int, end as int) =~= chars@.skip(at as int).subrange(
                    0,
                    part@.len() as int,
                ));
            }
            if !holds_at(&chars, at, &part) {
                break;
            }
            assert(front.take(at as int) =~= chars@.take(at as int));
            end = at;
        }
    }
    assert(chars@.take(end as int) =~= chars@.subrange(0, end as int));
    text_of(&chars, 0, end)
}

/// Takes one copy of `prefix` off `text`, where it begins with it.
pub fn strip_prefix(text: &str, prefix: &str) -> (r: Option<String>)
    ensures
        r is Some <==> prefix@.is_prefix_of(text@),
        r is Some ==> r->0@ == text@.skip(prefix@.len() as int),
{
    let chars = chars_of(text);
    let part = chars_of(prefix);
    assert(chars@.skip(0) =~= text@);
    if holds_at(&chars, 0, &part) {
        assert(text@.skip(prefix@.len() as int) =~= chars@.subrange(
            part@.len() as int,
            chars@.len() as int,
        ));
        Some(text_of(&chars, part.len(), chars.len()))
    } else {
        None
    }
}

/// Takes one copy of `suffix` off `text`, where it ends with it.
pub fn strip_suffix(text: &str, suffix: &str) -> (r: Option<String>)
    ensures
        r is Some <==> suffix@.is_suffix_of(text@),
        r is Some ==> r->0@ == text@.take(text@.len() - suffix@.len()),
{
    if ends_with(text, suffix) {
        let chars = chars_of(text);
        let part = chars_of(suffix);
        let end: usize = chars.len() - part.len();
        assert(text@.take(end as int) =~= chars@.subrange(0, end as int));
        Some(text_of(&chars, 0, end))
    } else {
        None
    }
}

/// The parts one after the other, with `separator` between neighbours.
pub open spec fn joined(parts: Seq<Seq<char>>, separator: Seq<char>) -> Seq<char>
    decreases parts.len(),
{
    if parts.len() == 0 {
        Seq::empty()
    } else if parts.len() == 1 {
        parts[0]
    } else {
        joined(parts.drop_last(), separator) + separator + parts.last()
    }
}

/// Trimming takes all copies off and nothing else: one more copy in front makes no difference,
/// none is left, and a text that does not begin with one stays as it is.
pub proof fn law_leading_copies_go(text: Seq<char>, prefix: Seq<char>)
    requires
        0 < prefix.len(),
    ensures
        without_leading(prefix + text, prefix) == without_leading(text, prefix),
        !prefix.is_prefix_of(without_leading(text, prefix)),
        !prefix.is_prefix_of(text) ==> without_leading(text, prefix) == text,
    decreases text.len(),
{
    let longer = prefix + text;
    assert(longer.subrange(0, prefix.len() as int) =~= prefix);
    assert(longer.skip(prefix.len() as int) =~= text);
    if prefix.is_prefix_of(text) {
        law_leading_copies_go(text.skip(prefix.len() as int), prefix);
    }
}

/// The same at the end of a text.
pub proof fn law_trailing_copies_go(text: Seq<char>, suffix: Seq<char>)
    requires
        0 < suffix.len(),
    ensures
        without_trailing(text + suffix, suffix) == without_trailing(text, suffix),
        !suffix.is_suffix_of(without_trailing(text, suffix)),
        !suffix.is_suffix_of(text) ==> without_trailing(text, suffix) == text,
    decreases text.len(),
{
    let longer = text + suffix;
    assert(longer.subrange(longer.len() - suffix.len(), longer.len() as int) =~= suffix);
    assert(longer.take(longer.len() - suffix.len()) =~= text);
    if suffix.is_suffix_of(text) {
        law_trailing_copies_go(text.take(text.len() - suffix.len()), suffix);
    }
}

/// Joining puts the parts one after the other, and one separator between two neighbours.
pub proof fn law_parts_are_set_apart(
    first: Seq<Seq<char>>,
    second: Seq<Seq<char>>,
    separator: Seq<char>,
)
    ensures
        joined(Seq::empty(), separator) == Seq::<char>::empty(),
        first.len() == 1 ==> joined(first, separator) == first[0],
        first.len() > 0 && second.len() > 0 ==> joined(first + second, separator) == joined(
            first,
            separator,
        ) + separator + joined(second, separator),
    decreases second.len(),
{
    if first.len() > 0 && second.len() > 0 {
        let front = second.drop_last();
        assert((first + second).drop_last() =~= first + front);
        law_parts_are_set_apart(first, front, separator);
        if front.len() == 0 {
            assert(first + front =~= first);
        }
        assert(joined(first + second, separator) =~= joined(first, separator) + separator
            + joined(second, separator));
    }
}

/// Joins the parts with `separator` between neighbours.
pub fn join(parts: &Vec<String>, separator: &str) -> (r: String)
    ensures
        r@ == joined(parts.deep_view(), separator@),
{
    let mut r = String::new();
    let mut i: usize = 0;
    while i < parts.len()
        invariant
            i <= parts@.len(),
            r@ == joined(parts.deep_view().take(i as int), separator@),
        decreases parts@.len() - i,
    {
        let ghost longer = parts.deep_view().take(i + 1);
        assert(longer.drop_last() =~= parts.deep_view().take(i as int));
        assert(longer.last() == parts@[i as int]@);
        if i > 0 {
            r.append(separator);
        }
        r.append(parts[i].as_str());
        assert(r@ =~= joined(longer, separator@));
        i = i + 1;
    }
    assert(parts.deep_view().take(i as int) =~= parts.deep_view());
    r
}

/// `a` followed by `b`.
pub fn concat2(a: &str, b: &str) -> (r: String)
    ensures
        r@ == a@ + b@,
{
    let mut r = a.to_owned();
    r.append(b);
    r
}

/// `a`, `b` and `c` one after the other.
pub fn concat3(a: &str, b: &str, c: &str) -> (r: String)
    ensures
        r@ == a@ + b@ + c@,
{
    let mut r = a.to_owned();
    r.append(b);
    r.append(c);
    r
}

} // verus!
