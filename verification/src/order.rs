//! The order of directory listings: directories first, then names alphabetically, and
//! entries that tie in the order in which they came.

use vstd::prelude::*;
use crate::text::same_chars;

verus! {

/// Whether `a` precedes `b` character by character, by code point; a text precedes the
/// longer texts that begin with it.
pub open spec fn text_before(a: Seq<char>, b: Seq<char>) -> bool
    decreases b.len(),
{
    if b.len() == 0 {
        false
    } else if a.len() == 0 {
        true
    } else if a[0] != b[0] {
        a[0] < b[0]
    } else {
        text_before(a.skip(1), b.skip(1))
    }
}

/// What the place of an entry in a listing depends on.
pub struct SortKey {
    pub is_directory: bool,
    pub name: Vec<char>,
}

/// The values of a sort key.
pub struct SortKeyValue {
    pub is_directory: bool,
    pub name: Seq<char>,
}

/// The values of sort keys.
pub open spec fn key_values(keys: Seq<SortKey>) -> Seq<SortKeyValue> {
    Seq::new(
        keys.len(),
        |i: int| SortKeyValue { is_directory: keys[i].is_directory, name: keys[i].name@ },
    )
}

/// Whether entry `i` is listed before entry `j`.
pub open spec fn listed_before(keys: Seq<SortKeyValue>, i: int, j: int) -> bool {
    if keys[i].is_directory != keys[j].is_directory {
        keys[i].is_directory
    } else if keys[i].name != keys[j].name {
        text_before(keys[i].name, keys[j].name)
    } else {
        i < j
    }
}

/// Whether `order` names entry `i`.
pub open spec fn names_entry(order: Seq<usize>, i: int) -> bool {
    exists|a: int| 0 <= a < order.len() && (#[trigger] order[a]) == i
}

/// Whether `order` names each of the entries once, in listing order.
pub open spec fn is_listing_order(keys: Seq<SortKeyValue>, order: Seq<usize>) -> bool {
    &&& order.len() == keys.len()
    &&& forall|a: int| 0 <= a < order.len() ==> (#[trigger] order[a]) < keys.len()
    &&& forall|i: int| 0 <= i < keys.len() ==> #[trigger] names_entry(order, i)
    &&& forall|a: int, b: int|
        0 <= a < b < order.len() ==> #[trigger] listed_before(
            keys,
            order[a] as int,
            order[b] as int,
        )
}

/// No text precedes itself.
pub proof fn lemma_text_irreflexive(a: Seq<char>)
    ensures
        !text_before(a, a),
    decreases a.len(),
{
    if a.len() > 0 {
        lemma_text_irreflexive(a.skip(1));
    }
}

/// Precedence of texts is transitive.
pub proof fn lemma_text_transitive(a: Seq<char>, b: Seq<char>, c: Seq<char>)
    requires
        text_before(a, b),
        text_before(b, c),
    ensures
        text_before(a, c),
    decreases b.len(),
{
    if a.len() > 0 && a[0] == b[0] && b[0] == c[0] {
        lemma_text_transitive(a.skip(1), b.skip(1), c.skip(1));
    }
}

/// Of two different texts one precedes the other.
pub proof fn lemma_text_total(a: Seq<char>, b: Seq<char>)
    requires
        a != b,
    ensures
        text_before(a, b) || text_before(b, a),
    decreases b.len(),
{
    if a.len() == 0 {
        assert(a =~= Seq::<char>::empty());
        if b.len() == 0 {
            assert(b =~= a);
        }
    } else if b.len() > 0 && a[0] == b[0] {
        if a.skip(1) == b.skip(1) {
            assert(a =~= seq![a[0]] + a.skip(1));
            assert(b =~= seq![b[0]] + b.skip(1));
        }
        lemma_text_total(a.skip(1), b.skip(1));
    }
}

/// The listing order is a strict total order: nothing precedes itself, of two entries exactly
/// one precedes the other, and precedence is transitive.
pub proof fn law_listing_order_is_total(keys: Seq<SortKeyValue>, i: int, j: int, k: int)
    ensures
        !listed_before(keys, i, i),
        i != j ==> listed_before(keys, i, j) != listed_before(keys, j, i),
        listed_before(keys, i, j) && listed_before(keys, j, k) ==> listed_before(keys, i, k),
{
    let a = keys[i].name;
    let b = keys[j].name;
    let c = keys[k].name;
    if a != b {
        lemma_text_total(a, b);
        if text_before(a, b) && text_before(b, a) {
            lemma_text_transitive(a, b, a);
            lemma_text_irreflexive(a);
        }
    }
    if text_before(a, b) && text_before(b, c) {
        lemma_text_transitive(a, b, c);
    }
    if text_before(a, b) {
        lemma_text_irreflexive(a);
        if b == c {
            assert(text_before(a, c));
        }
        if a == c && text_before(b, c) {
            lemma_text_transitive(a, b, a);
        }
    }
}

/// There is only one listing order of given entries.
pub proof fn law_listing_order_is_unique(
    keys: Seq<SortKeyValue>,
    first: Seq<usize>,
    second: Seq<usize>,
)
    requires
        is_listing_order(keys, first),
        is_listing_order(keys, second),
    ensures
        first == second,
{
    assert forall|a: int| 0 <= a < first.len() implies first[a] == second[a] by {
        lemma_same_place(keys, first, second, a);
    }
    assert(first =~= second);
}

/// Two listing orders of the same entries agree up to any place.
proof fn lemma_same_place(
    keys: Seq<SortKeyValue>,
    first: Seq<usize>,
    second: Seq<usize>,
    a: int,
)
    requires
        is_listing_order(keys, first),
        is_listing_order(keys, second),
        0 <= a < first.len(),
    ensures
        forall|b: int| 0 <= b <= a ==> first[b] == second[b],
    decreases a,
{
    if a > 0 {
        lemma_same_place(keys, first, second, a - 1);
    }
    let x = first[a];
    let y = second[a];
    if x != y {
        assert(names_entry(second, x as int));
        let p = choose|p: int| 0 <= p < second.len() && second[p] == x;
        if p < a {
            assert(first[p] == x);
            assert(listed_before(keys, first[p] as int, first[a] as int));
            law_listing_order_is_total(keys, x as int, x as int, x as int);
        }
        assert(listed_before(keys, second[a] as int, second[p] as int));
        assert(names_entry(first, y as int));
        let q = choose|q: int| 0 <= q < first.len() && first[q] == y;
        if q < a {
            assert(second[q] == y);
            assert(listed_before(keys, second[q] as int, second[a] as int));
            law_listing_order_is_total(keys, y as int, y as int, y as int);
        }
        assert(listed_before(keys, first[a] as int, first[q] as int));
        law_listing_order_is_total(keys, x as int, y as int, x as int);
    }
}

/// Texts are ordered by the first character in which they differ, by its code point; a text comes
/// before the longer ones that begin with it.
pub proof fn law_first_difference_decides(front: Seq<char>, a: Seq<char>, b: Seq<char>)
    ensures
        text_before(front + a, front + b) == text_before(a, b),
        a.len() > 0 && b.len() > 0 && a[0] < b[0] ==> text_before(
            front + a,
            front + b,
        ) && !text_before(front + b, front + a),
        a.len() > 0 ==> text_before(front, front + a) && !text_before(front + a, front),
    decreases front.len(),
{
    if front.len() == 0 {
        assert(front + a =~= a);
        assert(front + b =~= b);
    } else {
        let rest = front.skip(1);
        law_first_difference_decides(rest, a, b);
        assert((front + a).skip(1) =~= rest + a);
        assert((front + b).skip(1) =~= rest + b);
    }
}

/// In a listing a directory comes before anything that is none; of two directories, and of two
/// others, the one whose name comes first, and of two that are called alike the one that was read
/// first.
pub proof fn law_listing_order(keys: Seq<SortKeyValue>, i: int, j: int)
    ensures
        keys[i].is_directory && !keys[j].is_directory ==> listed_before(keys, i, j)
            && !listed_before(keys, j, i),
        keys[i].is_directory == keys[j].is_directory && text_before(keys[i].name, keys[j].name)
            ==> listed_before(keys, i, j) && !listed_before(keys, j, i),
        keys[i].is_directory == keys[j].is_directory && keys[i].name == keys[j].name ==> (
        listed_before(keys, i, j) <==> i < j),
{
    if text_before(keys[i].name, keys[j].name) {
        lemma_text_irreflexive(keys[i].name);
        if text_before(keys[j].name, keys[i].name) {
            lemma_text_transitive(keys[i].name, keys[j].name, keys[i].name);
        }
    }
}

/// Compares two texts.
fn text_precedes(a: &Vec<char>, b: &Vec<char>) -> (r: bool)
    ensures
        r == text_before(a@, b@),
{
    let mut i: usize = 0;
    assert(a@.skip(0) =~= a@);
    assert(b@.skip(0) =~= b@);
    while i < a.len() && i < b.len()
        invariant
            i <= a@.len(),
            i <= b@.len(),
            text_before(a@, b@) == text_before(a@.skip(i as int), b@.skip(i as int)),
        decreases a@.len() - i,
    {
        if a[i] != b[i] {
            return a[i] < b[i];
        }
        assert(a@.skip(i as int).skip(1) =~= a@.skip(i + 1));
        assert(b@.skip(i as int).skip(1) =~= b@.skip(i + 1));
        i = i + 1;
    }
    i < b.len()
}

/// Compares two entries of a listing.
fn precedes(keys: &Vec<SortKey>, i: usize, j: usize) -> (r: bool)
    requires
        i < keys@.len(),
        j < keys@.len(),
    ensures
        r == listed_before(key_values(keys@), i as int, j as int),
{
    if keys[i].is_directory != keys[j].is_directory {
        keys[i].is_directory
    } else if !same_chars(&keys[i].name, &keys[j].name) {
        text_precedes(&keys[i].name, &keys[j].name)
    } else {
        i < j
    }
}

/// Where entry `n` belongs among the entries sorted so far.
fn place_of(keys: &Vec<SortKey>, order: &Vec<usize>, n: usize) -> (place: usize)
    requires
        n < keys@.len(),
        forall|a: int| 0 <= a < order@.len() ==> (#[trigger] order@[a]) < n,
        forall|a: int, b: int|
            0 <= a < b < order@.len() ==> #[trigger] listed_before(
                key_values(keys@),
                order@[a] as int,
                order@[b] as int,
            ),
    ensures
        place <= order@.len(),
        forall|a: int|
            0 <= a < place ==> #[trigger] listed_before(key_values(keys@), order@[a] as int, n as int),
        forall|a: int|
            place <= a < order@.len() ==> #[trigger] listed_before(
                key_values(keys@),
                n as int,
                order@[a] as int,
            ),
{
    let mut low: usize = 0;
    let mut high: usize = order.len();
    while low < high
        invariant
            low <= high <= order@.len(),
            n < keys@.len(),
            forall|a: int| 0 <= a < order@.len() ==> (#[trigger] order@[a]) < n,
            forall|a: int, b: int|
                0 <= a < b < order@.len() ==> #[trigger] listed_before(
                    key_values(keys@),
                    order@[a] as int,
                    order@[b] as int,
                ),
            forall|a: int|
                0 <= a < low ==> #[trigger] listed_before(key_values(keys@), order@[a] as int, n as int),
            forall|a: int|
                high <= a < order@.len() ==> #[trigger] listed_before(
                    key_values(keys@),
                    n as int,
                    order@[a] as int,
                ),
        decreases high - low,
    {
        let mid: usize = low + (high - low) / 2;
        if precedes(keys, order[mid], n) {
            assert forall|a: int| 0 <= a < mid + 1 implies #[trigger] listed_before(
                key_values(keys@),
                order@[a] as int,
                n as int,
            ) by {
                if a < mid {
                    assert(listed_before(key_values(keys@), order@[a] as int, order@[mid as int] as int));
                    law_listing_order_is_total(
                        key_values(keys@),
                        order@[a] as int,
                        order@[mid as int] as int,
                        n as int,
                    );
                }
            }
            low = mid + 1;
        } else {
            assert forall|a: int| mid <= a < order@.len() implies #[trigger] listed_before(
                key_values(keys@),
                n as int,
                order@[a] as int,
            ) by {
                law_listing_order_is_total(
                    key_values(keys@),
                    order@[mid as int] as int,
                    n as int,
                    order@[a] as int,
                );
                if mid < a {
                    assert(listed_before(key_values(keys@), order@[mid as int] as int, order@[a] as int));
                    law_listing_order_is_total(
                        key_values(keys@),
                        n as int,
                        order@[mid as int] as int,
                        order@[a] as int,
                    );
                }
            }
            high = mid;
        }
    }
    low
}

/// Sorts the entries: the result names each of them once, in listing order.
pub fn listing_order(keys: &Vec<SortKey>) -> (order: Vec<usize>)
    ensures
        is_listing_order(key_values(keys@), order@),
{
    let mut order: Vec<usize> = Vec::new();
    let mut n: usize = 0;
    while n < keys.len()
        invariant
            n <= keys@.len(),
            order@.len() == n,
            forall|a: int| 0 <= a < order@.len() ==> (#[trigger] order@[a]) < n,
            forall|i: int| 0 <= i < n ==> #[trigger] names_entry(order@, i),
            forall|a: int, b: int|
                0 <= a < b < order@.len() ==> #[trigger] listed_before(
                    key_values(keys@),
                    order@[a] as int,
                    order@[b] as int,
                ),
        decreases keys@.len() - n,
    {
        let place = place_of(keys, &order, n);
        let ghost before = order@;
        order.insert(place, n);
        assert forall|i: int| 0 <= i < n + 1 implies #[trigger] names_entry(order@, i) by {
            if i == n {
                assert(order@[place as int] == n);
            } else {
                assert(names_entry(before, i));
                let a = choose|a: int| 0 <= a < before.len() && (#[trigger] before[a]) == i;
                if a < place {
                    assert(order@[a] == before[a]);
                } else {
                    assert(order@[a + 1] == before[a]);
                }
            }
        }
        assert forall|a: int, b: int| 0 <= a < b < order@.len() implies #[trigger] listed_before(
            key_values(keys@),
            order@[a] as int,
            order@[b] as int,
        ) by {
            let a0 = if a < place { a } else { a - 1 };
            let b0 = if b < place { b } else { b - 1 };
            if a == place {
                assert(listed_before(key_values(keys@), n as int, before[b0] as int));
            } else if b == place {
                assert(listed_before(key_values(keys@), before[a0] as int, n as int));
            } else {
                assert(listed_before(key_values(keys@), before[a0] as int, before[b0] as int));
            }
        }
        n = n + 1;
    }
    order
}

} // verus!
