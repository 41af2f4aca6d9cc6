//! Host paths as byte strings: components, joining, parents, names and containment.
//!
//! A path is a sequence of bytes in which `/` separates components. Repeated separators and
//! `.` components do not count, except for a `.` at the very beginning, and neither does a
//! trailing separator. A leading `/` is a component of its own, the root.

use vstd::prelude::*;
use crate::bytes::{copy_bytes, copy_part, path_views, same_bytes};

verus! {

/// The byte that separates components.
pub const SLASH: u8 = 47;

/// The byte of which the current and the parent directory are made.
pub const DOT: u8 = 46;

/// The position of the last separator among the first `n` bytes, or -1.
pub open spec fn last_slash(path: Seq<u8>, n: int) -> int
    decreases n,
{
    if n <= 0 {
        -1
    } else if path[n - 1] == SLASH {
        n - 1
    } else {
        last_slash(path, n - 1)
    }
}

/// Whether the piece of `path` between two separators counts for nothing.
pub open spec fn is_void(path: Seq<u8>, start: int, end: int) -> bool {
    start == end || (end == start + 1 && path[start] == DOT)
}

/// Where the components of the first `n` bytes begin and end.
pub open spec fn spans(path: Seq<u8>, n: int) -> Seq<(int, int)>
    decreases n,
{
    let i = last_slash(path, n);
    if n <= 0 || i >= n {
        Seq::empty()
    } else if i < 0 {
        seq![(0, n)]
    } else {
        let head = if i == 0 {
            seq![(0, 1)]
        } else {
            spans(path, i)
        };
        if is_void(path, i + 1, n) {
            head
        } else {
            head.push((i + 1, n))
        }
    }
}

/// Where the components in front of the separator at `i` begin and end.
pub open spec fn spans_before(path: Seq<u8>, i: int) -> Seq<(int, int)> {
    if i == 0 {
        seq![(0, 1)]
    } else {
        spans(path, i)
    }
}

/// The components of a path, from the first to the last.
pub open spec fn components(path: Seq<u8>) -> Seq<Seq<u8>> {
    let s = spans(path, path.len() as int);
    Seq::new(s.len(), |k: int| path.subrange(s[k].0, s[k].1))
}

/// Whether a path consists of the root alone or of nothing.
pub open spec fn has_no_parent(path: Seq<u8>) -> bool {
    let s = spans(path, path.len() as int);
    s.len() == 0 || (s.len() == 1 && path[0] == SLASH)
}

/// The path without its last component.
pub open spec fn parent(path: Seq<u8>) -> Option<Seq<u8>> {
    let s = spans(path, path.len() as int);
    if has_no_parent(path) {
        None
    } else if s.len() == 1 {
        Some(Seq::empty())
    } else {
        Some(path.take(s[s.len() - 2].1))
    }
}

/// Whether a component names an entry of a directory.
pub open spec fn is_name(component: Seq<u8>) -> bool {
    component != seq![SLASH] && component != seq![DOT] && component != seq![DOT, DOT]
}

/// The last component of a path, where it names an entry of a directory.
pub open spec fn file_name(path: Seq<u8>) -> Option<Seq<u8>> {
    let c = components(path);
    if 0 < c.len() && is_name(c.last()) {
        Some(c.last())
    } else {
        None
    }
}

/// Whether the components of `path` begin with those of `base`.
pub open spec fn is_within(path: Seq<u8>, base: Seq<u8>) -> bool {
    components(base).is_prefix_of(components(path))
}

/// What is left of `path` behind the components of `base`.
pub open spec fn relative_to(path: Seq<u8>, base: Seq<u8>) -> Option<Seq<u8>> {
    let s = spans(path, path.len() as int);
    let n = components(base).len() as int;
    if !is_within(path, base) {
        None
    } else if n == s.len() {
        Some(Seq::empty())
    } else {
        Some(path.subrange(s[n].0, s.last().1))
    }
}

/// Whether a path names the parent directory behind its first `n` components.
pub open spec fn goes_up_behind(path: Seq<u8>, n: nat) -> bool {
    exists|k: int|
        n <= k < components(path).len() && #[trigger] components(path)[k] == seq![DOT, DOT]
}

/// Components with one more behind them, which leads back where it names the parent directory.
/// Nothing lies above the root.
pub open spec fn with_part(front: Seq<Seq<u8>>, part: Seq<u8>) -> Seq<Seq<u8>> {
    if part != seq![DOT, DOT] {
        front.push(part)
    } else if front.len() == 0 || front.last() == seq![SLASH] {
        front
    } else {
        front.drop_last()
    }
}

/// Components with each name of the parent directory taken out, along with what it leads back
/// from.
pub open spec fn without_parents(parts: Seq<Seq<u8>>) -> Seq<Seq<u8>>
    decreases parts.len(),
{
    if parts.len() == 0 {
        Seq::empty()
    } else {
        with_part(without_parents(parts.drop_last()), parts.last())
    }
}

/// Whether the components of `path`, with the parent directory taken out, begin with those of
/// `base`.
pub open spec fn leads_into(path: Seq<u8>, base: Seq<u8>) -> bool {
    components(base).is_prefix_of(without_parents(components(path)))
}

/// How often the parent directory is named among components.
pub open spec fn parents_in(parts: Seq<Seq<u8>>) -> nat
    decreases parts.len(),
{
    if parts.len() == 0 {
        0
    } else {
        parents_in(parts.drop_last()) + if parts.last() == seq![DOT, DOT] {
            1nat
        } else {
            0nat
        }
    }
}

/// The place of the first name of the parent directory at `n` or behind, and the end where there
/// is none.
pub open spec fn first_up(parts: Seq<Seq<u8>>, n: int) -> int
    decreases parts.len() - n,
{
    if n >= parts.len() || parts[n] == seq![DOT, DOT] {
        n
    } else {
        first_up(parts, n + 1)
    }
}

/// The components of a path of which the first `n` lead to `front`, and of the others the first
/// that names the parent directory is taken out.
pub open spec fn led_back(parts: Seq<Seq<u8>>, n: int, front: Seq<Seq<u8>>) -> Seq<Seq<u8>> {
    let k = first_up(parts, n);
    without_parents(front + parts.subrange(n, k + 1)) + parts.skip(k + 1)
}

/// The path with the given components: each is joined to those in front of it.
pub open spec fn path_of(parts: Seq<Seq<u8>>) -> Seq<u8>
    decreases parts.len(),
{
    if parts.len() == 0 {
        Seq::empty()
    } else {
        joined(path_of(parts.drop_last()), parts.last())
    }
}

/// Whether bytes can be a component of a path.
pub open spec fn is_part(part: Seq<u8>) -> bool {
    0 < part.len() && (part == seq![SLASH] || !part.contains(SLASH))
}

/// Whether these can be all the components of a path: only the first of them is the root or names
/// the current directory.
pub open spec fn are_components(parts: Seq<Seq<u8>>) -> bool {
    forall|i: int|
        0 <= i < parts.len() ==> is_part(#[trigger] parts[i]) && (i > 0 ==> parts[i] != seq![SLASH]
            && parts[i] != seq![DOT])
}

/// Whether a path begins at the root.
pub open spec fn is_absolute(path: Seq<u8>) -> bool {
    0 < path.len() && path[0] == SLASH
}

/// `path` taken as relative to `base`; an absolute path stands for itself.
pub open spec fn joined(base: Seq<u8>, path: Seq<u8>) -> Seq<u8> {
    if is_absolute(path) {
        path
    } else if 0 < base.len() && base.last() != SLASH {
        base.push(SLASH) + path
    } else {
        base + path
    }
}

/// A part of a path, from `start` up to `end`.
#[derive(Clone, Copy)]
pub struct Span {
    pub start: usize,
    pub end: usize,
}

impl View for Span {
    type V = (int, int);

    open spec fn view(&self) -> (int, int) {
        (self.start as int, self.end as int)
    }
}

/// The views of a sequence of spans.
pub open spec fn span_views(s: Seq<Span>) -> Seq<(int, int)> {
    Seq::new(s.len(), |k: int| s[k]@)
}

/// The last separator lies among the bytes looked at.
pub proof fn lemma_last_slash(path: Seq<u8>, n: int)
    requires
        0 <= n <= path.len(),
    ensures
        -1 <= last_slash(path, n) < n || (n == 0 && last_slash(path, n) == -1),
        last_slash(path, n) >= 0 ==> path[last_slash(path, n)] == SLASH,
        forall|k: int| last_slash(path, n) < k < n ==> path[k] != SLASH,
    decreases n,
{
    if n > 0 && path[n - 1] != SLASH {
        lemma_last_slash(path, n - 1);
    }
}

/// Components are not empty, lie inside the path, and follow one another.
pub proof fn lemma_spans_ordered(path: Seq<u8>, n: int)
    requires
        0 <= n <= path.len(),
    ensures
        forall|k: int|
            0 <= k < spans(path, n).len() ==> 0 <= (#[trigger] spans(path, n)[k]).0 < spans(
                path,
                n,
            )[k].1 <= n,
        forall|j: int, k: int|
            0 <= j < k < spans(path, n).len() ==> (#[trigger] spans(path, n)[j]).1 <= (
            #[trigger] spans(path, n)[k]).0,
    decreases n,
{
    lemma_last_slash(path, n);
    let i = last_slash(path, n);
    let s = spans(path, n);
    if n > 0 && i >= 0 {
        if i > 0 {
            lemma_spans_ordered(path, i);
        }
        let head = spans_before(path, i);
        assert forall|k: int| 0 <= k < s.len() implies 0 <= (#[trigger] s[k]).0 < s[k].1 <= n by {
            if k < head.len() {
                assert(s[k] == head[k]);
            }
        }
        assert forall|j: int, k: int| 0 <= j < k < s.len() implies (#[trigger] s[j]).1 <= (
        #[trigger] s[k]).0 by {
            assert(s[j] == head[j]);
            if k < head.len() {
                assert(s[k] == head[k]);
            }
        }
    }
}

/// Components hold no separator, but for the root.
proof fn lemma_spans_without_slash(path: Seq<u8>, n: int, k: int)
    requires
        0 <= n <= path.len(),
        0 <= k < spans(path, n).len(),
    ensures
        ({
            let (start, end) = spans(path, n)[k];
            (start == 0 && end == 1 && path[0] == SLASH) || forall|j: int|
                start <= j < end ==> path[j] != SLASH
        }),
    decreases n,
{
    lemma_last_slash(path, n);
    let i = last_slash(path, n);
    if i > 0 && k < spans(path, i).len() {
        lemma_spans_without_slash(path, i, k);
    }
}

/// The first component of a path that begins at the root is the root.
pub proof fn lemma_root_comes_first(path: Seq<u8>)
    requires
        is_absolute(path),
    ensures
        0 < components(path).len(),
        components(path)[0] == seq![SLASH],
{
    lemma_root_span(path, path.len() as int);
    assert(path.subrange(0, 1) =~= seq![SLASH]);
}

proof fn lemma_root_span(path: Seq<u8>, n: int)
    requires
        is_absolute(path),
        0 < n <= path.len(),
    ensures
        0 < spans(path, n).len(),
        spans(path, n)[0] == (0int, 1int),
    decreases n,
{
    lemma_last_slash(path, n);
    let i = last_slash(path, n);
    if i > 0 {
        lemma_root_span(path, i);
    }
}

/// The last component of a path holds no separator where it is a name.
pub proof fn lemma_file_name(path: Seq<u8>)
    requires
        file_name(path) is Some,
    ensures
        0 < file_name(path)->0.len(),
        !file_name(path)->0.contains(SLASH),
        is_name(file_name(path)->0),
{
    let n = path.len() as int;
    let s = spans(path, n);
    let k = s.len() - 1;
    let name = file_name(path)->0;
    lemma_spans_ordered(path, n);
    lemma_spans_without_slash(path, n, k);
    assert(name == path.subrange(s[k].0, s[k].1));
    if name.contains(SLASH) {
        let j = choose|j: int| 0 <= j < name.len() && name[j] == SLASH;
        assert(path[s[k].0 + j] == SLASH);
        assert(name =~= seq![SLASH]);
    }
}

/// Up to the end of one of its components, a path has the components up to that one.
pub proof fn lemma_spans_prefix(path: Seq<u8>, n: int, k: int)
    requires
        0 <= n <= path.len(),
        0 <= k < spans(path, n).len(),
    ensures
        spans(path, spans(path, n)[k].1) == spans(path, n).take(k + 1),
    decreases n,
{
    lemma_last_slash(path, n);
    lemma_spans_ordered(path, n);
    let i = last_slash(path, n);
    let s = spans(path, n);
    if s[k].1 == n {
        if k + 1 < s.len() {
            assert(s[k].1 <= s[k + 1].0);
        }
        assert(s.take(k + 1) =~= s);
    } else if i == 0 {
        assert(k == 0 && s[0] == (0int, 1int));
        assert(last_slash(path, 1) == 0);
        assert(spans(path, 1) == seq![(0int, 1int)]);
        assert(s.take(1) =~= seq![(0int, 1int)]);
    } else {
        lemma_spans_prefix(path, i, k);
        assert(s.take(k + 1) =~= spans(path, i).take(k + 1));
    }
}

/// The components of the first `n` bytes depend on those bytes alone.
pub proof fn lemma_spans_local(a: Seq<u8>, b: Seq<u8>, n: int)
    requires
        0 <= n <= a.len(),
        n <= b.len(),
        a.take(n) == b.take(n),
    ensures
        spans(a, n) == spans(b, n),
    decreases n,
{
    lemma_last_slash_local(a, b, n);
    lemma_last_slash(a, n);
    let i = last_slash(a, n);
    if n > 0 && i >= 0 {
        assert(a.take(i) =~= a.take(n).take(i));
        assert(b.take(i) =~= b.take(n).take(i));
        if i > 0 {
            lemma_spans_local(a, b, i);
        }
        if i + 1 < n {
            assert(a[i + 1] == a.take(n)[i + 1]);
            assert(b[i + 1] == b.take(n)[i + 1]);
        }
    }
}

proof fn lemma_last_slash_local(a: Seq<u8>, b: Seq<u8>, n: int)
    requires
        0 <= n <= a.len(),
        n <= b.len(),
        a.take(n) == b.take(n),
    ensures
        last_slash(a, n) == last_slash(b, n),
    decreases n,
{
    if n > 0 {
        assert(a[n - 1] == a.take(n)[n - 1]);
        assert(b[n - 1] == b.take(n)[n - 1]);
        assert(a.take(n - 1) =~= a.take(n).take(n - 1));
        assert(b.take(n - 1) =~= b.take(n).take(n - 1));
        lemma_last_slash_local(a, b, n - 1);
    }
}

/// The parent of a path has all its components but the last, and is shorter.
pub proof fn law_parent_drops_last_component(path: Seq<u8>)
    requires
        parent(path) is Some,
    ensures
        components(parent(path)->0) == components(path).drop_last(),
        parent(path)->0.len() < path.len(),
{
    let n = path.len() as int;
    let s = spans(path, n);
    let up = parent(path)->0;
    lemma_spans_ordered(path, n);
    if s.len() == 1 {
        assert(components(up) =~= components(path).drop_last());
    } else {
        let e = s[s.len() - 2].1;
        assert(s[s.len() - 2].1 <= s[s.len() - 1].0);
        lemma_spans_prefix(path, n, s.len() - 2);
        assert(up.take(e) =~= path.take(e));
        lemma_spans_local(up, path, e);
        assert(spans(up, e) == s.take(s.len() - 1));
        assert forall|k: int| 0 <= k < s.len() - 1 implies #[trigger] components(up)[k]
            == components(path)[k] by {
            assert(s[k] == s.take(s.len() - 1)[k]);
            assert(spans(up, e)[k] == s[k]);
            if k < s.len() - 2 {
                assert(s[k].1 <= s[s.len() - 2].0);
            }
            assert(up.subrange(s[k].0, s[k].1) =~= path.subrange(s[k].0, s[k].1));
        }
        assert(components(up) =~= components(path).drop_last());
    }
}

/// Only the first component can be the root or empty but for a dot.
proof fn lemma_later_spans(path: Seq<u8>, n: int, k: int)
    requires
        0 <= n <= path.len(),
        0 < k < spans(path, n).len(),
    ensures
        ({
            let (start, end) = spans(path, n)[k];
            0 < start && !is_void(path, start, end)
        }),
    decreases n,
{
    lemma_last_slash(path, n);
    let i = last_slash(path, n);
    if i > 0 && k < spans(path, i).len() {
        lemma_later_spans(path, i, k);
    }
}

/// The components of a path can be all the components of one.
pub proof fn lemma_components_are_components(path: Seq<u8>)
    ensures
        are_components(components(path)),
{
    let n = path.len() as int;
    let s = spans(path, n);
    let c = components(path);
    lemma_spans_ordered(path, n);
    assert forall|k: int| 0 <= k < c.len() implies is_part(#[trigger] c[k]) && (k > 0 ==> c[k]
        != seq![SLASH] && c[k] != seq![DOT]) by {
        let (start, end) = s[k];
        assert(0 <= s[k].0 < s[k].1 <= n);
        lemma_spans_without_slash(path, n, k);
        if k > 0 {
            lemma_later_spans(path, n, k);
            if c[k] == seq![DOT] {
                assert(c[k].len() == 1 && c[k][0] == DOT);
                assert(path[start] == DOT);
            }
            if c[k] == seq![SLASH] {
                assert(c[k][0] == SLASH);
            }
        }
        if start == 0 && end == 1 && path[0] == SLASH {
            assert(c[k] =~= seq![SLASH]);
        } else if c[k].contains(SLASH) {
            let j = choose|j: int| 0 <= j < c[k].len() && c[k][j] == SLASH;
            assert(path[start + j] == SLASH);
        }
    }
}

/// A component by itself is a path of one component.
pub proof fn lemma_one_part(part: Seq<u8>)
    requires
        is_part(part),
    ensures
        components(part) == seq![part],
        part != seq![SLASH] ==> !is_absolute(part),
        part != seq![SLASH] && part != seq![DOT] ==> is_plain(part),
{
    let n = part.len() as int;
    lemma_last_slash(part, n);
    assert(part.subrange(0, n) =~= part);
    if part == seq![SLASH] {
        assert(last_slash(part, 1) == 0);
        assert(spans(part, 1) =~= seq![(0int, 1int)]);
    } else {
        assert forall|i: int| 0 <= i < n implies #[trigger] part[i] != SLASH by {
            if part[i] == SLASH {
                assert(part.contains(SLASH));
            }
        }
        assert(last_slash(part, n) == -1);
        if part.len() == 1 && part[0] == DOT {
            assert(part =~= seq![DOT]);
        }
    }
    assert(components(part) =~= seq![part]);
}

/// What a single dot brings along where it is taken as relative.
pub proof fn lemma_dot_brings_nothing()
    ensures
        relative_components(seq![DOT]) == Seq::<Seq<u8>>::empty(),
{
    let rooted = seq![SLASH] + seq![DOT];
    assert(rooted[0] == SLASH && rooted[1] == DOT);
    assert(last_slash(rooted, 1) == 0);
    assert(last_slash(rooted, 2) == 0);
    assert(spans(rooted, 2) =~= seq![(0int, 1int)]);
    assert(relative_components(seq![DOT]) =~= Seq::<Seq<u8>>::empty());
}

/// The path with given components has them, where they can be all the components of a path.
pub proof fn law_path_of_components(parts: Seq<Seq<u8>>)
    requires
        are_components(parts),
    ensures
        components(path_of(parts)) == parts,
        0 < parts.len() ==> 0 < path_of(parts).len(),
    decreases parts.len(),
{
    if parts.len() == 0 {
        assert(components(path_of(parts)) =~= parts);
    } else {
        let front = parts.drop_last();
        let last = parts.last();
        assert(parts[parts.len() - 1] == last);
        assert forall|i: int| 0 <= i < front.len() implies is_part(#[trigger] front[i]) && (i > 0
            ==> front[i] != seq![SLASH] && front[i] != seq![DOT]) by {
            assert(front[i] == parts[i]);
        }
        law_path_of_components(front);
        lemma_one_part(last);
        let w = path_of(front);
        if front.len() == 0 {
            assert(joined(w, last) =~= last);
            assert(parts =~= seq![last]);
        } else {
            law_joined_components(w, last);
            law_plain_components(last);
            assert(front + seq![last] =~= parts);
        }
    }
}

/// The path with given components names the parent directory no more often than they do.
pub proof fn lemma_parents_in_path_of(parts: Seq<Seq<u8>>)
    requires
        forall|i: int| 0 <= i < parts.len() ==> is_part(#[trigger] parts[i]),
    ensures
        parents_in(components(path_of(parts))) <= parents_in(parts),
    decreases parts.len(),
{
    if parts.len() == 0 {
        assert(components(path_of(parts)) =~= parts);
    } else {
        let front = parts.drop_last();
        let last = parts.last();
        assert(parts[parts.len() - 1] == last);
        assert forall|i: int| 0 <= i < front.len() implies is_part(#[trigger] front[i]) by {
            assert(front[i] == parts[i]);
        }
        lemma_parents_in_path_of(front);
        lemma_one_part(last);
        let w = path_of(front);
        let one = seq![last];
        let none = Seq::<Seq<u8>>::empty();
        assert(one.drop_last() =~= none);
        assert(parents_in(none) == 0);
        if w.len() == 0 {
            assert(joined(w, last) =~= last);
        } else if last == seq![SLASH] {
            assert(seq![SLASH].len() != seq![DOT, DOT].len());
        } else {
            law_joined_components(w, last);
            if last == seq![DOT] {
                lemma_dot_brings_nothing();
                assert(components(w) + none =~= components(w));
                assert(seq![DOT].len() != seq![DOT, DOT].len());
            } else {
                law_plain_components(last);
                lemma_parents_in_add(components(w), one);
            }
        }
    }
}

/// The counts of two sequences of components add up.
pub proof fn lemma_parents_in_add(a: Seq<Seq<u8>>, b: Seq<Seq<u8>>)
    ensures
        parents_in(a + b) == parents_in(a) + parents_in(b),
    decreases b.len(),
{
    if b.len() == 0 {
        assert(a + b =~= a);
    } else {
        lemma_parents_in_add(a, b.drop_last());
        assert((a + b).drop_last() =~= a + b.drop_last());
    }
}

/// What is left once the parent directory is taken out does not name it, and is made of what
/// there was.
pub proof fn lemma_parents_are_out(parts: Seq<Seq<u8>>)
    ensures
        parents_in(without_parents(parts)) == 0,
        forall|i: int|
            0 <= i < without_parents(parts).len() ==> (#[trigger] without_parents(parts)[i]
                != seq![DOT, DOT] && parts.contains(without_parents(parts)[i])),
    decreases parts.len(),
{
    let r = without_parents(parts);
    if parts.len() > 0 {
        let front = parts.drop_last();
        lemma_parents_are_out(front);
        let kept = without_parents(front);
        if parts.last() != seq![DOT, DOT] {
            assert(r.drop_last() =~= kept);
        } else if kept.len() > 0 && kept.last() != seq![SLASH] {
            assert(kept =~= r.push(kept.last()));
            assert(kept.drop_last() =~= r);
        }
        assert forall|i: int| 0 <= i < r.len() implies (#[trigger] r[i] != seq![DOT, DOT]
            && parts.contains(r[i])) by {
            if i < kept.len() {
                assert(r[i] == kept[i]);
                let j = choose|j: int| 0 <= j < front.len() && front[j] == kept[i];
                assert(parts[j] == kept[i]);
            } else {
                assert(parts[parts.len() - 1] == r[i]);
            }
        }
    }
}

/// The first name of the parent directory at a place or behind is one, where there is one.
pub proof fn lemma_first_up(parts: Seq<Seq<u8>>, n: int)
    requires
        0 <= n <= parts.len(),
    ensures
        n <= first_up(parts, n) <= parts.len(),
        first_up(parts, n) < parts.len() ==> parts[first_up(parts, n)] == seq![DOT, DOT],
        forall|j: int| n <= j < first_up(parts, n) ==> #[trigger] parts[j] != seq![DOT, DOT],
    decreases parts.len() - n,
{
    if n < parts.len() && parts[n] != seq![DOT, DOT] {
        lemma_first_up(parts, n + 1);
    }
}

/// A path that was led back names the parent directory less often.
pub proof fn law_led_back_goes_up_less(path: Seq<u8>, n: nat, front: Seq<u8>)
    requires
        goes_up_behind(path, n),
    ensures
        parents_in(components(path_of(led_back(components(path), n as int, components(front)))))
            < parents_in(components(path)),
{
    let parts = components(path);
    let before = components(front);
    let up = choose|k: int| n <= k < parts.len() && #[trigger] parts[k] == seq![DOT, DOT];
    lemma_first_up(parts, n as int);
    let k = first_up(parts, n as int);
    assert(k <= up);
    let taken = before + parts.subrange(n as int, k + 1);
    let tail = parts.skip(k + 1);
    let r = led_back(parts, n as int, before);
    lemma_parents_are_out(taken);
    lemma_parents_in_add(without_parents(taken), tail);
    let head = parts.take(k + 1);
    assert(head + tail =~= parts);
    lemma_parents_in_add(head, tail);
    assert(head.last() == seq![DOT, DOT]);
    lemma_components_are_components(path);
    lemma_components_are_components(front);
    assert forall|i: int| 0 <= i < r.len() implies is_part(#[trigger] r[i]) by {
        let kept = without_parents(taken);
        if i < kept.len() {
            assert(r[i] == kept[i]);
            let j = choose|j: int| 0 <= j < taken.len() && taken[j] == kept[i];
            if j < before.len() {
                assert(before[j] == taken[j]);
            } else {
                assert(parts[j - before.len() + n] == taken[j]);
            }
        } else {
            assert(r[i] == parts[i - kept.len() + k + 1]);
        }
    }
    lemma_parents_in_path_of(r);
}

/// Where the parent directory is not named, nothing is taken out.
pub proof fn lemma_without_parents(parts: Seq<Seq<u8>>)
    requires
        forall|k: int| 0 <= k < parts.len() ==> #[trigger] parts[k] != seq![DOT, DOT],
    ensures
        without_parents(parts) == parts,
    decreases parts.len(),
{
    if parts.len() > 0 {
        let front = parts.drop_last();
        assert forall|k: int| 0 <= k < front.len() implies #[trigger] front[k] != seq![
            DOT,
            DOT,
        ] by {
            assert(front[k] == parts[k]);
        }
        lemma_without_parents(front);
        assert(parts[parts.len() - 1] != seq![DOT, DOT]);
        assert(front.push(parts.last()) =~= parts);
    } else {
        assert(without_parents(parts) =~= parts);
    }
}

/// What is behind components and does not name the parent directory stays behind them.
pub proof fn lemma_without_parents_add(a: Seq<Seq<u8>>, b: Seq<Seq<u8>>)
    requires
        forall|k: int| 0 <= k < b.len() ==> #[trigger] b[k] != seq![DOT, DOT],
    ensures
        without_parents(a + b) == without_parents(a) + b,
    decreases b.len(),
{
    if b.len() == 0 {
        assert(a + b =~= a);
        assert(without_parents(a) + b =~= without_parents(a));
    } else {
        let front = b.drop_last();
        assert forall|k: int| 0 <= k < front.len() implies #[trigger] front[k] != seq![
            DOT,
            DOT,
        ] by {
            assert(front[k] == b[k]);
        }
        lemma_without_parents_add(a, front);
        assert(b[b.len() - 1] != seq![DOT, DOT]);
        assert((a + b).drop_last() =~= a + front);
        assert((without_parents(a) + front).push(b.last()) =~= without_parents(a) + b);
    }
}

/// A separator at the end does not count.
pub proof fn law_trailing_slash_does_not_count(path: Seq<u8>)
    requires
        0 < path.len(),
    ensures
        components(path.push(SLASH)) == components(path),
{
    let whole = path.push(SLASH);
    let n = path.len() as int;
    assert(whole.take(n) =~= path.take(n));
    lemma_spans_local(whole, path, n);
    assert(last_slash(whole, n + 1) == n);
    assert(spans(whole, n + 1) == spans(path, n));
    lemma_spans_ordered(path, n);
    assert forall|k: int| 0 <= k < components(path).len() implies #[trigger] components(whole)[k]
        == components(path)[k] by {
        let s = spans(path, n);
        assert(s[k].1 <= n);
        assert(whole.subrange(s[k].0, s[k].1) =~= path.subrange(s[k].0, s[k].1));
    }
    assert(components(whole) =~= components(path));
}

/// The components that a path brings along where it is taken as relative to another one: those
/// that it has behind the root.
pub open spec fn relative_components(path: Seq<u8>) -> Seq<Seq<u8>> {
    components(seq![SLASH] + path).skip(1)
}

/// Spans further on by `k`.
pub open spec fn shifted(s: Seq<(int, int)>, k: int) -> Seq<(int, int)> {
    Seq::new(s.len(), |i: int| (s[i].0 + k, s[i].1 + k))
}

/// Separators behind a front that ends with one are where they are behind the root.
proof fn lemma_last_slash_behind(front: Seq<u8>, path: Seq<u8>, n: int)
    requires
        0 < front.len(),
        front.last() == SLASH,
        0 <= n <= path.len(),
    ensures
        last_slash(front + path, front.len() + n) == front.len() - 1 + last_slash(
            seq![SLASH] + path,
            1 + n,
        ),
        0 <= last_slash(seq![SLASH] + path, 1 + n) <= n,
    decreases n,
{
    let whole = front + path;
    let rooted = seq![SLASH] + path;
    if n == 0 {
        assert(whole[front.len() - 1] == SLASH);
        assert(rooted[0] == SLASH);
    } else {
        assert(whole[front.len() + n - 1] == path[n - 1]);
        assert(rooted[n] == path[n - 1]);
        lemma_last_slash_behind(front, path, n - 1);
    }
}

/// Components behind a front that ends with a separator are those behind the root.
proof fn lemma_spans_behind(front: Seq<u8>, path: Seq<u8>, n: int)
    requires
        0 < front.len(),
        front.last() == SLASH,
        0 <= n <= path.len(),
    ensures
        0 < spans(seq![SLASH] + path, 1 + n).len(),
        spans(seq![SLASH] + path, 1 + n)[0] == (0int, 1int),
        spans(front + path, front.len() + n) == spans(front, front.len() as int) + shifted(
            spans(seq![SLASH] + path, 1 + n).skip(1),
            front.len() - 1,
        ),
    decreases n,
{
    let whole = front + path;
    let rooted = seq![SLASH] + path;
    let m = front.len() as int;
    let i = last_slash(rooted, 1 + n);
    let j = m - 1 + i;
    lemma_last_slash_behind(front, path, n);
    let own = spans(rooted, 1 + n);
    let all = spans(whole, m + n);
    assert(is_void(rooted, i + 1, 1 + n) == is_void(whole, j + 1, m + n)) by {
        if i + 1 < 1 + n {
            assert(rooted[i + 1] == path[i]);
            assert(whole[j + 1] == path[i]);
        }
    }
    if i == 0 {
        assert(last_slash(front, m) == m - 1);
        assert(whole.take(m) =~= front.take(m));
        assert(whole.take(m - 1) =~= front.take(m - 1));
        lemma_spans_local(whole, front, m - 1);
        assert(spans_before(whole, m - 1) == spans(front, m));
        assert(all =~= spans(front, m) + shifted(own.skip(1), m - 1));
    } else {
        lemma_spans_behind(front, path, i - 1);
        assert(all =~= spans(front, m) + shifted(own.skip(1), m - 1));
    }
}

/// A relative path that was joined to a base has the components of the base in front of those
/// that it brings along.
pub proof fn law_joined_components(base: Seq<u8>, path: Seq<u8>)
    requires
        !is_absolute(path),
        0 < base.len(),
    ensures
        components(joined(base, path)) == components(base) + relative_components(path),
{
    let front = if base.last() == SLASH {
        base
    } else {
        base.push(SLASH)
    };
    let whole = front + path;
    let rooted = seq![SLASH] + path;
    let m = front.len() as int;
    let n = path.len() as int;
    assert(joined(base, path) == whole);
    if base.last() != SLASH {
        law_trailing_slash_does_not_count(base);
    }
    assert(components(front) == components(base));
    lemma_spans_behind(front, path, n);
    lemma_spans_ordered(front, m);
    lemma_spans_ordered(rooted, 1 + n);
    let before = spans(front, m);
    let behind = spans(rooted, 1 + n);
    let s = spans(whole, m + n);
    assert forall|k: int| 0 <= k < s.len() implies #[trigger] components(whole)[k] == (components(
        front,
    ) + relative_components(path))[k] by {
        if k < before.len() {
            assert(s[k] == before[k]);
            assert(before[k].1 <= m);
            assert(whole.subrange(s[k].0, s[k].1) =~= front.subrange(s[k].0, s[k].1));
        } else {
            let h = k - before.len() + 1;
            assert(behind[0].1 <= behind[h].0);
            assert(s[k] == (behind[h].0 + m - 1, behind[h].1 + m - 1));
            assert(whole.subrange(s[k].0, s[k].1) =~= rooted.subrange(behind[h].0, behind[h].1));
        }
    }
    assert(components(whole) =~= components(front) + relative_components(path));
}

/// A relative path that was joined to a base lies under the base, component by component.
pub proof fn law_joined_is_within(base: Seq<u8>, path: Seq<u8>)
    requires
        !is_absolute(path),
        0 < base.len(),
    ensures
        is_within(joined(base, path), base),
{
    law_joined_components(base, path);
    let a = components(base);
    assert(components(joined(base, path)).subrange(0, a.len() as int) =~= a);
}

/// Whether a relative path is written without anything that does not count: it begins and ends
/// with a component that is more than a dot.
pub open spec fn is_plain(path: Seq<u8>) -> bool {
    &&& 0 < path.len()
    &&& path[0] != SLASH
    &&& path.last() != SLASH
    &&& !(path[0] == DOT && (path.len() == 1 || path[1] == SLASH))
    &&& !(path.last() == DOT && (path.len() == 1 || path[path.len() - 2] == SLASH))
}

/// A path behind the root has its components one further on.
proof fn lemma_spans_rooted(path: Seq<u8>, n: int)
    requires
        is_plain(path),
        0 < n <= path.len(),
        n < path.len() ==> path[n] == SLASH,
    ensures
        spans(seq![SLASH] + path, 1 + n) == seq![(0int, 1int)] + shifted(spans(path, n), 1),
        0 < spans(path, n).len(),
        spans(path, n)[0].0 == 0,
    decreases n,
{
    let rooted = seq![SLASH] + path;
    let i = last_slash(path, n);
    lemma_last_slash(path, n);
    lemma_last_slash_rooted(path, n);
    if i < 0 {
        assert(rooted[1] == path[0]);
        assert(spans(rooted, 1 + n) =~= seq![(0int, 1int)] + shifted(spans(path, n), 1));
    } else {
        assert(i > 0);
        lemma_spans_rooted(path, i);
        if i + 1 < n {
            assert(rooted[i + 2] == path[i + 1]);
        }
        assert(is_void(path, i + 1, n) == is_void(rooted, i + 2, 1 + n));
        assert(spans(rooted, 1 + n) =~= seq![(0int, 1int)] + shifted(spans(path, n), 1));
    }
}

/// A path behind the root has its separators one further on.
proof fn lemma_last_slash_rooted(path: Seq<u8>, n: int)
    requires
        0 <= n <= path.len(),
    ensures
        last_slash(seq![SLASH] + path, 1 + n) == last_slash(path, n) + 1,
    decreases n,
{
    let rooted = seq![SLASH] + path;
    if n == 0 {
        assert(rooted[0] == SLASH);
    } else {
        assert(rooted[n] == path[n - 1]);
        lemma_last_slash_rooted(path, n - 1);
    }
}

/// A plain path brings along just the components that it has.
pub proof fn law_plain_components(path: Seq<u8>)
    requires
        is_plain(path),
    ensures
        relative_components(path) == components(path),
{
    let rooted = seq![SLASH] + path;
    let n = path.len() as int;
    lemma_spans_rooted(path, n);
    lemma_spans_ordered(path, n);
    let own = spans(path, n);
    assert forall|k: int| 0 <= k < own.len() implies #[trigger] relative_components(path)[k]
        == components(path)[k] by {
        assert(own[k].1 <= n);
        assert(spans(rooted, 1 + n)[k + 1] == (own[k].0 + 1, own[k].1 + 1));
        assert(rooted.subrange(own[k].0 + 1, own[k].1 + 1) =~= path.subrange(own[k].0, own[k].1));
    }
    assert(relative_components(path) =~= components(path));
}

/// What is left of a joined path behind its base is the path that was joined to it.
pub proof fn law_relative_undoes_join(base: Seq<u8>, path: Seq<u8>)
    requires
        0 < base.len(),
        is_plain(path),
    ensures
        relative_to(joined(base, path), base) == Some(path),
{
    let front = if base.last() == SLASH {
        base
    } else {
        base.push(SLASH)
    };
    let whole = front + path;
    let n = path.len() as int;
    let m = front.len() as int;
    assert(joined(base, path) == whole);
    law_joined_is_within(base, path);
    if base.last() != SLASH {
        law_trailing_slash_does_not_count(base);
    }
    lemma_spans_behind(front, path, n);
    lemma_spans_rooted(path, n);
    lemma_last_slash(path, n);
    let own = spans(path, n);
    assert(own.last().1 == n);
    let s = spans(whole, m + n);
    let c = components(base).len() as int;
    assert(components(front).len() == c);
    assert(s[c] == (own[0].0 + m, own[0].1 + m));
    assert(s.last() == (own.last().0 + m, own.last().1 + m));
    assert(whole.subrange(m, m + n) =~= path);
}

/// Finds where the components of a path begin and end.
fn find_spans(path: &Vec<u8>) -> (r: Vec<Span>)
    ensures
        span_views(r@) == spans(path@, path@.len() as int),
{
    let mut found: Vec<Span> = Vec::new();
    let mut start: usize = 0;
    let mut i: usize = 0;
    assert(span_views(found@) =~= Seq::empty());
    while i < path.len()
        invariant
            start <= i <= path.len(),
            last_slash(path@, i as int) == start - 1,
            start == 0 ==> found@.len() == 0,
            start > 0 ==> span_views(found@) == spans_before(path@, start - 1),
        decreases path@.len() - i,
    {
        if path[i] == SLASH {
            let ghost before = found@;
            if i == 0 {
                found.push(Span { start: 0, end: 1 });
                assert(span_views(found@) =~= spans_before(path@, 0));
            } else if start == 0 {
                found.push(Span { start: 0, end: i });
                assert(span_views(found@) =~= spans(path@, i as int));
            } else if !(start == i || (i == start + 1 && path[start] == DOT)) {
                found.push(Span { start, end: i });
                assert(span_views(found@) =~= span_views(before).push((start as int, i as int)));
            }
            start = i + 1;
        }
        i = i + 1;
    }
    if path.len() > 0 {
        let ghost before = found@;
        if start == 0 {
            found.push(Span { start: 0, end: i });
            assert(span_views(found@) =~= spans(path@, i as int));
        } else if !(start == i || (i == start + 1 && path[start] == DOT)) {
            found.push(Span { start, end: i });
            assert(span_views(found@) =~= span_views(before).push((start as int, i as int)));
        }
    }
    found
}

/// The path without its last component, where it has one besides the root.
pub fn parent_path(path: &Vec<u8>) -> (r: Option<Vec<u8>>)
    ensures
        r.deep_view() == parent(path@),
{
    let found = find_spans(path);
    proof {
        lemma_spans_ordered(path@, path@.len() as int);
    }
    let ghost s = spans(path@, path@.len() as int);
    assert(found@.len() == s.len());
    if found.len() == 0 {
        return None;
    }
    if found.len() == 1 {
        assert(0 <= s[0].0 < s[0].1 <= path@.len());
        if path[0] == SLASH {
            return None;
        }
        let r: Vec<u8> = Vec::new();
        assert(r.deep_view() =~= Seq::empty());
        return Some(r);
    }
    let end: usize = found[found.len() - 2].end;
    assert(s[s.len() - 2] == found@[s.len() - 2]@);
    let r = copy_part(path, 0, end);
    assert(r.deep_view() =~= path@.take(end as int));
    Some(r)
}

/// The components of a path.
pub fn path_components(path: &Vec<u8>) -> (r: Vec<Vec<u8>>)
    ensures
        r.deep_view() == components(path@),
        path_views(r@) == components(path@),
{
    let found = find_spans(path);
    let ghost s = spans(path@, path@.len() as int);
    proof {
        lemma_spans_ordered(path@, path@.len() as int);
    }
    let mut r: Vec<Vec<u8>> = Vec::new();
    let mut k: usize = 0;
    while k < found.len()
        invariant
            k <= found@.len(),
            span_views(found@) == s,
            s == spans(path@, path@.len() as int),
            forall|j: int| 0 <= j < s.len() ==> 0 <= (#[trigger] s[j]).0 < s[j].1 <= path@.len(),
            r.deep_view() == components(path@).take(k as int),
        decreases found@.len() - k,
    {
        assert(s[k as int] == found@[k as int]@);
        let part = copy_part(path, found[k].start, found[k].end);
        let ghost before = r.deep_view();
        r.push(part);
        assert(part.deep_view() =~= part@);
        assert(r.deep_view() =~= before.push(part@));
        assert(components(path@).take(k as int).push(part@) =~= components(path@).take(k + 1));
        k = k + 1;
    }
    assert(components(path@).take(k as int) =~= components(path@));
    assert forall|i: int| 0 <= i < r@.len() implies #[trigger] path_views(r@)[i]
        == r.deep_view()[i] by {
        assert(r@[i].deep_view() =~= r@[i]@);
    }
    assert(path_views(r@) =~= components(path@));
    r
}

/// Whether a component names the parent directory.
fn is_parent(part: &Vec<u8>) -> (r: bool)
    ensures
        r == (part@ == seq![DOT, DOT]),
{
    let up: bool = part.len() == 2 && part[0] == DOT && part[1] == DOT;
    if up {
        assert(part@ =~= seq![DOT, DOT]);
    } else if part.len() == 2 {
        assert(seq![DOT, DOT][0] == DOT && seq![DOT, DOT][1] == DOT);
    }
    up
}

/// Adds a component to others from which the parent directory is taken out.
fn add_part(kept: &mut Vec<Vec<u8>>, part: &Vec<u8>)
    ensures
        path_views(final(kept)@) == with_part(path_views(old(kept)@), part@),
{
    let ghost before = path_views(kept@);
    if !is_parent(part) {
        kept.push(copy_bytes(part));
        assert(path_views(kept@) =~= before.push(part@));
    } else if kept.len() > 0 {
        let last = &kept[kept.len() - 1];
        assert(before.last() == last@);
        let root: bool = last.len() == 1 && last[0] == SLASH;
        assert(root == (last@ == seq![SLASH])) by {
            if root {
                assert(last@ =~= seq![SLASH]);
            } else if last@.len() == 1 {
                assert(seq![SLASH][0] == SLASH);
            }
        }
        if !root {
            kept.pop();
            assert(path_views(kept@) =~= before.drop_last());
        }
    }
}

/// Takes the parent directory out of the components of a path, along with what it leads back from.
pub fn take_out_parents(path: &Vec<u8>) -> (r: Vec<Vec<u8>>)
    ensures
        path_views(r@) == without_parents(components(path@)),
{
    let parts = path_components(path);
    let ghost all = components(path@);
    let mut kept: Vec<Vec<u8>> = Vec::new();
    let mut k: usize = 0;
    assert(path_views(kept@) =~= without_parents(all.take(0)));
    while k < parts.len()
        invariant
            k <= parts@.len(),
            path_views(parts@) == all,
            path_views(kept@) == without_parents(all.take(k as int)),
        decreases parts@.len() - k,
    {
        assert(all[k as int] == parts@[k as int]@);
        assert(all.take(k + 1).drop_last() =~= all.take(k as int));
        add_part(&mut kept, &parts[k]);
        k = k + 1;
    }
    assert(all.take(k as int) =~= all);
    kept
}

/// Finds the path with the given components.
pub fn write_path(parts: &Vec<Vec<u8>>) -> (r: Vec<u8>)
    ensures
        r@ == path_of(path_views(parts@)),
{
    let ghost all = path_views(parts@);
    let mut r: Vec<u8> = Vec::new();
    let mut k: usize = 0;
    assert(r@ =~= path_of(all.take(0)));
    while k < parts.len()
        invariant
            k <= parts@.len(),
            all == path_views(parts@),
            r@ == path_of(all.take(k as int)),
        decreases parts@.len() - k,
    {
        assert(all.take(k + 1).drop_last() =~= all.take(k as int));
        assert(all.take(k + 1).last() == parts@[k as int]@);
        r = join_path(&r, &parts[k]);
        k = k + 1;
    }
    assert(all.take(k as int) =~= all);
    r
}

/// Leads a path back of which the first `n` components lead to `front`: of the others the first
/// that names the parent directory is taken out.
pub fn lead_back(path: &Vec<u8>, n: usize, front: &Vec<u8>) -> (r: Vec<u8>)
    requires
        goes_up_behind(path@, n as nat),
    ensures
        r@ == path_of(led_back(components(path@), n as int, components(front@))),
{
    let parts = path_components(path);
    let ghost all = components(path@);
    let ghost before = components(front@);
    let ghost end = first_up(all, n as int);
    proof {
        lemma_first_up(all, n as int);
        let up = choose|k: int| n <= k < all.len() && #[trigger] all[k] == seq![DOT, DOT];
        assert(end <= up);
    }
    let mut kept = take_out_parents(front);
    let mut k: usize = n;
    assert(before + all.subrange(n as int, n as int) =~= before);
    let mut done: bool = false;
    while !done
        invariant
            n <= k,
            n <= end < all.len(),
            end == first_up(all, n as int),
            all[end] == seq![DOT, DOT],
            forall|j: int| n <= j < end ==> #[trigger] all[j] != seq![DOT, DOT],
            path_views(parts@) == all,
            !done ==> k <= end,
            done ==> k == end + 1,
            path_views(kept@) == without_parents(before + all.subrange(n as int, k as int)),
        decreases all.len() + 1 - k,
    {
        assert(all[k as int] == parts@[k as int]@);
        assert((before + all.subrange(n as int, k + 1)).drop_last() =~= before + all.subrange(
            n as int,
            k as int,
        ));
        assert(k < parts.len());
        done = is_parent(&parts[k]);
        add_part(&mut kept, &parts[k]);
        k = k + 1;
    }
    let ghost head = path_views(kept@);
    let ghost from = k as int;
    assert(head + all.subrange(from, from) =~= head);
    while k < parts.len()
        invariant
            from <= k <= parts@.len(),
            0 <= from,
            path_views(parts@) == all,
            path_views(kept@) == head + all.subrange(from, k as int),
        decreases parts@.len() - k,
    {
        assert(all[k as int] == parts@[k as int]@);
        let ghost before = path_views(kept@);
        kept.push(copy_bytes(&parts[k]));
        assert(path_views(kept@) =~= before.push(all[k as int]));
        assert(all.subrange(from, k + 1) =~= all.subrange(from, k as int).push(all[k as int]));
        assert(path_views(kept@) =~= head + all.subrange(from, k + 1));
        k = k + 1;
    }
    assert(all.subrange(from, k as int) =~= all.skip(from));
    write_path(&kept)
}

/// Whether components begin with the given ones.
fn begins_with(parts: &Vec<Vec<u8>>, front: &Vec<Vec<u8>>) -> (r: bool)
    ensures
        r == path_views(front@).is_prefix_of(path_views(parts@)),
{
    let ghost p = path_views(parts@);
    let ghost f = path_views(front@);
    if front.len() > parts.len() {
        return false;
    }
    let mut k: usize = 0;
    while k < front.len()
        invariant
            p == path_views(parts@),
            f == path_views(front@),
            front@.len() <= parts@.len(),
            k <= front@.len(),
            forall|j: int| 0 <= j < k ==> p[j] == f[j],
        decreases front@.len() - k,
    {
        assert(p[k as int] == parts@[k as int]@ && f[k as int] == front@[k as int]@);
        if !same_bytes(&parts[k], &front[k]) {
            assert(p.subrange(0, f.len() as int)[k as int] == p[k as int]);
            return false;
        }
        k = k + 1;
    }
    assert(p.subrange(0, f.len() as int) =~= f);
    true
}

/// Whether the components of `path` begin with those of `base`.
pub fn path_is_within(path: &Vec<u8>, base: &Vec<u8>) -> (r: bool)
    ensures
        r == is_within(path@, base@),
{
    begins_with(&path_components(path), &path_components(base))
}

/// Whether the components of `path`, with the parent directory taken out, begin with those of
/// `base`.
pub fn path_leads_into(path: &Vec<u8>, base: &Vec<u8>) -> (r: bool)
    ensures
        r == leads_into(path@, base@),
{
    begins_with(&take_out_parents(path), &path_components(base))
}

/// Whether a path names the parent directory behind its first `n` components.
pub fn path_goes_up_behind(path: &Vec<u8>, n: usize) -> (r: bool)
    ensures
        r == goes_up_behind(path@, n as nat),
{
    let parts = path_components(path);
    let ghost all = components(path@);
    let mut k: usize = n;
    while k < parts.len()
        invariant
            parts.deep_view() == all,
            all == components(path@),
            n <= k,
            forall|j: int| n <= j < k && j < all.len() ==> #[trigger] all[j] != seq![DOT, DOT],
        decreases parts.len() - k,
    {
        let part = &parts[k];
        assert(all[k as int] =~= part@) by {
            assert(all[k as int] == parts@[k as int].deep_view());
            assert(part.deep_view() =~= part@);
        }
        if part.len() == 2 && part[0] == DOT && part[1] == DOT {
            assert(all[k as int] =~= seq![DOT, DOT]);
            return true;
        }
        assert(all[k as int] != seq![DOT, DOT]) by {
            if all[k as int] == seq![DOT, DOT] {
                assert(seq![DOT, DOT][0] == DOT && seq![DOT, DOT][1] == DOT);
            }
        }
        k = k + 1;
    }
    false
}

/// What is left of `path` behind the components of `base`.
pub fn relative_path(path: &Vec<u8>, base: &Vec<u8>) -> (r: Option<Vec<u8>>)
    ensures
        r.deep_view() == relative_to(path@, base@),
{
    if !path_is_within(path, base) {
        return None;
    }
    let found = find_spans(path);
    let inner = path_components(base);
    let ghost s = spans(path@, path@.len() as int);
    proof {
        lemma_spans_ordered(path@, path@.len() as int);
    }
    assert(inner@.len() == components(base@).len());
    assert(found@.len() == s.len());
    assert(components(path@).len() == s.len());
    if inner.len() == found.len() {
        let r: Vec<u8> = Vec::new();
        assert(r.deep_view() =~= Seq::empty());
        return Some(r);
    }
    let n: usize = inner.len();
    let from: usize = found[n].start;
    let to: usize = found[found.len() - 1].end;
    assert(s[n as int] == found@[n as int]@);
    assert(s[s.len() - 1] == found@[s.len() - 1]@);
    assert(s[n as int].0 <= s.last().1) by {
        if n < s.len() - 1 {
            assert(s[n as int].1 <= s[s.len() - 1].0);
        }
    }
    let r = copy_part(path, from, to);
    assert(r.deep_view() =~= path@.subrange(from as int, to as int));
    Some(r)
}

/// The last component of a path, where it names an entry of a directory.
pub fn path_file_name(path: &Vec<u8>) -> (r: Option<Vec<u8>>)
    ensures
        r.deep_view() == file_name(path@),
{
    let mut c = path_components(path);
    let ghost all = components(path@);
    assert(c@.len() == all.len());
    let ghost views = c.deep_view();
    match c.pop() {
        None => None,
        Some(last) => {
            assert(views.last() == last.deep_view());
            assert(last.deep_view() =~= last@);
            assert(all.last() == last@);
            let plain: bool = if last.len() == 1 {
                last[0] != SLASH && last[0] != DOT
            } else if last.len() == 2 {
                !(last[0] == DOT && last[1] == DOT)
            } else {
                true
            };
            assert(plain == is_name(last@)) by {
                if last@.len() == 1 {
                    assert(last@ == seq![SLASH] <==> last@ =~= seq![SLASH]);
                    assert(last@ == seq![DOT] <==> last@ =~= seq![DOT]);
                    assert(last@ =~= seq![last@[0]]);
                }
                if last@.len() == 2 {
                    assert(last@ =~= seq![last@[0], last@[1]]);
                    assert(seq![DOT, DOT][0] == DOT && seq![DOT, DOT][1] == DOT);
                }
            }
            if plain {
                Some(last)
            } else {
                None
            }
        },
    }
}

/// Takes `path` as relative to `base`; an absolute path stands for itself.
pub fn join_path(base: &Vec<u8>, path: &Vec<u8>) -> (r: Vec<u8>)
    ensures
        r@ == joined(base@, path@),
{
    if path.len() > 0 && path[0] == SLASH {
        return copy_bytes(path);
    }
    let mut r = copy_bytes(base);
    if base.len() > 0 && base[base.len() - 1] != SLASH {
        r.push(SLASH);
    }
    let mut tail = copy_bytes(path);
    r.append(&mut tail);
    r
}

} // verus!
