//! Where paths lead on a disk without links.

use vstd::prelude::*;
use crate::disk::{Disk, Node, Place, lemma_above_is_directory};
use crate::file_plan::PathStatus;
use crate::filesystem_direct::{HostView, may_follow};
use crate::host_path::{
    DOT, SLASH, are_components, components, first_up, goes_up_behind, is_absolute, is_part,
    law_led_back_goes_up_less, law_parent_drops_last_component, law_path_of_components, led_back,
    lemma_components_are_components, lemma_first_up, lemma_parents_are_out, lemma_root_comes_first,
    lemma_without_parents, lemma_without_parents_add, parent, parents_in, path_of, without_parents,
};
use crate::volume_path::{
    deepest_existing, law_deepest_existing_is_part, led_to, target_led_back,
};

verus! {

/// Where a path leads: its components with every `..` taken out.
#[verifier::opaque]
pub open spec fn spot(path: Seq<u8>) -> Place {
    without_parents(components(path))
}

/// The place that the first `k` of some components lead to.
pub open spec fn way(parts: Seq<Seq<u8>>, k: int) -> Place {
    without_parents(parts.take(k))
}

/// Whether components lead through a place or to it.
pub open spec fn is_on_way(place: Place, parts: Seq<Seq<u8>>) -> bool {
    exists|k: int| 0 <= k <= parts.len() && place == #[trigger] way(parts, k)
}

/// Whether each `..` among components leads to a place on a disk: it does not lead back to where
/// a relative path begins.
pub open spec fn keeps_to_disk(parts: Seq<Seq<u8>>) -> bool {
    forall|k: int|
        0 <= k < parts.len() && #[trigger] parts[k] == seq![DOT, DOT] ==> 0 < way(
            parts,
            k + 1,
        ).len()
}

/// Whether each `..` among components leads back from a directory that is there, and to a place
/// on the disk.
pub open spec fn can_be_walked(disk: Disk, parts: Seq<Seq<u8>>) -> bool {
    forall|k: int|
        0 <= k < parts.len() && #[trigger] parts[k] == seq![DOT, DOT] ==> disk.at(way(parts, k))
            == Some(Node::Directory) && 0 < way(parts, k + 1).len()
}

/// Whether each `..` in a path leads back from a directory that is there.
#[verifier::opaque]
pub open spec fn is_walkable(disk: Disk, path: Seq<u8>) -> bool {
    can_be_walked(disk, components(path))
}

/// Whether a path can only be that of a directory: it ends with a separator, or with a `.` behind
/// one.
pub open spec fn asks_for_directory(path: Seq<u8>) -> bool {
    0 < path.len() && (path.last() == SLASH || (1 < path.len() && path.last() == DOT && path[
    path.len() - 2] == SLASH))
}

/// What is found at a path.
pub open spec fn found(disk: Disk, path: Seq<u8>) -> Option<Node> {
    if !is_walkable(disk, path) || (asks_for_directory(path) && !disk.is_directory(spot(path))) {
        None
    } else {
        disk.at(spot(path))
    }
}

/// What a path leads to on a disk.
pub open spec fn status_on(disk: Disk, path: Seq<u8>) -> PathStatus {
    match found(disk, path) {
        None => PathStatus::Missing,
        Some(Node::File { .. }) => PathStatus::File,
        Some(Node::Directory) => PathStatus::Directory,
    }
}

/// What is the case on a host with a disk: without links, a path resolves to the place that it
/// leads to.
pub open spec fn host_with(disk: Disk) -> HostView {
    HostView {
        present: |path: Seq<u8>| found(disk, path) is Some,
        resolved: |path: Seq<u8>|
            if found(disk, path) is Some {
                Some(path_of(spot(path)))
            } else {
                None
            },
        status: |path: Seq<u8>| status_on(disk, path),
    }
}

/// What is left of components with every `..` taken out can be all the components of a path.
proof fn lemma_parents_out_are_components(parts: Seq<Seq<u8>>)
    requires
        are_components(parts),
    ensures
        are_components(without_parents(parts)),
    decreases parts.len(),
{
    if parts.len() > 0 {
        let front = parts.drop_last();
        assert forall|i: int| 0 <= i < front.len() implies is_part(#[trigger] front[i]) && (i > 0
            ==> front[i] != seq![SLASH] && front[i] != seq![DOT]) by {
            assert(front[i] == parts[i]);
        }
        lemma_parents_out_are_components(front);
        let kept = without_parents(front);
        let r = without_parents(parts);
        assert(parts[parts.len() - 1] == parts.last());
        assert forall|i: int| 0 <= i < r.len() implies is_part(#[trigger] r[i]) && (i > 0 ==> r[i]
            != seq![SLASH] && r[i] != seq![DOT]) by {
            if i < kept.len() {
                assert(r[i] == kept[i]);
            } else {
                assert(r[i] == parts.last());
                if i > 0 {
                    assert(front.len() > 0);
                }
            }
        }
    }
}

/// The path that a path resolves to has its place as components.
pub proof fn lemma_spot(path: Seq<u8>)
    ensures
        components(path_of(spot(path))) == spot(path),
        without_parents(spot(path)) == spot(path),
{
    reveal(spot);
    lemma_components_are_components(path);
    lemma_parents_out_are_components(components(path));
    law_path_of_components(spot(path));
    lemma_parents_are_out(components(path));
    lemma_without_parents(spot(path));
}

/// What can be walked can be walked in part, and what keeps to the disk does in part.
pub proof fn lemma_in_part(disk: Disk, parts: Seq<Seq<u8>>, m: int)
    requires
        0 <= m <= parts.len(),
    ensures
        can_be_walked(disk, parts) ==> can_be_walked(disk, parts.take(m)),
        keeps_to_disk(parts) ==> keeps_to_disk(parts.take(m)),
        forall|k: int| 0 <= k <= m ==> #[trigger] way(parts.take(m), k) == way(parts, k),
{
    let front = parts.take(m);
    assert forall|k: int| 0 <= k <= m implies #[trigger] way(front, k) == way(parts, k) by {
        assert(front.take(k) =~= parts.take(k));
    }
    assert forall|k: int| 0 <= k < m implies #[trigger] front[k] == parts[k] && way(front, k)
        == way(parts, k) && way(front, k + 1) == way(parts, k + 1) by {}
}

/// Where directories stay that were there, components that could be walked can still be.
pub proof fn lemma_still_walked(before: Disk, after: Disk, parts: Seq<Seq<u8>>)
    requires
        can_be_walked(before, parts),
        forall|p: Place| #[trigger]
            before.at(p) == Some(Node::Directory) ==> after.at(p) == Some(Node::Directory),
    ensures
        can_be_walked(after, parts),
{
    assert forall|k: int| 0 <= k < parts.len() && #[trigger] parts[k] == seq![DOT, DOT] implies
        after.at(way(parts, k)) == Some(Node::Directory) && 0 < way(parts, k + 1).len() by {
        assert(before.at(way(parts, k)) == Some(Node::Directory));
    }
}

/// Where directories stay that were there, a path that could be walked can still be.
pub proof fn lemma_still_walkable(before: Disk, after: Disk, path: Seq<u8>)
    requires
        is_walkable(before, path),
        forall|p: Place| #[trigger]
            before.at(p) == Some(Node::Directory) ==> after.at(p) == Some(Node::Directory),
    ensures
        is_walkable(after, path),
{
    reveal(is_walkable);
    lemma_still_walked(before, after, components(path));
}

/// What does not lead back up can be walked behind what can be.
pub proof fn lemma_walked_on(disk: Disk, parts: Seq<Seq<u8>>, n: int, m: int)
    requires
        0 <= n <= m <= parts.len(),
        can_be_walked(disk, parts.take(n)),
        forall|k: int| n <= k < m ==> #[trigger] parts[k] != seq![DOT, DOT],
    ensures
        can_be_walked(disk, parts.take(m)),
{
    let front = parts.take(m);
    lemma_in_part(disk, front, n);
    assert(front.take(n) =~= parts.take(n));
    assert forall|k: int| 0 <= k < front.len() && #[trigger] front[k] == seq![DOT, DOT] implies
        disk.at(way(front, k)) == Some(Node::Directory) && 0 < way(front, k + 1).len() by {
        assert(front[k] == parts[k]);
        assert(k < n);
        assert(parts.take(n)[k] == seq![DOT, DOT]);
        assert(way(front.take(n), k) == way(front, k));
        assert(way(front.take(n), k + 1) == way(front, k + 1));
    }
}

/// Components that keep to the disk lead to a place below the first of them.
pub proof fn lemma_first_stays(parts: Seq<Seq<u8>>)
    requires
        keeps_to_disk(parts),
        0 < parts.len(),
    ensures
        0 < without_parents(parts).len(),
        without_parents(parts)[0] == parts[0],
    decreases parts.len(),
{
    let n = parts.len() as int;
    let front = parts.drop_last();
    assert(parts.take(n) =~= parts);
    assert(parts.take(n - 1) =~= front);
    assert(parts[n - 1] == parts.last());
    if front.len() == 0 {
        assert(without_parents(front) =~= Seq::<Seq<u8>>::empty());
    } else {
        lemma_in_part(Disk { nodes: |p: Place| None }, parts, n - 1);
        lemma_first_stays(front);
    }
    if parts.last() == seq![DOT, DOT] {
        assert(0 < way(parts, n).len());
    }
}

/// A path that begins at the root keeps to the disk: nothing lies above the root.
pub proof fn law_absolute_path_keeps_to_disk(path: Seq<u8>)
    requires
        is_absolute(path),
    ensures
        keeps_to_disk(components(path)),
{
    let c = components(path);
    lemma_root_comes_first(path);
    assert forall|k: int| 0 <= k < c.len() && #[trigger] c[k] == seq![DOT, DOT] implies 0 < way(
        c,
        k + 1,
    ).len() by {
        lemma_root_stays(c.take(k + 1));
    }
}

/// The root is never taken out.
proof fn lemma_root_stays(parts: Seq<Seq<u8>>)
    requires
        0 < parts.len(),
        parts[0] == seq![SLASH],
    ensures
        0 < without_parents(parts).len(),
        without_parents(parts)[0] == seq![SLASH],
    decreases parts.len(),
{
    let front = parts.drop_last();
    if front.len() == 0 {
        assert(without_parents(front) =~= Seq::<Seq<u8>>::empty());
        assert(seq![SLASH].len() != seq![DOT, DOT].len());
    } else {
        lemma_root_stays(front);
        let kept = without_parents(front);
        if kept.len() == 1 {
            assert(kept.last() == seq![SLASH]);
        }
    }
}

/// A path without `..` leads through the places above the one that it leads to, and no others.
pub proof fn law_way_down_leads_through_what_is_above(path: Seq<u8>, place: Place)
    requires
        forall|k: int|
            0 <= k < components(path).len() ==> #[trigger] components(path)[k] != seq![DOT, DOT],
        is_on_way(place, components(path)),
    ensures
        place.is_prefix_of(spot(path)),
{
    reveal(spot);
    let c = components(path);
    let k = choose|k: int| 0 <= k <= c.len() && place == #[trigger] way(c, k);
    let front = c.take(k);
    assert forall|j: int| 0 <= j < front.len() implies #[trigger] front[j] != seq![DOT, DOT] by {
        assert(front[j] == c[j]);
    }
    lemma_without_parents(front);
    lemma_without_parents(c);
    assert(c.subrange(0, k) =~= front);
}

/// Where the parent directory was taken out in front, the rest leads to the same place.
pub proof fn lemma_without_parents_twice(a: Seq<Seq<u8>>, b: Seq<Seq<u8>>)
    ensures
        without_parents(without_parents(a) + b) == without_parents(a + b),
    decreases b.len(),
{
    let front = without_parents(a);
    if b.len() == 0 {
        assert(a + b =~= a);
        assert(front + b =~= front);
        lemma_parents_are_out(a);
        lemma_without_parents(front);
    } else {
        lemma_without_parents_twice(a, b.drop_last());
        assert((a + b).drop_last() =~= a + b.drop_last());
        assert((front + b).drop_last() =~= front + b.drop_last());
    }
}

/// Where components lead back up, the directory that they lead to is there.
pub proof fn lemma_up_is_directory(disk: Disk, parts: Seq<Seq<u8>>)
    requires
        disk.is_tree(),
        can_be_walked(disk, parts),
        0 < parts.len(),
        parts.last() == seq![DOT, DOT],
    ensures
        disk.at(without_parents(parts.drop_last())) == Some(Node::Directory),
        disk.at(without_parents(parts)) == Some(Node::Directory),
{
    let k = parts.len() - 1;
    assert(parts[k] == parts.last());
    assert(parts.take(k) =~= parts.drop_last());
    assert(parts.take(k + 1) =~= parts);
    let here = way(parts, k);
    assert(disk.at(here) == Some(Node::Directory));
    assert(disk.is_directory(here.drop_last()));
    assert(0 < way(parts, k + 1).len());
}

/// The search for the deepest present part of a path comes at least as deep as a directory on its
/// way.
proof fn lemma_deepest_is_deepest(disk: Disk, path: Seq<u8>, m: int)
    requires
        0 < m <= components(path).len(),
        can_be_walked(disk, components(path).take(m)),
        disk.at(way(components(path), m)) == Some(Node::Directory),
    ensures
        ({
            let part = deepest_existing(path, host_with(disk).present);
            &&& found(disk, part) is Some
            &&& components(part).len() >= m
        }),
    decreases path.len(),
{
    reveal(spot);
    reveal(is_walkable);
    let c = components(path);
    if found(disk, path) is None {
        assert(m < c.len()) by {
            if m == c.len() {
                assert(c.take(m) =~= c);
            }
        }
        assert(parent(path) is Some);
        law_parent_drops_last_component(path);
        assert(c.drop_last().take(m) =~= c.take(m));
        lemma_deepest_is_deepest(disk, parent(path)->0, m);
    }
}

/// Components that were led back lead to the same place, and keep to the disk if they did.
proof fn lemma_led_back(c: Seq<Seq<u8>>, n: int)
    requires
        are_components(c),
        keeps_to_disk(c),
        0 <= n <= first_up(c, n) < c.len(),
        c[first_up(c, n)] == seq![DOT, DOT],
    ensures
        ({
            let r = led_back(c, n, way(c, n));
            &&& are_components(r)
            &&& keeps_to_disk(r)
            &&& without_parents(r) == without_parents(c)
        }),
{
    let k = first_up(c, n);
    let g = c.take(k + 1);
    let tail = c.skip(k + 1);
    let kept = without_parents(g);
    let r = led_back(c, n, way(c, n));
    lemma_without_parents_twice(c.take(n), c.subrange(n, k + 1));
    assert(c.take(n) + c.subrange(n, k + 1) =~= g);
    assert(r == kept + tail);
    lemma_without_parents_twice(g, tail);
    assert(g + tail =~= c);
    assert forall|i: int| 0 <= i < g.len() implies is_part(#[trigger] g[i]) && (i > 0 ==> g[i]
        != seq![SLASH] && g[i] != seq![DOT]) by {
        assert(g[i] == c[i]);
    }
    lemma_parents_out_are_components(g);
    assert forall|i: int| 0 <= i < r.len() implies is_part(#[trigger] r[i]) && (i > 0 ==> r[i]
        != seq![SLASH] && r[i] != seq![DOT]) by {
        if i < kept.len() {
            assert(r[i] == kept[i]);
        } else {
            assert(r[i] == c[k + 1 + i - kept.len()]);
        }
    }
    lemma_kept_to_disk(c, k + 1);
}

/// Components of which the first are replaced by the place that they lead to keep to the disk if
/// they did.
proof fn lemma_kept_to_disk(c: Seq<Seq<u8>>, n: int)
    requires
        keeps_to_disk(c),
        0 <= n <= c.len(),
    ensures
        keeps_to_disk(way(c, n) + c.skip(n)),
{
    let g = c.take(n);
    let kept = way(c, n);
    let r = kept + c.skip(n);
    lemma_parents_are_out(g);
    assert forall|j: int| 0 <= j < r.len() && #[trigger] r[j] == seq![DOT, DOT] implies 0 < way(
        r,
        j + 1,
    ).len() by {
        if j < kept.len() {
            assert(r[j] == kept[j]);
        }
        let i = j - kept.len();
        assert(c[n + i] == r[j]);
        let more = c.subrange(n, n + i + 1);
        assert(r.take(j + 1) =~= kept + more);
        lemma_without_parents_twice(g, more);
        assert(g + more =~= c.take(n + i + 1));
        assert(0 < way(c, n + i + 1).len());
    }
}

/// On a disk without links, a path that leads into a directory is led there.
proof fn lemma_led_into(disk: Disk, root: Place, path: Seq<u8>)
    requires
        disk.is_tree(),
        disk.at(root) == Some(Node::Directory),
        keeps_to_disk(components(path)),
        root.is_prefix_of(spot(path)),
    ensures
        ({
            let host = host_with(disk);
            let led = led_to(path, host.present, host.resolved);
            &&& led is Some
            &&& root.is_prefix_of(without_parents(components(led->0.canonical)))
        }),
    decreases parents_in(components(path)),
{
    reveal(spot);
    reveal(is_walkable);
    let host = host_with(disk);
    let c = components(path);
    assert(0 < root.len());
    assert(0 < c.len()) by {
        if c.len() == 0 {
            assert(spot(path).len() == 0);
        }
    }
    lemma_something_is_there(disk, root, c);
    lemma_deepest_is_deepest(disk, path, 1);
    let part = deepest_existing(path, host.present);
    let n = components(part).len() as int;
    law_deepest_existing_is_part(path, host.present);
    assert(c.take(n) =~= components(part));
    lemma_spot(part);
    let canonical = path_of(spot(part));
    assert(components(canonical) == way(c, n));
    if goes_up_behind(path, n as nat) {
        let up = choose|k: int| n <= k < c.len() && #[trigger] c[k] == seq![DOT, DOT];
        lemma_first_up(c, n);
        assert(first_up(c, n) <= up);
        lemma_components_are_components(path);
        lemma_led_back(c, n);
        let next = target_led_back(path, part, canonical);
        law_path_of_components(led_back(c, n, way(c, n)));
        law_led_back_goes_up_less(path, n as nat, canonical);
        lemma_led_into(disk, root, next);
    } else {
        let behind = c.skip(n);
        let here = spot(part);
        assert forall|k: int| n <= k < c.len() implies #[trigger] c[k] != seq![DOT, DOT] by {}
        assert forall|k: int| 0 <= k < behind.len() implies #[trigger] behind[k] != seq![
            DOT,
            DOT,
        ] by {
            assert(behind[k] == c[n + k]);
        }
        assert(c.take(n) + behind =~= c);
        lemma_without_parents_add(c.take(n), behind);
        assert(root.len() <= here.len()) by {
            if root.len() > here.len() {
                let d = root.len() - here.len();
                let more = behind.take(d);
                assert(spot(path).subrange(0, root.len() as int) =~= here + more);
                assert(c.take(n + d) =~= c.take(n) + more);
                assert forall|k: int| 0 <= k < more.len() implies #[trigger] more[k] != seq![
                    DOT,
                    DOT,
                ] by {
                    assert(more[k] == behind[k]);
                }
                lemma_without_parents_add(c.take(n), more);
                lemma_walked_on(disk, c, n, n + d);
                lemma_deepest_is_deepest(disk, path, n + d);
            }
        }
        assert(here.subrange(0, root.len() as int) =~= spot(path).subrange(0, root.len() as int));
    }
}

/// The first component of a path that leads into a directory is there.
proof fn lemma_something_is_there(disk: Disk, root: Place, c: Seq<Seq<u8>>)
    requires
        disk.is_tree(),
        disk.at(root) == Some(Node::Directory),
        keeps_to_disk(c),
        0 < c.len(),
        root.is_prefix_of(without_parents(c)),
    ensures
        can_be_walked(disk, c.take(1)),
        disk.at(way(c, 1)) == Some(Node::Directory),
{
    let first = c.take(1);
    lemma_first_stays(c);
    lemma_in_part(disk, c, 1);
    lemma_first_stays(first);
    assert(first.drop_last() =~= Seq::<Seq<u8>>::empty());
    assert(without_parents(first.drop_last()) =~= Seq::<Seq<u8>>::empty());
    assert(first.last() == c[0]);
    assert(way(c, 1) =~= seq![c[0]]);
    assert(without_parents(c).subrange(0, root.len() as int)[0] == c[0]);
    assert(seq![c[0]].is_prefix_of(root)) by {
        assert(root.subrange(0, 1) =~= seq![c[0]]);
    }
    lemma_above_is_directory(disk, seq![c[0]], root);
}

/// On a disk without links, a path may be followed if it leads into a volume that is there.
pub proof fn lemma_may_follow(disk: Disk, root: Seq<u8>, path: Seq<u8>)
    requires
        disk.is_tree(),
        found(disk, root) == Some(Node::Directory),
        keeps_to_disk(components(path)),
        spot(root).is_prefix_of(spot(path)),
    ensures
        may_follow(host_with(disk), root, path),
{
    lemma_led_into(disk, spot(root), path);
    lemma_spot(root);
}

} // verus!
