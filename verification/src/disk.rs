//! What operations on files come to on a disk.
//!
//! The disk is one without links, pipes and devices, on which nothing else happens meanwhile. The
//! library never has one: it only says which steps are to be taken. What the steps do is written
//! down here so that laws can speak of operations that follow one another.

use vstd::prelude::*;
use vstd::utf8::{
    decode_utf8, encode_utf8, encode_utf8_decode_utf8, encode_utf8_valid_utf8, valid_utf8,
};
use crate::disk_path::{
    asks_for_directory, can_be_walked, found, host_with, is_on_way, is_walkable, keeps_to_disk,
    lemma_first_stays, lemma_in_part, lemma_may_follow, lemma_still_walkable, lemma_still_walked,
    lemma_up_is_directory, spot, status_on, way,
};
use crate::file_plan::{
    FsStepValue, OperationValue, PathStatus, operation_paths, parent_made, plan, refused_outright,
    report,
};
use crate::filesystem_direct::{
    FileQueryValue, all_hosts, all_statuses, first_refusal, may_follow, verdict,
};
use crate::host_path::{
    DOT, components, is_within, law_parent_drops_last_component, parent, with_part,
    without_parents,
};
use crate::volume_path::{law_volume_path_is_below_root, volume_path, volume_root};

verus! {

/// Where something is on a disk: the components of its path, without `..` among them.
pub type Place = Seq<Seq<u8>>;

/// What is at a place on a disk.
pub enum Node {
    File { content: Seq<u8> },
    Directory,
}

/// A disk: what is at each place.
pub struct Disk {
    pub nodes: spec_fn(Place) -> Option<Node>,
}

impl Disk {
    /// What is at a place.
    pub open spec fn at(self, place: Place) -> Option<Node> {
        (self.nodes)(place)
    }

    /// Whether there is a directory at a place. Where paths begin there always is one.
    pub open spec fn is_directory(self, place: Place) -> bool {
        place.len() == 0 || self.at(place) == Some(Node::Directory)
    }

    /// Whether everything on the disk is in a directory.
    pub open spec fn is_tree(self) -> bool {
        forall|p: Place| #[trigger]
            self.at(p) is Some ==> 0 < p.len() && self.is_directory(p.drop_last())
    }

    /// The disk with a node at a place.
    pub open spec fn with(self, place: Place, node: Node) -> Disk {
        Disk {
            nodes: |p: Place|
                if p == place {
                    Some(node)
                } else {
                    self.at(p)
                },
        }
    }

    /// What is at a place and below it, as a disk of its own.
    pub open spec fn below(self, place: Place) -> Disk {
        Disk { nodes: |p: Place| self.at(place + p) }
    }

    /// The disk without what is at a place and below it.
    pub open spec fn without(self, place: Place) -> Disk {
        Disk {
            nodes: |p: Place|
                if place.is_prefix_of(p) {
                    None
                } else {
                    self.at(p)
                },
        }
    }

    /// The disk with everything of another one below a place.
    pub open spec fn with_tree(self, place: Place, tree: Disk) -> Disk {
        Disk {
            nodes: |p: Place|
                if place.is_prefix_of(p) && tree.at(p.skip(place.len() as int)) is Some {
                    tree.at(p.skip(place.len() as int))
                } else {
                    self.at(p)
                },
        }
    }
}

/// Whether two disks hold the same.
pub open spec fn same_disk(a: Disk, b: Disk) -> bool {
    forall|p: Place| #[trigger] a.at(p) == b.at(p)
}

/// Whether a disk is another one with at most some directories more, above or at a place.
pub open spec fn same_but_for_directories(after: Disk, before: Disk, place: Place) -> bool {
    forall|p: Place| #[trigger]
        after.at(p) == before.at(p) || (before.at(p) is None && after.at(p) == Some(Node::Directory)
            && p.is_prefix_of(place))
}

/// Whether a directory is new on a disk, and components lead through it or to it.
pub open spec fn is_new_on_way(after: Disk, before: Disk, parts: Seq<Seq<u8>>, p: Place) -> bool {
    before.at(p) is None && after.at(p) == Some(Node::Directory) && is_on_way(p, parts)
}

/// Whether a disk is another one with at most some directories more that components lead through
/// or to.
pub open spec fn same_but_for_way(after: Disk, before: Disk, parts: Seq<Seq<u8>>) -> bool {
    forall|p: Place| #[trigger]
        after.at(p) == before.at(p) || is_new_on_way(after, before, parts, p)
}

/// The disk after a directory and those above it were made, where they can be.
pub open spec fn directories_made(disk: Disk, place: Place) -> Option<Disk>
    decreases place.len(),
{
    if disk.is_directory(place) {
        Some(disk)
    } else if disk.at(place) is Some {
        None
    } else {
        match directories_made(disk, place.drop_last()) {
            Some(d) => Some(d.with(place, Node::Directory)),
            None => None,
        }
    }
}

/// The disk after all directories were made that components lead through or to, where they can be.
pub open spec fn way_made(disk: Disk, parts: Seq<Seq<u8>>) -> Option<Disk>
    decreases parts.len(),
{
    if parts.len() == 0 {
        Some(disk)
    } else {
        match way_made(disk, parts.drop_last()) {
            Some(d) => if parts.last() == seq![DOT, DOT] {
                Some(d)
            } else {
                directories_made(d, without_parents(parts))
            },
            None => None,
        }
    }
}

/// The disk after a file was created or replaced, where it can be.
pub open spec fn file_written(disk: Disk, place: Place, content: Seq<u8>) -> Option<Disk> {
    if 0 < place.len() && disk.is_directory(place.drop_last()) && !disk.is_directory(place) {
        Some(disk.with(place, Node::File { content }))
    } else {
        None
    }
}

/// The disk after a file was created or replaced at a path, where it can be.
pub open spec fn file_put(disk: Disk, path: Seq<u8>, content: Seq<u8>) -> Option<Disk> {
    if is_walkable(disk, path) && !asks_for_directory(path) {
        file_written(disk, spot(path), content)
    } else {
        None
    }
}

/// The disk after something was moved, where it can be. This is only described where nothing is
/// at the new place.
pub open spec fn moved(disk: Disk, from: Place, to: Place) -> Option<Disk> {
    if disk.at(from) is Some && disk.at(to) is None && 0 < to.len() && disk.is_directory(
        to.drop_last(),
    ) && !from.is_prefix_of(to) {
        Some(disk.without(from).with_tree(to, disk.below(from)))
    } else {
        None
    }
}

/// The disk after what is at a path was moved to another one, where it can be. What a `..` at the
/// end of a path leads to cannot be moved by it.
pub open spec fn renamed(disk: Disk, from: Seq<u8>, to: Seq<u8>) -> Option<Disk> {
    if found(disk, from) is Some && components(from).last() != seq![DOT, DOT] && is_walkable(
        disk,
        to,
    ) && (found(disk, from) == Some(Node::Directory) || !asks_for_directory(to)) {
        moved(disk, spot(from), spot(to))
    } else {
        None
    }
}

/// What taking steps has come to: the disk, and the text that was read.
pub struct Progress {
    pub disk: Disk,
    pub text: Option<Seq<char>>,
}

/// What taking one more step comes to, where it can be taken. A directory whose path leads through
/// it and back up cannot be removed by that path: the path leads nowhere once the directory is
/// empty. This is not described for archives and programs, nor for a file that is copied onto
/// itself.
pub open spec fn taken(before: Progress, step: FsStepValue) -> Option<Progress> {
    let disk = before.disk;
    match step {
        FsStepValue::CreateDirectories { path } => with_disk(
            before,
            way_made(disk, components(path)),
        ),
        FsStepValue::ReadText { path } => match found(disk, path) {
            Some(Node::File { content }) => if valid_utf8(content) {
                Some(Progress { text: Some(decode_utf8(content)), ..before })
            } else {
                None
            },
            _ => None,
        },
        FsStepValue::WriteFile { path, content } => with_disk(
            before,
            file_put(disk, path, content),
        ),
        FsStepValue::CopyFile { from, to } => match found(disk, from) {
            Some(Node::File { content }) => if spot(from) != spot(to) {
                with_disk(before, file_put(disk, to, content))
            } else {
                None
            },
            _ => None,
        },
        FsStepValue::RemoveTree { path } => if found(disk, path) == Some(Node::Directory)
            && is_walkable(disk.without(spot(path)), path) {
            Some(Progress { disk: disk.without(spot(path)), ..before })
        } else {
            None
        },
        FsStepValue::RemoveFile { path } => match found(disk, path) {
            Some(Node::File { .. }) => Some(
                Progress { disk: disk.without(spot(path)), ..before },
            ),
            _ => None,
        },
        FsStepValue::Rename { from, to } => with_disk(before, renamed(disk, from, to)),
        _ => None,
    }
}

/// The same with another disk, where there is one.
pub open spec fn with_disk(before: Progress, disk: Option<Disk>) -> Option<Progress> {
    match disk {
        Some(d) => Some(Progress { disk: d, ..before }),
        None => None,
    }
}

/// What taking steps in order comes to, where all can be taken.
pub open spec fn all_taken(before: Progress, steps: Seq<FsStepValue>) -> Option<Progress>
    decreases steps.len(),
{
    if steps.len() == 0 {
        Some(before)
    } else {
        match all_taken(before, steps.drop_last()) {
            Some(p) => taken(p, steps.last()),
            None => None,
        }
    }
}

/// What an operation comes to on a disk, where it goes well.
#[verifier::opaque]
pub open spec fn performed(
    disk: Disk,
    base: Seq<char>,
    container_id: Seq<char>,
    operation: OperationValue,
) -> Option<Progress> {
    match verdict(host_with(disk), base, container_id, operation) {
        FileQueryValue::Perform { steps, .. } => all_taken(Progress { disk, text: None }, steps),
        _ => None,
    }
}

/// Where the host path of a path in a container is on a disk.
pub open spec fn place_of(base: Seq<char>, container_id: Seq<char>, path: Seq<char>) -> Place {
    spot(volume_path(base, container_id, path))
}

/// Whether the volume of a container is on a disk, and the paths that an operation is about lead
/// into it, with every `..` taken out.
pub open spec fn is_in_order(
    disk: Disk,
    base: Seq<char>,
    container_id: Seq<char>,
    operation: OperationValue,
) -> bool {
    &&& disk.is_tree()
    &&& 0 < volume_root(base, container_id).len()
    &&& found(disk, volume_root(base, container_id)) == Some(Node::Directory)
    &&& forall|i: int|
        0 <= i < operation_paths(operation).len() ==> leads_into_volume(
            volume_root(base, container_id),
            #[trigger] all_hosts(base, container_id, operation)[i],
        )
}

/// Whether a path leads to a place in a directory, without leading back to where relative paths
/// begin.
pub open spec fn leads_into_volume(root: Seq<u8>, path: Seq<u8>) -> bool {
    keeps_to_disk(components(path)) && spot(root).is_prefix_of(spot(path))
}

/// Making directories leaves everything else as it is.
pub proof fn lemma_directories_made(disk: Disk, place: Place)
    requires
        disk.is_tree(),
        directories_made(disk, place) is Some,
    ensures
        ({
            let d = directories_made(disk, place)->0;
            &&& d.is_tree()
            &&& d.is_directory(place)
            &&& same_but_for_directories(d, disk, place)
        }),
    decreases place.len(),
{
    if !disk.is_directory(place) {
        let up = place.drop_last();
        lemma_directories_made(disk, up);
        let made = directories_made(disk, up)->0;
        let d = directories_made(disk, place)->0;
        assert(d == made.with(place, Node::Directory));
        assert forall|p: Place| #[trigger] d.at(p) is Some implies 0 < p.len() && d.is_directory(
            p.drop_last(),
        ) by {
            if p != place {
                assert(made.at(p) is Some);
            }
        }
        assert forall|p: Place| #[trigger]
            d.at(p) == disk.at(p) || (disk.at(p) is None && d.at(p) == Some(Node::Directory)
                && p.is_prefix_of(place)) by {
            if p != place {
                assert(made.at(p) == disk.at(p) || p.is_prefix_of(up));
                if p.is_prefix_of(up) {
                    lemma_prefix_of_front(p, place);
                }
            } else {
                assert(place.subrange(0, place.len() as int) =~= place);
            }
        }
    }
}

/// What comes first in all but the last of a place comes first in the place.
proof fn lemma_prefix_of_front(p: Place, place: Place)
    requires
        0 < place.len(),
        p.is_prefix_of(place.drop_last()),
    ensures
        p.is_prefix_of(place),
        p.len() < place.len(),
{
    assert(place.subrange(0, p.len() as int) =~= place.drop_last().subrange(0, p.len() as int));
}

/// What is above something on a disk is a directory.
pub proof fn lemma_above_is_directory(disk: Disk, above: Place, place: Place)
    requires
        disk.is_tree(),
        above.is_prefix_of(place),
        disk.is_directory(place) || disk.at(place) is Some,
    ensures
        above == place || disk.is_directory(above),
    decreases place.len(),
{
    if above.len() < place.len() {
        assert(above.is_prefix_of(place.drop_last())) by {
            assert(place.drop_last().subrange(0, above.len() as int) =~= place.subrange(
                0,
                above.len() as int,
            ));
        }
        assert(disk.at(place) is Some);
        lemma_above_is_directory(disk, above, place.drop_last());
    } else {
        assert(place.subrange(0, above.len() as int) =~= place);
    }
}

/// Making all directories that components lead through or to leaves everything else as it is, and
/// then the components can be walked.
pub proof fn lemma_way_made(disk: Disk, parts: Seq<Seq<u8>>)
    requires
        disk.is_tree(),
        keeps_to_disk(parts),
        way_made(disk, parts) is Some,
    ensures
        ({
            let d = way_made(disk, parts)->0;
            &&& d.is_tree()
            &&& d.is_directory(without_parents(parts))
            &&& can_be_walked(d, parts)
            &&& same_but_for_way(d, disk, parts)
        }),
    decreases parts.len(),
{
    let d = way_made(disk, parts)->0;
    if parts.len() > 0 {
        let n = parts.len() as int;
        let front = parts.drop_last();
        assert(front =~= parts.take(n - 1));
        assert(parts.take(n) =~= parts);
        lemma_in_part(disk, parts, n - 1);
        lemma_way_made(disk, front);
        let made = way_made(disk, front)->0;
        let here = without_parents(front);
        let there = without_parents(parts);
        assert(there == with_part(here, parts.last()));
        if parts.last() == seq![DOT, DOT] {
            if here.len() > 0 {
                assert(made.at(here) is Some);
            }
        } else {
            lemma_next_made(made, here, parts.last());
        }
        lemma_walked_one_more(made, d, parts);
        assert forall|p: Place| #[trigger]
            d.at(p) == disk.at(p) || is_new_on_way(d, disk, parts, p) by {
            assert(made.at(p) == disk.at(p) || is_new_on_way(made, disk, front, p));
            if is_on_way(p, front) {
                let k = choose|k: int| 0 <= k <= front.len() && p == #[trigger] way(front, k);
                assert(p == way(parts, k));
            }
            if d.at(p) != made.at(p) {
                assert(p == way(parts, n));
            }
        }
    }
}

/// Making a directory in one that is there makes no other.
proof fn lemma_next_made(disk: Disk, here: Place, name: Seq<u8>)
    requires
        disk.is_tree(),
        disk.is_directory(here),
        directories_made(disk, here.push(name)) is Some,
    ensures
        ({
            let d = directories_made(disk, here.push(name))->0;
            &&& d.is_tree()
            &&& d.is_directory(here.push(name))
            &&& forall|p: Place|
                p != here.push(name) ==> #[trigger] d.at(p) == disk.at(p)
            &&& d.at(here.push(name)) == disk.at(here.push(name)) || disk.at(
                here.push(name),
            ) is None
        }),
{
    reveal_with_fuel(directories_made, 2);
    lemma_directories_made(disk, here.push(name));
    assert(here.push(name).drop_last() =~= here);
}

/// Components can be walked if they can be but for the last one, and lead on from a directory.
proof fn lemma_walked_one_more(before: Disk, after: Disk, parts: Seq<Seq<u8>>)
    requires
        0 < parts.len(),
        before.is_tree(),
        keeps_to_disk(parts),
        can_be_walked(before, parts.drop_last()),
        before.is_directory(without_parents(parts.drop_last())),
        forall|p: Place| #[trigger]
            before.at(p) == Some(Node::Directory) ==> after.at(p) == Some(Node::Directory),
    ensures
        can_be_walked(after, parts),
{
    let n = parts.len() as int;
    let front = parts.drop_last();
    assert(front =~= parts.take(n - 1));
    assert(parts.take(n) =~= parts);
    lemma_in_part(after, parts, n - 1);
    lemma_still_walked(before, after, front);
    assert forall|k: int| 0 <= k < n && #[trigger] parts[k] == seq![DOT, DOT] implies after.at(
        way(parts, k),
    ) == Some(Node::Directory) && 0 < way(parts, k + 1).len() by {
        if k < n - 1 {
            assert(front[k] == parts[k]);
            assert(way(front, k) == way(parts, k));
        } else {
            assert(0 < way(parts, n).len());
            if front.len() == 0 {
                assert(without_parents(front) =~= Seq::<Seq<u8>>::empty());
            } else {
                lemma_first_stays(front);
            }
        }
    }
}

/// Where all directories that components lead through are there, none is made.
pub proof fn lemma_way_is_there(disk: Disk, parts: Seq<Seq<u8>>)
    requires
        disk.is_tree(),
        can_be_walked(disk, parts),
        disk.is_directory(without_parents(parts)),
    ensures
        way_made(disk, parts) == Some(disk),
    decreases parts.len(),
{
    if parts.len() > 0 {
        let n = parts.len() as int;
        let front = parts.drop_last();
        let here = without_parents(front);
        assert(front =~= parts.take(n - 1));
        lemma_in_part(disk, parts, n - 1);
        if parts.last() == seq![DOT, DOT] {
            lemma_up_is_directory(disk, parts);
        } else {
            assert(without_parents(parts) == here.push(parts.last()));
            assert(here.push(parts.last()).drop_last() =~= here);
            assert(disk.at(without_parents(parts)) is Some);
        }
        lemma_way_is_there(disk, front);
    }
}

/// Whether no path of an operation leads out of the volume: on a disk without links that depends
/// on nothing else.
pub proof fn lemma_verdict(
    disk: Disk,
    base: Seq<char>,
    container_id: Seq<char>,
    operation: OperationValue,
)
    requires
        is_in_order(disk, base, container_id, operation),
        refused_outright(operation) is None,
    ensures
        ({
            let hosts = all_hosts(base, container_id, operation);
            let statuses = all_statuses(host_with(disk), operation, hosts);
            verdict(host_with(disk), base, container_id, operation) == if first_refusal(
                operation,
                statuses,
                0,
            ) is Some {
                FileQueryValue::Refuse { error: first_refusal(operation, statuses, 0)->0 }
            } else {
                FileQueryValue::Perform {
                    steps: plan(operation, hosts, statuses),
                    report: report(operation),
                }
            }
        }),
{
    let hosts = all_hosts(base, container_id, operation);
    let root = volume_root(base, container_id);
    assert forall|i: int| 0 <= i < hosts.len() implies may_follow(
        host_with(disk),
        root,
        #[trigger] hosts[i],
    ) by {
        lemma_may_follow(disk, root, hosts[i]);
    }
}

/// The disk on which something can be put at a path: the directory for it is made.
pub open spec fn room_made_for(disk: Disk, path: Seq<u8>) -> Option<Disk> {
    match parent(path) {
        Some(up) => way_made(disk, components(up)),
        None => Some(disk),
    }
}

/// What a step comes to for which room is made first.
proof fn lemma_taken_after_room(before: Progress, path: Seq<u8>, step: FsStepValue)
    ensures
        all_taken(before, parent_made(path) + seq![step]) == match room_made_for(
            before.disk,
            path,
        ) {
            Some(d) => taken(Progress { disk: d, ..before }, step),
            None => None,
        },
{
    let front = parent_made(path);
    let steps = front + seq![step];
    assert(steps.drop_last() =~= front);
    assert(steps.last() == step);
    let none = Seq::<FsStepValue>::empty();
    assert(all_taken(before, none) == Some(before));
    if front.len() > 0 {
        assert(front.drop_last() =~= none);
        assert(all_taken(before, front) == taken(before, front[0]));
    } else {
        assert(front =~= none);
    }
    assert(Progress { disk: before.disk, ..before } == before);
}

/// Making room at a path leaves everything else as it is, and then the path can be walked.
pub proof fn lemma_room_made_for(disk: Disk, path: Seq<u8>)
    requires
        disk.is_tree(),
        keeps_to_disk(components(path)),
        room_made_for(disk, path) is Some,
    ensures
        ({
            let d = room_made_for(disk, path)->0;
            &&& d.is_tree()
            &&& is_walkable(d, path)
            &&& same_but_for_way(d, disk, components(path))
        }),
{
    reveal(is_walkable);
    let d = room_made_for(disk, path)->0;
    let c = components(path);
    let n = c.len() as int;
    if parent(path) is Some {
        let front = c.drop_last();
        law_parent_drops_last_component(path);
        assert(front =~= c.take(n - 1));
        lemma_in_part(disk, c, n - 1);
        lemma_way_made(disk, front);
        lemma_walked_one_more(d, d, c);
        assert forall|p: Place| #[trigger]
            d.at(p) == disk.at(p) || is_new_on_way(d, disk, c, p) by {
            if is_on_way(p, front) {
                let k = choose|k: int| 0 <= k <= front.len() && p == #[trigger] way(front, k);
                assert(p == way(c, k));
            }
        }
    } else if n > 0 {
        assert(c.take(n) =~= c);
        assert(n == 1);
        lemma_first_stays(c);
        assert(c.drop_last() =~= Seq::<Seq<u8>>::empty());
        assert(without_parents(c.drop_last()) =~= Seq::<Seq<u8>>::empty());
        assert(c.last() == c[0]);
    }
}

/// A disk on which a file was written is still one, and holds the file besides what it held.
pub proof fn lemma_file_written(disk: Disk, place: Place, content: Seq<u8>)
    requires
        disk.is_tree(),
        file_written(disk, place, content) is Some,
    ensures
        ({
            let d = file_written(disk, place, content)->0;
            &&& d.is_tree()
            &&& d.at(place) == Some(Node::File { content })
            &&& forall|p: Place| p != place ==> #[trigger] d.at(p) == disk.at(p)
        }),
{
    let d = file_written(disk, place, content)->0;
    assert forall|p: Place| #[trigger] d.at(p) is Some implies 0 < p.len() && d.is_directory(
        p.drop_last(),
    ) by {
        if p != place {
            assert(disk.at(p) is Some);
            assert(disk.is_directory(p.drop_last()));
        } else {
            assert(place.drop_last() != place) by {
                assert(place.drop_last().len() < place.len());
            }
        }
    }
}

/// An operation about the same paths is in order on a disk on which no directory went missing.
pub proof fn lemma_still_in_order(
    before: Disk,
    after: Disk,
    base: Seq<char>,
    container_id: Seq<char>,
    first: OperationValue,
    then: OperationValue,
)
    requires
        is_in_order(before, base, container_id, first),
        after.is_tree(),
        forall|p: Place| #[trigger]
            before.at(p) == Some(Node::Directory) ==> after.at(p) == Some(Node::Directory),
        forall|i: int|
            0 <= i < operation_paths(then).len() ==> operation_paths(first).contains(
                #[trigger] operation_paths(then)[i],
            ),
    ensures
        is_in_order(after, base, container_id, then),
{
    let root = volume_root(base, container_id);
    lemma_still_walkable(before, after, root);
    assert forall|i: int| 0 <= i < operation_paths(then).len() implies leads_into_volume(
        root,
        #[trigger] all_hosts(base, container_id, then)[i],
    ) by {
        let path = operation_paths(then)[i];
        assert(operation_paths(first).contains(path));
        let j = choose|j: int|
            0 <= j < operation_paths(first).len() && operation_paths(first)[j] == path;
        assert(all_hosts(base, container_id, first)[j] == all_hosts(base, container_id, then)[i]);
    }
}

/// What a write that goes well leaves: the file with just what was written, and everything else
/// as it was, but for directories on the way to the file that were missing.
pub proof fn law_written_file_is_there(
    disk: Disk,
    base: Seq<char>,
    container_id: Seq<char>,
    path: Seq<char>,
    content: Seq<u8>,
)
    requires
        is_in_order(disk, base, container_id, OperationValue::Write { path, content }),
        performed(disk, base, container_id, OperationValue::Write { path, content }) is Some,
    ensures
        ({
            let place = place_of(base, container_id, path);
            let after = performed(
                disk,
                base,
                container_id,
                OperationValue::Write { path, content },
            )->0.disk;
            let h = volume_path(base, container_id, path);
            &&& after.is_tree()
            &&& !disk.is_directory(place)
            &&& found(after, h) == Some(Node::File { content })
            &&& after.at(place) == Some(Node::File { content })
            &&& forall|p: Place|
                p != place ==> #[trigger] after.at(p) == disk.at(p) || is_new_on_way(
                    after,
                    disk,
                    components(h),
                    p,
                )
        }),
{
    reveal(performed);
    let operation = OperationValue::Write { path, content };
    let h = volume_path(base, container_id, path);
    assert(all_hosts(base, container_id, operation)[0] == h);
    lemma_verdict(disk, base, container_id, operation);
    let start = Progress { disk, text: None };
    lemma_taken_after_room(start, h, FsStepValue::WriteFile { path: h, content });
    lemma_file_put(disk, h, content);
}

/// What putting a file at a path for which room is made comes to.
pub proof fn lemma_file_put(disk: Disk, path: Seq<u8>, content: Seq<u8>)
    requires
        disk.is_tree(),
        keeps_to_disk(components(path)),
        room_made_for(disk, path) is Some,
        file_put(room_made_for(disk, path)->0, path, content) is Some,
    ensures
        ({
            let place = spot(path);
            let d = file_put(room_made_for(disk, path)->0, path, content)->0;
            &&& d.is_tree()
            &&& !disk.is_directory(place)
            &&& found(d, path) == Some(Node::File { content })
            &&& d.at(place) == Some(Node::File { content })
            &&& forall|p: Place|
                p != place ==> #[trigger] d.at(p) == disk.at(p) || is_new_on_way(
                    d,
                    disk,
                    components(path),
                    p,
                )
        }),
{
    let place = spot(path);
    let room = room_made_for(disk, path)->0;
    let d = file_put(room, path, content)->0;
    lemma_room_made_for(disk, path);
    lemma_file_written(room, place, content);
    assert(room.at(place) == disk.at(place) || is_new_on_way(room, disk, components(path), place));
    lemma_still_walkable(room, d, path);
    assert forall|p: Place| p != place implies #[trigger] d.at(p) == disk.at(p) || is_new_on_way(
        d,
        disk,
        components(path),
        p,
    ) by {
        assert(room.at(p) == disk.at(p) || is_new_on_way(room, disk, components(path), p));
    }
}

/// A read gives back what was written just before: exactly that, whatever the file held before
/// and whether or not it was there, and the disk stays as it is, so that reading again gives the
/// same. What was written is read as a text if it is one.
pub proof fn law_what_was_written_is_read(
    disk: Disk,
    base: Seq<char>,
    container_id: Seq<char>,
    path: Seq<char>,
    content: Seq<u8>,
)
    requires
        is_in_order(disk, base, container_id, OperationValue::Write { path, content }),
        performed(disk, base, container_id, OperationValue::Write { path, content }) is Some,
    ensures
        ({
            let after = performed(
                disk,
                base,
                container_id,
                OperationValue::Write { path, content },
            )->0.disk;
            performed(after, base, container_id, OperationValue::Read { path }) == if valid_utf8(
                content,
            ) {
                Some(Progress { disk: after, text: Some(decode_utf8(content)) })
            } else {
                None
            }
        }),
{
    reveal(performed);
    let write = OperationValue::Write { path, content };
    let read = OperationValue::Read { path };
    let h = volume_path(base, container_id, path);
    let after = performed(disk, base, container_id, write)->0.disk;
    law_written_file_is_there(disk, base, container_id, path, content);
    assert(operation_paths(write)[0] == path);
    lemma_still_in_order(disk, after, base, container_id, write, read);
    lemma_verdict(after, base, container_id, read);
    let hosts = all_hosts(base, container_id, read);
    let statuses = all_statuses(host_with(after), read, hosts);
    assert(hosts[0] == h);
    assert(statuses[0] == PathStatus::File);
    assert(first_refusal(read, statuses, 1) is None);
    assert(first_refusal(read, statuses, 0) is None);
    let start = Progress { disk: after, text: None };
    let steps = plan(read, hosts, statuses);
    let none = Seq::<FsStepValue>::empty();
    assert(steps.drop_last() =~= none);
    assert(all_taken(start, none) == Some(start));
}

/// A text that was written is the text that is read.
pub proof fn law_written_text_is_read(
    disk: Disk,
    base: Seq<char>,
    container_id: Seq<char>,
    path: Seq<char>,
    text: Seq<char>,
)
    requires
        is_in_order(
            disk,
            base,
            container_id,
            OperationValue::Write { path, content: encode_utf8(text) },
        ),
        performed(
            disk,
            base,
            container_id,
            OperationValue::Write { path, content: encode_utf8(text) },
        ) is Some,
    ensures
        ({
            let after = performed(
                disk,
                base,
                container_id,
                OperationValue::Write { path, content: encode_utf8(text) },
            )->0.disk;
            performed(after, base, container_id, OperationValue::Read { path }) == Some(
                Progress { disk: after, text: Some(text) },
            )
        }),
{
    encode_utf8_valid_utf8(text);
    encode_utf8_decode_utf8(text);
    law_what_was_written_is_read(disk, base, container_id, path, encode_utf8(text));
}

/// A copy holds the same bytes: after a copy that goes well, there is at the new place the file
/// that is at the old one, and everything else is as it was, but for directories on the way to the
/// new place that were missing.
pub proof fn law_copied_file_is_the_same(
    disk: Disk,
    base: Seq<char>,
    container_id: Seq<char>,
    source: Seq<char>,
    dest: Seq<char>,
)
    requires
        is_in_order(disk, base, container_id, OperationValue::Copy { source, dest }),
        performed(disk, base, container_id, OperationValue::Copy { source, dest }) is Some,
    ensures
        ({
            let from = place_of(base, container_id, source);
            let to = place_of(base, container_id, dest);
            let after = performed(
                disk,
                base,
                container_id,
                OperationValue::Copy { source, dest },
            )->0.disk;
            &&& disk.at(from) is Some
            &&& !disk.is_directory(from)
            &&& after.at(to) == disk.at(from)
            &&& forall|p: Place|
                p != to ==> #[trigger] after.at(p) == disk.at(p) || is_new_on_way(
                    after,
                    disk,
                    components(volume_path(base, container_id, dest)),
                    p,
                )
        }),
{
    reveal(performed);
    let operation = OperationValue::Copy { source, dest };
    let hosts = all_hosts(base, container_id, operation);
    let statuses = all_statuses(host_with(disk), operation, hosts);
    let from = volume_path(base, container_id, source);
    let to = volume_path(base, container_id, dest);
    assert(hosts[0] == from && hosts[1] == to);
    assert(statuses[0] == status_on(disk, from));
    lemma_verdict(disk, base, container_id, operation);
    assert(first_refusal(operation, statuses, 1) is None);
    assert(found(disk, from) is Some);
    let start = Progress { disk, text: None };
    lemma_taken_after_room(start, to, FsStepValue::CopyFile { from, to });
    lemma_room_made_for(disk, to);
    let room = room_made_for(disk, to)->0;
    assert(room.at(spot(from)) == disk.at(spot(from)) || is_new_on_way(
        room,
        disk,
        components(to),
        spot(from),
    ));
    lemma_file_put(disk, to, room.at(spot(from))->0->content);
}

/// What was deleted is gone with everything in it, and everything else is as it was. A deletion
/// goes well if there is anything at the path, and it is not a directory that the path leads
/// through and back up.
pub proof fn law_deleted_is_gone(
    disk: Disk,
    base: Seq<char>,
    container_id: Seq<char>,
    path: Seq<char>,
)
    requires
        is_in_order(disk, base, container_id, OperationValue::Delete { path }),
    ensures
        ({
            let place = place_of(base, container_id, path);
            let after = performed(disk, base, container_id, OperationValue::Delete { path });
            let h = volume_path(base, container_id, path);
            &&& after is Some <==> match found(disk, h) {
                Some(Node::File { .. }) => true,
                Some(Node::Directory) => is_walkable(disk.without(place), h),
                None => false,
            }
            &&& after is Some ==> forall|p: Place| #[trigger]
                after->0.disk.at(p) == if place.is_prefix_of(p) {
                    None
                } else {
                    disk.at(p)
                }
        }),
{
    reveal(performed);
    let operation = OperationValue::Delete { path };
    let hosts = all_hosts(base, container_id, operation);
    let statuses = all_statuses(host_with(disk), operation, hosts);
    let h = volume_path(base, container_id, path);
    assert(hosts[0] == h);
    assert(statuses[0] == status_on(disk, h));
    lemma_verdict(disk, base, container_id, operation);
    assert(first_refusal(operation, statuses, 1) is None);
    let steps = plan(operation, hosts, statuses);
    let none = Seq::<FsStepValue>::empty();
    let start = Progress { disk, text: None };
    assert(steps.drop_last() =~= none);
    assert(all_taken(start, none) == Some(start));
}

/// Where nothing is there is nothing below.
pub proof fn lemma_nothing_below(disk: Disk, place: Place, below: Place)
    requires
        disk.is_tree(),
        0 < place.len(),
        !disk.is_directory(place),
        place.is_prefix_of(below),
        place != below,
    ensures
        disk.at(below) is None,
{
    if disk.at(below) is Some {
        lemma_above_is_directory(disk, place, below);
    }
}

/// Beginnings of beginnings are beginnings.
pub proof fn lemma_prefix_of_prefix(a: Place, b: Place, c: Place)
    requires
        a.is_prefix_of(b),
        b.is_prefix_of(c),
    ensures
        a.is_prefix_of(c),
{
    assert(c.subrange(0, a.len() as int) =~= c.subrange(0, b.len() as int).subrange(
        0,
        a.len() as int,
    ));
}

/// What is where after something was moved.
proof fn lemma_moved(disk: Disk, from: Place, to: Place)
    requires
        disk.is_tree(),
        moved(disk, from, to) is Some,
    ensures
        ({
            let d = moved(disk, from, to)->0;
            &&& !to.is_prefix_of(from)
            &&& d.is_tree()
            &&& forall|p: Place|
                to.is_prefix_of(p) ==> #[trigger] d.at(p) == disk.at(
                    from + p.skip(to.len() as int),
                )
            &&& forall|p: Place|
                !to.is_prefix_of(p) && from.is_prefix_of(p) ==> #[trigger] d.at(p) is None
            &&& forall|p: Place|
                !to.is_prefix_of(p) && !from.is_prefix_of(p) ==> #[trigger] d.at(p) == disk.at(p)
        }),
{
    let d = moved(disk, from, to)->0;
    assert(!to.is_prefix_of(from)) by {
        if to.is_prefix_of(from) {
            if to == from {
                assert(from.subrange(0, from.len() as int) =~= to);
            } else {
                lemma_nothing_below(disk, to, from);
            }
        }
    }
    assert forall|p: Place| to.is_prefix_of(p) implies #[trigger] d.at(p) == disk.at(
        from + p.skip(to.len() as int),
    ) by {
        let rest = p.skip(to.len() as int);
        assert(disk.below(from).at(rest) == disk.at(from + rest));
        if disk.at(from + rest) is None {
            if p != to {
                lemma_nothing_below(disk, to, p);
            }
        }
    }
    assert forall|p: Place| #[trigger] d.at(p) is Some implies 0 < p.len() && d.is_directory(
        p.drop_last(),
    ) by {
        let up = p.drop_last();
        if to.is_prefix_of(p) {
            let rest = p.skip(to.len() as int);
            assert(disk.at(from + rest) is Some);
            if rest.len() == 0 {
                assert(p.subrange(0, to.len() as int) =~= p);
                assert(p == to);
                assert(!to.is_prefix_of(up));
                if from.is_prefix_of(up) {
                    lemma_prefix_of_front(from, to);
                }
                assert(d.at(up) == disk.at(up));
            } else {
                assert(to.is_prefix_of(up)) by {
                    assert(up.subrange(0, to.len() as int) =~= p.subrange(0, to.len() as int));
                }
                assert(from + up.skip(to.len() as int) =~= (from + rest).drop_last());
                assert(disk.at(from) is Some);
                assert(d.at(up) == disk.at((from + rest).drop_last()));
            }
        } else {
            assert(disk.at(p) is Some);
            if to.is_prefix_of(up) {
                lemma_prefix_of_front(to, p);
            }
            if from.is_prefix_of(up) {
                lemma_prefix_of_front(from, p);
            }
            assert(d.at(up) == disk.at(up));
        }
    }
}

/// What was moved can be moved back.
proof fn lemma_can_be_moved_back(disk: Disk, from: Place, to: Place)
    requires
        disk.is_tree(),
        moved(disk, from, to) is Some,
    ensures
        ({
            let after = moved(disk, from, to)->0;
            &&& after.is_tree()
            &&& after.at(to) == disk.at(from)
            &&& after.at(from) is None
            &&& after.is_directory(from.drop_last())
            &&& moved(after, to, from) is Some
        }),
{
    let after = moved(disk, from, to)->0;
    lemma_moved(disk, from, to);
    assert(to.is_prefix_of(to)) by {
        assert(to.subrange(0, to.len() as int) =~= to);
    }
    assert(from.is_prefix_of(from)) by {
        assert(from.subrange(0, from.len() as int) =~= from);
    }
    assert(from + to.skip(to.len() as int) =~= from);
    assert(after.at(to) == disk.at(from));
    let up = from.drop_last();
    assert(after.is_directory(up)) by {
        assert(!from.is_prefix_of(up));
        if to.is_prefix_of(up) {
            lemma_prefix_of_front(to, from);
        }
        assert(after.at(up) == disk.at(up));
    }
    assert(after.at(from) is None);
}

/// Once what was moved was moved back, everything is where it was.
proof fn lemma_moved_back(disk: Disk, from: Place, to: Place)
    requires
        disk.is_tree(),
        moved(disk, from, to) is Some,
    ensures
        same_disk(moved(moved(disk, from, to)->0, to, from)->0, disk),
{
    let after = moved(disk, from, to)->0;
    lemma_can_be_moved_back(disk, from, to);
    let back = moved(after, to, from)->0;
    assert forall|p: Place| #[trigger] back.at(p) == disk.at(p) by {
        lemma_moved_back_at(disk, from, to, p);
    }
}

/// What is at a place once what was moved was moved back.
proof fn lemma_moved_back_at(disk: Disk, from: Place, to: Place, p: Place)
    requires
        disk.is_tree(),
        moved(disk, from, to) is Some,
        moved(disk, from, to)->0.is_tree(),
        moved(moved(disk, from, to)->0, to, from) is Some,
    ensures
        moved(moved(disk, from, to)->0, to, from)->0.at(p) == disk.at(p),
{
    let after = moved(disk, from, to)->0;
    let back = moved(after, to, from)->0;
    lemma_moved(disk, from, to);
    lemma_moved(after, to, from);
    if from.is_prefix_of(p) {
        let rest = p.skip(from.len() as int);
        let there = to + rest;
        assert(to.is_prefix_of(there)) by {
            assert(there.subrange(0, to.len() as int) =~= to);
        }
        assert(there.skip(to.len() as int) =~= rest);
        assert(back.at(p) == after.at(there));
        assert(after.at(there) == disk.at(from + rest));
        assert(from + rest =~= p) by {
            assert(p.subrange(0, from.len() as int) + rest =~= p);
        }
    } else if to.is_prefix_of(p) {
        if p != to {
            lemma_nothing_below(disk, to, p);
        }
    } else {
        assert(back.at(p) == after.at(p));
    }
}

/// What a renaming comes to is what moving comes to once there is room.
proof fn lemma_renamed(
    disk: Disk,
    base: Seq<char>,
    container_id: Seq<char>,
    old_path: Seq<char>,
    new_path: Seq<char>,
)
    requires
        is_in_order(disk, base, container_id, OperationValue::Rename { old_path, new_path }),
    ensures
        ({
            let source = volume_path(base, container_id, old_path);
            let target = volume_path(base, container_id, new_path);
            let room = room_made_for(disk, target);
            performed(
                disk,
                base,
                container_id,
                OperationValue::Rename { old_path, new_path },
            ) == if found(disk, source) is None || room is None || renamed(
                room->0,
                source,
                target,
            ) is None {
                None
            } else {
                Some(Progress { disk: renamed(room->0, source, target)->0, text: None })
            }
        }),
        found(disk, volume_path(base, container_id, old_path)) is None ==> verdict(
            host_with(disk),
            base,
            container_id,
            OperationValue::Rename { old_path, new_path },
        ) == (FileQueryValue::Refuse { error: "Source path does not exist"@ }),
{
    reveal(performed);
    let operation = OperationValue::Rename { old_path, new_path };
    let hosts = all_hosts(base, container_id, operation);
    let statuses = all_statuses(host_with(disk), operation, hosts);
    let from = volume_path(base, container_id, old_path);
    let to = volume_path(base, container_id, new_path);
    assert(hosts[0] == from && hosts[1] == to);
    assert(statuses[0] == status_on(disk, from));
    lemma_verdict(disk, base, container_id, operation);
    assert(first_refusal(operation, statuses, 1) is None);
    let start = Progress { disk, text: None };
    lemma_taken_after_room(start, to, FsStepValue::Rename { from, to });
}

/// The paths of a renaming in order lead into the volume.
proof fn lemma_paths_in_order(
    disk: Disk,
    base: Seq<char>,
    container_id: Seq<char>,
    old_path: Seq<char>,
    new_path: Seq<char>,
)
    requires
        is_in_order(disk, base, container_id, OperationValue::Rename { old_path, new_path }),
    ensures
        disk.is_tree(),
        leads_into_volume(
            volume_root(base, container_id),
            volume_path(base, container_id, old_path),
        ),
        leads_into_volume(
            volume_root(base, container_id),
            volume_path(base, container_id, new_path),
        ),
{
    let hosts = all_hosts(base, container_id, OperationValue::Rename { old_path, new_path });
    assert(hosts[0] == volume_path(base, container_id, old_path));
    assert(hosts[1] == volume_path(base, container_id, new_path));
}

/// What a renaming that goes well leaves, to a place where nothing was: nothing at the old place,
/// at the new one all that was at the old one, and everything else as it was, but for directories
/// on the way to the new place that were missing.
pub proof fn law_renamed_is_moved(
    disk: Disk,
    base: Seq<char>,
    container_id: Seq<char>,
    old_path: Seq<char>,
    new_path: Seq<char>,
)
    requires
        is_in_order(disk, base, container_id, OperationValue::Rename { old_path, new_path }),
        disk.at(place_of(base, container_id, new_path)) is None,
        performed(
            disk,
            base,
            container_id,
            OperationValue::Rename { old_path, new_path },
        ) is Some,
    ensures
        ({
            let from = place_of(base, container_id, old_path);
            let to = place_of(base, container_id, new_path);
            let way_there = components(volume_path(base, container_id, new_path));
            let after = performed(
                disk,
                base,
                container_id,
                OperationValue::Rename { old_path, new_path },
            )->0.disk;
            &&& after.is_tree()
            &&& disk.at(from) is Some
            &&& after.at(from) is None
            &&& forall|p: Place| #[trigger]
                after.below(to).at(p) == disk.below(from).at(p) || (disk.at(from + p) is None
                    && after.at(to + p) == Some(Node::Directory) && is_on_way(from + p, way_there))
            &&& after.is_directory(to.drop_last())
            &&& forall|p: Place|
                !from.is_prefix_of(p) && !to.is_prefix_of(p) ==> #[trigger] after.at(p) == disk.at(
                    p,
                ) || is_new_on_way(after, disk, way_there, p)
        }),
{
    let from = place_of(base, container_id, old_path);
    let to = place_of(base, container_id, new_path);
    let target = volume_path(base, container_id, new_path);
    let way_there = components(target);
    lemma_renamed(disk, base, container_id, old_path, new_path);
    lemma_paths_in_order(disk, base, container_id, old_path, new_path);
    lemma_room_made_for(disk, target);
    let room = room_made_for(disk, target)->0;
    let after = moved(room, from, to)->0;
    lemma_moved(room, from, to);
    assert(from.is_prefix_of(from)) by {
        assert(from.subrange(0, from.len() as int) =~= from);
    }
    assert forall|p: Place| #[trigger]
        after.below(to).at(p) == disk.below(from).at(p) || (disk.at(from + p) is None && after.at(
            to + p,
        ) == Some(Node::Directory) && is_on_way(from + p, way_there)) by {
        let q = to + p;
        assert(to.is_prefix_of(q)) by {
            assert(q.subrange(0, to.len() as int) =~= to);
        }
        assert(q.skip(to.len() as int) =~= p);
        assert(after.at(q) == room.at(from + p));
        assert(room.at(from + p) == disk.at(from + p) || is_new_on_way(
            room,
            disk,
            way_there,
            from + p,
        ));
    }
    let up = to.drop_last();
    assert(!to.is_prefix_of(up));
    if from.is_prefix_of(up) {
        lemma_prefix_of_front(from, to);
    }
    assert(after.at(up) == room.at(up));
    assert forall|p: Place| !from.is_prefix_of(p) && !to.is_prefix_of(p) implies (
    #[trigger] after.at(p) == disk.at(p) || is_new_on_way(after, disk, way_there, p)) by {
        assert(room.at(p) == disk.at(p) || is_new_on_way(room, disk, way_there, p));
    }
}

/// Where the directory for a path is there, none is made.
proof fn lemma_room_is_there(disk: Disk, path: Seq<u8>)
    requires
        disk.is_tree(),
        is_walkable(disk, path),
        disk.at(spot(path)) is None,
        disk.is_directory(spot(path).drop_last()),
    ensures
        room_made_for(disk, path) == Some(disk),
{
    reveal(is_walkable);
    reveal(spot);
    let c = components(path);
    if parent(path) is Some {
        let front = c.drop_last();
        let n = c.len() as int;
        law_parent_drops_last_component(path);
        assert(front =~= c.take(n - 1));
        lemma_in_part(disk, c, n - 1);
        if c.last() == seq![DOT, DOT] {
            lemma_up_is_directory(disk, c);
        } else {
            let here = without_parents(front);
            assert(here.push(c.last()).drop_last() =~= here);
        }
        lemma_way_is_there(disk, front);
    }
}

/// What was renamed can be renamed back, as far as the paths can still be walked.
proof fn lemma_renamed_back(room: Disk, source: Seq<u8>, target: Seq<u8>)
    requires
        room.is_tree(),
        is_walkable(room, target),
        renamed(room, source, target) is Some,
        is_walkable(renamed(room, source, target)->0, source),
        is_walkable(renamed(room, source, target)->0, target),
    ensures
        ({
            let after = renamed(room, source, target)->0;
            let back = renamed(after, target, source);
            &&& after.is_tree()
            &&& found(after, target) is Some
            &&& room_made_for(after, source) == Some(after)
            &&& back is Some
            &&& same_disk(back->0, room)
        }),
{
    let from = spot(source);
    let to = spot(target);
    let after = moved(room, from, to)->0;
    lemma_can_be_moved_back(room, from, to);
    lemma_moved_back(room, from, to);
    lemma_room_is_there(after, source);
    lemma_moved_is_found(room, after, source, target);
    assert(components(target).last() != seq![DOT, DOT]) by {
        reveal(is_walkable);
        reveal(spot);
        let c = components(target);
        if c.last() == seq![DOT, DOT] {
            assert(0 < c.len()) by {
                if c.len() == 0 {
                    assert(without_parents(c).len() == 0);
                }
            }
            lemma_up_is_directory(room, c);
        }
    }
}

/// What was moved is found at the new path.
proof fn lemma_moved_is_found(room: Disk, after: Disk, source: Seq<u8>, target: Seq<u8>)
    requires
        found(room, source) is Some,
        after.at(spot(target)) == room.at(spot(source)),
        is_walkable(after, target),
        found(room, source) == Some(Node::Directory) || !asks_for_directory(target),
    ensures
        found(after, target) == found(room, source),
{
}

/// After a renaming the reverse one is in order.
proof fn lemma_reverse_in_order(
    disk: Disk,
    base: Seq<char>,
    container_id: Seq<char>,
    old_path: Seq<char>,
    new_path: Seq<char>,
    room: Disk,
    after: Disk,
)
    requires
        is_in_order(disk, base, container_id, OperationValue::Rename { old_path, new_path }),
        room.is_tree(),
        same_but_for_way(room, disk, components(volume_path(base, container_id, new_path))),
        moved(
            room,
            place_of(base, container_id, old_path),
            place_of(base, container_id, new_path),
        ) == Some(after),
        is_walkable(after, volume_path(base, container_id, old_path)),
    ensures
        is_in_order(
            after,
            base,
            container_id,
            OperationValue::Rename { old_path: new_path, new_path: old_path },
        ),
{
    let reverse = OperationValue::Rename { old_path: new_path, new_path: old_path };
    let from = place_of(base, container_id, old_path);
    let to = place_of(base, container_id, new_path);
    let source = volume_path(base, container_id, old_path);
    let target = volume_path(base, container_id, new_path);
    let root_path = volume_root(base, container_id);
    let root = spot(root_path);
    lemma_paths_in_order(disk, base, container_id, old_path, new_path);
    lemma_moved(room, from, to);
    assert(after.at(root) == disk.at(root)) by {
        if from.is_prefix_of(root) {
            lemma_prefix_of_prefix(from, root, to);
        }
        if to.is_prefix_of(root) {
            assert(root.subrange(0, to.len() as int) =~= to.subrange(0, root.len() as int));
            assert(to.subrange(0, root.len() as int) =~= to);
        }
        assert(room.at(root) == disk.at(root) || is_new_on_way(
            room,
            disk,
            components(target),
            root,
        ));
        assert(after.at(root) == room.at(root));
    }
    law_volume_path_is_below_root(base, container_id, old_path);
    assert(is_walkable(after, root_path)) by {
        reveal(is_walkable);
        let c = components(source);
        let r = components(root_path);
        assert(is_within(source, root_path));
        assert(c.take(r.len() as int) =~= r);
        lemma_in_part(after, c, r.len() as int);
    }
    assert forall|i: int| 0 <= i < operation_paths(reverse).len() implies leads_into_volume(
        root_path,
        #[trigger] all_hosts(base, container_id, reverse)[i],
    ) by {
        assert(all_hosts(base, container_id, reverse)[i] == if i == 0 {
            target
        } else {
            source
        });
    }
}

/// Components that lead into a place and then out of it lead back from it or from below it.
proof fn lemma_leads_back(parts: Seq<Seq<u8>>, from: Place, k: int) -> (j: int)
    requires
        0 <= k <= parts.len(),
        from.is_prefix_of(way(parts, k)),
        !from.is_prefix_of(without_parents(parts)),
    ensures
        k <= j < parts.len(),
        parts[j] == seq![DOT, DOT],
        from.is_prefix_of(way(parts, j)),
    decreases parts.len() - k,
{
    if k == parts.len() {
        assert(parts.take(k) =~= parts);
        k
    } else if parts[k] == seq![DOT, DOT] {
        k
    } else {
        let here = way(parts, k);
        let next = way(parts, k + 1);
        assert(parts.take(k + 1).drop_last() =~= parts.take(k));
        assert(parts.take(k + 1).last() == parts[k]);
        assert(next == here.push(parts[k]));
        assert(next.subrange(0, from.len() as int) =~= here.subrange(0, from.len() as int));
        lemma_leads_back(parts, from, k + 1)
    }
}

/// Where a path can still be walked after something was moved, it did not lead through it, so that
/// nothing was made in there for it.
proof fn lemma_nothing_made_inside(
    disk: Disk,
    room: Disk,
    after: Disk,
    from: Place,
    target: Seq<u8>,
    p: Place,
)
    requires
        room.is_tree(),
        same_but_for_way(room, disk, components(target)),
        moved(room, from, spot(target)) == Some(after),
        is_walkable(after, target),
        from.is_prefix_of(p),
    ensures
        room.at(p) == disk.at(p),
{
    reveal(is_walkable);
    reveal(spot);
    let c = components(target);
    let to = spot(target);
    lemma_moved(room, from, to);
    if room.at(p) != disk.at(p) {
        assert(is_new_on_way(room, disk, c, p));
        let k = choose|k: int| 0 <= k <= c.len() && p == #[trigger] way(c, k);
        let j = lemma_leads_back(c, from, k);
        let here = way(c, j);
        assert(after.at(here) == Some(Node::Directory));
        if to.is_prefix_of(here) {
            if from.len() <= to.len() {
                assert(to.subrange(0, from.len() as int) =~= here.subrange(0, from.len() as int));
            } else {
                assert(from.subrange(0, to.len() as int) =~= here.subrange(0, to.len() as int));
            }
        }
    }
}

/// Renaming back undoes a renaming: it goes well, and the disk is again what it was, but for
/// directories that were made on the way. The law leaves out paths of which a `..` leads back from
/// what was moved: it leads back from nothing then.
pub proof fn law_renaming_back_undoes_it(
    disk: Disk,
    base: Seq<char>,
    container_id: Seq<char>,
    old_path: Seq<char>,
    new_path: Seq<char>,
)
    requires
        is_in_order(disk, base, container_id, OperationValue::Rename { old_path, new_path }),
        disk.at(place_of(base, container_id, new_path)) is None,
        performed(
            disk,
            base,
            container_id,
            OperationValue::Rename { old_path, new_path },
        ) is Some,
        ({
            let after = performed(
                disk,
                base,
                container_id,
                OperationValue::Rename { old_path, new_path },
            )->0.disk;
            &&& is_walkable(after, volume_path(base, container_id, old_path))
            &&& is_walkable(after, volume_path(base, container_id, new_path))
        }),
    ensures
        ({
            let after = performed(
                disk,
                base,
                container_id,
                OperationValue::Rename { old_path, new_path },
            )->0.disk;
            let back = performed(
                after,
                base,
                container_id,
                OperationValue::Rename { old_path: new_path, new_path: old_path },
            );
            &&& back is Some
            &&& back->0.disk.at(place_of(base, container_id, new_path)) is None
            &&& same_disk(
                back->0.disk.below(place_of(base, container_id, old_path)),
                disk.below(place_of(base, container_id, old_path)),
            )
            &&& same_but_for_way(
                back->0.disk,
                disk,
                components(volume_path(base, container_id, new_path)),
            )
        }),
{
    let from = place_of(base, container_id, old_path);
    let source = volume_path(base, container_id, old_path);
    let target = volume_path(base, container_id, new_path);
    lemma_renamed(disk, base, container_id, old_path, new_path);
    lemma_paths_in_order(disk, base, container_id, old_path, new_path);
    lemma_room_made_for(disk, target);
    let room = room_made_for(disk, target)->0;
    let after = renamed(room, source, target)->0;
    lemma_reverse_in_order(disk, base, container_id, old_path, new_path, room, after);
    lemma_renamed(after, base, container_id, new_path, old_path);
    lemma_renamed_back(room, source, target);
    let back = renamed(after, target, source)->0;
    lemma_same_after_moving_back(disk, room, after, back, from, target);
}

/// A disk on which something was moved back is what it was, but for directories on the way.
proof fn lemma_same_after_moving_back(
    disk: Disk,
    room: Disk,
    after: Disk,
    back: Disk,
    from: Place,
    target: Seq<u8>,
)
    requires
        room.is_tree(),
        same_disk(back, room),
        same_but_for_way(room, disk, components(target)),
        moved(room, from, spot(target)) == Some(after),
        is_walkable(after, target),
    ensures
        back.at(spot(target)) is None,
        same_disk(back.below(from), disk.below(from)),
        same_but_for_way(back, disk, components(target)),
{
    assert(back.at(spot(target)) == room.at(spot(target)));
    assert forall|p: Place| #[trigger] back.below(from).at(p) == disk.below(from).at(p) by {
        let q = from + p;
        assert(q.subrange(0, from.len() as int) =~= from);
        lemma_nothing_made_inside(disk, room, after, from, target, q);
        assert(back.at(q) == room.at(q));
    }
    assert forall|p: Place| #[trigger]
        back.at(p) == disk.at(p) || is_new_on_way(back, disk, components(target), p) by {
        assert(back.at(p) == room.at(p));
        assert(room.at(p) == disk.at(p) || is_new_on_way(room, disk, components(target), p));
    }
}

/// Where there is nothing to be renamed, a renaming is refused, and no step is taken: not even a
/// directory is made.
pub proof fn law_renaming_nothing_is_refused(
    disk: Disk,
    base: Seq<char>,
    container_id: Seq<char>,
    old_path: Seq<char>,
    new_path: Seq<char>,
)
    requires
        is_in_order(disk, base, container_id, OperationValue::Rename { old_path, new_path }),
        found(disk, volume_path(base, container_id, old_path)) is None,
    ensures
        verdict(
            host_with(disk),
            base,
            container_id,
            OperationValue::Rename { old_path, new_path },
        ) == (FileQueryValue::Refuse { error: "Source path does not exist"@ }),
{
    lemma_renamed(disk, base, container_id, old_path, new_path);
}

} // verus!
