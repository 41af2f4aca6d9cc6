//! What comes out of a zip archive on a disk.

use vstd::prelude::*;
use vstd::utf8::encode_utf8;
use crate::disk::{
    Disk, Node, Place, Progress, all_taken, directories_made, file_written,
    lemma_above_is_directory, lemma_directories_made, lemma_file_written, lemma_way_is_there,
    taken, way_made,
};
use crate::disk_path::{is_walkable, lemma_still_walkable, spot};
use crate::file_plan::FsStepValue;
use crate::host_path::{
    DOT, SLASH, components, joined, law_parent_drops_last_component, lemma_without_parents_add,
    parent, path_of, without_parents,
};
use crate::written_place::{is_entry_name, is_made_of_names, lemma_written_below};
use crate::zip_archive::{ZipEntry, entries_unpacked, entry_unpacked, lemma_found_below};

verus! {

/// Whether an entry stands for what is at a place of a tree.
pub open spec fn stands_for(entry: ZipEntry, tree: Disk, place: Place) -> bool {
    &&& 0 < place.len()
    &&& is_made_of_names(place)
    &&& match tree.at(place) {
        Some(Node::File { content }) => entry.content == Some(content) && encode_utf8(entry.name)
            == path_of(place),
        Some(Node::Directory) => entry.content is None && encode_utf8(entry.name) == path_of(
            place,
        ).push(SLASH),
        None => false,
    }
}

/// Whether an entry stands for something in a tree.
pub open spec fn stands_for_some(entry: ZipEntry, tree: Disk) -> bool {
    exists|place: Place| #[trigger] stands_for(entry, tree, place)
}

/// Whether a disk holds only what is in a tree, below a directory.
pub open spec fn holds_part(disk: Disk, to: Place, tree: Disk) -> bool {
    &&& disk.is_tree()
    &&& 0 < to.len()
    &&& disk.is_directory(to)
    &&& forall|p: Place|
        0 < p.len() ==> #[trigger] disk.below(to).at(p) is None || disk.below(to).at(p)
            == tree.at(p)
}

/// Whether a disk holds all that another one holds below a directory, and the same elsewhere.
pub open spec fn holds_more(after: Disk, before: Disk, to: Place) -> bool {
    &&& forall|p: Place| #[trigger]
        before.below(to).at(p) is Some ==> after.below(to).at(p) is Some
    &&& forall|p: Place|
        !(to.is_prefix_of(p) && p != to) ==> #[trigger] after.at(p) == before.at(p)
}

/// Directories of a tree can be made where nothing but the tree is.
proof fn lemma_directories_can_be_made(disk: Disk, to: Place, tree: Disk, place: Place)
    requires
        holds_part(disk, to, tree),
        tree.is_tree(),
        tree.is_directory(place),
    ensures
        directories_made(disk, to + place) is Some,
    decreases place.len(),
{
    if place.len() == 0 {
        assert(to + place =~= to);
    } else {
        assert(disk.below(to).at(place) == disk.at(to + place));
        lemma_directories_can_be_made(disk, to, tree, place.drop_last());
        assert((to + place).drop_last() =~= to + place.drop_last());
    }
}

/// Making directories of a tree leaves nothing but the tree.
proof fn lemma_directories_of_tree_made(disk: Disk, to: Place, tree: Disk, place: Place)
    requires
        holds_part(disk, to, tree),
        tree.is_tree(),
        tree.is_directory(place),
    ensures
        directories_made(disk, to + place) is Some,
        ({
            let d = directories_made(disk, to + place)->0;
            &&& holds_part(d, to, tree)
            &&& holds_more(d, disk, to)
            &&& d.is_directory(to + place)
            &&& forall|p: Place| #[trigger]
                disk.at(p) == Some(Node::Directory) ==> d.at(p) == Some(Node::Directory)
        }),
{
    lemma_directories_can_be_made(disk, to, tree, place);
    lemma_directories_made(disk, to + place);
    let whole = to + place;
    let d = directories_made(disk, whole)->0;
    assert(d.at(to) == disk.at(to));
    assert forall|p: Place| 0 < p.len() implies #[trigger] d.below(to).at(p) is None || d.below(
        to,
    ).at(p) == tree.at(p) by {
        let q = to + p;
        assert(disk.below(to).at(p) == disk.at(q));
        if d.at(q) != disk.at(q) {
            assert(p.is_prefix_of(place)) by {
                assert(place.subrange(0, p.len() as int) =~= whole.subrange(
                    0,
                    q.len() as int,
                ).skip(to.len() as int));
                assert(q.skip(to.len() as int) =~= p);
            }
            lemma_above_is_directory(tree, p, place);
        }
    }
    assert forall|p: Place| #[trigger] disk.below(to).at(p) is Some implies d.below(to).at(
        p,
    ) is Some by {
        assert(d.at(to + p) == disk.at(to + p));
    }
    assert forall|p: Place| !(to.is_prefix_of(p) && p != to) implies #[trigger] d.at(p) == disk.at(
        p,
    ) by {
        if d.at(p) != disk.at(p) {
            assert(p.is_prefix_of(to)) by {
                if p.len() <= to.len() {
                    assert(to.subrange(0, p.len() as int) =~= whole.subrange(0, p.len() as int));
                } else {
                    assert(p.subrange(0, to.len() as int) =~= whole.subrange(0, to.len() as int));
                    assert(whole.subrange(0, to.len() as int) =~= to);
                }
            }
            lemma_above_is_directory(disk, p, to);
        }
    }
}

/// Writing a file of a tree leaves nothing but the tree.
proof fn lemma_file_of_tree_written(
    disk: Disk,
    to: Place,
    tree: Disk,
    place: Place,
    content: Seq<u8>,
)
    requires
        holds_part(disk, to, tree),
        0 < place.len(),
        tree.at(place) == Some(Node::File { content }),
        disk.is_directory(to + place.drop_last()),
    ensures
        file_written(disk, to + place, content) is Some,
        ({
            let d = file_written(disk, to + place, content)->0;
            &&& holds_part(d, to, tree)
            &&& holds_more(d, disk, to)
            &&& d.at(to + place) == tree.at(place)
            &&& forall|p: Place| #[trigger]
                disk.at(p) == Some(Node::Directory) ==> d.at(p) == Some(Node::Directory)
        }),
{
    let whole = to + place;
    assert(whole.drop_last() =~= to + place.drop_last());
    assert(disk.below(to).at(place) == disk.at(whole));
    lemma_file_written(disk, whole, content);
    let d = file_written(disk, whole, content)->0;
    assert(to != whole) by {
        assert(to.len() < whole.len());
    }
    assert(d.at(to) == disk.at(to));
    assert forall|p: Place| 0 < p.len() implies #[trigger] d.below(to).at(p) is None || d.below(
        to,
    ).at(p) == tree.at(p) by {
        assert(disk.below(to).at(p) == disk.at(to + p));
        if to + p == whole {
            assert(p =~= whole.skip(to.len() as int)) by {
                assert((to + p).skip(to.len() as int) =~= p);
            }
            assert(whole.skip(to.len() as int) =~= place);
        }
    }
    assert forall|p: Place| #[trigger] disk.below(to).at(p) is Some implies d.below(to).at(
        p,
    ) is Some by {
        assert(to + p == whole || d.at(to + p) == disk.at(to + p));
    }
    assert forall|p: Place| !(to.is_prefix_of(p) && p != to) implies #[trigger] d.at(p) == disk.at(
        p,
    ) by {
        assert(to.is_prefix_of(whole)) by {
            assert(whole.subrange(0, to.len() as int) =~= to);
        }
    }
}

/// Making directories below one that is there makes those on the way down.
proof fn lemma_way_below(disk: Disk, base: Seq<Seq<u8>>, place: Place)
    requires
        disk.is_tree(),
        way_made(disk, base) == Some(disk),
        disk.is_directory(without_parents(base)),
        is_made_of_names(place),
    ensures
        way_made(disk, base + place) == directories_made(disk, without_parents(base) + place),
    decreases place.len(),
{
    let to = without_parents(base);
    if place.len() == 0 {
        assert(base + place =~= base);
        assert(to + place =~= to);
    } else {
        let front = place.drop_last();
        let whole = to + place;
        assert forall|k: int| 0 <= k < front.len() implies is_entry_name(#[trigger] front[k]) by {
            assert(front[k] == place[k]);
        }
        lemma_way_below(disk, base, front);
        assert((base + place).drop_last() =~= base + front);
        assert(whole.drop_last() =~= to + front);
        assert(is_entry_name(place[place.len() - 1]));
        assert forall|k: int| 0 <= k < place.len() implies #[trigger] place[k] != seq![
            DOT,
            DOT,
        ] by {
            assert(is_entry_name(place[k]));
        }
        lemma_without_parents_add(base, place);
        if disk.at(whole) is Some {
            assert(disk.is_directory(whole.drop_last()));
        } else if directories_made(disk, to + front) is Some {
            lemma_directories_made(disk, to + front);
            let d = directories_made(disk, to + front)->0;
            assert(!whole.is_prefix_of(to + front));
            assert(d.at(whole) == disk.at(whole));
            assert(directories_made(d, whole.drop_last()) == Some(d));
        }
    }
}

/// What making directories below one that is found comes to.
proof fn lemma_made_below(disk: Disk, dest: Seq<u8>, place: Place)
    requires
        disk.is_tree(),
        is_walkable(disk, dest),
        disk.is_directory(spot(dest)),
        is_made_of_names(place),
    ensures
        way_made(disk, components(dest) + place) == directories_made(disk, spot(dest) + place),
{
    reveal(is_walkable);
    reveal(spot);
    lemma_way_is_there(disk, components(dest));
    lemma_way_below(disk, components(dest), place);
}

/// Taking one step.
proof fn lemma_one_step(disk: Disk, step: FsStepValue)
    ensures
        all_taken(Progress { disk, text: None }, seq![step]) == taken(
            Progress { disk, text: None },
            step,
        ),
{
    let start = Progress { disk, text: None };
    let none = Seq::<FsStepValue>::empty();
    assert(seq![step].drop_last() =~= none);
    assert(all_taken(start, none) == Some(start));
}

/// An entry that stands for something in a tree is unpacked to it.
proof fn lemma_entry_unpacked(
    disk: Disk,
    dest: Seq<u8>,
    tree: Disk,
    entry: ZipEntry,
    place: Place,
)
    requires
        0 < dest.len(),
        is_walkable(disk, dest),
        holds_part(disk, spot(dest), tree),
        tree.is_tree(),
        stands_for(entry, tree, place),
    ensures
        entry_unpacked(disk, dest, entry) is Some,
        ({
            let to = spot(dest);
            let d = entry_unpacked(disk, dest, entry)->0;
            &&& holds_part(d, to, tree)
            &&& holds_more(d, disk, to)
            &&& is_walkable(d, dest)
            &&& d.at(to + place) == tree.at(place)
        }),
{
    let to = spot(dest);
    let out = joined(dest, encode_utf8(entry.name));
    lemma_written_below(dest, place);
    assert(spot(out) == to + place);
    match tree.at(place) {
        Some(Node::Directory) => {
            lemma_made_below(disk, dest, place);
            lemma_one_step(disk, FsStepValue::CreateDirectories { path: out });
            lemma_directories_of_tree_made(disk, to, tree, place);
            lemma_still_walkable(disk, directories_made(disk, to + place)->0, dest);
        },
        Some(Node::File { content }) => {
            let front = place.drop_last();
            assert(tree.is_directory(front));
            assert forall|k: int| 0 <= k < front.len() implies is_entry_name(
                #[trigger] front[k],
            ) by {
                assert(front[k] == place[k]);
            }
            lemma_made_below(disk, dest, front);
            law_parent_drops_last_component(out);
            assert((components(dest) + place).drop_last() =~= components(dest) + front);
            lemma_one_step(disk, FsStepValue::CreateDirectories { path: parent(out)->0 });
            lemma_directories_of_tree_made(disk, to, tree, front);
            let made = directories_made(disk, to + front)->0;
            lemma_still_walkable(disk, made, dest);
            lemma_found_below(made, dest, place);
            lemma_file_of_tree_written(made, to, tree, place, content);
            let d = file_written(made, to + place, content)->0;
            lemma_holds_more(d, made, disk, to);
            lemma_still_walkable(made, d, dest);
        },
        None => {},
    }
}

/// A disk that holds more than one that holds more holds more.
proof fn lemma_holds_more(a: Disk, b: Disk, c: Disk, to: Place)
    requires
        holds_more(a, b, to),
        holds_more(b, c, to),
    ensures
        holds_more(a, c, to),
{
    assert forall|p: Place| #[trigger] c.below(to).at(p) is Some implies a.below(to).at(
        p,
    ) is Some by {
        assert(b.below(to).at(p) is Some);
    }
    assert forall|p: Place| !(to.is_prefix_of(p) && p != to) implies #[trigger] a.at(p) == c.at(
        p,
    ) by {
        assert(b.at(p) == c.at(p));
    }
}

/// Entries that stand for what is in a tree are unpacked to what they stand for.
pub proof fn lemma_entries_unpacked(
    disk: Disk,
    dest: Seq<u8>,
    tree: Disk,
    entries: Seq<ZipEntry>,
)
    requires
        0 < dest.len(),
        is_walkable(disk, dest),
        holds_part(disk, spot(dest), tree),
        tree.is_tree(),
        forall|k: int| 0 <= k < entries.len() ==> stands_for_some(#[trigger] entries[k], tree),
    ensures
        entries_unpacked(disk, dest, entries) is Some,
        ({
            let to = spot(dest);
            let d = entries_unpacked(disk, dest, entries)->0;
            &&& holds_part(d, to, tree)
            &&& holds_more(d, disk, to)
            &&& is_walkable(d, dest)
            &&& forall|k: int, place: Place|
                0 <= k < entries.len() && #[trigger] stands_for(entries[k], tree, place) ==> d.at(
                    to + place,
                ) == tree.at(place)
        }),
    decreases entries.len(),
{
    let to = spot(dest);
    if entries.len() > 0 {
        let front = entries.drop_last();
        let last = entries.last();
        assert forall|k: int| 0 <= k < front.len() implies stands_for_some(
            #[trigger] front[k],
            tree,
        ) by {
            assert(front[k] == entries[k]);
        }
        lemma_entries_unpacked(disk, dest, tree, front);
        let before = entries_unpacked(disk, dest, front)->0;
        assert(stands_for_some(entries[entries.len() - 1], tree));
        let found = choose|place: Place| #[trigger] stands_for(last, tree, place);
        lemma_entry_unpacked(before, dest, tree, last, found);
        let d = entry_unpacked(before, dest, last)->0;
        lemma_holds_more(d, before, disk, to);
        assert forall|k: int, place: Place|
            0 <= k < entries.len() && #[trigger] stands_for(entries[k], tree, place) implies d.at(
            to + place,
        ) == tree.at(place) by {
            if k < front.len() {
                assert(stands_for(front[k], tree, place));
                assert(before.below(to).at(place) is Some);
                assert(d.below(to).at(place) == tree.at(place));
            } else {
                lemma_entry_unpacked(before, dest, tree, last, place);
            }
        }
    }
}

} // verus!
