//! What packing and unpacking tar archives come to on a disk.
//!
//! How an archive is written is not described: laws are about formats that give back what is put
//! into them.

use vstd::prelude::*;
use crate::disk::{
    Disk, Node, Place, file_put, file_written, is_in_order, is_new_on_way, leads_into_volume,
    lemma_file_put, lemma_file_written, lemma_nothing_below, lemma_verdict, lemma_way_made,
    place_of, room_made_for, same_but_for_way, same_disk, way_made,
};
use crate::disk_path::{
    asks_for_directory, found, host_with, is_on_way, is_walkable, keeps_to_disk,
    lemma_still_walkable, spot, status_on, way,
};
use crate::file_plan::{
    ArchiveCompression, FsStepValue, OperationValue, PathStatus, compression_of,
    named_compression, operation_paths, parent_made, plan, refused_outright, report, tar_item,
    tar_items,
};
use crate::filesystem_direct::{
    FileQueryValue, all_hosts, all_statuses, first_refusal, verdict,
};
use crate::host_path::{components, file_name, parent};
use crate::text::lowercase;
use crate::volume_path::{volume_path, volume_root};

verus! {

/// One thing in an archive: a name, and what was packed under it.
pub struct PackedItem {
    pub name: Seq<u8>,
    pub tree: Disk,
}

/// How archives are made out of things, and things out of archives.
pub struct TarFormat {
    pub pack: spec_fn(ArchiveCompression, Seq<PackedItem>) -> Seq<u8>,
    pub unpack: spec_fn(ArchiveCompression, Seq<u8>) -> Option<Seq<PackedItem>>,
}

/// An archive that is being written.
pub struct OpenTar {
    pub place: Place,
    pub compression: ArchiveCompression,
    pub items: Seq<PackedItem>,
}

/// What taking steps has come to: the disk, and the archive that is being written.
pub struct Packing {
    pub disk: Disk,
    pub open: Option<OpenTar>,
}

/// A disk after things were put into a directory, under their names.
pub open spec fn with_items(disk: Disk, to: Place, items: Seq<PackedItem>) -> Disk
    decreases items.len(),
{
    if items.len() == 0 {
        disk
    } else {
        with_items(disk, to, items.drop_last()).with_tree(
            to.push(items.last().name),
            items.last().tree,
        )
    }
}

/// What adding to the archive that is being written comes to.
pub open spec fn item_packed(before: Packing, name: Seq<u8>, place: Place) -> Option<Packing> {
    match before.open {
        Some(tar) => Some(
            Packing {
                open: Some(
                    OpenTar {
                        items: tar.items.push(PackedItem { name, tree: before.disk.below(place) }),
                        ..tar
                    },
                ),
                ..before
            },
        ),
        None => None,
    }
}

/// What taking one more step comes to, where it can be taken.
pub open spec fn tar_taken(format: TarFormat, before: Packing, step: FsStepValue) -> Option<
    Packing,
> {
    let disk = before.disk;
    match step {
        FsStepValue::CreateDirectories { path } => match way_made(disk, components(path)) {
            Some(d) => Some(Packing { disk: d, ..before }),
            None => None,
        },
        FsStepValue::BeginTar { path, compression } => match file_put(disk, path, Seq::empty()) {
            Some(d) => Some(
                Packing {
                    disk: d,
                    open: Some(
                        OpenTar { place: spot(path), compression, items: Seq::empty() },
                    ),
                },
            ),
            None => None,
        },
        FsStepValue::AppendTree { name, path } => if found(disk, path) == Some(Node::Directory) {
            item_packed(before, name, spot(path))
        } else {
            None
        },
        FsStepValue::AppendFile { name, path } => match found(disk, path) {
            Some(Node::File { .. }) => item_packed(before, name, spot(path)),
            _ => None,
        },
        FsStepValue::FinishTar => match before.open {
            Some(tar) => match file_written(
                disk,
                tar.place,
                (format.pack)(tar.compression, tar.items),
            ) {
                Some(d) => Some(Packing { disk: d, open: None }),
                None => None,
            },
            None => None,
        },
        FsStepValue::Unpack { path, compression, to } => match found(disk, path) {
            Some(Node::File { content }) => match (format.unpack)(compression, content) {
                Some(items) => if found(disk, to) == Some(Node::Directory) {
                    Some(Packing { disk: with_items(disk, spot(to), items), ..before })
                } else {
                    None
                },
                None => None,
            },
            _ => None,
        },
        _ => None,
    }
}

/// What taking steps in order comes to, where all can be taken.
pub open spec fn all_tar_taken(
    format: TarFormat,
    before: Packing,
    steps: Seq<FsStepValue>,
) -> Option<Packing>
    decreases steps.len(),
{
    if steps.len() == 0 {
        Some(before)
    } else {
        match all_tar_taken(format, before, steps.drop_last()) {
            Some(p) => tar_taken(format, p, steps.last()),
            None => None,
        }
    }
}

/// The disk after a tar archive was packed or unpacked, where that goes well.
#[verifier::opaque]
pub open spec fn tar_performed(
    format: TarFormat,
    disk: Disk,
    base: Seq<char>,
    container_id: Seq<char>,
    operation: OperationValue,
) -> Option<Disk> {
    match verdict(host_with(disk), base, container_id, operation) {
        FileQueryValue::Perform { steps, .. } => match all_tar_taken(
            format,
            Packing { disk, open: None },
            steps,
        ) {
            Some(p) => Some(p.disk),
            None => None,
        },
        _ => None,
    }
}

/// What is packed of paths on a disk: each under its own name.
pub open spec fn packed(disk: Disk, paths: Seq<Seq<u8>>) -> Seq<PackedItem> {
    Seq::new(
        paths.len(),
        |i: int|
            PackedItem { name: file_name(paths[i])->0, tree: disk.below(spot(paths[i])) },
    )
}

/// Whether names in an archive differ.
pub open spec fn names_differ(items: Seq<PackedItem>) -> bool {
    forall|i: int, j: int|
        0 <= i < j < items.len() ==> (#[trigger] items[i]).name != (#[trigger] items[j]).name
}

/// The compression that an archive is asked for with is found again by what its path ends with,
/// for the endings that go with a compression, and letter case does not matter.
pub proof fn law_endings_tell_compression(archive: Seq<char>, name: Option<Seq<char>>)
    requires
        ({
            let lower = lowercase(archive);
            ||| (".tar.gz"@.is_suffix_of(lower) || ".tgz"@.is_suffix_of(lower)) && name == Some(
                "gzip"@,
            )
            ||| (".tar.bz2"@.is_suffix_of(lower) || ".tbz2"@.is_suffix_of(lower)) && name == Some(
                "bzip2"@,
            )
            ||| ".tar"@.is_suffix_of(lower) && name is None
        }),
    ensures
        compression_of(lowercase(archive)) == named_compression(name),
        forall|other: Seq<char>|
            lowercase(other) == lowercase(archive) ==> compression_of(#[trigger] lowercase(other))
                == named_compression(name),
{
    let lower = lowercase(archive);
    reveal_strlit(".tar.gz");
    reveal_strlit(".tgz");
    reveal_strlit(".tar.bz2");
    reveal_strlit(".tbz2");
    reveal_strlit(".tar");
    reveal_strlit("gzip");
    reveal_strlit("bzip2");
    assert("gzip"@.len() != "bzip2"@.len());
    if ".tar.gz"@.is_suffix_of(lower) {
        assert(lower.last() == 'z') by {
            assert(lower.subrange(lower.len() - 7, lower.len() as int)[6] == 'z');
        }
    }
    if ".tgz"@.is_suffix_of(lower) {
        assert(lower.last() == 'z') by {
            assert(lower.subrange(lower.len() - 4, lower.len() as int)[3] == 'z');
        }
    }
    if ".tar.bz2"@.is_suffix_of(lower) {
        assert(lower.last() == '2') by {
            assert(lower.subrange(lower.len() - 8, lower.len() as int)[7] == '2');
        }
    }
    if ".tbz2"@.is_suffix_of(lower) {
        assert(lower.last() == '2') by {
            assert(lower.subrange(lower.len() - 5, lower.len() as int)[4] == '2');
        }
    }
    if ".tar"@.is_suffix_of(lower) {
        assert(lower.last() == 'r') by {
            assert(lower.subrange(lower.len() - 4, lower.len() as int)[3] == 'r');
        }
    }
}

/// Steps behind others are taken from what those have come to.
proof fn lemma_all_tar_taken_add(
    format: TarFormat,
    before: Packing,
    a: Seq<FsStepValue>,
    b: Seq<FsStepValue>,
)
    ensures
        all_tar_taken(format, before, a + b) == match all_tar_taken(format, before, a) {
            Some(p) => all_tar_taken(format, p, b),
            None => None,
        },
    decreases b.len(),
{
    if b.len() == 0 {
        assert(a + b =~= a);
    } else {
        lemma_all_tar_taken_add(format, before, a, b.drop_last());
        assert((a + b).drop_last() =~= a + b.drop_last());
    }
}

/// Taking one step.
proof fn lemma_one_tar_step(format: TarFormat, before: Packing, step: FsStepValue)
    ensures
        all_tar_taken(format, before, seq![step]) == tar_taken(format, before, step),
{
    let none = Seq::<FsStepValue>::empty();
    assert(seq![step].drop_last() =~= none);
    assert(all_tar_taken(format, before, none) == Some(before));
}

/// Sources that can all be added to an archive have names, and go in one after the other.
proof fn lemma_items_packed(
    format: TarFormat,
    before: Packing,
    paths: Seq<Seq<u8>>,
    statuses: Seq<PathStatus>,
)
    requires
        before.open is Some,
        all_tar_taken(format, before, tar_items(paths, statuses)) is Some,
    ensures
        forall|i: int| 0 <= i < paths.len() ==> file_name(#[trigger] paths[i]) is Some,
        all_tar_taken(format, before, tar_items(paths, statuses)) == Some(
            Packing {
                open: Some(
                    OpenTar {
                        items: before.open->0.items + packed(before.disk, paths),
                        ..before.open->0
                    },
                ),
                ..before
            },
        ),
    decreases paths.len(),
{
    let all = packed(before.disk, paths);
    if paths.len() == 0 {
        assert(before.open->0.items + all =~= before.open->0.items);
    } else {
        let front = paths.drop_last();
        let item = tar_item(paths.last(), statuses[paths.len() - 1]);
        lemma_all_tar_taken_add(format, before, tar_items(front, statuses), item);
        lemma_items_packed(format, before, front, statuses);
        let middle = all_tar_taken(format, before, tar_items(front, statuses))->0;
        if item.len() == 2 {
            let fail = item[1];
            assert(item.last() == fail);
            assert(tar_taken(format, middle, item[0]) is None);
            assert(item.drop_last() =~= seq![item[0]]);
            lemma_one_tar_step(format, middle, item[0]);
        } else {
            assert(item =~= seq![item[0]]);
            lemma_one_tar_step(format, middle, item[0]);
        }
        assert(file_name(paths.last()) is Some);
        assert(all =~= packed(before.disk, front).push(all.last()));
        assert(before.open->0.items + all =~= (before.open->0.items + packed(
            before.disk,
            front,
        )).push(all.last()));
        assert forall|i: int| 0 <= i < paths.len() implies file_name(
            #[trigger] paths[i],
        ) is Some by {
            if i < front.len() {
                assert(paths[i] == front[i]);
            }
        }
    }
}

/// What is where after things were put into a directory in which nothing was.
pub proof fn lemma_with_items(disk: Disk, to: Place, items: Seq<PackedItem>)
    requires
        names_differ(items),
        forall|p: Place| to.is_prefix_of(p) && p != to ==> #[trigger] disk.at(p) is None,
    ensures
        ({
            let d = with_items(disk, to, items);
            &&& forall|i: int|
                0 <= i < items.len() ==> same_disk(
                    d.below(to.push((#[trigger] items[i]).name)),
                    items[i].tree,
                )
            &&& forall|p: Place|
                to.is_prefix_of(p) && p != to && #[trigger] d.at(p) is Some ==> is_in_one_of(
                    p,
                    to,
                    items,
                )
            &&& forall|p: Place|
                !(to.is_prefix_of(p) && p != to) ==> #[trigger] d.at(p) == disk.at(p)
        }),
    decreases items.len(),
{
    let d = with_items(disk, to, items);
    if items.len() > 0 {
        let front = items.drop_last();
        let last = items.last();
        let at = to.push(last.name);
        assert forall|i: int, j: int| 0 <= i < j < front.len() implies (#[trigger] front[i]).name
            != (#[trigger] front[j]).name by {
            assert(front[i] == items[i] && front[j] == items[j]);
        }
        lemma_with_items(disk, to, front);
        let before = with_items(disk, to, front);
        assert(d == before.with_tree(at, last.tree));
        assert forall|p: Place| at.is_prefix_of(p) implies #[trigger] before.at(p) is None by {
            lemma_in_directory(to, last.name, p);
            if before.at(p) is Some {
                let j = choose|j: int|
                    0 <= j < front.len() && to.push((#[trigger] front[j]).name).is_prefix_of(p);
                lemma_in_directory(to, front[j].name, p);
                assert(front[j] == items[j] && items[items.len() - 1] == last);
            }
        }
        assert forall|i: int| 0 <= i < items.len() implies same_disk(
            d.below(to.push((#[trigger] items[i]).name)),
            items[i].tree,
        ) by {
            let there = to.push(items[i].name);
            assert forall|p: Place| #[trigger] d.below(there).at(p) == items[i].tree.at(p) by {
                let q = there + p;
                assert(q.skip(there.len() as int) =~= p);
                assert(there.is_prefix_of(q)) by {
                    assert(q.subrange(0, there.len() as int) =~= there);
                }
                if i == items.len() - 1 {
                    assert(before.at(q) is None);
                } else {
                    assert(items[i] == front[i]);
                    assert(before.below(there).at(p) == front[i].tree.at(p));
                    if at.is_prefix_of(q) {
                        lemma_in_directory(to, last.name, q);
                        lemma_in_directory(to, items[i].name, q);
                        assert(items[items.len() - 1] == last);
                    }
                }
            }
        }
        assert forall|p: Place|
            to.is_prefix_of(p) && p != to && #[trigger] d.at(p) is Some implies is_in_one_of(
            p,
            to,
            items,
        ) by {
            if at.is_prefix_of(p) {
                assert(items[items.len() - 1] == last);
            } else {
                assert(before.at(p) is Some);
                let j = choose|j: int|
                    0 <= j < front.len() && to.push((#[trigger] front[j]).name).is_prefix_of(p);
                assert(items[j] == front[j]);
            }
        }
        assert forall|p: Place| !(to.is_prefix_of(p) && p != to) implies #[trigger] d.at(p)
            == disk.at(p) by {
            if at.is_prefix_of(p) {
                lemma_in_directory(to, last.name, p);
            }
            assert(before.at(p) == disk.at(p));
        }
    }
}

/// Whether a place is that of one of the things in a directory or below it.
pub open spec fn is_in_one_of(p: Place, to: Place, items: Seq<PackedItem>) -> bool {
    exists|i: int| 0 <= i < items.len() && to.push((#[trigger] items[i]).name).is_prefix_of(p)
}

/// What is below an entry of a directory is below the directory, and tells the entry.
pub proof fn lemma_in_directory(to: Place, name: Seq<u8>, p: Place)
    requires
        to.push(name).is_prefix_of(p),
    ensures
        to.is_prefix_of(p),
        p != to,
        p[to.len() as int] == name,
{
    let there = to.push(name);
    assert(p.subrange(0, to.len() as int) =~= there.subrange(0, to.len() as int));
    assert(there.subrange(0, to.len() as int) =~= to);
    assert(p[to.len() as int] == p.subrange(0, there.len() as int)[to.len() as int]);
}

/// What making an archive comes to: the archive is begun, holds what is packed of the sources at
/// that time, and is the only thing that is new, but for directories on the way to it.
proof fn lemma_archive_made(
    format: TarFormat,
    disk: Disk,
    base: Seq<char>,
    container_id: Seq<char>,
    operation: OperationValue,
)
    requires
        operation is CreateArchive,
        is_in_order(disk, base, container_id, operation),
        tar_performed(format, disk, base, container_id, operation) is Some,
    ensures
        ({
            let hosts = all_hosts(base, container_id, operation);
            let sources = hosts.skip(1);
            let begun = archive_begun(disk, hosts[0]);
            let content = (format.pack)(
                named_compression(operation->compression),
                packed(begun->0, sources),
            );
            &&& begun is Some
            &&& begun->0.is_tree()
            &&& found(begun->0, hosts[0]) is Some
            &&& !asks_for_directory(hosts[0])
            &&& tar_performed(format, disk, base, container_id, operation) == file_written(
                begun->0,
                spot(hosts[0]),
                content,
            )
            &&& forall|i: int| 0 <= i < sources.len() ==> file_name(#[trigger] sources[i]) is Some
            &&& forall|p: Place|
                p != spot(hosts[0]) ==> #[trigger] begun->0.at(p) == disk.at(p) || is_new_on_way(
                    begun->0,
                    disk,
                    components(hosts[0]),
                    p,
                )
        }),
{
    reveal(tar_performed);
    let hosts = all_hosts(base, container_id, operation);
    let statuses = all_statuses(host_with(disk), operation, hosts);
    let sources = hosts.skip(1);
    let path = hosts[0];
    let compression = named_compression(operation->compression);
    lemma_verdict_performs(disk, base, container_id, operation);
    let start = Packing { disk, open: None };
    let begin = FsStepValue::BeginTar { path, compression };
    let head = parent_made(path) + seq![begin];
    let items = tar_items(sources, statuses);
    let steps = plan(operation, hosts, statuses);
    assert(steps == head + items + seq![FsStepValue::FinishTar]);
    lemma_all_tar_taken_add(format, start, head + items, seq![FsStepValue::FinishTar]);
    lemma_all_tar_taken_add(format, start, head, items);
    lemma_all_tar_taken_add(format, start, parent_made(path), seq![begin]);
    lemma_parent_made(format, start, path);
    let room = room_made_for(disk, path)->0;
    lemma_one_tar_step(format, Packing { disk: room, open: None }, begin);
    let begun = archive_begun(disk, path)->0;
    assert(leads_into_volume(volume_root(base, container_id), path));
    lemma_file_put(disk, path, Seq::empty());
    let opened = all_tar_taken(format, start, head)->0;
    lemma_items_packed(format, opened, sources, statuses);
    let filled = all_tar_taken(format, opened, items)->0;
    lemma_one_tar_step(format, filled, FsStepValue::FinishTar);
    assert(opened.open->0.items + packed(begun, sources) =~= packed(begun, sources));
}

/// The disk on which an archive was begun, where it can be.
pub open spec fn archive_begun(disk: Disk, path: Seq<u8>) -> Option<Disk> {
    match room_made_for(disk, path) {
        Some(room) => file_put(room, path, Seq::empty()),
        None => None,
    }
}

/// What making the directory for a path comes to.
proof fn lemma_parent_made(format: TarFormat, before: Packing, path: Seq<u8>)
    ensures
        all_tar_taken(format, before, parent_made(path)) == match room_made_for(
            before.disk,
            path,
        ) {
            Some(d) => Some(Packing { disk: d, ..before }),
            None => None,
        },
{
    let none = Seq::<FsStepValue>::empty();
    assert(all_tar_taken(format, before, none) == Some(before));
    match parent(path) {
        Some(up) => {
            lemma_one_tar_step(format, before, FsStepValue::CreateDirectories { path: up });
        },
        None => {
            assert(parent_made(path) =~= none);
            assert(Packing { disk: before.disk, ..before } == before);
        },
    }
}

/// An operation that went well was let.
pub proof fn lemma_verdict_performs(
    disk: Disk,
    base: Seq<char>,
    container_id: Seq<char>,
    operation: OperationValue,
)
    requires
        is_in_order(disk, base, container_id, operation),
        verdict(host_with(disk), base, container_id, operation) is Perform,
    ensures
        ({
            let hosts = all_hosts(base, container_id, operation);
            let statuses = all_statuses(host_with(disk), operation, hosts);
            verdict(host_with(disk), base, container_id, operation) == (FileQueryValue::Perform {
                steps: plan(operation, hosts, statuses),
                report: report(operation),
            })
        }),
{
    if refused_outright(operation) is None {
        lemma_verdict(disk, base, container_id, operation);
    }
}

/// What unpacking an archive comes to, into a directory that is not there yet: the directory holds
/// what comes out of the archive and nothing else, and everything else is as it was, but for
/// directories on the way to it that were missing.
proof fn lemma_archive_unpacked(
    format: TarFormat,
    disk: Disk,
    base: Seq<char>,
    container_id: Seq<char>,
    archive: Seq<char>,
    dest: Seq<char>,
    content: Seq<u8>,
    items: Seq<PackedItem>,
)
    requires
        is_in_order(disk, base, container_id, OperationValue::ExtractArchive { archive, dest }),
        found(disk, volume_path(base, container_id, archive)) == Some(Node::File { content }),
        (format.unpack)(compression_of(lowercase(archive)), content) == Some(items),
        names_differ(items),
        can_be_made_for(disk, volume_path(base, container_id, dest)),
    ensures
        verdict(
            host_with(disk),
            base,
            container_id,
            OperationValue::ExtractArchive { archive, dest },
        ) matches FileQueryValue::Perform { report: Some(said), .. } && said
            == "Archive extracted to: "@ + dest,
        ({
            let to = place_of(base, container_id, dest);
            let after = tar_performed(
                format,
                disk,
                base,
                container_id,
                OperationValue::ExtractArchive { archive, dest },
            );
            &&& after is Some
            &&& after->0.is_directory(to)
            &&& forall|i: int|
                0 <= i < items.len() ==> same_disk(
                    after->0.below(to.push((#[trigger] items[i]).name)),
                    items[i].tree,
                )
            &&& forall|p: Place|
                to.is_prefix_of(p) && p != to && #[trigger] after->0.at(p) is Some ==> is_in_one_of(
                    p,
                    to,
                    items,
                )
            &&& same_outside(after->0, disk, volume_path(base, container_id, dest))
        }),
{
    reveal(tar_performed);
    let operation = OperationValue::ExtractArchive { archive, dest };
    let hosts = all_hosts(base, container_id, operation);
    let statuses = all_statuses(host_with(disk), operation, hosts);
    let path = volume_path(base, container_id, archive);
    let target = volume_path(base, container_id, dest);
    let to = spot(target);
    assert(hosts[0] == path && hosts[1] == target);
    assert(statuses[0] == status_on(disk, path));
    lemma_verdict(disk, base, container_id, operation);
    assert(first_refusal(operation, statuses, 1) is None);
    assert(first_refusal(operation, statuses, 0) is None);
    let make = FsStepValue::CreateDirectories { path: target };
    let unpack = FsStepValue::Unpack {
        path,
        compression: compression_of(lowercase(archive)),
        to: target,
    };
    let start = Packing { disk, open: None };
    assert(plan(operation, hosts, statuses) =~= seq![make] + seq![unpack]);
    lemma_all_tar_taken_add(format, start, seq![make], seq![unpack]);
    lemma_one_tar_step(format, start, make);
    let made = way_made(disk, components(target))->0;
    lemma_one_tar_step(format, Packing { disk: made, open: None }, unpack);
    assert(leads_into_volume(volume_root(base, container_id), target));
    assert(0 < to.len());
    lemma_made_empty(disk, path, target);
    lemma_with_items(made, to, items);
    let after = with_items(made, to, items);
    assert forall|p: Place| !to.is_prefix_of(p) implies #[trigger] after.at(p) == disk.at(p)
        || is_new_on_way(after, disk, components(target), p) by {
        assert(after.at(p) == made.at(p));
        assert(made.at(p) == disk.at(p) || is_new_on_way(made, disk, components(target), p));
    }
}

/// Whether a directory that is not there can be made for a path, and is empty then: the path does
/// not lead into it and back up.
pub open spec fn can_be_made_for(disk: Disk, path: Seq<u8>) -> bool {
    &&& disk.at(spot(path)) is None
    &&& way_made(disk, components(path)) is Some
    &&& forall|k: int|
        0 <= k <= components(path).len() && spot(path).is_prefix_of(
            #[trigger] way(components(path), k),
        ) ==> way(components(path), k) == spot(path)
}

/// A directory that was made is found and empty, and a file that was found is still found.
pub proof fn lemma_made_empty(disk: Disk, file: Seq<u8>, path: Seq<u8>)
    requires
        disk.is_tree(),
        keeps_to_disk(components(path)),
        0 < spot(path).len(),
        can_be_made_for(disk, path),
        found(disk, file) is Some,
    ensures
        ({
            let made = way_made(disk, components(path))->0;
            &&& made.is_tree()
            &&& is_walkable(made, path)
            &&& found(made, path) == Some(Node::Directory)
            &&& found(made, file) == found(disk, file)
            &&& same_but_for_way(made, disk, components(path))
            &&& forall|p: Place|
                spot(path).is_prefix_of(p) && p != spot(path) ==> #[trigger] made.at(p) is None
        }),
{
    let c = components(path);
    let to = spot(path);
    let made = way_made(disk, c)->0;
    lemma_way_made(disk, c);
    assert(is_walkable(made, path)) by {
        reveal(is_walkable);
    }
    assert(made.is_directory(to)) by {
        reveal(spot);
    }
    assert forall|p: Place| #[trigger] disk.at(p) == Some(Node::Directory) implies made.at(p)
        == Some(Node::Directory) by {
        assert(made.at(p) == disk.at(p) || is_new_on_way(made, disk, c, p));
    }
    lemma_still_walkable(disk, made, file);
    assert(made.at(spot(file)) == disk.at(spot(file)) || is_new_on_way(made, disk, c, spot(file)));
    assert forall|p: Place| to.is_prefix_of(p) && p != to implies #[trigger] made.at(p) is None by {
        lemma_nothing_below(disk, to, p);
        assert(made.at(p) == disk.at(p) || is_new_on_way(made, disk, c, p));
        if is_on_way(p, c) {
            let k = choose|k: int| 0 <= k <= c.len() && p == #[trigger] way(c, k);
            assert(way(c, k) == to);
        }
    }
}

/// A tar archive gives back what was packed: where an archive was made of sources with different
/// names that do not hold it, and is unpacked into a directory that is not there yet, the
/// directory holds each source under its own name, with the same bytes or the same tree, and
/// nothing else. Everything outside of the directory is as it was, the archive with it, but for
/// directories on the way to it that were missing, and making the archive changed nothing else
/// either. The path of the archive tells its compression, and the format gives back what is put
/// into it.
pub proof fn law_unpacked_archive_holds_sources(
    format: TarFormat,
    disk: Disk,
    base: Seq<char>,
    container_id: Seq<char>,
    sources: Seq<Seq<char>>,
    archive: Seq<char>,
    compression: Option<Seq<char>>,
    dest: Seq<char>,
)
    requires
        ({
            let create = OperationValue::CreateArchive { sources, archive, compression };
            let extract = OperationValue::ExtractArchive { archive, dest };
            let hosts = all_hosts(base, container_id, create);
            let made = tar_performed(format, disk, base, container_id, create);
            let how = named_compression(compression);
            let items = packed(archive_begun(disk, hosts[0])->0, hosts.skip(1));
            &&& is_in_order(disk, base, container_id, create)
            &&& made is Some
            &&& is_in_order(made->0, base, container_id, extract)
            &&& compression_of(lowercase(archive)) == how
            &&& (format.unpack)(how, (format.pack)(how, items)) == Some(items)
            &&& own_names_differ(hosts.skip(1))
            &&& none_holds(hosts.skip(1), spot(hosts[0]))
            &&& can_be_made_for(made->0, volume_path(base, container_id, dest))
        }),
    ensures
        ({
            let create = OperationValue::CreateArchive { sources, archive, compression };
            let extract = OperationValue::ExtractArchive { archive, dest };
            let hosts = all_hosts(base, container_id, create);
            let made = tar_performed(format, disk, base, container_id, create)->0;
            let after = tar_performed(format, made, base, container_id, extract);
            let to = place_of(base, container_id, dest);
            &&& verdict(host_with(made), base, container_id, extract)
                matches FileQueryValue::Perform { report: Some(said), .. } && said
                == "Archive extracted to: "@ + dest
            &&& after is Some
            &&& holds_just(after->0, to, hosts.skip(1), made)
            &&& same_outside(after->0, made, volume_path(base, container_id, dest))
            &&& after->0.at(spot(hosts[0])) == made.at(spot(hosts[0]))
            &&& same_but_for_file(made, disk, hosts[0])
        }),
{
    let create = OperationValue::CreateArchive { sources, archive, compression };
    let extract = OperationValue::ExtractArchive { archive, dest };
    let hosts = all_hosts(base, container_id, create);
    let paths = hosts.skip(1);
    let begun = archive_begun(disk, hosts[0])->0;
    let items = packed(begun, paths);
    let content = (format.pack)(named_compression(compression), items);
    let place = spot(hosts[0]);
    let to = place_of(base, container_id, dest);
    let made = tar_performed(format, disk, base, container_id, create)->0;
    lemma_archive_made(format, disk, base, container_id, create);
    lemma_ready_to_unpack(format, disk, base, container_id, create);
    lemma_archive_unpacked(format, made, base, container_id, archive, dest, content, items);
    let after = tar_performed(format, made, base, container_id, extract)->0;
    lemma_items_are_sources(made, begun, after, to, place, paths);
    assert(after.at(place) == made.at(place)) by {
        if to.is_prefix_of(place) && to != place {
            lemma_nothing_below(made, to, place);
        }
    }
}

/// Whether paths differ in their last components.
pub open spec fn own_names_differ(paths: Seq<Seq<u8>>) -> bool {
    forall|i: int, j: int|
        0 <= i < j < paths.len() ==> file_name(#[trigger] paths[i]) != file_name(
            #[trigger] paths[j],
        )
}

/// Whether a place is at none of the given paths and below none.
pub open spec fn none_holds(paths: Seq<Seq<u8>>, place: Place) -> bool {
    forall|i: int|
        0 <= i < paths.len() ==> !spot(#[trigger] paths[i]).is_prefix_of(place)
}

/// Disks that hold the same as one hold the same.
pub proof fn lemma_same_disk(a: Disk, b: Disk, c: Disk)
    requires
        same_disk(a, b),
        same_disk(b, c),
    ensures
        same_disk(a, c),
{
    assert forall|p: Place| #[trigger] a.at(p) == c.at(p) by {
        assert(a.at(p) == b.at(p));
        assert(b.at(p) == c.at(p));
    }
}

/// Once an archive was made, it can be unpacked.
proof fn lemma_ready_to_unpack(
    format: TarFormat,
    disk: Disk,
    base: Seq<char>,
    container_id: Seq<char>,
    create: OperationValue,
)
    requires
        create is CreateArchive,
        is_in_order(disk, base, container_id, create),
        tar_performed(format, disk, base, container_id, create) is Some,
        own_names_differ(all_hosts(base, container_id, create).skip(1)),
    ensures
        ({
            let hosts = all_hosts(base, container_id, create);
            let items = packed(archive_begun(disk, hosts[0])->0, hosts.skip(1));
            let content = (format.pack)(named_compression(create->compression), items);
            let made = tar_performed(format, disk, base, container_id, create)->0;
            &&& hosts[0] == volume_path(base, container_id, create->CreateArchive_archive)
            &&& made.is_tree()
            &&& found(made, hosts[0]) == Some(Node::File { content })
            &&& made.at(spot(hosts[0])) == Some(Node::File { content })
            &&& names_differ(items)
            &&& forall|p: Place|
                p != spot(hosts[0]) ==> #[trigger] made.at(p) == archive_begun(
                    disk,
                    hosts[0],
                )->0.at(p)
            &&& same_but_for_file(made, disk, hosts[0])
        }),
{
    let hosts = all_hosts(base, container_id, create);
    let paths = hosts.skip(1);
    lemma_archive_made(format, disk, base, container_id, create);
    let begun = archive_begun(disk, hosts[0])->0;
    let items = packed(begun, paths);
    let content = (format.pack)(named_compression(create->compression), items);
    let place = spot(hosts[0]);
    let made = tar_performed(format, disk, base, container_id, create)->0;
    lemma_file_written(begun, place, content);
    assert(operation_paths(create)[0] == create->CreateArchive_archive);
    lemma_still_walkable(begun, made, hosts[0]);
    assert forall|i: int, j: int| 0 <= i < j < items.len() implies (#[trigger] items[i]).name != (
    #[trigger] items[j]).name by {
        assert(file_name(paths[i]) is Some && file_name(paths[j]) is Some);
    }
}

/// Whether a directory holds each of the given paths of a disk, under its own name and with
/// everything in it, and nothing else.
pub open spec fn holds_just(after: Disk, to: Place, paths: Seq<Seq<u8>>, disk: Disk) -> bool {
    &&& after.is_directory(to)
    &&& forall|i: int|
        0 <= i < paths.len() ==> file_name(#[trigger] paths[i]) is Some && same_disk(
            after.below(to.push(file_name(paths[i])->0)),
            disk.below(spot(paths[i])),
        )
    &&& forall|p: Place|
        to.is_prefix_of(p) && p != to && #[trigger] after.at(p) is Some ==> exists|i: int|
            0 <= i < paths.len() && to.push(file_name(#[trigger] paths[i])->0).is_prefix_of(p)
}

/// Whether a disk is another one but for what is at a path and below it, and for directories on
/// the way there that were missing.
pub open spec fn same_outside(after: Disk, before: Disk, path: Seq<u8>) -> bool {
    forall|p: Place|
        !spot(path).is_prefix_of(p) ==> #[trigger] after.at(p) == before.at(p) || is_new_on_way(
            after,
            before,
            components(path),
            p,
        )
}

/// Whether a disk is another one but for a file at a path, and for directories on the way there
/// that were missing.
pub open spec fn same_but_for_file(after: Disk, before: Disk, path: Seq<u8>) -> bool {
    forall|p: Place|
        p != spot(path) ==> #[trigger] after.at(p) == before.at(p) || is_new_on_way(
            after,
            before,
            components(path),
            p,
        )
}

/// What comes out of an archive are the sources that went in.
proof fn lemma_items_are_sources(
    disk: Disk,
    begun: Disk,
    after: Disk,
    to: Place,
    archive: Place,
    paths: Seq<Seq<u8>>,
)
    requires
        after.is_directory(to),
        forall|i: int| 0 <= i < paths.len() ==> file_name(#[trigger] paths[i]) is Some,
        forall|i: int|
            0 <= i < paths.len() ==> !spot(#[trigger] paths[i]).is_prefix_of(archive),
        forall|p: Place| p != archive ==> #[trigger] disk.at(p) == begun.at(p),
        ({
            let items = packed(begun, paths);
            &&& forall|i: int|
                0 <= i < items.len() ==> same_disk(
                    after.below(to.push((#[trigger] items[i]).name)),
                    items[i].tree,
                )
            &&& forall|p: Place|
                to.is_prefix_of(p) && p != to && #[trigger] after.at(p) is Some ==> is_in_one_of(
                    p,
                    to,
                    items,
                )
        }),
    ensures
        holds_just(after, to, paths, disk),
{
    let items = packed(begun, paths);
    assert forall|i: int| 0 <= i < paths.len() implies file_name(#[trigger] paths[i]) is Some
        && same_disk(
        after.below(to.push(file_name(paths[i])->0)),
        disk.below(spot(paths[i])),
    ) by {
        let item = items[i];
        lemma_packed_as_it_was(disk, begun, spot(paths[i]), archive);
        lemma_same_disk(
            after.below(to.push(item.name)),
            item.tree,
            disk.below(spot(paths[i])),
        );
    }
    assert forall|p: Place|
        to.is_prefix_of(p) && p != to && #[trigger] after.at(p) is Some implies exists|i: int|
            0 <= i < paths.len() && to.push(file_name(#[trigger] paths[i])->0).is_prefix_of(p) by {
        let i = choose|i: int|
            0 <= i < items.len() && to.push((#[trigger] items[i]).name).is_prefix_of(p);
        assert(items[i].name == file_name(paths[i])->0);
    }
}

/// What is packed of a source that does not hold the archive is what is there once the archive was
/// made.
pub proof fn lemma_packed_as_it_was(disk: Disk, begun: Disk, source: Place, archive: Place)
    requires
        forall|p: Place| p != archive ==> #[trigger] disk.at(p) == begun.at(p),
        !source.is_prefix_of(archive),
    ensures
        same_disk(begun.below(source), disk.below(source)),
{
    assert forall|p: Place| #[trigger] begun.below(source).at(p) == disk.below(source).at(p) by {
        let q = source + p;
        assert(source.is_prefix_of(q)) by {
            assert(q.subrange(0, source.len() as int) =~= source);
        }
        assert(q != archive);
    }
}

} // verus!
