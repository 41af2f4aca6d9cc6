//! Packing into a zip archive and unpacking it again.

use vstd::prelude::*;
use vstd::utf8::encode_utf8;
use crate::archive::{
    PackedItem, archive_begun, can_be_made_for, holds_just, is_in_one_of, lemma_in_directory,
    lemma_made_empty, lemma_packed_as_it_was, lemma_verdict_performs, lemma_with_items,
    names_differ, none_holds, own_names_differ, packed, same_but_for_file, same_outside,
    with_items,
};
use crate::disk::{
    Disk, Node, Place, file_written, is_in_order, is_new_on_way, leads_into_volume, lemma_file_put,
    lemma_file_written, lemma_nothing_below, lemma_still_in_order, lemma_verdict, place_of,
    room_made_for, same_disk, way_made,
};
use crate::disk_path::{
    asks_for_directory, found, host_with, lemma_still_walkable, spot, status_on,
};
use crate::file_plan::{
    FsStepValue, OperationValue, PathStatus, operation_paths, parent_made, plan, refusal, zip_item,
    zip_items,
};
use crate::filesystem_direct::{
    FileQueryValue, all_hosts, all_statuses, first_refusal, verdict,
};
use crate::host_path::{SLASH, components, file_name, lemma_file_name, parent, path_of};
use crate::text::utf8_lossy;
use crate::volume_path::{
    lemma_encode_concat, lemma_encode_slash, volume_path, volume_root,
};
use crate::written_place::{is_entry_name, is_made_of_names, lemma_one_name, lemma_written_in};
use crate::zip_archive::{
    OpenZip, ZipEntry, ZipTools, Zipping, all_zip_taken, can_be_zipped, entries_unpacked,
    entry_for, has_texts_for_names, is_below_one_of, is_with_entries, lemma_all_zip_taken_add,
    lemma_next_is_listed, lemma_one_zip_step, lemma_tree_zipped, lists_all, path_below, zip_taken,
};
use crate::zip_unpacking::{holds_part, lemma_entries_unpacked, stands_for, stands_for_some};

verus! {

/// A disk with nothing on it.
pub open spec fn empty_disk() -> Disk {
    Disk { nodes: |p: Place| None }
}

/// What is at paths of a disk, each under its own name, as a disk of its own.
pub open spec fn tree_of(disk: Disk, paths: Seq<Seq<u8>>) -> Disk {
    with_items(empty_disk(), Seq::empty(), packed(disk, paths))
}

/// Whether paths can be put together under their own names: something is at each of them, and
/// the names differ.
#[verifier::opaque]
pub open spec fn can_be_put_together(disk: Disk, paths: Seq<Seq<u8>>) -> bool {
    &&& disk.is_tree()
    &&& names_differ(packed(disk, paths))
    &&& forall|i: int| 0 <= i < paths.len() ==> disk.at(spot(#[trigger] paths[i])) is Some
}

/// A tree that was put together holds, under each of the names, what is at the path.
proof fn lemma_at_in_tree(disk: Disk, paths: Seq<Seq<u8>>, i: int, place: Place)
    requires
        can_be_put_together(disk, paths),
        0 <= i < paths.len(),
    ensures
        tree_of(disk, paths).at(seq![file_name(paths[i])->0] + place) == disk.at(
            spot(paths[i]) + place,
        ),
{
    lemma_tree_of(disk, paths);
    assert(paths[i] == paths[i]);
    assert(disk.at(spot(paths[i]) + place) == disk.at(spot(paths[i]) + place));
}

/// A tree that was put together holds nothing but what is under the names.
proof fn lemma_name_in_tree(disk: Disk, paths: Seq<Seq<u8>>, place: Place) -> (i: int)
    requires
        can_be_put_together(disk, paths),
        tree_of(disk, paths).at(place) is Some,
    ensures
        0 < place.len(),
        0 <= i < paths.len(),
        place[0] == file_name(paths[i])->0,
        disk.at(spot(paths[i]) + place.skip(1)) is Some,
        place == seq![file_name(paths[i])->0] + place.skip(1),
{
    assert(0 < place.len() && exists|i: int|
        0 <= i < paths.len() && place[0] == file_name(#[trigger] paths[i])->0) by {
        lemma_tree_of(disk, paths);
    }
    let i = choose|i: int|
        0 <= i < paths.len() && place[0] == file_name(#[trigger] paths[i])->0;
    let name = file_name(paths[i])->0;
    assert(place =~= seq![name] + place.skip(1));
    lemma_at_in_tree(disk, paths, i, place.skip(1));
    i
}

/// What is where among things that were put together under their own names.
pub proof fn lemma_tree_of(disk: Disk, paths: Seq<Seq<u8>>)
    requires
        can_be_put_together(disk, paths),
    ensures
        tree_of(disk, paths).is_tree(),
        forall|i: int, r: Place|
            0 <= i < paths.len() ==> tree_of(disk, paths).at(
                seq![file_name(#[trigger] paths[i])->0] + r,
            ) == #[trigger] disk.at(spot(paths[i]) + r),
        forall|q: Place| #[trigger]
            tree_of(disk, paths).at(q) is Some ==> 0 < q.len() && exists|i: int|
                0 <= i < paths.len() && q[0] == file_name(#[trigger] paths[i])->0,
{
    reveal(can_be_put_together);
    let items = packed(disk, paths);
    let top = Seq::<Seq<u8>>::empty();
    let tree = tree_of(disk, paths);
    lemma_with_items(empty_disk(), top, items);
    assert forall|i: int, r: Place| 0 <= i < paths.len() implies tree.at(
        seq![file_name(#[trigger] paths[i])->0] + r,
    ) == #[trigger] disk.at(spot(paths[i]) + r) by {
        let name = file_name(paths[i])->0;
        assert(items[i].name == name);
        assert(tree.below(top.push(name)).at(r) == items[i].tree.at(r));
        assert(top.push(name) =~= seq![name]);
    }
    assert forall|q: Place| #[trigger] tree.at(q) is Some implies 0 < q.len() && exists|i: int|
        0 <= i < paths.len() && q[0] == file_name(#[trigger] paths[i])->0 by {
        lemma_found_under_name(tree, items, paths, disk, q);
    }
    assert forall|q: Place| #[trigger] tree.at(q) is Some implies 0 < q.len() && tree.is_directory(
        q.drop_last(),
    ) by {
        let i = choose|i: int|
            0 <= i < paths.len() && q[0] == file_name(#[trigger] paths[i])->0;
        let name = file_name(paths[i])->0;
        let r = q.skip(1);
        let root = spot(paths[i]);
        assert(q =~= seq![name] + r);
        assert(disk.at(root + r) is Some);
        if r.len() > 0 {
            assert((root + r).drop_last() =~= root + r.drop_last());
            assert(q.drop_last() =~= seq![name] + r.drop_last());
            assert(0 < root.len());
            assert(tree.at(seq![name] + r.drop_last()) == disk.at(root + r.drop_last()));
        }
    }
}

/// What is in a tree that was put together is under one of the names.
proof fn lemma_found_under_name(
    tree: Disk,
    items: Seq<PackedItem>,
    paths: Seq<Seq<u8>>,
    disk: Disk,
    q: Place,
)
    requires
        items == packed(disk, paths),
        tree == tree_of(disk, paths),
        tree.at(q) is Some,
        forall|p: Place|
            Seq::<Seq<u8>>::empty().is_prefix_of(p) && p != Seq::<Seq<u8>>::empty()
                && #[trigger] tree.at(p) is Some ==> is_in_one_of(
                p,
                Seq::<Seq<u8>>::empty(),
                items,
            ),
        tree.at(Seq::<Seq<u8>>::empty()) is None,
    ensures
        0 < q.len(),
        exists|i: int| 0 <= i < paths.len() && q[0] == file_name(#[trigger] paths[i])->0,
{
    let top = Seq::<Seq<u8>>::empty();
    if q.len() == 0 {
        assert(q =~= top);
    }
    assert(top.is_prefix_of(q)) by {
        assert(q.subrange(0, 0) =~= top);
    }
    assert(q != top);
    let i = choose|i: int|
        0 <= i < items.len() && top.push((#[trigger] items[i]).name).is_prefix_of(q);
    lemma_in_directory(top, items[i].name, q);
    assert(items[i].name == file_name(paths[i])->0);
}

/// What the entry for something in a source is called.
pub open spec fn title_of(path: Seq<u8>, place: Place) -> Seq<char> {
    let own = utf8_lossy(file_name(path)->0);
    if place.len() == 0 {
        own
    } else {
        own + "/"@ + utf8_lossy(path_of(place))
    }
}

/// The entry for a source or something in it.
pub open spec fn source_entry(disk: Disk, path: Seq<u8>, place: Place) -> ZipEntry {
    match disk.at(spot(path) + place) {
        Some(Node::File { content }) => ZipEntry {
            name: title_of(path, place),
            content: Some(content),
        },
        _ => ZipEntry { name: title_of(path, place) + "/"@, content: None },
    }
}

/// Whether an entry is for a source or something in it.
pub open spec fn is_of_source(entry: ZipEntry, disk: Disk, path: Seq<u8>) -> bool {
    exists|place: Place| #[trigger]
        disk.at(spot(path) + place) is Some && entry == source_entry(disk, path, place)
}

/// Whether a source has a name that is a text.
pub open spec fn has_text_for_name(path: Seq<u8>) -> bool {
    file_name(path) matches Some(name) ==> encode_utf8(utf8_lossy(name)) == name
}

/// What adding a source comes to: an entry for it and for everything in it, and no other.
proof fn lemma_source_zipped(
    tools: ZipTools,
    before: Zipping,
    path: Seq<u8>,
    status: PathStatus,
    depth: nat,
) -> (added: Seq<ZipEntry>)
    requires
        before.open is Some,
        can_be_zipped(tools, before.disk, path),
        all_zip_taken(tools, before, zip_item(path, status), depth) is Some,
    ensures
        file_name(path) is Some,
        is_with_entries(
            all_zip_taken(tools, before, zip_item(path, status), depth),
            before,
            added,
        ),
        forall|k: int|
            0 <= k < added.len() ==> is_of_source(#[trigger] added[k], before.disk, path),
        forall|r: Place| #[trigger]
            before.disk.at(spot(path) + r) is Some ==> added.contains(
                source_entry(before.disk, path, r),
            ),
{
    reveal(can_be_zipped);
    let disk = before.disk;
    let root = spot(path);
    let tree = disk.below(root);
    let top = Seq::<Seq<u8>>::empty();
    let item = zip_item(path, status);
    assert(root + top =~= root);
    if item.len() == 1 {
        assert(item =~= seq![item[0]]);
        lemma_one_zip_step(tools, before, item[0], depth);
    } else {
        assert(item =~= seq![item[0]] + seq![item[1]]);
        lemma_all_zip_taken_add(tools, before, seq![item[0]], seq![item[1]], depth);
        lemma_one_zip_step(tools, before, item[0], depth);
    }
    let own = utf8_lossy(file_name(path)->0);
    let entry = source_entry(disk, path, top);
    let behind = if item.len() == 2 {
        let entered = zip_taken(tools, before, item[0], depth)->0;
        lemma_one_zip_step(tools, entered, item[1], depth);
        let listed = (tools.listing)(root);
        assert forall|i: int| 0 <= i < listed.len() implies disk.at(
            root + top.push(#[trigger] listed[i]),
        ) is Some by {
            assert(listed.contains(listed[i]));
            assert(root.push(listed[i]) =~= root + top.push(listed[i]));
        }
        assert(path_below(path, top) == path);
        lemma_tree_zipped(tools, entered, path, own, top, listed, (depth - 1) as nat)
    } else {
        Seq::<ZipEntry>::empty()
    };
    let added = seq![entry] + behind;
    assert(before.open->0.entries + added =~= before.open->0.entries.push(entry) + behind);
    assert forall|k: int| 0 <= k < added.len() implies is_of_source(
        #[trigger] added[k],
        disk,
        path,
    ) by {
        if k == 0 {
            assert(disk.at(root + top) is Some);
        } else {
            assert(added[k] == behind[k - 1]);
            let p = choose|p: Place|
                0 < p.len() && #[trigger] tree.at(p) is Some && added[k] == entry_for(tree, own, p);
            assert(disk.at(root + p) is Some);
        }
    }
    assert forall|r: Place| #[trigger] disk.at(root + r) is Some implies added.contains(
        source_entry(disk, path, r),
    ) by {
        let sought = source_entry(disk, path, r);
        if r.len() == 0 {
            assert(r =~= top);
            assert(added[0] == sought);
        } else {
            assert(top.is_prefix_of(r)) by {
                assert(r.subrange(0, 0) =~= top);
            }
            lemma_next_is_listed(tools, disk, root, top, r);
            assert(tree.at(r) is Some);
            assert(is_below_one_of(r, top, (tools.listing)(root)));
            let k = choose|k: int| 0 <= k < behind.len() && behind[k] == sought;
            assert(added[1 + k] == sought);
        }
    }
    added
}

/// Entries for what is in sources stand for it in the tree of the sources.
proof fn lemma_source_entry_stands(disk: Disk, paths: Seq<Seq<u8>>, i: int, place: Place)
    requires
        can_be_put_together(disk, paths),
        0 <= i < paths.len(),
        file_name(paths[i]) is Some,
        has_text_for_name(paths[i]),
        has_texts_for_names(disk.below(spot(paths[i]))),
        disk.at(spot(paths[i]) + place) is Some,
    ensures
        stands_for(
            source_entry(disk, paths[i], place),
            tree_of(disk, paths),
            seq![file_name(paths[i])->0] + place,
        ),
{
    let path = paths[i];
    let name = file_name(path)->0;
    let whole = seq![name] + place;
    let own = utf8_lossy(name);
    lemma_at_in_tree(disk, paths, i, place);
    lemma_file_name(path);
    assert(is_entry_name(name));
    assert(disk.below(spot(path)).at(place) is Some);
    assert forall|k: int| 0 <= k < whole.len() implies is_entry_name(#[trigger] whole[k]) by {
        if k > 0 {
            assert(is_made_of_names(place));
            assert(whole[k] == place[k - 1]);
        }
    }
    lemma_encode_slash();
    assert(encode_utf8(title_of(path, place)) == path_of(whole)) by {
        if place.len() == 0 {
            assert(whole =~= seq![name]);
            lemma_one_name(name);
        } else {
            lemma_encode_concat(own + "/"@, utf8_lossy(path_of(place)));
            lemma_encode_concat(own, "/"@);
            lemma_written_in(name, place);
            assert(name.push(SLASH) =~= name + seq![SLASH]);
        }
    }
    lemma_encode_concat(title_of(path, place), "/"@);
    assert(path_of(whole).push(SLASH) =~= path_of(whole) + seq![SLASH]);
}

/// What adding sources comes to: entries that stand for what is in the tree of the sources, each
/// for something, and something for each.
proof fn lemma_sources_zipped(
    tools: ZipTools,
    before: Zipping,
    paths: Seq<Seq<u8>>,
    statuses: Seq<PathStatus>,
    depth: nat,
) -> (added: Seq<ZipEntry>)
    requires
        before.open is Some,
        forall|i: int|
            0 <= i < paths.len() ==> can_be_zipped(tools, before.disk, #[trigger] paths[i]),
        all_zip_taken(tools, before, zip_items(paths, statuses), depth) is Some,
    ensures
        forall|i: int| 0 <= i < paths.len() ==> file_name(#[trigger] paths[i]) is Some,
        is_with_entries(
            all_zip_taken(tools, before, zip_items(paths, statuses), depth),
            before,
            added,
        ),
        forall|k: int|
            0 <= k < added.len() ==> is_of_one_source(#[trigger] added[k], before.disk, paths),
        forall|i: int, r: Place|
            0 <= i < paths.len() && #[trigger] before.disk.at(
                spot(#[trigger] paths[i]) + r,
            ) is Some ==> added.contains(source_entry(before.disk, paths[i], r)),
    decreases paths.len(),
{
    let disk = before.disk;
    let entries = before.open->0.entries;
    if paths.len() == 0 {
        let added = Seq::<ZipEntry>::empty();
        assert(entries + added =~= entries);
        added
    } else {
        let front = paths.drop_last();
        let last = paths.last();
        let status = statuses[paths.len() - 1];
        let item = zip_item(last, status);
        lemma_all_zip_taken_add(tools, before, zip_items(front, statuses), item, depth);
        assert forall|i: int| 0 <= i < front.len() implies can_be_zipped(
            tools,
            disk,
            #[trigger] front[i],
        ) by {
            assert(front[i] == paths[i]);
        }
        let first = lemma_sources_zipped(tools, before, front, statuses, depth);
        let middle = all_zip_taken(tools, before, zip_items(front, statuses), depth)->0;
        assert(paths[paths.len() - 1] == last);
        let second = lemma_source_zipped(tools, middle, last, status, depth);
        let added = first + second;
        assert(entries + added =~= (entries + first) + second);
        assert forall|k: int| 0 <= k < added.len() implies is_of_one_source(
            #[trigger] added[k],
            disk,
            paths,
        ) by {
            if k < first.len() {
                assert(added[k] == first[k]);
                let i = choose|i: int|
                    0 <= i < front.len() && is_of_source(added[k], disk, #[trigger] front[i]);
                assert(paths[i] == front[i]);
            } else {
                assert(added[k] == second[k - first.len()]);
                assert(is_of_source(added[k], disk, paths[paths.len() - 1]));
            }
        }
        assert forall|i: int, r: Place|
            0 <= i < paths.len() && #[trigger] disk.at(
                spot(#[trigger] paths[i]) + r,
            ) is Some implies added.contains(source_entry(disk, paths[i], r)) by {
            let sought = source_entry(disk, paths[i], r);
            if i < front.len() {
                assert(front[i] == paths[i]);
                assert(first.contains(sought));
                let k = choose|k: int| 0 <= k < first.len() && first[k] == sought;
                assert(added[k] == sought);
            } else {
                assert(second.contains(sought));
                let k = choose|k: int| 0 <= k < second.len() && second[k] == sought;
                assert(added[first.len() + k] == sought);
            }
        }
        assert forall|i: int| 0 <= i < paths.len() implies file_name(
            #[trigger] paths[i],
        ) is Some by {
            if i < front.len() {
                assert(front[i] == paths[i]);
            }
        }
        added
    }
}

/// Whether an entry is for one of the sources or something in it.
pub open spec fn is_of_one_source(entry: ZipEntry, disk: Disk, paths: Seq<Seq<u8>>) -> bool {
    exists|i: int| 0 <= i < paths.len() && is_of_source(entry, disk, #[trigger] paths[i])
}

/// The disk after a zip archive was packed or unpacked, where that goes well.
#[verifier::opaque]
pub open spec fn zip_performed(
    tools: ZipTools,
    disk: Disk,
    base: Seq<char>,
    container_id: Seq<char>,
    operation: OperationValue,
    depth: nat,
) -> Option<Disk> {
    match verdict(host_with(disk), base, container_id, operation) {
        FileQueryValue::Perform { steps, .. } => match all_zip_taken(
            tools,
            Zipping { disk, open: None },
            steps,
            depth,
        ) {
            Some(z) => Some(z.disk),
            None => None,
        },
        _ => None,
    }
}

/// An archive that was begun, on its disk.
pub open spec fn zip_begun(disk: Disk, path: Seq<u8>) -> Zipping {
    Zipping {
        disk: archive_begun(disk, path)->0,
        open: Some(OpenZip { place: spot(path), entries: Seq::empty() }),
    }
}

/// The entries that go into an archive.
pub open spec fn entries_made(
    tools: ZipTools,
    disk: Disk,
    hosts: Seq<Seq<u8>>,
    statuses: Seq<PathStatus>,
    depth: nat,
) -> Seq<ZipEntry> {
    all_zip_taken(
        tools,
        zip_begun(disk, hosts[0]),
        zip_items(hosts.skip(1), statuses),
        depth,
    )->0.open->0.entries
}

/// What making the directory for a path comes to.
proof fn lemma_parent_zip_taken(tools: ZipTools, before: Zipping, path: Seq<u8>, depth: nat)
    ensures
        all_zip_taken(tools, before, parent_made(path), depth) == match room_made_for(
            before.disk,
            path,
        ) {
            Some(d) => Some(Zipping { disk: d, ..before }),
            None => None,
        },
{
    let none = Seq::<FsStepValue>::empty();
    assert(all_zip_taken(tools, before, none, depth) == Some(before));
    match parent(path) {
        Some(up) => {
            lemma_one_zip_step(tools, before, FsStepValue::CreateDirectories { path: up }, depth);
        },
        None => {
            assert(parent_made(path) =~= none);
            assert(Zipping { disk: before.disk, ..before } == before);
        },
    }
}

/// What making a zip archive comes to: it is begun, the sources are added to it, and it is
/// written.
proof fn lemma_zip_made(
    tools: ZipTools,
    disk: Disk,
    base: Seq<char>,
    container_id: Seq<char>,
    operation: OperationValue,
    depth: nat,
)
    requires
        operation is CreateZip,
        is_in_order(disk, base, container_id, operation),
        zip_performed(tools, disk, base, container_id, operation, depth) is Some,
    ensures
        ({
            let hosts = all_hosts(base, container_id, operation);
            let statuses = all_statuses(host_with(disk), operation, hosts);
            let paths = hosts.skip(1);
            let begun = archive_begun(disk, hosts[0]);
            let filled = all_zip_taken(
                tools,
                zip_begun(disk, hosts[0]),
                zip_items(paths, statuses),
                depth,
            );
            &&& begun is Some
            &&& begun->0.is_tree()
            &&& found(begun->0, hosts[0]) is Some
            &&& !asks_for_directory(hosts[0])
            &&& !disk.is_directory(spot(hosts[0]))
            &&& filled is Some
            &&& filled->0.open is Some ==> zip_performed(
                tools,
                disk,
                base,
                container_id,
                operation,
                depth,
            ) == file_written(
                filled->0.disk,
                filled->0.open->0.place,
                (tools.pack)(filled->0.open->0.entries),
            )
            &&& forall|i: int| 0 <= i < paths.len() ==> found(disk, #[trigger] paths[i]) is Some
            &&& same_but_for_file(begun->0, disk, hosts[0])
        }),
{
    reveal(zip_performed);
    let hosts = all_hosts(base, container_id, operation);
    let statuses = all_statuses(host_with(disk), operation, hosts);
    let paths = hosts.skip(1);
    let path = hosts[0];
    lemma_verdict_performs(disk, base, container_id, operation);
    let start = Zipping { disk, open: None };
    let begin = FsStepValue::BeginZip { path };
    let finish = FsStepValue::FinishZip;
    let head = parent_made(path) + seq![begin];
    let items = zip_items(paths, statuses);
    assert(plan(operation, hosts, statuses) == head + items + seq![finish]);
    lemma_all_zip_taken_add(tools, start, head + items, seq![finish], depth);
    lemma_all_zip_taken_add(tools, start, head, items, depth);
    lemma_all_zip_taken_add(tools, start, parent_made(path), seq![begin], depth);
    lemma_parent_zip_taken(tools, start, path, depth);
    let room = room_made_for(disk, path)->0;
    lemma_one_zip_step(tools, Zipping { disk: room, open: None }, begin, depth);
    assert(leads_into_volume(volume_root(base, container_id), path));
    lemma_file_put(disk, path, Seq::empty());
    let filled = all_zip_taken(tools, zip_begun(disk, path), items, depth)->0;
    lemma_one_zip_step(tools, filled, finish, depth);
    assert forall|i: int| 0 <= i < paths.len() implies found(disk, #[trigger] paths[i]) is Some by {
        lemma_sources_are_there(disk, base, container_id, operation, i);
    }
}

/// The sources of an archive that is made are there.
proof fn lemma_sources_are_there(
    disk: Disk,
    base: Seq<char>,
    container_id: Seq<char>,
    operation: OperationValue,
    i: int,
)
    requires
        operation is CreateZip,
        is_in_order(disk, base, container_id, operation),
        verdict(host_with(disk), base, container_id, operation) is Perform,
        1 <= i + 1 < all_hosts(base, container_id, operation).len(),
    ensures
        found(disk, all_hosts(base, container_id, operation)[i + 1]) is Some,
{
    let hosts = all_hosts(base, container_id, operation);
    let statuses = all_statuses(host_with(disk), operation, hosts);
    assert(statuses[i] == status_on(disk, hosts[i + 1]));
    assert(first_refusal(operation, statuses, 0) is None);
    lemma_no_refusal(operation, statuses, 0, i);
}

/// Where nothing is a reason to refuse, no single one is.
proof fn lemma_no_refusal(operation: OperationValue, statuses: Seq<PathStatus>, from: int, i: int)
    requires
        0 <= from <= i < statuses.len(),
        first_refusal(operation, statuses, from) is None,
    ensures
        refusal(operation, i, statuses[i]) is None,
    decreases i - from,
{
    if from < i {
        lemma_no_refusal(operation, statuses, from + 1, i);
    }
}

/// What unpacking a zip archive comes to, into a directory that is not there yet: the directory
/// holds what the entries stand for and nothing else.
proof fn lemma_zip_unpacked(
    tools: ZipTools,
    disk: Disk,
    base: Seq<char>,
    container_id: Seq<char>,
    zip: Seq<char>,
    dest: Seq<char>,
    content: Seq<u8>,
    entries: Seq<ZipEntry>,
    tree: Disk,
    depth: nat,
)
    requires
        is_in_order(disk, base, container_id, OperationValue::ExtractZip { zip, dest }),
        found(disk, volume_path(base, container_id, zip)) == Some(Node::File { content }),
        (tools.unpack)(content) == Some(entries),
        tree.is_tree(),
        forall|k: int| 0 <= k < entries.len() ==> stands_for_some(#[trigger] entries[k], tree),
        can_be_made_for(disk, volume_path(base, container_id, dest)),
    ensures
        verdict(
            host_with(disk),
            base,
            container_id,
            OperationValue::ExtractZip { zip, dest },
        ) matches FileQueryValue::Perform { report: Some(said), .. } && said
            == "Zip extracted to: "@ + dest,
        ({
            let to = place_of(base, container_id, dest);
            let after = zip_performed(
                tools,
                disk,
                base,
                container_id,
                OperationValue::ExtractZip { zip, dest },
                depth,
            );
            &&& after is Some
            &&& holds_part(after->0, to, tree)
            &&& same_outside(after->0, disk, volume_path(base, container_id, dest))
            &&& forall|k: int, place: Place|
                0 <= k < entries.len() && #[trigger] stands_for(entries[k], tree, place)
                    ==> after->0.at(to + place) == tree.at(place)
        }),
{
    reveal(zip_performed);
    let operation = OperationValue::ExtractZip { zip, dest };
    let hosts = all_hosts(base, container_id, operation);
    let statuses = all_statuses(host_with(disk), operation, hosts);
    let path = volume_path(base, container_id, zip);
    let target = volume_path(base, container_id, dest);
    let to = spot(target);
    assert(hosts[0] == path && hosts[1] == target);
    assert(statuses[0] == status_on(disk, path));
    lemma_verdict(disk, base, container_id, operation);
    assert(first_refusal(operation, statuses, 1) is None);
    assert(first_refusal(operation, statuses, 0) is None);
    assert(leads_into_volume(volume_root(base, container_id), target));
    assert(0 < to.len());
    lemma_led_by_something(target);
    let make = FsStepValue::CreateDirectories { path: target };
    let unpack = FsStepValue::UnpackZip { path, to: target };
    let start = Zipping { disk, open: None };
    assert(plan(operation, hosts, statuses) =~= seq![make] + seq![unpack]);
    lemma_all_zip_taken_add(tools, start, seq![make], seq![unpack], depth);
    lemma_one_zip_step(tools, start, make, depth);
    let made = way_made(disk, components(target))->0;
    lemma_one_zip_step(tools, Zipping { disk: made, open: None }, unpack, depth);
    lemma_made_empty(disk, path, target);
    assert forall|p: Place| 0 < p.len() implies #[trigger] made.below(to).at(p) is None by {
        let q = to + p;
        assert(to.is_prefix_of(q)) by {
            assert(q.subrange(0, to.len() as int) =~= to);
        }
        assert(q != to);
    }
    lemma_entries_unpacked(made, target, tree, entries);
    let after = entries_unpacked(made, target, entries)->0;
    assert forall|p: Place| !to.is_prefix_of(p) implies #[trigger] after.at(p) == disk.at(p)
        || is_new_on_way(after, disk, components(target), p) by {
        assert(after.at(p) == made.at(p));
        assert(made.at(p) == disk.at(p) || is_new_on_way(made, disk, components(target), p));
    }
}

/// A path that leads to a place is not empty.
proof fn lemma_led_by_something(path: Seq<u8>)
    requires
        0 < spot(path).len(),
    ensures
        0 < path.len(),
{
    reveal(spot);
    if path.len() == 0 {
        assert(components(path).len() == 0);
    }
}

/// Whether some entry stands for each thing in a tree.
pub open spec fn stand_for_all(entries: Seq<ZipEntry>, tree: Disk) -> bool {
    forall|q: Place| #[trigger]
        tree.at(q) is Some ==> exists|k: int|
            0 <= k < entries.len() && #[trigger] stands_for(entries[k], tree, q)
}

/// A directory that holds nothing but a tree, and everything that entries stand for, holds the
/// tree if they stand for all of it.
proof fn lemma_holds_all(after: Disk, to: Place, tree: Disk, entries: Seq<ZipEntry>)
    requires
        holds_part(after, to, tree),
        stand_for_all(entries, tree),
        forall|k: int, place: Place|
            0 <= k < entries.len() && #[trigger] stands_for(entries[k], tree, place) ==> after.at(
                to + place,
            ) == tree.at(place),
    ensures
        forall|q: Place| 0 < q.len() ==> #[trigger] after.below(to).at(q) == tree.at(q),
{
    assert forall|q: Place| 0 < q.len() implies #[trigger] after.below(to).at(q) == tree.at(q) by {
        if tree.at(q) is Some {
            let k = choose|k: int|
                0 <= k < entries.len() && #[trigger] stands_for(entries[k], tree, q);
            assert(after.at(to + q) == tree.at(q));
        }
    }
}

/// A directory that holds the tree of the sources holds just the sources.
proof fn lemma_holds_sources(
    disk: Disk,
    begun: Disk,
    after: Disk,
    to: Place,
    archive: Place,
    paths: Seq<Seq<u8>>,
)
    requires
        can_be_put_together(begun, paths),
        forall|i: int| 0 <= i < paths.len() ==> file_name(#[trigger] paths[i]) is Some,
        none_holds(paths, archive),
        forall|p: Place| p != archive ==> #[trigger] disk.at(p) == begun.at(p),
        after.is_directory(to),
        forall|q: Place|
            0 < q.len() ==> #[trigger] after.below(to).at(q) == tree_of(begun, paths).at(q),
    ensures
        holds_just(after, to, paths, disk),
{
    let tree = tree_of(begun, paths);
    assert forall|i: int| 0 <= i < paths.len() implies file_name(#[trigger] paths[i]) is Some
        && same_disk(
        after.below(to.push(file_name(paths[i])->0)),
        disk.below(spot(paths[i])),
    ) by {
        let name = file_name(paths[i])->0;
        let root = spot(paths[i]);
        lemma_packed_as_it_was(disk, begun, root, archive);
        assert forall|p: Place| #[trigger]
            after.below(to.push(name)).at(p) == disk.below(root).at(p) by {
            let q = seq![name] + p;
            assert(to.push(name) + p =~= to + q);
            assert(begun.below(root).at(p) == disk.below(root).at(p));
            lemma_at_in_tree(begun, paths, i, p);
            assert(after.below(to).at(q) == tree.at(q));
        }
    }
    assert forall|p: Place|
        to.is_prefix_of(p) && p != to && #[trigger] after.at(p) is Some implies exists|i: int|
            0 <= i < paths.len() && to.push(file_name(#[trigger] paths[i])->0).is_prefix_of(p) by {
        let q = p.skip(to.len() as int);
        assert(to + q =~= p) by {
            assert(p.subrange(0, to.len() as int) + q =~= p);
        }
        assert(0 < q.len()) by {
            if q.len() == 0 {
                assert(p.subrange(0, to.len() as int) =~= p);
            }
        }
        assert(after.below(to).at(q) == tree.at(q));
        let i = lemma_name_in_tree(begun, paths, q);
        let there = to.push(file_name(paths[i])->0);
        assert(p.subrange(0, there.len() as int) =~= there) by {
            assert(p.subrange(0, to.len() as int) =~= to);
        }
    }
}

/// The entries that go into an archive stand for what is in the sources, each for something, and
/// something for each.
proof fn lemma_entries_made(
    tools: ZipTools,
    begun: Zipping,
    paths: Seq<Seq<u8>>,
    statuses: Seq<PathStatus>,
    depth: nat,
)
    requires
        begun.open is Some,
        begun.open->0.entries.len() == 0,
        names_differ(packed(begun.disk, paths)),
        forall|i: int|
            0 <= i < paths.len() ==> can_be_zipped(tools, begun.disk, #[trigger] paths[i]),
        forall|i: int| 0 <= i < paths.len() ==> has_text_for_name(#[trigger] paths[i]),
        0 < paths.len(),
        all_zip_taken(tools, begun, zip_items(paths, statuses), depth) is Some,
    ensures
        ({
            let filled = all_zip_taken(tools, begun, zip_items(paths, statuses), depth)->0;
            let entries = filled.open->0.entries;
            let tree = tree_of(begun.disk, paths);
            &&& filled.disk == begun.disk
            &&& filled.open is Some
            &&& filled.open->0.place == begun.open->0.place
            &&& tree.is_tree()
            &&& forall|i: int| 0 <= i < paths.len() ==> file_name(#[trigger] paths[i]) is Some
            &&& forall|k: int|
                0 <= k < entries.len() ==> stands_for_some(#[trigger] entries[k], tree)
            &&& stand_for_all(entries, tree)
        }),
{
    let disk = begun.disk;
    let tree = tree_of(disk, paths);
    let added = lemma_sources_zipped(tools, begun, paths, statuses, depth);
    let filled = all_zip_taken(tools, begun, zip_items(paths, statuses), depth)->0;
    let entries = filled.open->0.entries;
    assert(entries =~= added);
    assert(can_be_put_together(disk, paths)) by {
        reveal(can_be_put_together);
        reveal(can_be_zipped);
        assert(can_be_zipped(tools, disk, paths[0]));
        assert forall|i: int| 0 <= i < paths.len() implies disk.at(
            spot(#[trigger] paths[i]),
        ) is Some by {
            assert(can_be_zipped(tools, disk, paths[i]));
        }
    }
    assert(tree.is_tree()) by {
        lemma_tree_of(disk, paths);
    }
    assert forall|k: int| 0 <= k < entries.len() implies stands_for_some(
        #[trigger] entries[k],
        tree,
    ) by {
        assert(is_of_one_source(added[k], disk, paths));
        let i = choose|i: int|
            0 <= i < paths.len() && is_of_source(entries[k], disk, #[trigger] paths[i]);
        let place = choose|place: Place| #[trigger]
            disk.at(spot(paths[i]) + place) is Some && entries[k] == source_entry(
                disk,
                paths[i],
                place,
            );
        assert(has_texts_for_names(disk.below(spot(paths[i])))) by {
            reveal(can_be_zipped);
            assert(can_be_zipped(tools, disk, paths[i]));
        }
        lemma_source_entry_stands(disk, paths, i, place);
    }
    assert forall|q: Place| #[trigger] tree.at(q) is Some implies exists|k: int|
        0 <= k < entries.len() && #[trigger] stands_for(entries[k], tree, q) by {
        let i = lemma_name_in_tree(disk, paths, q);
        let r = q.skip(1);
        assert(has_texts_for_names(disk.below(spot(paths[i])))) by {
            reveal(can_be_zipped);
            assert(can_be_zipped(tools, disk, paths[i]));
        }
        lemma_source_entry_stands(disk, paths, i, r);
        let sought = source_entry(disk, paths[i], r);
        assert(added.contains(sought));
        let k = choose|k: int| 0 <= k < added.len() && added[k] == sought;
        assert(stands_for(entries[k], tree, q));
    }
}

/// Whether what goes into a zip archive is in order: the entries of all directories are read, and
/// all names are texts.
pub open spec fn sources_can_be_zipped(
    tools: ZipTools,
    begun: Disk,
    paths: Seq<Seq<u8>>,
) -> bool {
    &&& lists_all(tools, begun)
    &&& forall|i: int| 0 <= i < paths.len() ==> has_text_for_name(#[trigger] paths[i])
    &&& forall|i: int|
        0 <= i < paths.len() ==> has_texts_for_names(begun.below(spot(#[trigger] paths[i])))
}

/// Once a zip archive was made, it holds entries that stand for what is in the sources.
proof fn lemma_zip_holds_sources(
    tools: ZipTools,
    disk: Disk,
    base: Seq<char>,
    container_id: Seq<char>,
    operation: OperationValue,
    depth: nat,
)
    requires
        operation is CreateZip,
        is_in_order(disk, base, container_id, operation),
        zip_performed(tools, disk, base, container_id, operation, depth) is Some,
        ({
            let hosts = all_hosts(base, container_id, operation);
            let begun = archive_begun(disk, hosts[0])->0;
            let paths = hosts.skip(1);
            &&& sources_can_be_zipped(tools, begun, paths)
            &&& own_names_differ(paths)
            &&& none_holds(paths, spot(hosts[0]))
        }),
    ensures
        ({
            let hosts = all_hosts(base, container_id, operation);
            let statuses = all_statuses(host_with(disk), operation, hosts);
            let begun = archive_begun(disk, hosts[0])->0;
            let paths = hosts.skip(1);
            let entries = entries_made(tools, disk, hosts, statuses, depth);
            let tree = tree_of(begun, paths);
            &&& zip_performed(tools, disk, base, container_id, operation, depth) == file_written(
                begun,
                spot(hosts[0]),
                (tools.pack)(entries),
            )
            &&& can_be_put_together(begun, paths)
            &&& tree.is_tree()
            &&& forall|i: int| 0 <= i < paths.len() ==> file_name(#[trigger] paths[i]) is Some
            &&& forall|k: int|
                0 <= k < entries.len() ==> stands_for_some(#[trigger] entries[k], tree)
            &&& stand_for_all(entries, tree)
        }),
{
    let hosts = all_hosts(base, container_id, operation);
    let statuses = all_statuses(host_with(disk), operation, hosts);
    let paths = hosts.skip(1);
    let start = zip_begun(disk, hosts[0]);
    let begun = start.disk;
    lemma_zip_made(tools, disk, base, container_id, operation, depth);
    assert(0 < paths.len()) by {
        reveal(zip_performed);
        lemma_verdict_performs(disk, base, container_id, operation);
        if paths.len() == 0 {
            assert(operation_paths(operation).len() == 1);
        }
    }
    assert forall|i: int| 0 <= i < paths.len() implies can_be_zipped(
        tools,
        begun,
        #[trigger] paths[i],
    ) && begun.at(spot(paths[i])) is Some by {
        lemma_source_can_be_zipped(tools, disk, begun, paths[i], hosts[0]);
    }
    assert(names_differ(packed(begun, paths))) by {
        lemma_own_names(tools, start, paths, statuses, depth);
    }
    lemma_entries_made(tools, start, paths, statuses, depth);
    assert(can_be_put_together(begun, paths)) by {
        reveal(can_be_put_together);
    }
}

/// The names under which sources are packed differ.
proof fn lemma_own_names(
    tools: ZipTools,
    begun: Zipping,
    paths: Seq<Seq<u8>>,
    statuses: Seq<PathStatus>,
    depth: nat,
)
    requires
        begun.open is Some,
        own_names_differ(paths),
        forall|i: int|
            0 <= i < paths.len() ==> can_be_zipped(tools, begun.disk, #[trigger] paths[i]),
        all_zip_taken(tools, begun, zip_items(paths, statuses), depth) is Some,
    ensures
        names_differ(packed(begun.disk, paths)),
{
    let items = packed(begun.disk, paths);
    let added = lemma_sources_zipped(tools, begun, paths, statuses, depth);
    assert forall|i: int, j: int| 0 <= i < j < items.len() implies (#[trigger] items[i]).name != (
    #[trigger] items[j]).name by {
        assert(file_name(paths[i]) is Some && file_name(paths[j]) is Some);
    }
}

/// A source that does not hold the archive can be zipped once the archive was begun.
proof fn lemma_source_can_be_zipped(
    tools: ZipTools,
    disk: Disk,
    begun: Disk,
    path: Seq<u8>,
    archive: Seq<u8>,
)
    requires
        disk.is_tree(),
        begun.is_tree(),
        lists_all(tools, begun),
        has_texts_for_names(begun.below(spot(path))),
        found(disk, path) is Some,
        !spot(path).is_prefix_of(spot(archive)),
        !disk.is_directory(spot(archive)),
        same_but_for_file(begun, disk, archive),
    ensures
        can_be_zipped(tools, begun, path),
        begun.at(spot(path)) is Some,
{
    reveal(can_be_zipped);
    let root = spot(path);
    let c = components(archive);
    assert(root != spot(archive)) by {
        if root == spot(archive) {
            assert(spot(archive).subrange(0, root.len() as int) =~= root);
        }
    }
    assert forall|p: Place| #[trigger] disk.at(p) == Some(Node::Directory) implies begun.at(p)
        == Some(Node::Directory) by {
        assert(p == spot(archive) || begun.at(p) == disk.at(p) || is_new_on_way(begun, disk, c, p));
    }
    lemma_still_walkable(disk, begun, path);
    assert(begun.at(root) == disk.at(root) || is_new_on_way(begun, disk, c, root));
    lemma_led_by_something(path);
}

/// A zip archive gives back what was packed: where an archive was made of sources with different
/// names that do not hold it, and is unpacked into a directory that is not there yet, the
/// directory holds each source under its own name, with the same bytes or the same tree, empty
/// directories among it, and nothing else. Everything outside of the directory is as it was, the
/// archive with it, but for directories on the way to it that were missing, and making the archive
/// changed nothing else either. All names are texts, and the format gives back what is put into it.
pub proof fn law_unpacked_zip_holds_sources(
    tools: ZipTools,
    disk: Disk,
    base: Seq<char>,
    container_id: Seq<char>,
    sources: Seq<Seq<char>>,
    zip: Seq<char>,
    dest: Seq<char>,
    depth: nat,
)
    requires
        ({
            let create = OperationValue::CreateZip { sources, zip };
            let extract = OperationValue::ExtractZip { zip, dest };
            let hosts = all_hosts(base, container_id, create);
            let statuses = all_statuses(host_with(disk), create, hosts);
            let begun = archive_begun(disk, hosts[0])->0;
            let made = zip_performed(tools, disk, base, container_id, create, depth);
            let entries = entries_made(tools, disk, hosts, statuses, depth);
            &&& is_in_order(disk, base, container_id, create)
            &&& made is Some
            &&& is_in_order(made->0, base, container_id, extract)
            &&& (tools.unpack)((tools.pack)(entries)) == Some(entries)
            &&& sources_can_be_zipped(tools, begun, hosts.skip(1))
            &&& own_names_differ(hosts.skip(1))
            &&& none_holds(hosts.skip(1), spot(hosts[0]))
            &&& can_be_made_for(made->0, volume_path(base, container_id, dest))
        }),
    ensures
        ({
            let create = OperationValue::CreateZip { sources, zip };
            let extract = OperationValue::ExtractZip { zip, dest };
            let hosts = all_hosts(base, container_id, create);
            let made = zip_performed(tools, disk, base, container_id, create, depth)->0;
            let after = zip_performed(tools, made, base, container_id, extract, depth);
            let to = place_of(base, container_id, dest);
            &&& verdict(host_with(made), base, container_id, extract)
                matches FileQueryValue::Perform { report: Some(said), .. } && said
                == "Zip extracted to: "@ + dest
            &&& after is Some
            &&& holds_just(after->0, to, hosts.skip(1), made)
            &&& same_outside(after->0, made, volume_path(base, container_id, dest))
            &&& after->0.at(spot(hosts[0])) == made.at(spot(hosts[0]))
            &&& same_but_for_file(made, disk, hosts[0])
        }),
{
    let create = OperationValue::CreateZip { sources, zip };
    let extract = OperationValue::ExtractZip { zip, dest };
    let hosts = all_hosts(base, container_id, create);
    let statuses = all_statuses(host_with(disk), create, hosts);
    let paths = hosts.skip(1);
    let begun = archive_begun(disk, hosts[0])->0;
    let entries = entries_made(tools, disk, hosts, statuses, depth);
    let content = (tools.pack)(entries);
    let place = spot(hosts[0]);
    let to = place_of(base, container_id, dest);
    let tree = tree_of(begun, paths);
    let made = zip_performed(tools, disk, base, container_id, create, depth)->0;
    lemma_zip_holds_sources(tools, disk, base, container_id, create, depth);
    lemma_zip_ready(tools, disk, base, container_id, create, depth);
    lemma_zip_unpacked(
        tools,
        made,
        base,
        container_id,
        zip,
        dest,
        content,
        entries,
        tree,
        depth,
    );
    let after = zip_performed(tools, made, base, container_id, extract, depth)->0;
    lemma_holds_all(after, to, tree, entries);
    lemma_holds_sources(made, begun, after, to, place, paths);
    assert(after.at(place) == made.at(place)) by {
        if to.is_prefix_of(place) && to != place {
            lemma_nothing_below(made, to, place);
        }
    }
}

/// Once a zip archive was made, it can be unpacked.
proof fn lemma_zip_ready(
    tools: ZipTools,
    disk: Disk,
    base: Seq<char>,
    container_id: Seq<char>,
    create: OperationValue,
    depth: nat,
)
    requires
        create is CreateZip,
        is_in_order(disk, base, container_id, create),
        ({
            let hosts = all_hosts(base, container_id, create);
            let statuses = all_statuses(host_with(disk), create, hosts);
            let entries = entries_made(tools, disk, hosts, statuses, depth);
            zip_performed(tools, disk, base, container_id, create, depth) == file_written(
                archive_begun(disk, hosts[0])->0,
                spot(hosts[0]),
                (tools.pack)(entries),
            )
        }),
        zip_performed(tools, disk, base, container_id, create, depth) is Some,
    ensures
        ({
            let hosts = all_hosts(base, container_id, create);
            let statuses = all_statuses(host_with(disk), create, hosts);
            let content = (tools.pack)(entries_made(tools, disk, hosts, statuses, depth));
            let made = zip_performed(tools, disk, base, container_id, create, depth)->0;
            &&& hosts[0] == volume_path(base, container_id, create->CreateZip_zip)
            &&& made.is_tree()
            &&& found(made, hosts[0]) == Some(Node::File { content })
            &&& made.at(spot(hosts[0])) == Some(Node::File { content })
            &&& forall|p: Place|
                p != spot(hosts[0]) ==> #[trigger] made.at(p) == archive_begun(
                    disk,
                    hosts[0],
                )->0.at(p)
            &&& same_but_for_file(made, disk, hosts[0])
        }),
{
    let hosts = all_hosts(base, container_id, create);
    let statuses = all_statuses(host_with(disk), create, hosts);
    let content = (tools.pack)(entries_made(tools, disk, hosts, statuses, depth));
    let place = spot(hosts[0]);
    lemma_zip_made(tools, disk, base, container_id, create, depth);
    let begun = archive_begun(disk, hosts[0])->0;
    let made = zip_performed(tools, disk, base, container_id, create, depth)->0;
    lemma_file_written(begun, place, content);
    assert(operation_paths(create)[0] == create->CreateZip_zip);
    lemma_still_walkable(begun, made, hosts[0]);
    assert forall|p: Place| p != place implies #[trigger] made.at(p) == disk.at(p)
        || is_new_on_way(made, disk, components(hosts[0]), p) by {
        assert(begun.at(p) == disk.at(p) || is_new_on_way(
            begun,
            disk,
            components(hosts[0]),
            p,
        ));
    }
}

/// Where there is no archive, unpacking is refused, and no step is taken: not even a directory is
/// made.
pub proof fn law_unpacking_nothing_is_refused(
    disk: Disk,
    base: Seq<char>,
    container_id: Seq<char>,
    archive: Seq<char>,
    dest: Seq<char>,
)
    requires
        is_in_order(disk, base, container_id, OperationValue::ExtractZip { zip: archive, dest }),
        found(disk, volume_path(base, container_id, archive)) is None,
    ensures
        verdict(
            host_with(disk),
            base,
            container_id,
            OperationValue::ExtractZip { zip: archive, dest },
        ) == (FileQueryValue::Refuse { error: "Zip file does not exist"@ }),
        verdict(
            host_with(disk),
            base,
            container_id,
            OperationValue::ExtractArchive { archive, dest },
        ) == (FileQueryValue::Refuse { error: "Archive does not exist"@ }),
{
    let zip = OperationValue::ExtractZip { zip: archive, dest };
    let tar = OperationValue::ExtractArchive { archive, dest };
    let path = volume_path(base, container_id, archive);
    assert(all_hosts(base, container_id, zip)[0] == path);
    assert(all_hosts(base, container_id, tar)[0] == path);
    assert(operation_paths(zip) =~= operation_paths(tar));
    lemma_still_in_order(disk, disk, base, container_id, zip, tar);
    lemma_verdict(disk, base, container_id, zip);
    lemma_verdict(disk, base, container_id, tar);
    let hosts = all_hosts(base, container_id, zip);
    assert(all_statuses(host_with(disk), zip, hosts)[0] == status_on(disk, path));
    assert(all_statuses(host_with(disk), tar, hosts)[0] == status_on(disk, path));
    assert(all_hosts(base, container_id, tar) =~= hosts);
}

} // verus!
