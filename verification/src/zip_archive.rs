//! What packing and unpacking zip archives come to on a disk.
//!
//! How an archive is written is not described: laws are about formats that give back what is put
//! into them.

use vstd::prelude::*;
use vstd::utf8::encode_utf8;
use crate::disk::{
    Disk, Node, Place, Progress, all_taken, file_put, file_written, lemma_above_is_directory,
    way_made,
};
use crate::disk_path::{asks_for_directory, found, is_walkable, lemma_walked_on, spot};
use crate::file_plan::{FsStepValue, unzip_entry, zip_tree_item};
use crate::host_path::{
    DOT, components, joined, law_relative_undoes_join, path_of, relative_to,
};
use crate::text::utf8_lossy;
use crate::written_place::{
    is_entry_name, is_made_of_names, lemma_written, lemma_written_below, lemma_written_child,
};

verus! {

/// One entry of a zip archive: its name, and what is in it, unless it is a directory.
pub struct ZipEntry {
    pub name: Seq<char>,
    pub content: Option<Seq<u8>>,
}

/// How archives are made out of entries and entries out of archives, and in which order the
/// entries of directories are read.
pub struct ZipTools {
    pub pack: spec_fn(Seq<ZipEntry>) -> Seq<u8>,
    pub unpack: spec_fn(Seq<u8>) -> Option<Seq<ZipEntry>>,
    pub listing: spec_fn(Place) -> Seq<Seq<u8>>,
}

/// An archive that is being written.
pub struct OpenZip {
    pub place: Place,
    pub entries: Seq<ZipEntry>,
}

/// What taking steps has come to: the disk, and the archive that is being written.
pub struct Zipping {
    pub disk: Disk,
    pub open: Option<OpenZip>,
}

/// What adding an entry to the archive that is being written comes to.
pub open spec fn entry_added(before: Zipping, entry: ZipEntry) -> Option<Zipping> {
    match before.open {
        Some(zip) => Some(
            Zipping { open: Some(OpenZip { entries: zip.entries.push(entry), ..zip }), ..before },
        ),
        None => None,
    }
}

/// The steps that add the entries of a directory to an archive, in the order of their names.
pub open spec fn tree_steps(
    disk: Disk,
    base: Seq<u8>,
    prefix: Seq<char>,
    path: Seq<u8>,
    names: Seq<Seq<u8>>,
) -> Seq<FsStepValue>
    decreases names.len(),
{
    if names.len() == 0 {
        Seq::empty()
    } else {
        let entry = joined(path, names.last());
        tree_steps(disk, base, prefix, path, names.drop_last()) + zip_tree_item(
            base,
            prefix,
            entry,
            found(disk, entry) == Some(Node::Directory),
        )
    }
}

/// What unpacking an entry into a directory comes to, where it can be unpacked.
pub open spec fn entry_unpacked(disk: Disk, dest: Seq<u8>, entry: ZipEntry) -> Option<Disk> {
    let (steps, out) = unzip_entry(dest, entry.name, entry.content is None);
    match all_taken(Progress { disk, text: None }, steps) {
        Some(made) => match (out, entry.content) {
            (Some(path), Some(content)) => file_put(made.disk, path, content),
            _ => Some(made.disk),
        },
        None => None,
    }
}

/// What unpacking entries one after the other comes to, where all can be unpacked.
pub open spec fn entries_unpacked(disk: Disk, dest: Seq<u8>, entries: Seq<ZipEntry>) -> Option<
    Disk,
>
    decreases entries.len(),
{
    if entries.len() == 0 {
        Some(disk)
    } else {
        match entries_unpacked(disk, dest, entries.drop_last()) {
            Some(d) => entry_unpacked(d, dest, entries.last()),
            None => None,
        }
    }
}

/// What taking one more step comes to, where it can be taken. Directories are followed down to a
/// given depth. The name of a directory gets a slash at the end.
pub open spec fn zip_taken(
    tools: ZipTools,
    before: Zipping,
    step: FsStepValue,
    depth: nat,
) -> Option<Zipping>
    decreases depth, 0nat, 0nat,
{
    let disk = before.disk;
    match step {
        FsStepValue::CreateDirectories { path } => match way_made(disk, components(path)) {
            Some(d) => Some(Zipping { disk: d, ..before }),
            None => None,
        },
        FsStepValue::BeginZip { path } => match file_put(disk, path, Seq::empty()) {
            Some(d) => Some(
                Zipping {
                    disk: d,
                    open: Some(OpenZip { place: spot(path), entries: Seq::empty() }),
                },
            ),
            None => None,
        },
        FsStepValue::AddZipDirectory { name } => entry_added(
            before,
            ZipEntry { name: name + "/"@, content: None },
        ),
        FsStepValue::AddZipTree { base, path, prefix } => if depth > 0 && found(disk, path)
            == Some(Node::Directory) {
            all_zip_taken(
                tools,
                before,
                tree_steps(disk, base, prefix, path, (tools.listing)(spot(path))),
                (depth - 1) as nat,
            )
        } else {
            None
        },
        FsStepValue::AddZipFile { name, path } => match found(disk, path) {
            Some(Node::File { content }) => entry_added(
                before,
                ZipEntry { name, content: Some(content) },
            ),
            _ => None,
        },
        FsStepValue::FinishZip => match before.open {
            Some(zip) => match file_written(disk, zip.place, (tools.pack)(zip.entries)) {
                Some(d) => Some(Zipping { disk: d, open: None }),
                None => None,
            },
            None => None,
        },
        FsStepValue::UnpackZip { path, to } => match found(disk, path) {
            Some(Node::File { content }) => match (tools.unpack)(content) {
                Some(entries) => match entries_unpacked(disk, to, entries) {
                    Some(d) => Some(Zipping { disk: d, ..before }),
                    None => None,
                },
                None => None,
            },
            _ => None,
        },
        _ => None,
    }
}

/// What taking steps in order comes to, where all can be taken.
pub open spec fn all_zip_taken(
    tools: ZipTools,
    before: Zipping,
    steps: Seq<FsStepValue>,
    depth: nat,
) -> Option<Zipping>
    decreases depth, 1nat, steps.len(),
{
    if steps.len() == 0 {
        Some(before)
    } else {
        match all_zip_taken(tools, before, steps.drop_last(), depth) {
            Some(p) => zip_taken(tools, p, steps.last(), depth),
            None => None,
        }
    }
}

/// Whether the names that are read of directories are those of all that is in them.
pub open spec fn lists_all(tools: ZipTools, disk: Disk) -> bool {
    forall|place: Place, name: Seq<u8>|
        disk.at(place) == Some(Node::Directory) ==> (#[trigger] (tools.listing)(place).contains(
            name,
        ) <==> disk.at(place.push(name)) is Some)
}

/// Whether everything below a place has a path of names that are texts.
pub open spec fn has_texts_for_names(tree: Disk) -> bool {
    forall|p: Place| #[trigger]
        tree.at(p) is Some && 0 < p.len() ==> is_made_of_names(p) && encode_utf8(
            utf8_lossy(path_of(p)),
        ) == path_of(p)
}

/// The entry for something below a directory that goes into an archive.
pub open spec fn entry_for(tree: Disk, prefix: Seq<char>, place: Place) -> ZipEntry {
    let name = prefix + "/"@ + utf8_lossy(path_of(place));
    match tree.at(place) {
        Some(Node::File { content }) => ZipEntry { name, content: Some(content) },
        _ => ZipEntry { name: name + "/"@, content: None },
    }
}

/// Whether an entry is for something below a directory.
pub open spec fn is_entry_for_some(tree: Disk, prefix: Seq<char>, entry: ZipEntry) -> bool {
    exists|p: Place|
        0 < p.len() && #[trigger] tree.at(p) is Some && entry == entry_for(tree, prefix, p)
}

/// Whether a place is below another one, under one of the given names.
pub open spec fn is_below_one_of(p: Place, place: Place, names: Seq<Seq<u8>>) -> bool {
    place.is_prefix_of(p) && place.len() < p.len() && names.contains(p[place.len() as int])
}

/// The path of a place below a base.
pub open spec fn path_below(base: Seq<u8>, place: Place) -> Seq<u8> {
    if place.len() == 0 {
        base
    } else {
        joined(base, path_of(place))
    }
}

/// Steps behind others are taken from what those have come to.
pub proof fn lemma_all_zip_taken_add(
    tools: ZipTools,
    before: Zipping,
    a: Seq<FsStepValue>,
    b: Seq<FsStepValue>,
    depth: nat,
)
    ensures
        all_zip_taken(tools, before, a + b, depth) == match all_zip_taken(
            tools,
            before,
            a,
            depth,
        ) {
            Some(p) => all_zip_taken(tools, p, b, depth),
            None => None,
        },
    decreases b.len(),
{
    if b.len() == 0 {
        assert(a + b =~= a);
    } else {
        lemma_all_zip_taken_add(tools, before, a, b.drop_last(), depth);
        assert((a + b).drop_last() =~= a + b.drop_last());
    }
}

/// Taking one step.
pub proof fn lemma_one_zip_step(tools: ZipTools, before: Zipping, step: FsStepValue, depth: nat)
    ensures
        all_zip_taken(tools, before, seq![step], depth) == zip_taken(tools, before, step, depth),
{
    let none = Seq::<FsStepValue>::empty();
    assert(seq![step].drop_last() =~= none);
    assert(all_zip_taken(tools, before, none, depth) == Some(before));
}

/// Where a place below a base is, and what it is called there.
proof fn lemma_path_below(base: Seq<u8>, place: Place, name: Seq<u8>)
    requires
        0 < base.len(),
        is_made_of_names(place),
        is_entry_name(name),
    ensures
        ({
            let child = place.push(name);
            let path = path_below(base, child);
            &&& is_made_of_names(child)
            &&& joined(path_below(base, place), name) == path
            &&& spot(path) == spot(base) + child
            &&& relative_to(path, base) == Some(path_of(child))
        }),
{
    let child = place.push(name);
    assert forall|i: int| 0 <= i < child.len() implies is_entry_name(#[trigger] child[i]) by {
        if i < place.len() {
            assert(child[i] == place[i]);
        }
    }
    lemma_written_child(base, place, name);
    lemma_written_below(base, child);
    lemma_written(child);
    law_relative_undoes_join(base, path_of(child));
}

/// What is found at a path below a base is what is there, where the base can be walked.
pub proof fn lemma_found_below(disk: Disk, base: Seq<u8>, place: Place)
    requires
        0 < base.len(),
        0 < place.len(),
        is_made_of_names(place),
        is_walkable(disk, base),
    ensures
        is_walkable(disk, joined(base, path_of(place))),
        !asks_for_directory(joined(base, path_of(place))),
        found(disk, joined(base, path_of(place))) == disk.at(spot(base) + place),
{
    reveal(is_walkable);
    let path = joined(base, path_of(place));
    let b = components(base);
    let c = components(path);
    lemma_written_below(base, place);
    lemma_written(place);
    assert(c.take(b.len() as int) =~= b);
    assert forall|k: int| b.len() <= k < c.len() implies #[trigger] c[k] != seq![DOT, DOT] by {
        assert(c[k] == place[k - b.len()]);
        assert(is_entry_name(place[k - b.len()]));
    }
    lemma_walked_on(disk, c, b.len() as int, c.len() as int);
    assert(c.take(c.len() as int) =~= c);
    let w = path_of(place);
    assert(path.last() == w.last());
    if w.len() > 1 {
        assert(path[path.len() - 2] == w[w.len() - 2]);
    }
}

/// Below a place that something is below, the next name on the way is listed.
pub proof fn lemma_next_is_listed(tools: ZipTools, disk: Disk, root: Place, place: Place, p: Place)
    requires
        disk.is_tree(),
        lists_all(tools, disk),
        0 < root.len(),
        place.is_prefix_of(p),
        place.len() < p.len(),
        disk.at(root + p) is Some,
    ensures
        disk.at(root + place) == Some(Node::Directory),
        (tools.listing)(root + place).contains(p[place.len() as int]),
{
    let next = p[place.len() as int];
    let whole = root + p;
    let above = root + place;
    let step = above.push(next);
    assert(above.is_prefix_of(whole)) by {
        assert(whole.subrange(0, above.len() as int) =~= root + p.subrange(0, place.len() as int));
    }
    lemma_above_is_directory(disk, above, whole);
    assert(step.is_prefix_of(whole)) by {
        assert(whole.subrange(0, step.len() as int) =~= step) by {
            assert(whole.subrange(0, above.len() as int) =~= above);
        }
    }
    lemma_above_is_directory(disk, step, whole);
    assert((tools.listing)(above).contains(next) <==> disk.at(above.push(next)) is Some);
}

/// Whether entries were added to the archive that is being written, and nothing else changed.
pub open spec fn is_with_entries(
    after: Option<Zipping>,
    before: Zipping,
    added: Seq<ZipEntry>,
) -> bool {
    after == Some(
        Zipping {
            open: Some(OpenZip { entries: before.open->0.entries + added, ..before.open->0 }),
            ..before
        },
    )
}

/// Whether each of some entries is for something below a directory.
pub open spec fn are_entries_for_some(
    tree: Disk,
    prefix: Seq<char>,
    entries: Seq<ZipEntry>,
) -> bool {
    forall|k: int|
        0 <= k < entries.len() ==> is_entry_for_some(tree, prefix, #[trigger] entries[k])
}

/// Whether what is zipped is in order: a directory whose entries are all read, with names that
/// are texts.
#[verifier::opaque]
pub open spec fn can_be_zipped(tools: ZipTools, disk: Disk, base: Seq<u8>) -> bool {
    &&& disk.is_tree()
    &&& 0 < base.len()
    &&& found(disk, base) is Some
    &&& lists_all(tools, disk)
    &&& has_texts_for_names(disk.below(spot(base)))
}

/// What adding something below a directory comes to: an entry for it and for everything below it,
/// and no other.
#[verifier::rlimit(40)]
proof fn lemma_item_zipped(
    tools: ZipTools,
    before: Zipping,
    base: Seq<u8>,
    prefix: Seq<char>,
    place: Place,
    name: Seq<u8>,
    depth: nat,
) -> (added: Seq<ZipEntry>)
    requires
        before.open is Some,
        can_be_zipped(tools, before.disk, base),
        is_made_of_names(place),
        before.disk.at(spot(base) + place.push(name)) is Some,
        ({
            let file = joined(path_below(base, place), name);
            all_zip_taken(
                tools,
                before,
                zip_tree_item(
                    base,
                    prefix,
                    file,
                    found(before.disk, file) == Some(Node::Directory),
                ),
                depth,
            ) is Some
        }),
    ensures
        ({
            let file = joined(path_below(base, place), name);
            is_with_entries(
                all_zip_taken(
                    tools,
                    before,
                    zip_tree_item(
                        base,
                        prefix,
                        file,
                        found(before.disk, file) == Some(Node::Directory),
                    ),
                    depth,
                ),
                before,
                added,
            )
        }),
        ({
            let tree = before.disk.below(spot(base));
            &&& are_entries_for_some(tree, prefix, added)
            &&& forall|p: Place| #[trigger]
                tree.at(p) is Some && place.push(name).is_prefix_of(p) ==> added.contains(
                    entry_for(tree, prefix, p),
                )
        }),
    decreases depth, 0nat,
{
    reveal(can_be_zipped);
    let disk = before.disk;
    let root = spot(base);
    let tree = disk.below(root);
    let child = place.push(name);
    assert(tree.at(child) is Some);
    assert(0 < root.len());
    assert(is_made_of_names(child));
    assert(child[place.len() as int] == name);
    lemma_path_below(base, place, name);
    let file = path_below(base, child);
    lemma_found_below(disk, base, child);
    let entry = entry_for(tree, prefix, child);
    let title = prefix + "/"@ + utf8_lossy(path_of(child));
    let is_directory = disk.at(root + child) == Some(Node::Directory);
    let item = zip_tree_item(base, prefix, file, is_directory);
    let behind = if is_directory {
        let named = FsStepValue::AddZipDirectory { name: title };
        let inner = FsStepValue::AddZipTree { base, path: file, prefix };
        assert(item =~= seq![named] + seq![inner]);
        lemma_all_zip_taken_add(tools, before, seq![named], seq![inner], depth);
        lemma_one_zip_step(tools, before, named, depth);
        let entered = zip_taken(tools, before, named, depth)->0;
        lemma_one_zip_step(tools, entered, inner, depth);
        let listed = (tools.listing)(root + child);
        assert forall|i: int| 0 <= i < listed.len() implies disk.at(
            root + child.push(#[trigger] listed[i]),
        ) is Some by {
            assert(listed.contains(listed[i]));
            assert((root + child).push(listed[i]) =~= root + child.push(listed[i]));
        }
        lemma_tree_zipped(tools, entered, base, prefix, child, listed, (depth - 1) as nat)
    } else {
        let named = FsStepValue::AddZipFile { name: title, path: file };
        assert(item =~= seq![named]);
        lemma_one_zip_step(tools, before, named, depth);
        Seq::<ZipEntry>::empty()
    };
    let added = seq![entry] + behind;
    assert(before.open->0.entries + added =~= before.open->0.entries.push(entry) + behind);
    assert forall|k: int| 0 <= k < added.len() implies is_entry_for_some(
        tree,
        prefix,
        #[trigger] added[k],
    ) by {
        if k > 0 {
            assert(added[k] == behind[k - 1]);
        }
    }
    assert forall|p: Place| #[trigger]
        tree.at(p) is Some && child.is_prefix_of(p) implies added.contains(
        entry_for(tree, prefix, p),
    ) by {
        let sought = entry_for(tree, prefix, p);
        if p.len() == child.len() {
            assert(p.subrange(0, child.len() as int) =~= p);
            assert(added[0] == sought);
        } else {
            lemma_next_is_listed(tools, disk, root, child, p);
            assert(is_below_one_of(p, child, (tools.listing)(root + child)));
            let k = choose|k: int| 0 <= k < behind.len() && behind[k] == sought;
            assert(added[1 + k] == sought);
        }
    }
    added
}

/// What following a directory comes to: an entry for everything below it under the given names,
/// and no other.
pub proof fn lemma_tree_zipped(
    tools: ZipTools,
    before: Zipping,
    base: Seq<u8>,
    prefix: Seq<char>,
    place: Place,
    names: Seq<Seq<u8>>,
    depth: nat,
) -> (added: Seq<ZipEntry>)
    requires
        before.open is Some,
        can_be_zipped(tools, before.disk, base),
        is_made_of_names(place),
        forall|i: int|
            0 <= i < names.len() ==> before.disk.at(
                spot(base) + place.push(#[trigger] names[i]),
            ) is Some,
        all_zip_taken(
            tools,
            before,
            tree_steps(before.disk, base, prefix, path_below(base, place), names),
            depth,
        ) is Some,
    ensures
        is_with_entries(
            all_zip_taken(
                tools,
                before,
                tree_steps(before.disk, base, prefix, path_below(base, place), names),
                depth,
            ),
            before,
            added,
        ),
        ({
            let tree = before.disk.below(spot(base));
            &&& are_entries_for_some(tree, prefix, added)
            &&& forall|p: Place| #[trigger]
                tree.at(p) is Some && is_below_one_of(p, place, names) ==> added.contains(
                    entry_for(tree, prefix, p),
                )
        }),
    decreases depth, names.len() + 1,
{
    let disk = before.disk;
    let tree = disk.below(spot(base));
    let path = path_below(base, place);
    let entries = before.open->0.entries;
    if names.len() == 0 {
        let added = Seq::<ZipEntry>::empty();
        assert(entries + added =~= entries);
        added
    } else {
        let front = names.drop_last();
        let name = names.last();
        assert(names[names.len() - 1] == name);
        let first_steps = tree_steps(disk, base, prefix, path, front);
        let file = joined(path, name);
        let item = zip_tree_item(
            base,
            prefix,
            file,
            found(disk, file) == Some(Node::Directory),
        );
        lemma_all_zip_taken_add(tools, before, first_steps, item, depth);
        assert forall|i: int| 0 <= i < front.len() implies disk.at(
            spot(base) + place.push(#[trigger] front[i]),
        ) is Some by {
            assert(front[i] == names[i]);
        }
        let first = lemma_tree_zipped(tools, before, base, prefix, place, front, depth);
        let middle = all_zip_taken(tools, before, first_steps, depth)->0;
        let second = lemma_item_zipped(tools, middle, base, prefix, place, name, depth);
        let added = first + second;
        assert(entries + added =~= (entries + first) + second);
        assert forall|k: int| 0 <= k < added.len() implies is_entry_for_some(
            tree,
            prefix,
            #[trigger] added[k],
        ) by {
            if k < first.len() {
                assert(added[k] == first[k]);
            } else {
                assert(added[k] == second[k - first.len()]);
            }
        }
        assert forall|p: Place| #[trigger]
            tree.at(p) is Some && is_below_one_of(p, place, names) implies added.contains(
            entry_for(tree, prefix, p),
        ) by {
            let sought = entry_for(tree, prefix, p);
            let next = p[place.len() as int];
            let i = choose|i: int| 0 <= i < names.len() && names[i] == next;
            if i < front.len() {
                assert(front[i] == next);
                assert(is_below_one_of(p, place, front));
                let k = choose|k: int| 0 <= k < first.len() && first[k] == sought;
                assert(added[k] == sought);
            } else {
                let child = place.push(name);
                assert(p.subrange(0, child.len() as int) =~= child) by {
                    assert(p.subrange(0, place.len() as int) =~= place);
                }
                let k = choose|k: int| 0 <= k < second.len() && second[k] == sought;
                assert(added[first.len() + k] == sought);
            }
        }
        added
    }
}

} // verus!
