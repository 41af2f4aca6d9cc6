//! What listings say of the entries of a directory, and by which paths they show them.

use vstd::prelude::*;
use crate::file_mode::mode_text;
use crate::listing::{
    DirEntry, FileInfoValue, directory_count, entry_path, file_info, file_infos,
    is_sorted_listing, law_listing_is_complete, shown_path, sort_keys,
};
use crate::mimetype::{head_bytes, mimetype};
use crate::number::octal3;
use crate::order::{is_listing_order, listed_before};
use crate::text::{
    law_leading_copies_go, law_trailing_copies_go, lowercase, utf8_lossy, without_leading,
    without_trailing,
};
use crate::time::rfc3339;
use crate::volume_path::{inside_path, is_mounted, law_mount_point_is_taken_off_once};

verus! {

/// Whether a name begins with a dot.
pub open spec fn begins_with_dot(name: Seq<char>) -> bool {
    name.len() > 0 && name[0] == '.'
}

/// Whether one entry of a listing says what was read of one entry of the directory that was asked
/// for as `path`: its name, its kind and its size as they are, its permissions as letters and as
/// digits, when it was changed, which is now where that is not known, and when it was created,
/// which is when it was changed where that is not known.
pub open spec fn tells_of(info: FileInfoValue, path: Seq<char>, entry: DirEntry) -> bool {
    let changed = if entry.modified is Some {
        entry.modified->0
    } else {
        entry.now
    };
    let made = if entry.created is Some {
        entry.created->0
    } else {
        changed
    };
    &&& info.name == utf8_lossy(entry.name@)
    &&& info.path == entry_path(path, utf8_lossy(entry.name@))
    &&& info.size == entry.size
    &&& info.is_directory == entry.is_directory
    &&& info.is_file == entry.is_file
    &&& info.is_symlink == entry.is_symlink
    &&& info.mode == mode_text(entry.unix_mode, entry.is_directory, entry.is_symlink)
    &&& info.mode_bits == octal3(entry.unix_mode)
    &&& info.modified_at == rfc3339(changed.secs, changed.nanos)
    &&& info.modified == Some(info.modified_at)
    &&& info.created_at == rfc3339(made.secs, made.nanos)
    &&& info.mimetype == mimetype(
        head_bytes(entry.head),
        utf8_lossy(entry.name@),
        entry.is_directory,
        entry.is_symlink,
        entry.is_file,
    )
}

/// An entry is left out exactly if its name begins with a dot.
proof fn lemma_hidden(entry: DirEntry)
    ensures
        entry.hidden() <==> begins_with_dot(utf8_lossy(entry.name@)),
{
    reveal_strlit(".");
    let name = utf8_lossy(entry.name@);
    if name.len() > 0 {
        assert(name.subrange(0, 1)[0] == name[0]);
        if name[0] == '.' {
            assert(name.subrange(0, 1) =~= "."@);
        }
    }
}

/// Whether one of the files of a listing says what was read of an entry.
pub open spec fn is_told(files: Seq<FileInfoValue>, path: Seq<char>, entry: DirEntry) -> bool {
    exists|k: int| 0 <= k < files.len() && tells_of(#[trigger] files[k], path, entry)
}

/// Whether a file of a listing says what was read of one of the entries that are not left out.
pub open spec fn is_of_entry(info: FileInfoValue, path: Seq<char>, entries: Seq<DirEntry>) -> bool {
    exists|i: int|
        0 <= i < entries.len() && !begins_with_dot(utf8_lossy((#[trigger] entries[i]).name@))
            && tells_of(info, path, entries[i])
}

/// What is said of entries is said of every one that is not left out.
proof fn lemma_entries_are_told(path: Seq<char>, entries: Seq<DirEntry>, i: int)
    requires
        0 <= i < entries.len(),
        !begins_with_dot(utf8_lossy(entries[i].name@)),
    ensures
        file_infos(path, entries).contains(file_info(path, entries[i])),
    decreases entries.len(),
{
    let front = entries.drop_last();
    let n = entries.len() - 1;
    let before = file_infos(path, front);
    let all = file_infos(path, entries);
    let info = file_info(path, entries[i]);
    lemma_hidden(entries[n]);
    if i < n {
        lemma_entries_are_told(path, front, i);
        assert(front[i] == entries[i]);
        let k = choose|k: int| 0 <= k < before.len() && before[k] == info;
        assert(all[k] == info);
    } else {
        assert(all[all.len() - 1] == info);
    }
}

/// Whatever is said is said of an entry that is not left out.
proof fn lemma_told_of_entries(path: Seq<char>, entries: Seq<DirEntry>, k: int)
    requires
        0 <= k < file_infos(path, entries).len(),
    ensures
        is_of_entry(file_infos(path, entries)[k], path, entries),
    decreases entries.len(),
{
    if entries.len() > 0 {
        let front = entries.drop_last();
        let n = entries.len() - 1;
        let before = file_infos(path, front);
        let info = file_infos(path, entries)[k];
        lemma_hidden(entries[n]);
        if k < before.len() {
            lemma_told_of_entries(path, front, k);
            let i = choose|i: int|
                0 <= i < front.len() && !begins_with_dot(utf8_lossy((#[trigger] front[i]).name@))
                    && tells_of(info, path, front[i]);
            assert(entries[i] == front[i]);
        } else {
            assert(info == file_info(path, entries[n]));
            assert(tells_of(info, path, entries[n]));
        }
    }
}

/// As much is said as there are entries that are not left out, and of as many directories as
/// there are among them.
proof fn lemma_told_entries_are_counted(path: Seq<char>, entries: Seq<DirEntry>)
    ensures
        file_infos(path, entries).len() == entries.filter(
            |e: DirEntry| !begins_with_dot(utf8_lossy(e.name@)),
        ).len(),
        directory_count(file_infos(path, entries)) == entries.filter(
            |e: DirEntry| !begins_with_dot(utf8_lossy(e.name@)) && e.is_directory,
        ).len(),
    decreases entries.len(),
{
    reveal(Seq::filter);
    if entries.len() > 0 {
        let front = entries.drop_last();
        let last = entries.last();
        let all = file_infos(path, entries);
        lemma_told_entries_are_counted(path, front);
        lemma_hidden(last);
        if !last.hidden() {
            assert(all.drop_last() =~= file_infos(path, front));
            assert(all.last() == file_info(path, last));
        }
    }
}

/// A listing says of each entry what was read of it: every entry whose name does not begin with
/// a dot is listed with its own size, kind, permissions and times, and nothing else is listed;
/// there are as many as such entries, and the directories among them are counted.
pub proof fn law_listing_tells_of_entries(
    path: Seq<char>,
    entries: Seq<DirEntry>,
    files: Seq<FileInfoValue>,
)
    requires
        is_sorted_listing(files, file_infos(path, entries)),
    ensures
        forall|i: int|
            0 <= i < entries.len() && !begins_with_dot(utf8_lossy(entries[i].name@)) ==> is_told(
                files,
                path,
                #[trigger] entries[i],
            ),
        forall|k: int| 0 <= k < files.len() ==> is_of_entry(#[trigger] files[k], path, entries),
        files.len() == entries.filter(
            |e: DirEntry| !begins_with_dot(utf8_lossy(e.name@)),
        ).len(),
        directory_count(file_infos(path, entries)) == entries.filter(
            |e: DirEntry| !begins_with_dot(utf8_lossy(e.name@)) && e.is_directory,
        ).len(),
{
    let infos = file_infos(path, entries);
    lemma_told_entries_are_counted(path, entries);
    law_listing_is_complete(files, infos);
    assert forall|i: int|
        0 <= i < entries.len() && !begins_with_dot(utf8_lossy(entries[i].name@)) implies is_told(
        files,
        path,
        #[trigger] entries[i],
    ) by {
        let info = file_info(path, entries[i]);
        lemma_entries_are_told(path, entries, i);
        let m = choose|m: int| 0 <= m < infos.len() && infos[m] == info;
        assert(files.contains(infos[m]));
        let k = choose|k: int| 0 <= k < files.len() && files[k] == info;
        assert(tells_of(files[k], path, entries[i]));
    }
    assert forall|k: int| 0 <= k < files.len() implies is_of_entry(
        #[trigger] files[k],
        path,
        entries,
    ) by {
        assert(infos.contains(files[k]));
        let m = choose|m: int| 0 <= m < infos.len() && infos[m] == files[k];
        lemma_told_of_entries(path, entries, m);
    }
}

/// Entries that are called alike, but for the case, stand in the order in which they were read,
/// directories among themselves and the others among themselves.
pub proof fn law_alike_names_keep_their_order(
    infos: Seq<FileInfoValue>,
    order: Seq<usize>,
    a: int,
    b: int,
)
    requires
        is_listing_order(sort_keys(infos), order),
        0 <= a < b < order.len(),
        infos[order[a] as int].is_directory == infos[order[b] as int].is_directory,
        lowercase(infos[order[a] as int].name) == lowercase(infos[order[b] as int].name),
    ensures
        order[a] < order[b],
{
    assert(listed_before(sort_keys(infos), order[a] as int, order[b] as int));
}

/// How a directory is shown: the volume itself as its mount point, however it was asked for, a
/// path below that as it is, and any other path behind it, with or without slashes in front.
/// What is shown is shown as it is when it is asked for.
pub proof fn law_directories_are_shown_by_path(path: Seq<char>)
    ensures
        shown_path(Seq::empty()) == "/home/container"@,
        shown_path("/"@) == "/home/container"@,
        shown_path("/home/container"@) == "/home/container"@,
        shown_path("/home/container/"@ + path) == "/home/container/"@ + path,
        path.len() > 0 && path[0] != '/' ==> shown_path(path) == "/home/container/"@ + path,
        path.len() > 0 && path[0] != '/' && !is_mounted("/"@ + path) ==> shown_path("/"@ + path)
            == "/home/container/"@ + path,
        path.len() > 0 && !is_mounted("/"@ + path) && !is_mounted(path) ==> shown_path("/"@ + path)
            == "/home/container/"@ + without_leading(path, "/"@),
        shown_path(shown_path(path)) == shown_path(path),
{
    reveal_strlit("/");
    reveal_strlit("/home/container");
    reveal_strlit("/home/container/");
    let inner = "/home/container/"@;
    let below = inner + path;
    law_leading_copies_go(path, "/"@);
    assert(("/"@ + path).len() == path.len() + 1);
    assert(below.subrange(0, inner.len() as int) =~= inner);
    assert(below != "/"@) by {
        assert(below.len() > 1);
    }
    let bare = without_leading(path, "/"@);
    let shown = inner + bare;
    assert(shown.subrange(0, inner.len() as int) =~= inner);
    assert(shown.len() > 1);
    if path.len() > 0 && path[0] != '/' {
        if "/"@.is_prefix_of(path) {
            assert(path.subrange(0, 1)[0] == '/');
        }
        if is_mounted(path) {
            if inner.is_prefix_of(path) {
                assert(path.subrange(0, inner.len() as int)[0] == path[0]);
            }
        }
    }
}

/// An entry can be listed if dates can be given for when it was changed and when it was created,
/// or if it is left out anyway.
pub proof fn law_entries_need_dates(entry: DirEntry)
    ensures
        entry.dated() <==> begins_with_dot(utf8_lossy(entry.name@)) || {
            let changed = if entry.modified is Some {
                entry.modified->0
            } else {
                entry.now
            };
            &&& changed.valid()
            &&& entry.created is Some ==> entry.created->0.valid()
        },
{
    lemma_hidden(entry);
}

/// The path of an entry is the path of its directory and its name, with one slash between them:
/// of one in the volume itself and of one in a directory below it, whether or not that was asked
/// for with a slash at the end.
pub proof fn law_entries_are_named_in_their_directory(inside: Seq<char>, name: Seq<char>)
    requires
        inside.len() > 0,
        inside[0] != '/',
        inside.last() != '/',
    ensures
        entry_path(Seq::empty(), name) == "/home/container/"@ + name,
        entry_path("/"@, name) == "/home/container/"@ + name,
        entry_path("/home/container"@, name) == "/home/container/"@ + name,
        entry_path("/home/container/"@ + inside, name) == "/home/container/"@ + inside + "/"@
            + name,
        entry_path("/home/container/"@ + inside + "/"@, name) == "/home/container/"@ + inside
            + "/"@ + name,
        entry_path(inside, name) == "/home/container/"@ + inside + "/"@ + name,
        !is_mounted("/"@ + inside) ==> entry_path("/"@ + inside, name) == "/home/container/"@
            + inside + "/"@ + name,
{
    reveal_strlit("/");
    reveal_strlit("/home/container");
    reveal_strlit("/home/container/");
    let none = Seq::<char>::empty();
    assert(without_leading(none, "/"@) == none);
    assert(without_trailing(none, "/"@) == none);
    law_leading_copies_go(none, "/"@);
    law_leading_copies_go(inside, "/"@);
    law_leading_copies_go(inside + "/"@, "/"@);
    law_trailing_copies_go(inside, "/"@);
    assert(!"/"@.is_prefix_of(inside)) by {
        assert(inside.subrange(0, 1)[0] == inside[0]);
    }
    assert(!"/"@.is_prefix_of(inside + "/"@)) by {
        assert((inside + "/"@).subrange(0, 1)[0] == inside[0]);
    }
    assert(!"/"@.is_suffix_of(inside)) by {
        assert(inside.subrange(inside.len() - 1, inside.len() as int)[0] == inside.last());
    }
    assert("/"@ + none =~= "/"@);
    assert(!is_mounted(inside)) by {
        if "/home/container/"@.is_prefix_of(inside) {
            assert(inside.subrange(0, 16)[0] == inside[0]);
        }
    }
    assert(inside_path("/"@) == none) by {
        assert(!is_mounted("/"@));
    }
    assert(inside_path(none) == none);
    assert(inside_path("/home/container"@) == none) by {
        assert("/home/container"@.skip(15) =~= none);
    }
    law_mount_point_is_taken_off_once(inside);
    law_mount_point_is_taken_off_once(inside + "/"@);
    assert("/home/container/"@ + inside + "/"@ =~= "/home/container/"@ + (inside + "/"@));
}

} // verus!
