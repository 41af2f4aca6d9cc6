//! Listings of the directories of a container.

use vstd::prelude::*;
use vstd::utf8::encode_utf8;
use crate::file_mode::{mode_text, mode_to_string};
use crate::host_path::{
    SLASH, components, joined, law_joined_components, law_trailing_slash_does_not_count,
};
use crate::mimetype::{detect_mimetype, head_bytes, mimetype};
use crate::models::copy_text;
use crate::number::{octal3, octal3_text};
use crate::order::{
    SortKey, SortKeyValue, is_listing_order, key_values, law_listing_order_is_unique,
    listed_before, listing_order, names_entry, text_before,
};
use crate::text::{
    chars_of, concat2, concat3, from_utf8_lossy, lowercase, same_text, starts_with, to_lowercase,
    trim_leading, trim_trailing, utf8_lossy, without_leading, without_trailing,
};
use crate::time::{Timestamp, rfc3339, system_time_to_rfc3339_utc};
use crate::volume_path::{
    inside_path, is_mounted, law_mount_point_is_taken_off_once, lemma_encode_concat,
    lemma_encode_slash, lemma_first_byte, lemma_inside_path, lemma_last_byte,
    lemma_without_leading, make_inside_path, volume_path, volume_root,
};

verus! {

/// What was read of one entry of a directory.
#[derive(Debug, PartialEq, Eq)]
pub struct DirEntry {
    /// The name as the file system has it.
    pub name: Vec<u8>,
    pub is_directory: bool,
    pub is_file: bool,
    pub is_symlink: bool,
    pub size: u64,
    pub unix_mode: u32,
    /// When it was last changed, where that is known.
    pub modified: Option<Timestamp>,
    /// When it was created, where that is known.
    pub created: Option<Timestamp>,
    /// The beginning of what is in it, where it is a regular file that could be read: as much as
    /// is looked at to tell text from anything else, and one byte more where it goes on.
    pub head: Option<Vec<u8>>,
    /// When the entry was read.
    pub now: Timestamp,
}

impl DirEntry {
    /// The name as text.
    pub open spec fn text(self) -> Seq<char> {
        utf8_lossy(self.name@)
    }

    /// Whether listings leave the entry out: its name begins with a dot.
    pub open spec fn hidden(self) -> bool {
        "."@.is_prefix_of(self.text())
    }

    /// The time that counts as that of the last change.
    pub open spec fn changed(self) -> Timestamp {
        match self.modified {
            Some(t) => t,
            None => self.now,
        }
    }

    /// The time that counts as that of the creation.
    pub open spec fn made(self) -> Timestamp {
        match self.created {
            Some(t) => t,
            None => self.changed(),
        }
    }

    /// Whether dates can be given for the times that a listing shows.
    pub open spec fn dated(self) -> bool {
        self.hidden() || (self.changed().valid() && self.made().valid())
    }

    /// Whether dates can be given for the times that a listing shows.
    pub fn is_dated(&self) -> (r: bool)
        ensures
            r == self.dated(),
    {
        let name = from_utf8_lossy(self.name.as_slice());
        if starts_with(name.as_str(), ".") {
            return true;
        }
        let changed: Timestamp = match self.modified {
            Some(t) => t,
            None => self.now,
        };
        let made: Timestamp = match self.created {
            Some(t) => t,
            None => changed,
        };
        changed.is_valid() && made.is_valid()
    }
}

/// One entry of a listing.
#[derive(Clone, Debug, PartialEq, Eq)]
pub struct FileInfo {
    pub name: String,
    pub path: String,
    pub is_directory: bool,
    pub size: u64,
    pub modified: Option<String>,
    pub mode: String,
    pub mode_bits: String,
    pub is_file: bool,
    pub is_symlink: bool,
    pub mimetype: String,
    pub created_at: String,
    pub modified_at: String,
}

/// The values of one entry of a listing.
pub struct FileInfoValue {
    pub name: Seq<char>,
    pub path: Seq<char>,
    pub is_directory: bool,
    pub size: u64,
    pub modified: Option<Seq<char>>,
    pub mode: Seq<char>,
    pub mode_bits: Seq<char>,
    pub is_file: bool,
    pub is_symlink: bool,
    pub mimetype: Seq<char>,
    pub created_at: Seq<char>,
    pub modified_at: Seq<char>,
}

impl DeepView for FileInfo {
    type V = FileInfoValue;

    open spec fn deep_view(&self) -> FileInfoValue {
        FileInfoValue {
            name: self.name@,
            path: self.path@,
            is_directory: self.is_directory,
            size: self.size,
            modified: self.modified.deep_view(),
            mode: self.mode@,
            mode_bits: self.mode_bits@,
            is_file: self.is_file,
            is_symlink: self.is_symlink,
            mimetype: self.mimetype@,
            created_at: self.created_at@,
            modified_at: self.modified_at@,
        }
    }
}

impl FileInfo {
    /// A copy of the entry.
    pub fn copy(&self) -> (r: FileInfo)
        ensures
            r == *self,
    {
        FileInfo {
            name: self.name.clone(),
            path: self.path.clone(),
            is_directory: self.is_directory,
            size: self.size,
            modified: copy_text(&self.modified),
            mode: self.mode.clone(),
            mode_bits: self.mode_bits.clone(),
            is_file: self.is_file,
            is_symlink: self.is_symlink,
            mimetype: self.mimetype.clone(),
            created_at: self.created_at.clone(),
            modified_at: self.modified_at.clone(),
        }
    }
}

/// A directory with what is in it.
#[derive(Debug, PartialEq, Eq)]
pub struct DirectoryListing {
    pub path: String,
    pub files: Vec<FileInfo>,
    pub total_files: usize,
    pub total_directories: usize,
}

/// The path in the container of an entry of the directory that was asked for as `path`.
pub open spec fn entry_path(path: Seq<char>, name: Seq<char>) -> Seq<char> {
    let inside = without_trailing(inside_path(path), "/"@);
    if inside.len() == 0 {
        "/home/container/"@ + name
    } else {
        "/home/container/"@ + inside + "/"@ + name
    }
}

/// The path of a directory as a listing shows it: below the mount point of the volume, however
/// it was asked for.
pub open spec fn shown_path(path: Seq<char>) -> Seq<char> {
    if path.len() == 0 || path == "/"@ {
        "/home/container"@
    } else if is_mounted(path) {
        path
    } else {
        "/home/container/"@ + without_leading(path, "/"@)
    }
}

/// What a listing says of an entry of the directory that was asked for as `path`.
pub open spec fn file_info(path: Seq<char>, entry: DirEntry) -> FileInfoValue {
    let changed = rfc3339(entry.changed().secs, entry.changed().nanos);
    FileInfoValue {
        name: entry.text(),
        path: entry_path(path, entry.text()),
        is_directory: entry.is_directory,
        size: entry.size,
        modified: Some(changed),
        mode: mode_text(entry.unix_mode, entry.is_directory, entry.is_symlink),
        mode_bits: octal3(entry.unix_mode),
        is_file: entry.is_file,
        is_symlink: entry.is_symlink,
        mimetype: mimetype(
            head_bytes(entry.head),
            entry.text(),
            entry.is_directory,
            entry.is_symlink,
            entry.is_file,
        ),
        created_at: rfc3339(entry.made().secs, entry.made().nanos),
        modified_at: changed,
    }
}

/// What a listing says of the entries that it does not leave out, in the order in which they
/// were read.
pub open spec fn file_infos(path: Seq<char>, entries: Seq<DirEntry>) -> Seq<FileInfoValue>
    decreases entries.len(),
{
    if entries.len() == 0 {
        Seq::empty()
    } else {
        let front = file_infos(path, entries.drop_last());
        if entries.last().hidden() {
            front
        } else {
            front.push(file_info(path, entries.last()))
        }
    }
}

/// What the places of entries in a listing depend on: directories come first, and case does
/// not count in names.
pub open spec fn sort_keys(infos: Seq<FileInfoValue>) -> Seq<SortKeyValue> {
    Seq::new(
        infos.len(),
        |i: int|
            SortKeyValue { is_directory: infos[i].is_directory, name: lowercase(infos[i].name) },
    )
}

/// The entries in the given order.
pub open spec fn reordered(infos: Seq<FileInfoValue>, order: Seq<usize>) -> Seq<FileInfoValue> {
    Seq::new(order.len(), |i: int| infos[order[i] as int])
}

/// Whether `files` are the entries `infos` in listing order.
pub open spec fn is_sorted_listing(
    files: Seq<FileInfoValue>,
    infos: Seq<FileInfoValue>,
) -> bool {
    exists|order: Seq<usize>|
        is_listing_order(sort_keys(infos), order) && files == #[trigger] reordered(infos, order)
}

/// How many of the entries are directories.
pub open spec fn directory_count(infos: Seq<FileInfoValue>) -> nat
    decreases infos.len(),
{
    if infos.len() == 0 {
        0
    } else {
        directory_count(infos.drop_last()) + if infos.last().is_directory {
            1nat
        } else {
            0nat
        }
    }
}

/// A listing is determined by what was read: there is only one way to sort it.
pub proof fn law_listing_is_unique(
    first: Seq<FileInfoValue>,
    second: Seq<FileInfoValue>,
    infos: Seq<FileInfoValue>,
)
    requires
        is_sorted_listing(first, infos),
        is_sorted_listing(second, infos),
    ensures
        first == second,
{
    let a = choose|order: Seq<usize>|
        is_listing_order(sort_keys(infos), order) && first == #[trigger] reordered(infos, order);
    let b = choose|order: Seq<usize>|
        is_listing_order(sort_keys(infos), order) && second == #[trigger] reordered(infos, order);
    law_listing_order_is_unique(sort_keys(infos), a, b);
}

/// All directories of a listing come before all that are none.
pub proof fn law_directories_come_first(
    files: Seq<FileInfoValue>,
    infos: Seq<FileInfoValue>,
    i: int,
    j: int,
)
    requires
        is_sorted_listing(files, infos),
        0 <= i < files.len(),
        0 <= j < files.len(),
        files[i].is_directory,
        !files[j].is_directory,
    ensures
        i < j,
{
    let order = choose|order: Seq<usize>|
        is_listing_order(sort_keys(infos), order) && files == #[trigger] reordered(infos, order);
    if j < i {
        assert(listed_before(
            sort_keys(infos),
            order[j] as int,
            order[i] as int,
        ));
    }
}

/// Within the directories, and within the rest, the names of a listing ascend without regard to
/// case.
pub proof fn law_names_ascend(
    files: Seq<FileInfoValue>,
    infos: Seq<FileInfoValue>,
    i: int,
    j: int,
)
    requires
        is_sorted_listing(files, infos),
        0 <= i < j < files.len(),
        files[i].is_directory == files[j].is_directory,
    ensures
        lowercase(files[i].name) == lowercase(files[j].name) || text_before(
            lowercase(files[i].name),
            lowercase(files[j].name),
        ),
{
    let order = choose|order: Seq<usize>|
        is_listing_order(sort_keys(infos), order) && files == #[trigger] reordered(infos, order);
    assert(listed_before(sort_keys(infos), order[i] as int, order[j] as int));
}

/// Whatever directory is asked for, and however, it and its entries are shown below the mount
/// point of the volume, and what is shown for it stands for the same directory on the host.
pub proof fn law_shown_below_mount_point(
    base: Seq<char>,
    container_id: Seq<char>,
    path: Seq<char>,
    name: Seq<char>,
)
    ensures
        is_mounted(shown_path(path)),
        "/home/container/"@.is_prefix_of(entry_path(path, name)),
        volume_path(base, container_id, shown_path(path)) == volume_path(
            base,
            container_id,
            path,
        ),
{
    let inner = "/home/container/"@;
    reveal_strlit("/home/container/");
    reveal_strlit("/home/container");
    reveal_strlit("/");
    let entry = entry_path(path, name);
    assert(entry.subrange(0, inner.len() as int) =~= inner);
    let bare = without_leading(path, "/"@);
    law_mount_point_is_taken_off_once(bare);
    if path.len() == 0 || path == "/"@ {
        if path == "/"@ {
            assert(!is_mounted(path));
            assert("/"@.skip(1) =~= Seq::<char>::empty());
            assert("/"@.subrange(0, 1) =~= "/"@);
            assert(without_leading(Seq::<char>::empty(), "/"@) =~= Seq::<char>::empty());
            assert(inside_path(path) =~= Seq::<char>::empty());
        } else {
            assert(inside_path(path) =~= Seq::<char>::empty());
        }
    } else if !is_mounted(path) {
        let shown = inner + bare;
        assert(shown.subrange(0, inner.len() as int) =~= inner);
        lemma_without_leading(path, "/"@);
        assert(without_leading(bare, "/"@) == bare);
    }
}

/// A listing holds every entry that is not left out, and nothing else: as many as were found,
/// and each of them.
pub proof fn law_listing_is_complete(files: Seq<FileInfoValue>, infos: Seq<FileInfoValue>)
    requires
        is_sorted_listing(files, infos),
    ensures
        files.len() == infos.len(),
        forall|i: int| 0 <= i < infos.len() ==> files.contains(#[trigger] infos[i]),
        forall|i: int| 0 <= i < files.len() ==> infos.contains(#[trigger] files[i]),
{
    let order = choose|order: Seq<usize>|
        is_listing_order(sort_keys(infos), order) && files == #[trigger] reordered(infos, order);
    assert forall|i: int| 0 <= i < infos.len() implies files.contains(#[trigger] infos[i]) by {
        assert(names_entry(order, i));
        let a = choose|a: int| 0 <= a < order.len() && (#[trigger] order[a]) == i;
        assert(files[a] == infos[i]);
    }
    assert forall|i: int| 0 <= i < files.len() implies infos.contains(#[trigger] files[i]) by {
        assert(order[i] < sort_keys(infos).len());
        assert(files[i] == infos[order[i] as int]);
    }
}

/// A text that ends with one slash is the text without it, and the slash.
proof fn lemma_one_slash(text: Seq<char>)
    requires
        text.len() > 0,
        text.last() == '/',
    ensures
        text == text.drop_last() + "/"@,
        without_trailing(text, "/"@) == without_trailing(text.drop_last(), "/"@),
        encode_utf8(text) == encode_utf8(text.drop_last()).push(SLASH),
{
    reveal_strlit("/");
    assert(text =~= text.drop_last() + "/"@);
    lemma_encode_concat(text.drop_last(), "/"@);
    lemma_encode_slash();
    assert(encode_utf8(text) =~= encode_utf8(text.drop_last()).push(SLASH));
    assert("/"@.is_suffix_of(text)) by {
        assert(text.subrange(text.len() - 1, text.len() as int) =~= "/"@);
    }
    assert(text.take(text.len() - 1) =~= text.drop_last());
}

/// Slashes at the end of a path below a directory do not count.
proof fn lemma_trailing_slashes(root: Seq<u8>, inside: Seq<char>)
    requires
        inside.len() > 0,
        inside[0] != '/',
    ensures
        ({
            let bare = without_trailing(inside, "/"@);
            &&& 0 < bare.len()
            &&& bare.last() != '/'
            &&& bare[0] == inside[0]
            &&& components(joined(root, encode_utf8(bare))) == components(
                joined(root, encode_utf8(inside)),
            )
        }),
    decreases inside.len(),
{
    reveal_strlit("/");
    if inside.last() == '/' {
        let less = inside.drop_last();
        lemma_one_slash(inside);
        lemma_trailing_slashes(root, less);
        lemma_first_byte(inside);
        lemma_first_byte(less);
        let shorter = joined(root, encode_utf8(less));
        assert(encode_utf8(less).len() > 0);
        assert(joined(root, encode_utf8(inside)) =~= shorter.push(SLASH));
        law_trailing_slash_does_not_count(shorter);
    } else {
        assert(without_trailing(inside, "/"@) == inside) by {
            if "/"@.is_suffix_of(inside) {
                assert(inside.subrange(inside.len() - 1, inside.len() as int)[0] == inside.last());
            }
        }
    }
}

/// What lies below the mount point of the path that a listing gives for an entry.
proof fn lemma_inside_entry_path(path: Seq<char>, name: Seq<char>)
    requires
        0 < name.len(),
        name[0] != '/',
        0 < inside_path(path).len() ==> {
            &&& 0 < without_trailing(inside_path(path), "/"@).len()
            &&& without_trailing(inside_path(path), "/"@)[0] != '/'
        },
    ensures
        inside_path(entry_path(path, name)) == if inside_path(path).len() == 0 {
            name
        } else {
            without_trailing(inside_path(path), "/"@) + "/"@ + name
        },
{
    let inside = inside_path(path);
    let tail = if inside.len() == 0 {
        name
    } else {
        without_trailing(inside, "/"@) + "/"@ + name
    };
    reveal_strlit("/");
    if inside.len() == 0 {
        assert(without_trailing(inside, "/"@) == inside);
    }
    assert(entry_path(path, name) =~= "/home/container/"@ + tail);
    law_mount_point_is_taken_off_once(tail);
    assert(without_leading(tail, "/"@) == tail) by {
        if "/"@.is_prefix_of(tail) {
            assert(tail.subrange(0, 1)[0] == '/');
        }
    }
}

/// A text that ends with one slash at most is the text without slashes at the end, and that
/// slash.
proof fn lemma_at_most_one_slash(text: Seq<char>)
    requires
        0 < text.len(),
        text[0] != '/',
        !"//"@.is_suffix_of(text),
    ensures
        ({
            let bare = without_trailing(text, "/"@);
            text == bare || (text.last() == '/' && bare == text.drop_last())
        }),
{
    reveal_strlit("/");
    reveal_strlit("//");
    let less = if text.last() == '/' {
        lemma_one_slash(text);
        text.drop_last()
    } else {
        text
    };
    assert(less.len() > 0);
    assert(less.last() != '/') by {
        if less.last() == '/' {
            assert(text.subrange(text.len() - 2, text.len() as int) =~= "//"@);
        }
    }
    assert(without_trailing(less, "/"@) == less) by {
        if "/"@.is_suffix_of(less) {
            assert(less.subrange(less.len() - 1, less.len() as int)[0] == less.last());
        }
    }
}

/// The path that a listing gives for an entry leads to the entry: it stands for the name of
/// the entry in the directory on the host. Where the directory was asked for with two slashes
/// or more at the end, the two are not written alike, but they have the same components.
pub proof fn law_entry_path_leads_to_entry(
    base: Seq<char>,
    container_id: Seq<char>,
    path: Seq<char>,
    name: Seq<char>,
)
    requires
        0 < name.len(),
        !name.contains('/'),
    ensures
        components(volume_path(base, container_id, entry_path(path, name))) == components(
            joined(volume_path(base, container_id, path), encode_utf8(name)),
        ),
        !"//"@.is_suffix_of(path) ==> volume_path(base, container_id, entry_path(path, name))
            == joined(volume_path(base, container_id, path), encode_utf8(name)),
{
    let inside = inside_path(path);
    let root = volume_root(base, container_id);
    assert(name[0] != '/') by {
        assert(name.contains(name[0]));
    }
    lemma_inside_path(path);
    if inside.len() > 0 {
        lemma_trailing_slashes(root, inside);
    }
    lemma_inside_entry_path(path, name);
    if inside.len() > 0 {
        let bare = without_trailing(inside, "/"@);
        let plain = joined(root, encode_utf8(bare));
        let dir = joined(root, encode_utf8(inside));
        let end = encode_utf8(name);
        lemma_first_byte(name);
        lemma_first_byte(bare);
        lemma_first_byte(inside);
        lemma_last_byte(bare);
        assert(plain.last() == encode_utf8(bare).last());
        assert(joined(root, encode_utf8(bare + "/"@ + name)) == joined(plain, end)) by {
            lemma_encode_concat(bare + "/"@, name);
            lemma_encode_concat(bare, "/"@);
            lemma_encode_slash();
            lemma_first_byte(bare + "/"@ + name);
            assert(joined(root, encode_utf8(bare + "/"@ + name)) =~= joined(plain, end));
        }
        law_joined_components(plain, end);
        law_joined_components(dir, end);
        if !"//"@.is_suffix_of(path) {
            assert(!"//"@.is_suffix_of(inside)) by {
                lemma_inside_is_suffix(path);
                reveal_strlit("//");
                if "//"@.is_suffix_of(inside) {
                    assert(path.subrange(path.len() - 2, path.len() as int) =~= inside.subrange(
                        inside.len() - 2,
                        inside.len() as int,
                    ));
                }
            }
            lemma_at_most_one_slash(inside);
            if inside != bare {
                lemma_one_slash(inside);
                assert(dir =~= plain.push(SLASH));
                assert(joined(dir, end) =~= joined(plain, end));
            }
        }
    }
}

/// What lies below the mount point is the end of the path.
proof fn lemma_inside_is_suffix(path: Seq<char>)
    ensures
        inside_path(path).len() <= path.len(),
        inside_path(path) == path.skip(path.len() - inside_path(path).len()),
{
    reveal_strlit("/home/container");
    reveal_strlit("/home/container/");
    let below = if is_mounted(path) {
        path.skip("/home/container"@.len() as int)
    } else {
        path
    };
    lemma_without_leading_is_suffix(below, "/"@);
    assert(inside_path(path) =~= path.skip(path.len() - inside_path(path).len()));
}

/// A text from which leading parts were taken is the end of the text.
proof fn lemma_without_leading_is_suffix(text: Seq<char>, prefix: Seq<char>)
    ensures
        without_leading(text, prefix).len() <= text.len(),
        without_leading(text, prefix) == text.skip(
            text.len() - without_leading(text, prefix).len(),
        ),
    decreases text.len(),
{
    if 0 < prefix.len() && prefix.is_prefix_of(text) {
        let rest = text.skip(prefix.len() as int);
        lemma_without_leading_is_suffix(rest, prefix);
        let short = without_leading(text, prefix);
        assert(rest.skip(rest.len() - short.len()) =~= text.skip(text.len() - short.len()));
    } else {
        assert(text.skip(0) =~= text);
    }
}

/// The path in the container of an entry of the directory that was asked for as `path`.
pub fn make_entry_path(path: &str, name: &str) -> (r: String)
    ensures
        r@ == entry_path(path@, name@),
{
    let below = make_inside_path(path);
    let inside = trim_trailing(below.as_str(), "/");
    if inside.as_str().is_empty() {
        concat2("/home/container/", name)
    } else {
        let front = concat3("/home/container/", inside.as_str(), "/");
        concat2(front.as_str(), name)
    }
}

/// The path of a directory as a listing shows it.
pub fn make_shown_path(path: &str) -> (r: String)
    ensures
        r@ == shown_path(path@),
{
    if path.is_empty() || same_text(path, "/") {
        "/home/container".to_owned()
    } else if same_text(path, "/home/container") || starts_with(path, "/home/container/") {
        path.to_owned()
    } else {
        let bare = trim_leading(path, "/");
        concat2("/home/container/", bare.as_str())
    }
}

/// Says what a listing says of an entry, unless it is left out.
pub fn make_file_info(path: &str, entry: &DirEntry) -> (r: Option<FileInfo>)
    requires
        entry.dated(),
    ensures
        r is None <==> entry.hidden(),
        r is Some ==> r->0.deep_view() == file_info(path@, *entry),
{
    let name = from_utf8_lossy(entry.name.as_slice());
    if starts_with(name.as_str(), ".") {
        return None;
    }
    let changed: Timestamp = match entry.modified {
        Some(t) => t,
        None => entry.now,
    };
    let made: Timestamp = match entry.created {
        Some(t) => t,
        None => changed,
    };
    let modified_at = match system_time_to_rfc3339_utc(&changed) {
        Some(text) => text,
        None => String::new(),
    };
    let created_at = match system_time_to_rfc3339_utc(&made) {
        Some(text) => text,
        None => String::new(),
    };
    let entry_path = make_entry_path(path, name.as_str());
    let mimetype = detect_mimetype(
        &entry.head,
        name.as_str(),
        entry.is_directory,
        entry.is_symlink,
        entry.is_file,
    );
    Some(
        FileInfo {
            name,
            path: entry_path,
            is_directory: entry.is_directory,
            size: entry.size,
            modified: Some(modified_at.clone()),
            mode: mode_to_string(entry.unix_mode, entry.is_directory, entry.is_symlink),
            mode_bits: octal3_text(entry.unix_mode),
            is_file: entry.is_file,
            is_symlink: entry.is_symlink,
            mimetype,
            created_at,
            modified_at,
        },
    )
}

/// Puts entries into listing order.
fn sort_infos(infos: &Vec<FileInfo>) -> (r: Vec<FileInfo>)
    ensures
        is_sorted_listing(r.deep_view(), infos.deep_view()),
{
    let ghost all = infos.deep_view();
    let mut keys: Vec<SortKey> = Vec::new();
    let mut i: usize = 0;
    while i < infos.len()
        invariant
            i <= infos.len(),
            keys.len() == i,
            all == infos.deep_view(),
            forall|k: int|
                0 <= k < i ==> key_values(keys@)[k] == #[trigger] sort_keys(all)[k],
        decreases infos.len() - i,
    {
        let lower = to_lowercase(infos[i].name.as_str());
        let ghost before = key_values(keys@);
        keys.push(
            SortKey { is_directory: infos[i].is_directory, name: chars_of(lower.as_str()) },
        );
        assert forall|k: int| 0 <= k < i + 1 implies key_values(keys@)[k] == #[trigger] sort_keys(
            all,
        )[k] by {
            if k < i {
                assert(before[k] == sort_keys(all)[k]);
            } else {
                assert(all[k] == infos@[k].deep_view());
            }
        }
        i = i + 1;
    }
    assert(key_values(keys@) =~= sort_keys(all));
    let order = listing_order(&keys);
    let mut r: Vec<FileInfo> = Vec::new();
    let mut j: usize = 0;
    while j < order.len()
        invariant
            j <= order.len(),
            r.len() == j,
            all == infos.deep_view(),
            is_listing_order(sort_keys(all), order@),
            forall|k: int|
                0 <= k < j ==> #[trigger] r@[k].deep_view() == reordered(all, order@)[k],
        decreases order.len() - j,
    {
        assert(order@[j as int] < sort_keys(all).len());
        let at: usize = order[j];
        r.push(infos[at].copy());
        j = j + 1;
    }
    assert(r.deep_view() =~= reordered(all, order@));
    r
}

/// Lists the directory that was asked for as `path`: its entries but for the hidden ones,
/// directories first and each group by name without regard to case, with their counts.
pub fn make_listing(path: &str, entries: &Vec<DirEntry>) -> (r: DirectoryListing)
    requires
        forall|i: int| 0 <= i < entries@.len() ==> (#[trigger] entries@[i]).dated(),
    ensures
        r.path@ == shown_path(path@),
        is_sorted_listing(r.files.deep_view(), file_infos(path@, entries@)),
        r.total_directories == directory_count(file_infos(path@, entries@)),
        r.total_files + r.total_directories == file_infos(path@, entries@).len(),
{
    let mut infos: Vec<FileInfo> = Vec::new();
    let mut total_files: usize = 0;
    let mut total_directories: usize = 0;
    let mut i: usize = 0;
    assert(infos.deep_view() =~= file_infos(path@, entries@.take(0)));
    while i < entries.len()
        invariant
            i <= entries.len(),
            forall|k: int| 0 <= k < entries@.len() ==> (#[trigger] entries@[k]).dated(),
            infos.deep_view() == file_infos(path@, entries@.take(i as int)),
            infos.len() <= i,
            total_directories == directory_count(infos.deep_view()),
            total_files + total_directories == infos.len(),
        decreases entries.len() - i,
    {
        let ghost front = entries@.take(i + 1);
        assert(front.drop_last() =~= entries@.take(i as int));
        assert(front.last() == entries@[i as int]);
        let ghost before = infos.deep_view();
        match make_file_info(path, &entries[i]) {
            None => {},
            Some(info) => {
                if info.is_directory {
                    total_directories = total_directories + 1;
                } else {
                    total_files = total_files + 1;
                }
                infos.push(info);
                assert(infos.deep_view() =~= before.push(info.deep_view()));
                assert(infos.deep_view().drop_last() =~= before);
            },
        }
        i = i + 1;
    }
    assert(entries@.take(i as int) =~= entries@);
    let files = sort_infos(&infos);
    DirectoryListing { path: make_shown_path(path), files, total_files, total_directories }
}

} // verus!
