//! What each operation on the files of a container looks up, when it is refused, which steps it
//! comes to and what it reports.

use vstd::prelude::*;
use vstd::utf8::encode_utf8;
use crate::file_plan::{
    ArchiveCompression, FsStepValue, OperationValue, PathStatus, TreeEntry, check_count,
    first_checked, named_compression, operation_paths, plan, refusal, refused_outright, report,
    tar_items, unzip_entry, zip_items, zip_tree_items,
};
use crate::host_path::{file_name, joined, parent, relative_to};
use crate::number::decimal;
use crate::text::{lowercase, utf8_lossy};

verus! {

/// A step that puts something at `path`, behind the one that makes the directory that it goes
/// into, where it goes into one.
pub open spec fn room_first(path: Seq<u8>, step: FsStepValue) -> Seq<FsStepValue> {
    if parent(path) is Some {
        seq![FsStepValue::CreateDirectories { path: parent(path)->0 }, step]
    } else {
        seq![step]
    }
}

/// Whether an operation looks up the given paths, and looks at the first of them before anything
/// is done.
pub open spec fn looks_at_first(op: OperationValue, paths: Seq<Seq<char>>) -> bool {
    &&& operation_paths(op) == paths
    &&& refused_outright(op) is None
    &&& first_checked(op) == 0
    &&& check_count(op) == 1
}

/// Whether an operation is refused where its path is missing, with the given words, and not
/// because of anything else that is there.
pub open spec fn needs_only_presence(op: OperationValue, words: Seq<char>) -> bool {
    forall|status: PathStatus| #[trigger]
        refusal(op, 0, status) == if status == PathStatus::Missing {
            Some(words)
        } else {
            None
        }
}

/// A directory is listed: its path has to lead to one, whose entries are read.
pub proof fn law_directory_is_listed(
    path: Seq<char>,
    hosts: Seq<Seq<u8>>,
    statuses: Seq<PathStatus>,
)
    ensures
        ({
            let op = OperationValue::List { path };
            &&& looks_at_first(op, seq![path])
            &&& refusal(op, 0, PathStatus::Missing) == Some("Path does not exist"@)
            &&& refusal(op, 0, PathStatus::File) == Some("Path is not a directory"@)
            &&& refusal(op, 0, PathStatus::Other) == Some("Path is not a directory"@)
            &&& refusal(op, 0, PathStatus::Directory) is None
            &&& plan(op, hosts, statuses) == seq![FsStepValue::ReadDirectory { path: hosts[0] }]
            &&& report(op) is None
        }),
{
}

/// A file is read: its path has to lead to one, which is read as text.
pub proof fn law_file_is_read(path: Seq<char>, hosts: Seq<Seq<u8>>, statuses: Seq<PathStatus>)
    ensures
        ({
            let op = OperationValue::Read { path };
            &&& looks_at_first(op, seq![path])
            &&& refusal(op, 0, PathStatus::Missing) == Some("File does not exist"@)
            &&& refusal(op, 0, PathStatus::Directory) == Some("Path is not a file"@)
            &&& refusal(op, 0, PathStatus::Other) == Some("Path is not a file"@)
            &&& refusal(op, 0, PathStatus::File) is None
            &&& plan(op, hosts, statuses) == seq![FsStepValue::ReadText { path: hosts[0] }]
            &&& report(op) is None
        }),
{
}

/// A file is written whatever is at its path: the directory that it goes into is made, and the
/// file gets the content that was given, byte by byte.
pub proof fn law_file_is_written(
    path: Seq<char>,
    content: Seq<u8>,
    hosts: Seq<Seq<u8>>,
    statuses: Seq<PathStatus>,
)
    ensures
        ({
            let op = OperationValue::Write { path, content };
            &&& operation_paths(op) == seq![path]
            &&& refused_outright(op) is None
            &&& check_count(op) == 0
            &&& plan(op, hosts, statuses) == room_first(
                hosts[0],
                FsStepValue::WriteFile { path: hosts[0], content },
            )
            &&& report(op) is None
        }),
{
    let op = OperationValue::Write { path, content };
    assert(plan(op, hosts, statuses) =~= room_first(
        hosts[0],
        FsStepValue::WriteFile { path: hosts[0], content },
    ));
}

/// A file is copied from the first path to the second: the first has to lead to a file, and the
/// directory that the copy goes into is made.
pub proof fn law_file_is_copied(
    source: Seq<char>,
    dest: Seq<char>,
    hosts: Seq<Seq<u8>>,
    statuses: Seq<PathStatus>,
)
    ensures
        ({
            let op = OperationValue::Copy { source, dest };
            &&& looks_at_first(op, seq![source, dest])
            &&& refusal(op, 0, PathStatus::Missing) == Some("Source path does not exist"@)
            &&& refusal(op, 0, PathStatus::Directory) == Some("Source path is not a file"@)
            &&& refusal(op, 0, PathStatus::Other) == Some("Source path is not a file"@)
            &&& refusal(op, 0, PathStatus::File) is None
            &&& plan(op, hosts, statuses) == room_first(
                hosts[1],
                FsStepValue::CopyFile { from: hosts[0], to: hosts[1] },
            )
            &&& report(op) is None
        }),
{
    let op = OperationValue::Copy { source, dest };
    assert(plan(op, hosts, statuses) =~= room_first(
        hosts[1],
        FsStepValue::CopyFile { from: hosts[0], to: hosts[1] },
    ));
}

/// A directory is created with those above it, whatever is at its path.
pub proof fn law_directory_is_created(
    path: Seq<char>,
    hosts: Seq<Seq<u8>>,
    statuses: Seq<PathStatus>,
)
    ensures
        ({
            let op = OperationValue::CreateDirectory { path };
            &&& operation_paths(op) == seq![path]
            &&& refused_outright(op) is None
            &&& check_count(op) == 0
            &&& plan(op, hosts, statuses) == seq![
                FsStepValue::CreateDirectories { path: hosts[0] },
            ]
            &&& report(op) is None
        }),
{
}

/// What is there is deleted: a directory with everything in it, and anything else by itself.
pub proof fn law_what_is_there_is_deleted(
    path: Seq<char>,
    hosts: Seq<Seq<u8>>,
    statuses: Seq<PathStatus>,
)
    ensures
        ({
            let op = OperationValue::Delete { path };
            &&& looks_at_first(op, seq![path])
            &&& needs_only_presence(op, "Path does not exist"@)
            &&& statuses[0] == PathStatus::Directory ==> plan(op, hosts, statuses) == seq![
                FsStepValue::RemoveTree { path: hosts[0] },
            ]
            &&& statuses[0] != PathStatus::Directory ==> plan(op, hosts, statuses) == seq![
                FsStepValue::RemoveFile { path: hosts[0] },
            ]
            &&& report(op) is None
        }),
{
}

/// What is at the first path is moved to the second: the first has to be there, and the directory
/// that it goes into is made.
pub proof fn law_what_is_there_is_moved(
    old_path: Seq<char>,
    new_path: Seq<char>,
    hosts: Seq<Seq<u8>>,
    statuses: Seq<PathStatus>,
)
    ensures
        ({
            let op = OperationValue::Rename { old_path, new_path };
            &&& looks_at_first(op, seq![old_path, new_path])
            &&& needs_only_presence(op, "Source path does not exist"@)
            &&& plan(op, hosts, statuses) == room_first(
                hosts[1],
                FsStepValue::Rename { from: hosts[0], to: hosts[1] },
            )
            &&& report(op) is None
        }),
{
    let op = OperationValue::Rename { old_path, new_path };
    assert(plan(op, hosts, statuses) =~= room_first(
        hosts[1],
        FsStepValue::Rename { from: hosts[0], to: hosts[1] },
    ));
}

/// Permissions are changed by `chmod`, which is handed them as they were given.
pub proof fn law_permissions_are_changed(
    path: Seq<char>,
    permissions: Seq<char>,
    hosts: Seq<Seq<u8>>,
    statuses: Seq<PathStatus>,
)
    ensures
        ({
            let op = OperationValue::ChangeMode { path, permissions };
            &&& looks_at_first(op, seq![path])
            &&& needs_only_presence(op, "Path does not exist"@)
            &&& plan(op, hosts, statuses) == seq![
                FsStepValue::RunCommand {
                    program: "chmod"@,
                    argument: permissions,
                    path: hosts[0],
                    complaint: "Failed to change permissions: "@,
                },
            ]
            &&& report(op) is None
        }),
{
}

/// The owner is changed by `chown`, which is handed the owner, and behind a colon the group where
/// one is given.
pub proof fn law_owner_is_changed(
    path: Seq<char>,
    owner: Seq<char>,
    group: Option<Seq<char>>,
    hosts: Seq<Seq<u8>>,
    statuses: Seq<PathStatus>,
)
    ensures
        ({
            let op = OperationValue::ChangeOwner { path, owner, group };
            &&& looks_at_first(op, seq![path])
            &&& needs_only_presence(op, "Path does not exist"@)
            &&& plan(op, hosts, statuses) == seq![
                FsStepValue::RunCommand {
                    program: "chown"@,
                    argument: if group is Some {
                        owner + ":"@ + group->0
                    } else {
                        owner
                    },
                    path: hosts[0],
                    complaint: "Failed to change ownership: "@,
                },
            ]
            &&& report(op) is None
        }),
{
}

/// Whether packing looks up the archive first and then the sources, looks at every source, and is
/// refused where there is none, or where one is missing, which is named.
pub open spec fn packs_what_is_there(
    op: OperationValue,
    archive: Seq<char>,
    sources: Seq<Seq<char>>,
) -> bool {
    &&& operation_paths(op) == seq![archive] + sources
    &&& first_checked(op) == 1
    &&& check_count(op) == sources.len()
    &&& sources.len() == 0 ==> refused_outright(op) == Some("No source paths provided"@)
    &&& sources.len() > 0 ==> refused_outright(op) is None
    &&& forall|i: int, status: PathStatus| #[trigger]
        refusal(op, i, status) == if status == PathStatus::Missing {
            Some("Source path does not exist: "@ + sources[i])
        } else {
            None
        }
}

/// Sources are packed into a tar archive: the directory of the archive is made, the archive is
/// begun with the compression that was asked for, every source is added in order, and the archive
/// is ended. What is reported names the archive and how many sources there were.
pub proof fn law_sources_are_packed(
    sources: Seq<Seq<char>>,
    archive: Seq<char>,
    compression: Option<Seq<char>>,
    hosts: Seq<Seq<u8>>,
    statuses: Seq<PathStatus>,
)
    ensures
        ({
            let op = OperationValue::CreateArchive { sources, archive, compression };
            let begin = FsStepValue::BeginTar {
                path: hosts[0],
                compression: if compression == Some("gzip"@) {
                    ArchiveCompression::Gzip
                } else if compression == Some("bzip2"@) {
                    ArchiveCompression::Bzip2
                } else {
                    ArchiveCompression::Plain
                },
            };
            &&& packs_what_is_there(op, archive, sources)
            &&& plan(op, hosts, statuses) == room_first(hosts[0], begin) + tar_items(
                hosts.skip(1),
                statuses,
            ) + seq![FsStepValue::FinishTar]
            &&& report(op) == Some(
                "Archive created: "@ + archive + " ("@ + decimal(sources.len()) + " items)"@,
            )
        }),
{
    let op = OperationValue::CreateArchive { sources, archive, compression };
    let begin = FsStepValue::BeginTar {
        path: hosts[0],
        compression: named_compression(compression),
    };
    assert(plan(op, hosts, statuses) =~= room_first(hosts[0], begin) + tar_items(
        hosts.skip(1),
        statuses,
    ) + seq![FsStepValue::FinishTar]);
}

/// The same of a zip archive.
pub proof fn law_sources_are_zipped(
    sources: Seq<Seq<char>>,
    zip: Seq<char>,
    hosts: Seq<Seq<u8>>,
    statuses: Seq<PathStatus>,
)
    ensures
        ({
            let op = OperationValue::CreateZip { sources, zip };
            let begin = FsStepValue::BeginZip { path: hosts[0] };
            &&& packs_what_is_there(op, zip, sources)
            &&& plan(op, hosts, statuses) == room_first(hosts[0], begin) + zip_items(
                hosts.skip(1),
                statuses,
            ) + seq![FsStepValue::FinishZip]
            &&& report(op) == Some(
                "Zip created: "@ + zip + " ("@ + decimal(sources.len()) + " items)"@,
            )
        }),
{
    let op = OperationValue::CreateZip { sources, zip };
    let begin = FsStepValue::BeginZip { path: hosts[0] };
    assert(plan(op, hosts, statuses) =~= room_first(hosts[0], begin) + zip_items(
        hosts.skip(1),
        statuses,
    ) + seq![FsStepValue::FinishZip]);
}

/// Archives are unpacked at the second path: the archive has to be there, the directory is made,
/// and what is reported names it. How a tar archive is compressed goes by the ending of its path.
pub proof fn law_archives_are_unpacked(
    archive: Seq<char>,
    dest: Seq<char>,
    hosts: Seq<Seq<u8>>,
    statuses: Seq<PathStatus>,
)
    ensures
        ({
            let tar = OperationValue::ExtractArchive { archive, dest };
            let zip = OperationValue::ExtractZip { zip: archive, dest };
            let lower = lowercase(archive);
            let gz = ".tar.gz"@.is_suffix_of(lower) || ".tgz"@.is_suffix_of(lower);
            let bz = ".tar.bz2"@.is_suffix_of(lower) || ".tbz2"@.is_suffix_of(lower);
            &&& looks_at_first(tar, seq![archive, dest])
            &&& looks_at_first(zip, seq![archive, dest])
            &&& needs_only_presence(tar, "Archive does not exist"@)
            &&& needs_only_presence(zip, "Zip file does not exist"@)
            &&& plan(tar, hosts, statuses) == seq![
                FsStepValue::CreateDirectories { path: hosts[1] },
                FsStepValue::Unpack {
                    path: hosts[0],
                    compression: if gz {
                        ArchiveCompression::Gzip
                    } else if bz {
                        ArchiveCompression::Bzip2
                    } else {
                        ArchiveCompression::Plain
                    },
                    to: hosts[1],
                },
            ]
            &&& plan(zip, hosts, statuses) == seq![
                FsStepValue::CreateDirectories { path: hosts[1] },
                FsStepValue::UnpackZip { path: hosts[0], to: hosts[1] },
            ]
            &&& report(tar) == Some("Archive extracted to: "@ + dest)
            &&& report(zip) == Some("Zip extracted to: "@ + dest)
        }),
{
}

/// Sources are added one after the other, each under its own name: a directory with everything in
/// it, anything else as a file. One that has no name is a reason to fail, for a file that goes
/// into a tar archive only once it could be opened.
pub proof fn law_sources_are_added_one_by_one(
    paths: Seq<Seq<u8>>,
    path: Seq<u8>,
    statuses: Seq<PathStatus>,
    status: PathStatus,
)
    requires
        statuses.len() == paths.len(),
    ensures
        ({
            let tar = tar_items(paths.push(path), statuses.push(status));
            let zip = zip_items(paths.push(path), statuses.push(status));
            let directory = status == PathStatus::Directory;
            &&& tar == tar_items(paths, statuses) + match file_name(path) {
                Some(name) => if directory {
                    seq![FsStepValue::AppendTree { name, path }]
                } else {
                    seq![FsStepValue::AppendFile { name, path }]
                },
                None => if directory {
                    seq![FsStepValue::Fail { error: "Invalid directory name"@ }]
                } else {
                    seq![
                        FsStepValue::OpenFile { path },
                        FsStepValue::Fail { error: "Invalid source file name"@ },
                    ]
                },
            }
            &&& zip == zip_items(paths, statuses) + match file_name(path) {
                Some(name) => if directory {
                    seq![
                        FsStepValue::AddZipDirectory { name: utf8_lossy(name) },
                        FsStepValue::AddZipTree { base: path, path, prefix: utf8_lossy(name) },
                    ]
                } else {
                    seq![FsStepValue::AddZipFile { name: utf8_lossy(name), path }]
                },
                None => if directory {
                    seq![FsStepValue::Fail { error: "Invalid directory name"@ }]
                } else {
                    seq![FsStepValue::Fail { error: "Invalid source file name"@ }]
                },
            }
        }),
{
    let longer = statuses.push(status);
    assert(paths.push(path).drop_last() =~= paths);
    assert(longer[paths.len() as int] == status);
    lemma_items_by_first_statuses(paths, statuses, longer);
}

/// What is added for sources goes by their own statuses, whatever statuses follow.
proof fn lemma_items_by_first_statuses(
    paths: Seq<Seq<u8>>,
    statuses: Seq<PathStatus>,
    longer: Seq<PathStatus>,
)
    requires
        forall|i: int| 0 <= i < paths.len() ==> #[trigger] statuses[i] == longer[i],
    ensures
        tar_items(paths, statuses) == tar_items(paths, longer),
        zip_items(paths, statuses) == zip_items(paths, longer),
    decreases paths.len(),
{
    if paths.len() > 0 {
        lemma_items_by_first_statuses(paths.drop_last(), statuses, longer);
        assert(statuses[paths.len() - 1] == longer[paths.len() - 1]);
    }
}

/// No sources, no steps; and what is in a directory is added to a zip archive one entry after the
/// other, under the prefix and its path behind the base: a directory as such and then with what is
/// in it, anything else as a file. What does not lie behind the base is a reason to fail.
pub proof fn law_entries_are_zipped_one_by_one(
    base: Seq<u8>,
    prefix: Seq<char>,
    entries: Seq<TreeEntry>,
    entry: TreeEntry,
)
    ensures
        tar_items(Seq::empty(), Seq::empty()).len() == 0,
        zip_items(Seq::empty(), Seq::empty()).len() == 0,
        zip_tree_items(base, prefix, Seq::empty()).len() == 0,
        zip_tree_items(base, prefix, entries.push(entry)) == zip_tree_items(base, prefix, entries)
            + match relative_to(entry.path@, base) {
            Some(relative) => if entry.is_directory {
                seq![
                    FsStepValue::AddZipDirectory { name: prefix + "/"@ + utf8_lossy(relative) },
                    FsStepValue::AddZipTree { base, path: entry.path@, prefix },
                ]
            } else {
                seq![
                    FsStepValue::AddZipFile {
                        name: prefix + "/"@ + utf8_lossy(relative),
                        path: entry.path@,
                    },
                ]
            },
            None => seq![FsStepValue::Fail { error: "Invalid path"@ }],
        },
{
    assert(entries.push(entry).drop_last() =~= entries);
    assert(entries.push(entry).last() == entry);
}

/// What is in a zip archive is unpacked under its own name: a directory is made with those above
/// it, a file goes into a directory that is made for it.
pub proof fn law_entries_are_unpacked_by_name(dest: Seq<u8>, name: Seq<char>)
    ensures
        unzip_entry(dest, name, true) == (
            seq![FsStepValue::CreateDirectories { path: joined(dest, encode_utf8(name)) }],
            None::<Seq<u8>>,
        ),
        unzip_entry(dest, name, false).1 == Some(joined(dest, encode_utf8(name))),
        unzip_entry(dest, name, false).0 == match parent(joined(dest, encode_utf8(name))) {
            Some(up) => seq![FsStepValue::CreateDirectories { path: up }],
            None => Seq::empty(),
        },
{
}

} // verus!
