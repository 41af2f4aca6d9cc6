//! What is to be done on the host for an operation on the files of a container.

use vstd::prelude::*;
use vstd::utf8::encode_utf8;
use crate::bytes::{bytes_of, copy_bytes, path_views};
use crate::host_path::{
    file_name, is_plain, join_path, joined, law_relative_undoes_join, parent, parent_path,
    path_file_name, relative_path, relative_to,
};
use crate::number::{decimal, decimal_text};
use crate::text::{
    concat2, concat3, ends_with, from_utf8_lossy, lowercase, same_text, to_lowercase, utf8_lossy,
};
use crate::volume_path::path_bytes;

verus! {

/// An operation on the files of a container. Paths are those that the container sees.
#[derive(Clone, Debug, PartialEq, Eq)]
pub enum Operation {
    List { path: String },
    Read { path: String },
    Write { path: String, content: Vec<u8> },
    Copy { source: String, dest: String },
    CreateDirectory { path: String },
    Delete { path: String },
    Rename { old_path: String, new_path: String },
    CreateArchive { sources: Vec<String>, archive: String, compression: Option<String> },
    ExtractArchive { archive: String, dest: String },
    CreateZip { sources: Vec<String>, zip: String },
    ExtractZip { zip: String, dest: String },
    ChangeMode { path: String, permissions: String },
    ChangeOwner { path: String, owner: String, group: Option<String> },
}

/// An operation on the files of a container, by its values.
pub enum OperationValue {
    List { path: Seq<char> },
    Read { path: Seq<char> },
    Write { path: Seq<char>, content: Seq<u8> },
    Copy { source: Seq<char>, dest: Seq<char> },
    CreateDirectory { path: Seq<char> },
    Delete { path: Seq<char> },
    Rename { old_path: Seq<char>, new_path: Seq<char> },
    CreateArchive {
        sources: Seq<Seq<char>>,
        archive: Seq<char>,
        compression: Option<Seq<char>>,
    },
    ExtractArchive { archive: Seq<char>, dest: Seq<char> },
    CreateZip { sources: Seq<Seq<char>>, zip: Seq<char> },
    ExtractZip { zip: Seq<char>, dest: Seq<char> },
    ChangeMode { path: Seq<char>, permissions: Seq<char> },
    ChangeOwner { path: Seq<char>, owner: Seq<char>, group: Option<Seq<char>> },
}

impl View for Operation {
    type V = OperationValue;

    open spec fn view(&self) -> OperationValue {
        match self {
            Operation::List { path } => OperationValue::List { path: path@ },
            Operation::Read { path } => OperationValue::Read { path: path@ },
            Operation::Write { path, content } => OperationValue::Write {
                path: path@,
                content: content@,
            },
            Operation::Copy { source, dest } => OperationValue::Copy {
                source: source@,
                dest: dest@,
            },
            Operation::CreateDirectory { path } => OperationValue::CreateDirectory { path: path@ },
            Operation::Delete { path } => OperationValue::Delete { path: path@ },
            Operation::Rename { old_path, new_path } => OperationValue::Rename {
                old_path: old_path@,
                new_path: new_path@,
            },
            Operation::CreateArchive { sources, archive, compression } =>
                OperationValue::CreateArchive {
                sources: sources.deep_view(),
                archive: archive@,
                compression: compression.deep_view(),
            },
            Operation::ExtractArchive { archive, dest } => OperationValue::ExtractArchive {
                archive: archive@,
                dest: dest@,
            },
            Operation::CreateZip { sources, zip } => OperationValue::CreateZip {
                sources: sources.deep_view(),
                zip: zip@,
            },
            Operation::ExtractZip { zip, dest } => OperationValue::ExtractZip {
                zip: zip@,
                dest: dest@,
            },
            Operation::ChangeMode { path, permissions } => OperationValue::ChangeMode {
                path: path@,
                permissions: permissions@,
            },
            Operation::ChangeOwner { path, owner, group } => OperationValue::ChangeOwner {
                path: path@,
                owner: owner@,
                group: group.deep_view(),
            },
        }
    }
}

/// What a path leads to, once links are followed.
#[derive(Clone, Copy, Debug, PartialEq, Eq, Structural)]
pub enum PathStatus {
    Missing,
    File,
    Directory,
    Other,
}

/// How an archive is compressed as a whole.
#[derive(Clone, Copy, Debug, PartialEq, Eq, Structural)]
pub enum ArchiveCompression {
    Plain,
    Gzip,
    Bzip2,
}

/// One thing to be done on the host. Steps are taken in order until one of them fails.
#[derive(Debug, PartialEq, Eq)]
pub enum FsStep {
    /// Create a directory and those above it.
    CreateDirectories { path: Vec<u8> },
    /// Read the entries of a directory.
    ReadDirectory { path: Vec<u8> },
    /// Read a file as text.
    ReadText { path: Vec<u8> },
    /// Create or replace a file.
    WriteFile { path: Vec<u8>, content: Vec<u8> },
    /// Copy a file byte by byte.
    CopyFile { from: Vec<u8>, to: Vec<u8> },
    /// Remove a directory with everything in it.
    RemoveTree { path: Vec<u8> },
    /// Remove a file.
    RemoveFile { path: Vec<u8> },
    /// Move a file or a directory.
    Rename { from: Vec<u8>, to: Vec<u8> },
    /// Begin a tar archive.
    BeginTar { path: Vec<u8>, compression: ArchiveCompression },
    /// Add a directory with everything in it to the tar archive, under a name.
    AppendTree { name: Vec<u8>, path: Vec<u8> },
    /// Add a file to the tar archive, under a name.
    AppendFile { name: Vec<u8>, path: Vec<u8> },
    /// See whether a file can be opened.
    OpenFile { path: Vec<u8> },
    /// End the tar archive.
    FinishTar,
    /// Unpack a tar archive into a directory.
    Unpack { path: Vec<u8>, compression: ArchiveCompression, to: Vec<u8> },
    /// Begin a zip archive.
    BeginZip { path: Vec<u8> },
    /// Add an empty directory to the zip archive, under a name.
    AddZipDirectory { name: String },
    /// Add what is in a directory to the zip archive, under names that begin with a prefix.
    AddZipTree { base: Vec<u8>, path: Vec<u8>, prefix: String },
    /// Add a file to the zip archive, under a name.
    AddZipFile { name: String, path: Vec<u8> },
    /// End the zip archive.
    FinishZip,
    /// Unpack a zip archive into a directory.
    UnpackZip { path: Vec<u8>, to: Vec<u8> },
    /// Run a program with an argument and a path. What it complains of counts as an error,
    /// behind the given words.
    RunCommand { program: String, argument: String, path: Vec<u8>, complaint: String },
    /// Fail.
    Fail { error: String },
}

/// One thing to be done on the host, by its values.
pub enum FsStepValue {
    CreateDirectories { path: Seq<u8> },
    ReadDirectory { path: Seq<u8> },
    ReadText { path: Seq<u8> },
    WriteFile { path: Seq<u8>, content: Seq<u8> },
    CopyFile { from: Seq<u8>, to: Seq<u8> },
    RemoveTree { path: Seq<u8> },
    RemoveFile { path: Seq<u8> },
    Rename { from: Seq<u8>, to: Seq<u8> },
    BeginTar { path: Seq<u8>, compression: ArchiveCompression },
    AppendTree { name: Seq<u8>, path: Seq<u8> },
    AppendFile { name: Seq<u8>, path: Seq<u8> },
    OpenFile { path: Seq<u8> },
    FinishTar,
    Unpack { path: Seq<u8>, compression: ArchiveCompression, to: Seq<u8> },
    BeginZip { path: Seq<u8> },
    AddZipDirectory { name: Seq<char> },
    AddZipTree { base: Seq<u8>, path: Seq<u8>, prefix: Seq<char> },
    AddZipFile { name: Seq<char>, path: Seq<u8> },
    FinishZip,
    UnpackZip { path: Seq<u8>, to: Seq<u8> },
    RunCommand { program: Seq<char>, argument: Seq<char>, path: Seq<u8>, complaint: Seq<char> },
    Fail { error: Seq<char> },
}

impl DeepView for FsStep {
    type V = FsStepValue;

    open spec fn deep_view(&self) -> FsStepValue {
        match self {
            FsStep::CreateDirectories { path } => FsStepValue::CreateDirectories { path: path@ },
            FsStep::ReadDirectory { path } => FsStepValue::ReadDirectory { path: path@ },
            FsStep::ReadText { path } => FsStepValue::ReadText { path: path@ },
            FsStep::WriteFile { path, content } => FsStepValue::WriteFile {
                path: path@,
                content: content@,
            },
            FsStep::CopyFile { from, to } => FsStepValue::CopyFile { from: from@, to: to@ },
            FsStep::RemoveTree { path } => FsStepValue::RemoveTree { path: path@ },
            FsStep::RemoveFile { path } => FsStepValue::RemoveFile { path: path@ },
            FsStep::Rename { from, to } => FsStepValue::Rename { from: from@, to: to@ },
            FsStep::BeginTar { path, compression } => FsStepValue::BeginTar {
                path: path@,
                compression: *compression,
            },
            FsStep::AppendTree { name, path } => FsStepValue::AppendTree {
                name: name@,
                path: path@,
            },
            FsStep::AppendFile { name, path } => FsStepValue::AppendFile {
                name: name@,
                path: path@,
            },
            FsStep::OpenFile { path } => FsStepValue::OpenFile { path: path@ },
            FsStep::FinishTar => FsStepValue::FinishTar,
            FsStep::Unpack { path, compression, to } => FsStepValue::Unpack {
                path: path@,
                compression: *compression,
                to: to@,
            },
            FsStep::BeginZip { path } => FsStepValue::BeginZip { path: path@ },
            FsStep::AddZipDirectory { name } => FsStepValue::AddZipDirectory { name: name@ },
            FsStep::AddZipTree { base, path, prefix } => FsStepValue::AddZipTree {
                base: base@,
                path: path@,
                prefix: prefix@,
            },
            FsStep::AddZipFile { name, path } => FsStepValue::AddZipFile {
                name: name@,
                path: path@,
            },
            FsStep::FinishZip => FsStepValue::FinishZip,
            FsStep::UnpackZip { path, to } => FsStepValue::UnpackZip { path: path@, to: to@ },
            FsStep::RunCommand { program, argument, path, complaint } => FsStepValue::RunCommand {
                program: program@,
                argument: argument@,
                path: path@,
                complaint: complaint@,
            },
            FsStep::Fail { error } => FsStepValue::Fail { error: error@ },
        }
    }
}

/// The paths that an operation is about, in the order in which they are looked up.
pub open spec fn operation_paths(op: OperationValue) -> Seq<Seq<char>> {
    match op {
        OperationValue::List { path } => seq![path],
        OperationValue::Read { path } => seq![path],
        OperationValue::Write { path, .. } => seq![path],
        OperationValue::Copy { source, dest } => seq![source, dest],
        OperationValue::CreateDirectory { path } => seq![path],
        OperationValue::Delete { path } => seq![path],
        OperationValue::Rename { old_path, new_path } => seq![old_path, new_path],
        OperationValue::CreateArchive { sources, archive, .. } => seq![archive] + sources,
        OperationValue::ExtractArchive { archive, dest } => seq![archive, dest],
        OperationValue::CreateZip { sources, zip } => seq![zip] + sources,
        OperationValue::ExtractZip { zip, dest } => seq![zip, dest],
        OperationValue::ChangeMode { path, .. } => seq![path],
        OperationValue::ChangeOwner { path, .. } => seq![path],
    }
}

/// Why an operation is refused before anything is looked up, where it is.
pub open spec fn refused_outright(op: OperationValue) -> Option<Seq<char>> {
    match op {
        OperationValue::CreateArchive { sources, .. } => if sources.len() == 0 {
            Some("No source paths provided"@)
        } else {
            None
        },
        OperationValue::CreateZip { sources, .. } => if sources.len() == 0 {
            Some("No source paths provided"@)
        } else {
            None
        },
        _ => None,
    }
}

/// The place of the first path that is looked at before anything is done.
pub open spec fn first_checked(op: OperationValue) -> nat {
    match op {
        OperationValue::CreateArchive { .. } => 1,
        OperationValue::CreateZip { .. } => 1,
        _ => 0,
    }
}

/// How many paths are looked at before anything is done.
pub open spec fn check_count(op: OperationValue) -> nat {
    match op {
        OperationValue::Write { .. } => 0,
        OperationValue::CreateDirectory { .. } => 0,
        OperationValue::CreateArchive { sources, .. } => sources.len(),
        OperationValue::CreateZip { sources, .. } => sources.len(),
        _ => 1,
    }
}

/// Why an operation is refused because of what its checked path number `i` leads to, where it
/// is.
pub open spec fn refusal(op: OperationValue, i: int, status: PathStatus) -> Option<Seq<char>> {
    let missing = status == PathStatus::Missing;
    match op {
        OperationValue::List { .. } => if missing {
            Some("Path does not exist"@)
        } else if status != PathStatus::Directory {
            Some("Path is not a directory"@)
        } else {
            None
        },
        OperationValue::Read { .. } => if missing {
            Some("File does not exist"@)
        } else if status != PathStatus::File {
            Some("Path is not a file"@)
        } else {
            None
        },
        OperationValue::Copy { .. } => if missing {
            Some("Source path does not exist"@)
        } else if status != PathStatus::File {
            Some("Source path is not a file"@)
        } else {
            None
        },
        OperationValue::Rename { .. } => if missing {
            Some("Source path does not exist"@)
        } else {
            None
        },
        OperationValue::CreateArchive { sources, .. } => if missing {
            Some("Source path does not exist: "@ + sources[i])
        } else {
            None
        },
        OperationValue::CreateZip { sources, .. } => if missing {
            Some("Source path does not exist: "@ + sources[i])
        } else {
            None
        },
        OperationValue::ExtractArchive { .. } => if missing {
            Some("Archive does not exist"@)
        } else {
            None
        },
        OperationValue::ExtractZip { .. } => if missing {
            Some("Zip file does not exist"@)
        } else {
            None
        },
        OperationValue::Delete { .. } => if missing {
            Some("Path does not exist"@)
        } else {
            None
        },
        OperationValue::ChangeMode { .. } => if missing {
            Some("Path does not exist"@)
        } else {
            None
        },
        OperationValue::ChangeOwner { .. } => if missing {
            Some("Path does not exist"@)
        } else {
            None
        },
        OperationValue::Write { .. } => None,
        OperationValue::CreateDirectory { .. } => None,
    }
}

/// How an archive is compressed that is asked for with the name of a compression. A name that
/// is not known stands for none.
pub open spec fn named_compression(name: Option<Seq<char>>) -> ArchiveCompression {
    if name == Some("gzip"@) {
        ArchiveCompression::Gzip
    } else if name == Some("bzip2"@) {
        ArchiveCompression::Bzip2
    } else {
        ArchiveCompression::Plain
    }
}

/// How an archive is compressed by what its path, in lower case, ends with.
pub open spec fn compression_of(lower: Seq<char>) -> ArchiveCompression {
    if ".tar.gz"@.is_suffix_of(lower) || ".tgz"@.is_suffix_of(lower) {
        ArchiveCompression::Gzip
    } else if ".tar.bz2"@.is_suffix_of(lower) || ".tbz2"@.is_suffix_of(lower) {
        ArchiveCompression::Bzip2
    } else {
        ArchiveCompression::Plain
    }
}

/// The steps that make sure that a file can be put at `path`.
pub open spec fn parent_made(path: Seq<u8>) -> Seq<FsStepValue> {
    match parent(path) {
        Some(up) => seq![FsStepValue::CreateDirectories { path: up }],
        None => Seq::empty(),
    }
}

/// The steps that add one source to a tar archive, under its own name.
pub open spec fn tar_item(path: Seq<u8>, status: PathStatus) -> Seq<FsStepValue> {
    match (status == PathStatus::Directory, file_name(path)) {
        (true, Some(name)) => seq![FsStepValue::AppendTree { name, path }],
        (true, None) => seq![FsStepValue::Fail { error: "Invalid directory name"@ }],
        (false, Some(name)) => seq![FsStepValue::AppendFile { name, path }],
        (false, None) => seq![
            FsStepValue::OpenFile { path },
            FsStepValue::Fail { error: "Invalid source file name"@ },
        ],
    }
}

/// The steps that add one source to a zip archive, under its own name.
pub open spec fn zip_item(path: Seq<u8>, status: PathStatus) -> Seq<FsStepValue> {
    match (status == PathStatus::Directory, file_name(path)) {
        (true, Some(name)) => seq![
            FsStepValue::AddZipDirectory { name: utf8_lossy(name) },
            FsStepValue::AddZipTree { base: path, path, prefix: utf8_lossy(name) },
        ],
        (true, None) => seq![FsStepValue::Fail { error: "Invalid directory name"@ }],
        (false, Some(name)) => seq![FsStepValue::AddZipFile { name: utf8_lossy(name), path }],
        (false, None) => seq![FsStepValue::Fail { error: "Invalid source file name"@ }],
    }
}

/// The steps that add sources to a tar archive, one after the other.
pub open spec fn tar_items(paths: Seq<Seq<u8>>, statuses: Seq<PathStatus>) -> Seq<FsStepValue>
    decreases paths.len(),
{
    if paths.len() == 0 {
        Seq::empty()
    } else {
        tar_items(paths.drop_last(), statuses) + tar_item(
            paths.last(),
            statuses[paths.len() - 1],
        )
    }
}

/// The steps that add sources to a zip archive, one after the other.
pub open spec fn zip_items(paths: Seq<Seq<u8>>, statuses: Seq<PathStatus>) -> Seq<FsStepValue>
    decreases paths.len(),
{
    if paths.len() == 0 {
        Seq::empty()
    } else {
        zip_items(paths.drop_last(), statuses) + zip_item(
            paths.last(),
            statuses[paths.len() - 1],
        )
    }
}

/// The owner of a file, with its group where one is given, as `chown` takes them.
pub open spec fn owner_and_group(owner: Seq<char>, group: Option<Seq<char>>) -> Seq<char> {
    match group {
        Some(g) => owner + ":"@ + g,
        None => owner,
    }
}

/// The steps of an operation whose paths were looked up and looked at.
pub open spec fn plan(
    op: OperationValue,
    hosts: Seq<Seq<u8>>,
    statuses: Seq<PathStatus>,
) -> Seq<FsStepValue> {
    match op {
        OperationValue::List { .. } => seq![FsStepValue::ReadDirectory { path: hosts[0] }],
        OperationValue::Read { .. } => seq![FsStepValue::ReadText { path: hosts[0] }],
        OperationValue::Write { content, .. } => parent_made(hosts[0]) + seq![
            FsStepValue::WriteFile { path: hosts[0], content },
        ],
        OperationValue::Copy { .. } => parent_made(hosts[1]) + seq![
            FsStepValue::CopyFile { from: hosts[0], to: hosts[1] },
        ],
        OperationValue::CreateDirectory { .. } => seq![
            FsStepValue::CreateDirectories { path: hosts[0] },
        ],
        OperationValue::Delete { .. } => if statuses[0] == PathStatus::Directory {
            seq![FsStepValue::RemoveTree { path: hosts[0] }]
        } else {
            seq![FsStepValue::RemoveFile { path: hosts[0] }]
        },
        OperationValue::Rename { .. } => parent_made(hosts[1]) + seq![
            FsStepValue::Rename { from: hosts[0], to: hosts[1] },
        ],
        OperationValue::CreateArchive { compression, .. } => parent_made(hosts[0]) + seq![
            FsStepValue::BeginTar { path: hosts[0], compression: named_compression(compression) },
        ] + tar_items(hosts.skip(1), statuses) + seq![FsStepValue::FinishTar],
        OperationValue::ExtractArchive { archive, .. } => seq![
            FsStepValue::CreateDirectories { path: hosts[1] },
            FsStepValue::Unpack {
                path: hosts[0],
                compression: compression_of(lowercase(archive)),
                to: hosts[1],
            },
        ],
        OperationValue::CreateZip { .. } => parent_made(hosts[0]) + seq![
            FsStepValue::BeginZip { path: hosts[0] },
        ] + zip_items(hosts.skip(1), statuses) + seq![FsStepValue::FinishZip],
        OperationValue::ExtractZip { .. } => seq![
            FsStepValue::CreateDirectories { path: hosts[1] },
            FsStepValue::UnpackZip { path: hosts[0], to: hosts[1] },
        ],
        OperationValue::ChangeMode { permissions, .. } => seq![
            FsStepValue::RunCommand {
                program: "chmod"@,
                argument: permissions,
                path: hosts[0],
                complaint: "Failed to change permissions: "@,
            },
        ],
        OperationValue::ChangeOwner { owner, group, .. } => seq![
            FsStepValue::RunCommand {
                program: "chown"@,
                argument: owner_and_group(owner, group),
                path: hosts[0],
                complaint: "Failed to change ownership: "@,
            },
        ],
    }
}

/// What an operation reports when all its steps were taken, where it reports anything.
pub open spec fn report(op: OperationValue) -> Option<Seq<char>> {
    match op {
        OperationValue::CreateArchive { sources, archive, .. } => Some(
            "Archive created: "@ + archive + " ("@ + decimal(sources.len()) + " items)"@,
        ),
        OperationValue::ExtractArchive { dest, .. } => Some("Archive extracted to: "@ + dest),
        OperationValue::CreateZip { sources, zip } => Some(
            "Zip created: "@ + zip + " ("@ + decimal(sources.len()) + " items)"@,
        ),
        OperationValue::ExtractZip { dest, .. } => Some("Zip extracted to: "@ + dest),
        _ => None,
    }
}

/// An operation that reads, moves, packs or changes something is refused where that is
/// missing.
pub proof fn law_missing_paths_are_refused(op: OperationValue, i: int)
    requires
        0 < check_count(op),
    ensures
        refusal(op, i, PathStatus::Missing) is Some,
{
}

/// Whether a step names a path as a place where something is created, changed, removed or moved
/// away.
pub open spec fn writes_to(step: FsStepValue, place: Seq<u8>) -> bool {
    match step {
        FsStepValue::CreateDirectories { path } => place == path,
        FsStepValue::WriteFile { path, .. } => place == path,
        FsStepValue::CopyFile { to, .. } => place == to,
        FsStepValue::RemoveTree { path } => place == path,
        FsStepValue::RemoveFile { path } => place == path,
        FsStepValue::Rename { from, to } => place == from || place == to,
        FsStepValue::BeginTar { path, .. } => place == path,
        FsStepValue::Unpack { to, .. } => place == to,
        FsStepValue::BeginZip { path } => place == path,
        FsStepValue::UnpackZip { to, .. } => place == to,
        FsStepValue::RunCommand { path, .. } => place == path,
        _ => false,
    }
}

/// Whether a path is one of the given ones or the parent of one.
pub open spec fn is_or_holds_one_of(path: Seq<u8>, hosts: Seq<Seq<u8>>) -> bool {
    exists|k: int|
        0 <= k < hosts.len() && (path == #[trigger] hosts[k] || parent(hosts[k]) == Some(path))
}

/// Packing never writes: the steps that add sources to an archive change nothing besides it.
proof fn lemma_items_write_nothing(paths: Seq<Seq<u8>>, statuses: Seq<PathStatus>)
    ensures
        forall|i: int, place: Seq<u8>|
            0 <= i < tar_items(paths, statuses).len() ==> !#[trigger] writes_to(
                tar_items(paths, statuses)[i],
                place,
            ),
        forall|i: int, place: Seq<u8>|
            0 <= i < zip_items(paths, statuses).len() ==> !#[trigger] writes_to(
                zip_items(paths, statuses)[i],
                place,
            ),
    decreases paths.len(),
{
    if paths.len() > 0 {
        lemma_items_write_nothing(paths.drop_last(), statuses);
        let front = tar_items(paths.drop_last(), statuses);
        let item = tar_item(paths.last(), statuses[paths.len() - 1]);
        assert forall|i: int, place: Seq<u8>|
            0 <= i < tar_items(paths, statuses).len() implies !#[trigger] writes_to(
            tar_items(paths, statuses)[i],
            place,
        ) by {
            if i < front.len() {
                assert(tar_items(paths, statuses)[i] == front[i]);
                assert(!writes_to(front[i], place));
            } else {
                assert(tar_items(paths, statuses)[i] == item[i - front.len()]);
            }
        }
        let front = zip_items(paths.drop_last(), statuses);
        let item = zip_item(paths.last(), statuses[paths.len() - 1]);
        assert forall|i: int, place: Seq<u8>|
            0 <= i < zip_items(paths, statuses).len() implies !#[trigger] writes_to(
            zip_items(paths, statuses)[i],
            place,
        ) by {
            if i < front.len() {
                assert(zip_items(paths, statuses)[i] == front[i]);
                assert(!writes_to(front[i], place));
            } else {
                assert(zip_items(paths, statuses)[i] == item[i - front.len()]);
            }
        }
    }
}

/// An operation writes only where it was let: every path that a step of its plan names as a place
/// where something is created, changed, removed or moved away is one that was looked up for it,
/// or the directory that such a path is in.
pub proof fn law_plan_writes_looked_up_paths_only(
    op: OperationValue,
    hosts: Seq<Seq<u8>>,
    statuses: Seq<PathStatus>,
    i: int,
    place: Seq<u8>,
)
    requires
        hosts.len() == operation_paths(op).len(),
        statuses.len() == check_count(op),
        0 <= i < plan(op, hosts, statuses).len(),
        writes_to(plan(op, hosts, statuses)[i], place),
    ensures
        is_or_holds_one_of(place, hosts),
{
    let steps = plan(op, hosts, statuses);
    lemma_items_write_nothing(hosts.skip(1), statuses);
    assert(hosts[0] == hosts[0]);
    match op {
        OperationValue::CreateArchive { compression, .. } => {
            let head = parent_made(hosts[0]) + seq![
                FsStepValue::BeginTar {
                    path: hosts[0],
                    compression: named_compression(compression),
                },
            ];
            let items = tar_items(hosts.skip(1), statuses);
            if head.len() <= i < head.len() + items.len() {
                assert(steps[i] == items[i - head.len()]);
                assert(!writes_to(items[i - head.len()], place));
            } else if i < head.len() {
                assert(steps[i] == head[i]);
            }
        },
        OperationValue::CreateZip { .. } => {
            let head = parent_made(hosts[0]) + seq![FsStepValue::BeginZip { path: hosts[0] }];
            let items = zip_items(hosts.skip(1), statuses);
            if head.len() <= i < head.len() + items.len() {
                assert(steps[i] == items[i - head.len()]);
                assert(!writes_to(items[i - head.len()], place));
            } else if i < head.len() {
                assert(steps[i] == head[i]);
            }
        },
        _ => {
            if hosts.len() > 1 {
                assert(hosts[1] == hosts[1]);
            }
        },
    }
}

impl Operation {
    /// Whether the operation is about so many paths that there is one in the given place.
    pub fn has_path(&self, i: usize) -> (r: bool)
        ensures
            r == (i < operation_paths(self@).len()),
    {
        match self {
            Operation::Copy { .. } => i < 2,
            Operation::Rename { .. } => i < 2,
            Operation::ExtractArchive { .. } => i < 2,
            Operation::ExtractZip { .. } => i < 2,
            Operation::CreateArchive { sources, .. } => i <= sources.len(),
            Operation::CreateZip { sources, .. } => i <= sources.len(),
            _ => i < 1,
        }
    }

    /// The path in the given place among those that the operation is about.
    pub fn path_at(&self, i: usize) -> (r: &String)
        requires
            i < operation_paths(self@).len(),
        ensures
            r@ == operation_paths(self@)[i as int],
    {
        match self {
            Operation::List { path } => path,
            Operation::Read { path } => path,
            Operation::Write { path, .. } => path,
            Operation::Copy { source, dest } => if i == 0 {
                source
            } else {
                dest
            },
            Operation::CreateDirectory { path } => path,
            Operation::Delete { path } => path,
            Operation::Rename { old_path, new_path } => if i == 0 {
                old_path
            } else {
                new_path
            },
            Operation::CreateArchive { sources, archive, .. } => if i == 0 {
                archive
            } else {
                &sources[i - 1]
            },
            Operation::ExtractArchive { archive, dest } => if i == 0 {
                archive
            } else {
                dest
            },
            Operation::CreateZip { sources, zip } => if i == 0 {
                zip
            } else {
                &sources[i - 1]
            },
            Operation::ExtractZip { zip, dest } => if i == 0 {
                zip
            } else {
                dest
            },
            Operation::ChangeMode { path, .. } => path,
            Operation::ChangeOwner { path, .. } => path,
        }
    }

    /// Why the operation is refused before anything is looked up, where it is.
    pub fn refused_outright(&self) -> (r: Option<String>)
        ensures
            r.deep_view() == refused_outright(self@),
    {
        match self {
            Operation::CreateArchive { sources, .. } => if sources.len() == 0 {
                Some("No source paths provided".to_owned())
            } else {
                None
            },
            Operation::CreateZip { sources, .. } => if sources.len() == 0 {
                Some("No source paths provided".to_owned())
            } else {
                None
            },
            _ => None,
        }
    }

    /// The place of the first path that is looked at before anything is done.
    pub fn first_checked(&self) -> (r: usize)
        ensures
            r == first_checked(self@),
    {
        match self {
            Operation::CreateArchive { .. } => 1,
            Operation::CreateZip { .. } => 1,
            _ => 0,
        }
    }

    /// How many paths are looked at before anything is done.
    pub fn check_count(&self) -> (r: usize)
        ensures
            r == check_count(self@),
    {
        match self {
            Operation::Write { .. } => 0,
            Operation::CreateDirectory { .. } => 0,
            Operation::CreateArchive { sources, .. } => sources.len(),
            Operation::CreateZip { sources, .. } => sources.len(),
            _ => 1,
        }
    }

    /// Why the operation is refused because of what a checked path leads to, where it is.
    pub fn refusal(&self, i: usize, status: PathStatus) -> (r: Option<String>)
        requires
            i < check_count(self@),
        ensures
            r.deep_view() == refusal(self@, i as int, status),
    {
        let missing: bool = matches!(status, PathStatus::Missing);
        let file: bool = matches!(status, PathStatus::File);
        let directory: bool = matches!(status, PathStatus::Directory);
        match self {
            Operation::List { .. } => if missing {
                Some("Path does not exist".to_owned())
            } else if !directory {
                Some("Path is not a directory".to_owned())
            } else {
                None
            },
            Operation::Read { .. } => if missing {
                Some("File does not exist".to_owned())
            } else if !file {
                Some("Path is not a file".to_owned())
            } else {
                None
            },
            Operation::Copy { .. } => if missing {
                Some("Source path does not exist".to_owned())
            } else if !file {
                Some("Source path is not a file".to_owned())
            } else {
                None
            },
            Operation::Rename { .. } => if missing {
                Some("Source path does not exist".to_owned())
            } else {
                None
            },
            Operation::CreateArchive { sources, .. } => if missing {
                Some(concat2("Source path does not exist: ", sources[i].as_str()))
            } else {
                None
            },
            Operation::CreateZip { sources, .. } => if missing {
                Some(concat2("Source path does not exist: ", sources[i].as_str()))
            } else {
                None
            },
            Operation::ExtractArchive { .. } => if missing {
                Some("Archive does not exist".to_owned())
            } else {
                None
            },
            Operation::ExtractZip { .. } => if missing {
                Some("Zip file does not exist".to_owned())
            } else {
                None
            },
            Operation::Delete { .. } => if missing {
                Some("Path does not exist".to_owned())
            } else {
                None
            },
            Operation::ChangeMode { .. } => if missing {
                Some("Path does not exist".to_owned())
            } else {
                None
            },
            Operation::ChangeOwner { .. } => if missing {
                Some("Path does not exist".to_owned())
            } else {
                None
            },
            Operation::Write { .. } => None,
            Operation::CreateDirectory { .. } => None,
        }
    }

    /// Lays out the steps of the operation once its paths were looked up and looked at.
    pub fn plan(&self, hosts: &Vec<Vec<u8>>, statuses: &Vec<PathStatus>) -> (r: Vec<FsStep>)
        requires
            hosts@.len() == operation_paths(self@).len(),
            statuses@.len() == check_count(self@),
        ensures
            r.deep_view() == plan(self@, path_views(hosts@), statuses@),
    {
        match self {
            Operation::List { .. } => steps1(FsStep::ReadDirectory { path: copy_bytes(&hosts[0]) }),
            Operation::Read { .. } => steps1(FsStep::ReadText { path: copy_bytes(&hosts[0]) }),
            Operation::Write { content, .. } => {
                let mut r = make_parent(&hosts[0]);
                add_step(
                    &mut r,
                    FsStep::WriteFile { path: copy_bytes(&hosts[0]), content: copy_bytes(content) },
                );
                r
            },
            Operation::Copy { .. } => {
                let mut r = make_parent(&hosts[1]);
                add_step(
                    &mut r,
                    FsStep::CopyFile { from: copy_bytes(&hosts[0]), to: copy_bytes(&hosts[1]) },
                );
                r
            },
            Operation::CreateDirectory { .. } => steps1(
                FsStep::CreateDirectories { path: copy_bytes(&hosts[0]) },
            ),
            Operation::Delete { .. } => if matches!(statuses[0], PathStatus::Directory) {
                steps1(FsStep::RemoveTree { path: copy_bytes(&hosts[0]) })
            } else {
                steps1(FsStep::RemoveFile { path: copy_bytes(&hosts[0]) })
            },
            Operation::Rename { .. } => {
                let mut r = make_parent(&hosts[1]);
                add_step(
                    &mut r,
                    FsStep::Rename { from: copy_bytes(&hosts[0]), to: copy_bytes(&hosts[1]) },
                );
                r
            },
            Operation::CreateArchive { compression, .. } => {
                let mut r = make_parent(&hosts[0]);
                add_step(
                    &mut r,
                    FsStep::BeginTar {
                        path: copy_bytes(&hosts[0]),
                        compression: choose_compression(compression),
                    },
                );
                add_tar_items(&mut r, hosts, statuses);
                add_step(&mut r, FsStep::FinishTar);
                r
            },
            Operation::ExtractArchive { archive, .. } => {
                let lower = to_lowercase(archive.as_str());
                steps2(
                    FsStep::CreateDirectories { path: copy_bytes(&hosts[1]) },
                    FsStep::Unpack {
                        path: copy_bytes(&hosts[0]),
                        compression: detect_compression(lower.as_str()),
                        to: copy_bytes(&hosts[1]),
                    },
                )
            },
            Operation::CreateZip { .. } => {
                let mut r = make_parent(&hosts[0]);
                add_step(&mut r, FsStep::BeginZip { path: copy_bytes(&hosts[0]) });
                add_zip_items(&mut r, hosts, statuses);
                add_step(&mut r, FsStep::FinishZip);
                r
            },
            Operation::ExtractZip { .. } => steps2(
                FsStep::CreateDirectories { path: copy_bytes(&hosts[1]) },
                FsStep::UnpackZip { path: copy_bytes(&hosts[0]), to: copy_bytes(&hosts[1]) },
            ),
            Operation::ChangeMode { permissions, .. } => steps1(
                FsStep::RunCommand {
                    program: "chmod".to_owned(),
                    argument: permissions.clone(),
                    path: copy_bytes(&hosts[0]),
                    complaint: "Failed to change permissions: ".to_owned(),
                },
            ),
            Operation::ChangeOwner { owner, group, .. } => steps1(
                FsStep::RunCommand {
                    program: "chown".to_owned(),
                    argument: match group {
                        Some(g) => concat3(owner.as_str(), ":", g.as_str()),
                        None => owner.clone(),
                    },
                    path: copy_bytes(&hosts[0]),
                    complaint: "Failed to change ownership: ".to_owned(),
                },
            ),
        }
    }

    /// Says what the operation reports when all its steps were taken, where it reports
    /// anything.
    pub fn report(&self) -> (r: Option<String>)
        ensures
            r.deep_view() == report(self@),
    {
        match self {
            Operation::CreateArchive { sources, archive, .. } => Some(
                count_report("Archive created: ", archive.as_str(), sources.len()),
            ),
            Operation::ExtractArchive { dest, .. } => Some(
                concat2("Archive extracted to: ", dest.as_str()),
            ),
            Operation::CreateZip { sources, zip } => Some(
                count_report("Zip created: ", zip.as_str(), sources.len()),
            ),
            Operation::ExtractZip { dest, .. } => Some(concat2("Zip extracted to: ", dest.as_str())),
            _ => None,
        }
    }
}

/// A report that ends with a count of items.
fn count_report(what: &str, path: &str, count: usize) -> (r: String)
    ensures
        r@ == what@ + path@ + " ("@ + decimal(count as nat) + " items)"@,
{
    let n = decimal_text(count as u64);
    let mut r = concat3(what, path, " (");
    r.append(n.as_str());
    r.append(" items)");
    r
}

/// One step.
fn steps1(a: FsStep) -> (r: Vec<FsStep>)
    ensures
        r.deep_view() == seq![a.deep_view()],
{
    let mut r: Vec<FsStep> = Vec::new();
    r.push(a);
    assert(r.deep_view() =~= seq![a.deep_view()]);
    r
}

/// Two steps.
fn steps2(a: FsStep, b: FsStep) -> (r: Vec<FsStep>)
    ensures
        r.deep_view() == seq![a.deep_view(), b.deep_view()],
{
    let mut r: Vec<FsStep> = Vec::new();
    r.push(a);
    r.push(b);
    assert(r.deep_view() =~= seq![a.deep_view(), b.deep_view()]);
    r
}

/// Adds one step to others.
fn add_step(steps: &mut Vec<FsStep>, step: FsStep)
    ensures
        final(steps).deep_view() == old(steps).deep_view() + seq![step.deep_view()],
{
    let ghost before = steps.deep_view();
    steps.push(step);
    assert(steps.deep_view() =~= before + seq![step.deep_view()]);
}

/// Makes sure that a file can be put at `path`.
fn make_parent(path: &Vec<u8>) -> (r: Vec<FsStep>)
    ensures
        r.deep_view() == parent_made(path@),
{
    match parent_path(path) {
        Some(up) => {
            assert(up.deep_view() =~= up@);
            steps1(FsStep::CreateDirectories { path: up })
        },
        None => {
            let r: Vec<FsStep> = Vec::new();
            assert(r.deep_view() =~= Seq::<FsStepValue>::empty());
            r
        },
    }
}

/// How an archive is compressed that is asked for with the name of a compression.
pub fn choose_compression(name: &Option<String>) -> (r: ArchiveCompression)
    ensures
        r == named_compression(name.deep_view()),
{
    match name {
        Some(n) => if same_text(n.as_str(), "gzip") {
            ArchiveCompression::Gzip
        } else if same_text(n.as_str(), "bzip2") {
            ArchiveCompression::Bzip2
        } else {
            ArchiveCompression::Plain
        },
        None => ArchiveCompression::Plain,
    }
}

/// How an archive is compressed by what its path, in lower case, ends with.
pub fn detect_compression(lower: &str) -> (r: ArchiveCompression)
    ensures
        r == compression_of(lower@),
{
    if ends_with(lower, ".tar.gz") || ends_with(lower, ".tgz") {
        ArchiveCompression::Gzip
    } else if ends_with(lower, ".tar.bz2") || ends_with(lower, ".tbz2") {
        ArchiveCompression::Bzip2
    } else {
        ArchiveCompression::Plain
    }
}

/// Adds one source to a tar archive, under its own name.
fn add_tar_item(steps: &mut Vec<FsStep>, path: &Vec<u8>, status: PathStatus)
    ensures
        final(steps).deep_view() == old(steps).deep_view() + tar_item(path@, status),
{
    let ghost before = steps.deep_view();
    let directory: bool = matches!(status, PathStatus::Directory);
    match path_file_name(path) {
        Some(name) => {
            assert(name.deep_view() =~= name@);
            if directory {
                add_step(steps, FsStep::AppendTree { name, path: copy_bytes(path) });
            } else {
                add_step(steps, FsStep::AppendFile { name, path: copy_bytes(path) });
            }
        },
        None => if directory {
            add_step(steps, FsStep::Fail { error: "Invalid directory name".to_owned() });
        } else {
            add_step(steps, FsStep::OpenFile { path: copy_bytes(path) });
            add_step(steps, FsStep::Fail { error: "Invalid source file name".to_owned() });
            assert(steps.deep_view() =~= before + tar_item(path@, status));
        },
    }
}

/// Adds one source to a zip archive, under its own name.
fn add_zip_item(steps: &mut Vec<FsStep>, path: &Vec<u8>, status: PathStatus)
    ensures
        final(steps).deep_view() == old(steps).deep_view() + zip_item(path@, status),
{
    let ghost before = steps.deep_view();
    let directory: bool = matches!(status, PathStatus::Directory);
    match path_file_name(path) {
        Some(bytes) => {
            assert(bytes.deep_view() =~= bytes@);
            let name = from_utf8_lossy(bytes.as_slice());
            if directory {
                add_step(steps, FsStep::AddZipDirectory { name: name.clone() });
                add_step(
                    steps,
                    FsStep::AddZipTree { base: copy_bytes(path), path: copy_bytes(path), prefix: name },
                );
                assert(steps.deep_view() =~= before + zip_item(path@, status));
            } else {
                add_step(steps, FsStep::AddZipFile { name, path: copy_bytes(path) });
            }
        },
        None => if directory {
            add_step(steps, FsStep::Fail { error: "Invalid directory name".to_owned() });
        } else {
            add_step(steps, FsStep::Fail { error: "Invalid source file name".to_owned() });
        },
    }
}

/// Adds the sources to a tar archive: all paths but the first.
fn add_tar_items(steps: &mut Vec<FsStep>, hosts: &Vec<Vec<u8>>, statuses: &Vec<PathStatus>)
    requires
        hosts@.len() == statuses@.len() + 1,
    ensures
        final(steps).deep_view() == old(steps).deep_view() + tar_items(
            path_views(hosts@).skip(1),
            statuses@,
        ),
{
    let ghost before = steps.deep_view();
    let ghost paths = path_views(hosts@).skip(1);
    let mut i: usize = 0;
    assert(steps.deep_view() =~= before + tar_items(paths.take(0), statuses@));
    while i < statuses.len()
        invariant
            i <= statuses.len(),
            hosts@.len() == statuses.len() + 1,
            paths == path_views(hosts@).skip(1),
            steps.deep_view() == before + tar_items(paths.take(i as int), statuses@),
        decreases statuses.len() - i,
    {
        let ghost longer = paths.take(i + 1);
        assert(longer.drop_last() =~= paths.take(i as int));
        assert(longer.last() == hosts@[i + 1]@);
        add_tar_item(steps, &hosts[i + 1], statuses[i]);
        assert(steps.deep_view() =~= before + tar_items(longer, statuses@));
        i = i + 1;
    }
    assert(paths.take(i as int) =~= paths);
}

/// Adds the sources to a zip archive: all paths but the first.
fn add_zip_items(steps: &mut Vec<FsStep>, hosts: &Vec<Vec<u8>>, statuses: &Vec<PathStatus>)
    requires
        hosts@.len() == statuses@.len() + 1,
    ensures
        final(steps).deep_view() == old(steps).deep_view() + zip_items(
            path_views(hosts@).skip(1),
            statuses@,
        ),
{
    let ghost before = steps.deep_view();
    let ghost paths = path_views(hosts@).skip(1);
    let mut i: usize = 0;
    assert(steps.deep_view() =~= before + zip_items(paths.take(0), statuses@));
    while i < statuses.len()
        invariant
            i <= statuses.len(),
            hosts@.len() == statuses.len() + 1,
            paths == path_views(hosts@).skip(1),
            steps.deep_view() == before + zip_items(paths.take(i as int), statuses@),
        decreases statuses.len() - i,
    {
        let ghost longer = paths.take(i + 1);
        assert(longer.drop_last() =~= paths.take(i as int));
        assert(longer.last() == hosts@[i + 1]@);
        add_zip_item(steps, &hosts[i + 1], statuses[i]);
        assert(steps.deep_view() =~= before + zip_items(longer, statuses@));
        i = i + 1;
    }
    assert(paths.take(i as int) =~= paths);
}

/// What was read of one entry of a directory that goes into a zip archive.
#[derive(Debug, PartialEq, Eq)]
pub struct TreeEntry {
    pub path: Vec<u8>,
    pub is_directory: bool,
}

/// The steps that add one entry of a directory below `base` to a zip archive: it is named by
/// the prefix and its path behind `base`.
pub open spec fn zip_tree_item(
    base: Seq<u8>,
    prefix: Seq<char>,
    path: Seq<u8>,
    is_directory: bool,
) -> Seq<FsStepValue> {
    match relative_to(path, base) {
        None => seq![FsStepValue::Fail { error: "Invalid path"@ }],
        Some(relative) => {
            let name = prefix + "/"@ + utf8_lossy(relative);
            if is_directory {
                seq![
                    FsStepValue::AddZipDirectory { name },
                    FsStepValue::AddZipTree { base, path, prefix },
                ]
            } else {
                seq![FsStepValue::AddZipFile { name, path }]
            }
        },
    }
}

/// The steps that add the entries of a directory below `base` to a zip archive.
pub open spec fn zip_tree_items(
    base: Seq<u8>,
    prefix: Seq<char>,
    entries: Seq<TreeEntry>,
) -> Seq<FsStepValue>
    decreases entries.len(),
{
    if entries.len() == 0 {
        Seq::empty()
    } else {
        zip_tree_items(base, prefix, entries.drop_last()) + zip_tree_item(
            base,
            prefix,
            entries.last().path@,
            entries.last().is_directory,
        )
    }
}

/// A zip archive keeps the tree: whatever lies below a directory goes in under the name of the
/// directory and its path inside it.
pub proof fn law_zip_keeps_tree(
    base: Seq<u8>,
    prefix: Seq<char>,
    inside: Seq<u8>,
    is_directory: bool,
)
    requires
        0 < base.len(),
        is_plain(inside),
    ensures
        zip_tree_item(base, prefix, joined(base, inside), is_directory)[0] == if is_directory {
            FsStepValue::AddZipDirectory { name: prefix + "/"@ + utf8_lossy(inside) }
        } else {
            FsStepValue::AddZipFile {
                name: prefix + "/"@ + utf8_lossy(inside),
                path: joined(base, inside),
            }
        },
{
    law_relative_undoes_join(base, inside);
}

/// Lays out the steps that add the entries of a directory below `base` to a zip archive. What
/// is in the directories among them is added where they are met.
pub fn zip_dir_with_prefix(base: &Vec<u8>, entries: &Vec<TreeEntry>, prefix: &str) -> (r: Vec<
    FsStep,
>)
    ensures
        r.deep_view() == zip_tree_items(base@, prefix@, entries@),
{
    let mut steps: Vec<FsStep> = Vec::new();
    let mut i: usize = 0;
    assert(steps.deep_view() =~= zip_tree_items(base@, prefix@, entries@.take(0)));
    while i < entries.len()
        invariant
            i <= entries.len(),
            steps.deep_view() == zip_tree_items(base@, prefix@, entries@.take(i as int)),
        decreases entries.len() - i,
    {
        let ghost before = steps.deep_view();
        let ghost longer = entries@.take(i + 1);
        assert(longer.drop_last() =~= entries@.take(i as int));
        let entry = &entries[i];
        assert(longer.last() == *entry);
        match relative_path(&entry.path, base) {
            None => {
                add_step(&mut steps, FsStep::Fail { error: "Invalid path".to_owned() });
            },
            Some(relative) => {
                assert(relative.deep_view() =~= relative@);
                let tail = from_utf8_lossy(relative.as_slice());
                let name = concat3(prefix, "/", tail.as_str());
                if entry.is_directory {
                    add_step(&mut steps, FsStep::AddZipDirectory { name });
                    add_step(
                        &mut steps,
                        FsStep::AddZipTree {
                            base: copy_bytes(base),
                            path: copy_bytes(&entry.path),
                            prefix: prefix.to_owned(),
                        },
                    );
                } else {
                    add_step(
                        &mut steps,
                        FsStep::AddZipFile { name, path: copy_bytes(&entry.path) },
                    );
                }
            },
        }
        assert(steps.deep_view() =~= zip_tree_items(base@, prefix@, longer));
        i = i + 1;
    }
    assert(entries@.take(i as int) =~= entries@);
    steps
}

/// The directories to be made for an entry of a zip archive that is unpacked into `dest`, and
/// the file to be written, unless the entry is a directory.
pub open spec fn unzip_entry(dest: Seq<u8>, name: Seq<char>, is_directory: bool) -> (
    Seq<FsStepValue>,
    Option<Seq<u8>>,
) {
    let out = joined(dest, encode_utf8(name));
    if is_directory {
        (seq![FsStepValue::CreateDirectories { path: out }], None)
    } else {
        (parent_made(out), Some(out))
    }
}

/// Says where an entry of a zip archive goes that is unpacked into `dest`.
pub fn place_zip_entry(dest: &Vec<u8>, name: &str, is_directory: bool) -> (r: (
    Vec<FsStep>,
    Option<Vec<u8>>,
))
    ensures
        r.0.deep_view() == unzip_entry(dest@, name@, is_directory).0,
        path_bytes(r.1) == unzip_entry(dest@, name@, is_directory).1,
{
    let out = join_path(dest, &bytes_of(name));
    if is_directory {
        (steps1(FsStep::CreateDirectories { path: out }), None)
    } else {
        (make_parent(&out), Some(out))
    }
}

/// Judges a program that was run: where it did not succeed, what it complained of is the
/// error, behind the given words.
pub fn command_result(succeeded: bool, stderr: &Vec<u8>, complaint: &str) -> (r: Result<
    (),
    String,
>)
    ensures
        r is Ok <==> succeeded,
        r is Err ==> r->Err_0@ == complaint@ + utf8_lossy(stderr@),
{
    if succeeded {
        Ok(())
    } else {
        let said = from_utf8_lossy(stderr.as_slice());
        Err(concat2(complaint, said.as_str()))
    }
}

} // verus!
