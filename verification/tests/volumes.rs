use lightd::file_plan::{
    choose_compression, command_result, detect_compression, place_zip_entry, zip_dir_with_prefix,
    ArchiveCompression, FsStep, PathStatus, TreeEntry,
};
use lightd::filesystem_direct::{FileJob, FileQuery, FilesystemManagerDirect};
use lightd::volume_path::{LookupOutcome, VolumeLookup};

fn bytes(path: &str) -> Vec<u8> {
    path.as_bytes().to_vec()
}

fn manager() -> FilesystemManagerDirect {
    FilesystemManagerDirect::new("/srv/volumes".to_string())
}

/// A host on which the given paths exist and links resolve as given, but for broken ones.
struct Host {
    present: Vec<(&'static str, PathStatus)>,
    links: Vec<(&'static str, &'static str)>,
    broken: Vec<&'static str>,
}

impl Host {
    fn status(&self, path: &[u8]) -> PathStatus {
        for (p, s) in &self.present {
            if p.as_bytes() == path {
                return *s;
            }
        }
        PathStatus::Missing
    }

    fn is_broken(&self, path: &[u8]) -> bool {
        self.broken.iter().any(|p| p.as_bytes() == path)
    }

    fn resolve(&self, path: &[u8]) -> Option<Vec<u8>> {
        for (from, to) in &self.links {
            if from.as_bytes() == path {
                return Some(bytes(to));
            }
        }
        match self.status(path) {
            PathStatus::Missing => None,
            _ => Some(path.to_vec()),
        }
    }

    fn run(&self, job: FileJob) -> FileQuery {
        let mut job = job;
        loop {
            match job.query() {
                FileQuery::Exists { path } => {
                    let present =
                        self.status(&path) != PathStatus::Missing || self.is_broken(&path);
                    job = job.told_exists(present);
                }
                FileQuery::Resolve { path, root } => {
                    let a = self.resolve(&path);
                    let b = self.resolve(&root);
                    job = job.told_resolved(a, b);
                }
                FileQuery::Status { path } => {
                    let s = self.status(&path);
                    job = job.told_status(s);
                }
                other => return other,
            }
        }
    }
}

fn host() -> Host {
    Host {
        present: vec![
            ("/", PathStatus::Directory),
            ("/srv", PathStatus::Directory),
            ("/srv/volumes", PathStatus::Directory),
            ("/srv/volumes/c1", PathStatus::Directory),
            ("/srv/volumes/c1/world", PathStatus::Directory),
            ("/srv/volumes/c1/server.jar", PathStatus::File),
            ("/srv/volumes/c1/pipe", PathStatus::Other),
            ("/srv/volumes/c1/out", PathStatus::Directory),
            ("/srv/volumes/c1/a.tar.gz", PathStatus::File),
            ("/srv/volumes/c1/a.zip", PathStatus::File),
            ("/srv/volumes/c1/..", PathStatus::Directory),
        ],
        links: vec![
            ("/srv/volumes/c1/out", "/etc"),
            ("/srv/volumes/c1/..", "/srv/volumes"),
        ],
        broken: vec!["/srv/volumes/c1/lost"],
    }
}

fn refused(error: &str) -> FileQuery {
    FileQuery::Refuse { error: error.to_string() }
}

fn perform(steps: Vec<FsStep>) -> FileQuery {
    FileQuery::Perform { steps, report: None }
}

fn reported(steps: Vec<FsStep>, report: &str) -> FileQuery {
    FileQuery::Perform { steps, report: Some(report.to_string()) }
}

#[test]
fn paths_are_looked_up_below_the_volume() {
    for asked in ["a/b", "/a/b", "/home/container/a/b", "//a/b", "/home/container//a/b"] {
        assert_eq!(
            manager().get_volume_path("c1", asked),
            VolumeLookup::Probing {
                root: bytes("/srv/volumes/c1"),
                full: bytes("/srv/volumes/c1/a/b"),
                target: bytes("/srv/volumes/c1/a/b"),
                current: bytes("/srv/volumes/c1/a/b"),
            }
        );
    }
    for asked in ["", "/", "/home/container", "/home/container/"] {
        assert_eq!(
            manager().get_volume_path("c1", asked),
            VolumeLookup::Probing {
                root: bytes("/srv/volumes/c1"),
                full: bytes("/srv/volumes/c1"),
                target: bytes("/srv/volumes/c1"),
                current: bytes("/srv/volumes/c1"),
            }
        );
    }
}

#[test]
fn the_mount_point_is_taken_off_once() {
    let full = |asked: &str| match manager().get_volume_path("c1", asked) {
        VolumeLookup::Probing { full, .. } => String::from_utf8(full).unwrap(),
        other => panic!("{:?}", other),
    };
    assert_eq!(
        full("/home/container/home/container/x"),
        "/srv/volumes/c1/home/container/x"
    );
    assert_eq!(
        full("/home/container/home/container"),
        "/srv/volumes/c1/home/container"
    );
    assert_eq!(full("/home/containerX/y"), "/srv/volumes/c1/home/containerX/y");
    assert_eq!(full("//home/container/x"), "/srv/volumes/c1/home/container/x");
    assert_eq!(full("home/container/x"), "/srv/volumes/c1/home/container/x");
}

#[test]
fn lookups_climb_to_the_deepest_existing_part() {
    let lookup = manager().get_volume_path("c1", "new/deep/file");
    let lookup = lookup.probed(false);
    let lookup = lookup.probed(false);
    let lookup = lookup.probed(false);
    assert_eq!(
        lookup,
        VolumeLookup::Probing {
            root: bytes("/srv/volumes/c1"),
            full: bytes("/srv/volumes/c1/new/deep/file"),
            target: bytes("/srv/volumes/c1/new/deep/file"),
            current: bytes("/srv/volumes/c1"),
        }
    );
    let lookup = lookup.probed(true);
    assert_eq!(
        lookup,
        VolumeLookup::Resolving {
            root: bytes("/srv/volumes/c1"),
            full: bytes("/srv/volumes/c1/new/deep/file"),
            target: bytes("/srv/volumes/c1/new/deep/file"),
            checked: bytes("/srv/volumes/c1"),
        }
    );
    assert_eq!(
        lookup.resolved(Some(bytes("/data/c1")), Some(bytes("/data/c1"))),
        LookupOutcome::Accepted { path: bytes("/srv/volumes/c1/new/deep/file") }
    );
}

#[test]
fn lookups_stop_where_there_is_no_parent() {
    let mut lookup = manager().get_volume_path("c1", "x");
    for _ in 0..4 {
        lookup = lookup.probed(false);
    }
    assert_eq!(
        lookup,
        VolumeLookup::Probing {
            root: bytes("/srv/volumes/c1"),
            full: bytes("/srv/volumes/c1/x"),
            target: bytes("/srv/volumes/c1/x"),
            current: bytes("/"),
        }
    );
    let lookup = lookup.probed(false);
    assert_eq!(
        lookup.resolved(None, None),
        LookupOutcome::Refused { error: "Path traversal attempt detected".to_string() }
    );
}

#[test]
fn parts_that_do_not_resolve_are_refused() {
    let escape = LookupOutcome::Refused { error: "Path traversal attempt detected".to_string() };
    let lookup = || manager().get_volume_path("c1", "x").probed(true);
    assert_eq!(lookup().resolved(None, None), escape);
    assert_eq!(lookup().resolved(None, Some(bytes("/srv/volumes/c1"))), escape);
    // A volume that does not resolve counts as it is written.
    assert_eq!(
        lookup().resolved(Some(bytes("/srv/volumes/c1/x")), None),
        LookupOutcome::Accepted { path: bytes("/srv/volumes/c1/x") }
    );
    assert_eq!(lookup().resolved(Some(bytes("/srv/volumes/c2/x")), None), escape);
}

#[test]
fn links_that_lead_nowhere_are_refused() {
    let h = host();
    let m = manager();
    let escape = refused("Path traversal attempt detected");
    assert_eq!(h.run(m.write_file("c1", "lost", "y")), escape);
    assert_eq!(h.run(m.write_file("c1", "lost/x", "y")), escape);
    assert_eq!(h.run(m.create_directory("c1", "lost/a/b")), escape);
    assert_eq!(h.run(m.rename("c1", "server.jar", "lost")), escape);
    assert_eq!(h.run(m.write_file("c1", "nope/../lost", "y")), escape);
}

#[test]
fn parents_of_what_is_missing_are_taken_out() {
    let lookup = manager().get_volume_path("c1", "a/../b/../c");
    let lookup = (0..5).fold(lookup, |l, _| l.probed(false)).probed(true);
    let next = VolumeLookup::Probing {
        root: bytes("/srv/volumes/c1"),
        full: bytes("/srv/volumes/c1/a/../b/../c"),
        target: bytes("/data/c1/b/../c"),
        current: bytes("/data/c1/b/../c"),
    };
    assert_eq!(
        lookup.resolved(Some(bytes("/data/c1")), Some(bytes("/data/c1"))),
        LookupOutcome::Pending { lookup: next }
    );
}

#[test]
fn lookups_that_did_not_ask_go_on() {
    let lookup = manager().get_volume_path("c1", "x");
    assert_eq!(
        lookup.resolved(None, None),
        LookupOutcome::Pending { lookup: manager().get_volume_path("c1", "x") }
    );
    let resolving = manager().get_volume_path("c1", "x").probed(true);
    assert_eq!(resolving.probed(false), manager().get_volume_path("c1", "x").probed(true));
}

#[test]
fn parts_that_are_missing_may_lead_back_up_within_the_volume() {
    let h = host();
    let m = manager();
    let escape = refused("Path traversal attempt detected");
    assert_eq!(
        h.run(m.write_file("c1", "nope/../x", "y")),
        perform(vec![
            FsStep::CreateDirectories { path: bytes("/srv/volumes/c1/nope/..") },
            FsStep::WriteFile {
                path: bytes("/srv/volumes/c1/nope/../x"),
                content: bytes("y"),
            },
        ])
    );
    assert_eq!(
        h.run(m.create_directory("c1", "world/new/..")),
        perform(vec![FsStep::CreateDirectories { path: bytes("/srv/volumes/c1/world/new/..") }])
    );
    assert_eq!(h.run(m.write_file("c1", "nope/../../other/x", "y")), escape);
    assert_eq!(h.run(m.rename("c1", "server.jar", "nope/../../c2/server.jar")), escape);
    assert_eq!(h.run(m.write_file("c1", "nope/../out/passwd", "y")), escape);
    assert_eq!(h.run(m.write_file("c1", "a/b/../../../../../etc/x", "y")), escape);
    // A name that merely begins with dots is a name.
    assert_eq!(
        h.run(m.create_directory("c1", "nope/..x/...")),
        perform(vec![FsStep::CreateDirectories { path: bytes("/srv/volumes/c1/nope/..x/...") }])
    );
    // What exists is resolved.
    let mut wide = host();
    wide.present.push(("/srv/volumes/c1/world/../server.jar", PathStatus::File));
    wide.links.push(("/srv/volumes/c1/world/../server.jar", "/srv/volumes/c1/server.jar"));
    assert_eq!(
        wide.run(m.get_file_content("c1", "world/../server.jar")),
        perform(vec![FsStep::ReadText { path: bytes("/srv/volumes/c1/world/../server.jar") }])
    );
}

#[test]
fn paths_out_of_the_volume_are_refused() {
    let h = host();
    let m = manager();
    let escape = refused("Path traversal attempt detected");
    assert_eq!(h.run(m.get_file_content("c1", "out/passwd")), escape);
    assert_eq!(h.run(m.list_directory("c1", "..")), escape);
    assert_eq!(h.run(m.write_file("c1", "../c2/x", "y")), escape);
    assert_eq!(h.run(m.copy_file("c1", "server.jar", "out/x")), escape);
    assert_eq!(
        h.run(m.create_zip("c1", &vec!["world".to_string(), "out".to_string()], "w.zip")),
        escape
    );
}

#[test]
fn directories_are_listed() {
    let h = host();
    let m = manager();
    assert_eq!(
        h.run(m.list_directory("c1", "/home/container/world")),
        perform(vec![FsStep::ReadDirectory { path: bytes("/srv/volumes/c1/world") }])
    );
    assert_eq!(h.run(m.list_directory("c1", "nowhere")), refused("Path does not exist"));
    assert_eq!(h.run(m.list_directory("c1", "server.jar")), refused("Path is not a directory"));
}

#[test]
fn files_are_read() {
    let h = host();
    let m = manager();
    assert_eq!(
        h.run(m.get_file_content("c1", "server.jar")),
        perform(vec![FsStep::ReadText { path: bytes("/srv/volumes/c1/server.jar") }])
    );
    assert_eq!(h.run(m.get_file_content("c1", "nowhere")), refused("File does not exist"));
    assert_eq!(h.run(m.get_file_content("c1", "world")), refused("Path is not a file"));
    assert_eq!(h.run(m.get_file_content("c1", "pipe")), refused("Path is not a file"));
}

#[test]
fn files_are_written_with_their_directories() {
    let h = host();
    let m = manager();
    let steps = |content: &[u8]| {
        perform(vec![
            FsStep::CreateDirectories { path: bytes("/srv/volumes/c1/new") },
            FsStep::WriteFile {
                path: bytes("/srv/volumes/c1/new/a.txt"),
                content: content.to_vec(),
            },
        ])
    };
    assert_eq!(h.run(m.write_file("c1", "new/a.txt", "grüße")), steps("grüße".as_bytes()));
    assert_eq!(
        h.run(m.write_file_bytes("c1", "new/a.txt", &vec![0, 255])),
        steps(&[0, 255])
    );
}

#[test]
fn files_are_copied() {
    let h = host();
    let m = manager();
    assert_eq!(
        h.run(m.copy_file("c1", "server.jar", "backup/server.jar")),
        perform(vec![
            FsStep::CreateDirectories { path: bytes("/srv/volumes/c1/backup") },
            FsStep::CopyFile {
                from: bytes("/srv/volumes/c1/server.jar"),
                to: bytes("/srv/volumes/c1/backup/server.jar"),
            },
        ])
    );
    assert_eq!(h.run(m.copy_file("c1", "nowhere", "x")), refused("Source path does not exist"));
    assert_eq!(h.run(m.copy_file("c1", "world", "x")), refused("Source path is not a file"));
}

#[test]
fn directories_are_created() {
    assert_eq!(
        host().run(manager().create_directory("c1", "a/b")),
        perform(vec![FsStep::CreateDirectories { path: bytes("/srv/volumes/c1/a/b") }])
    );
}

#[test]
fn files_and_directories_are_deleted() {
    let h = host();
    let m = manager();
    assert_eq!(
        h.run(m.delete("c1", "world")),
        perform(vec![FsStep::RemoveTree { path: bytes("/srv/volumes/c1/world") }])
    );
    assert_eq!(
        h.run(m.delete("c1", "server.jar")),
        perform(vec![FsStep::RemoveFile { path: bytes("/srv/volumes/c1/server.jar") }])
    );
    assert_eq!(h.run(m.delete("c1", "nowhere")), refused("Path does not exist"));
}

#[test]
fn files_and_directories_are_moved() {
    let h = host();
    let m = manager();
    assert_eq!(
        h.run(m.rename("c1", "world", "old/world")),
        perform(vec![
            FsStep::CreateDirectories { path: bytes("/srv/volumes/c1/old") },
            FsStep::Rename {
                from: bytes("/srv/volumes/c1/world"),
                to: bytes("/srv/volumes/c1/old/world"),
            },
        ])
    );
    assert_eq!(h.run(m.rename("c1", "nowhere", "x")), refused("Source path does not exist"));
}

#[test]
fn archives_are_created() {
    let h = host();
    let m = manager();
    let sources = vec!["world".to_string(), "/server.jar".to_string()];
    let steps = |compression: ArchiveCompression| {
        reported(
            vec![
                FsStep::CreateDirectories { path: bytes("/srv/volumes/c1") },
                FsStep::BeginTar { path: bytes("/srv/volumes/c1/b.tar"), compression },
                FsStep::AppendTree {
                    name: bytes("world"),
                    path: bytes("/srv/volumes/c1/world"),
                },
                FsStep::AppendFile {
                    name: bytes("server.jar"),
                    path: bytes("/srv/volumes/c1/server.jar"),
                },
                FsStep::FinishTar,
            ],
            "Archive created: b.tar (2 items)",
        )
    };
    let make = |compression: Option<&str>| {
        h.run(m.create_archive("c1", &sources, "b.tar", compression.map(|c| c.to_string())))
    };
    assert_eq!(make(None), steps(ArchiveCompression::Plain));
    assert_eq!(make(Some("gzip")), steps(ArchiveCompression::Gzip));
    assert_eq!(make(Some("bzip2")), steps(ArchiveCompression::Bzip2));
    assert_eq!(make(Some("xz")), steps(ArchiveCompression::Plain));
}

#[test]
fn archives_need_sources_that_exist() {
    let h = host();
    let m = manager();
    assert_eq!(
        h.run(m.create_archive("c1", &Vec::new(), "b.tar", None)),
        refused("No source paths provided")
    );
    assert_eq!(h.run(m.create_zip("c1", &Vec::new(), "b.zip")), refused("No source paths provided"));
    let sources = vec!["world".to_string(), "nowhere".to_string(), "gone".to_string()];
    assert_eq!(
        h.run(m.create_archive("c1", &sources, "b.tar", None)),
        refused("Source path does not exist: nowhere")
    );
    assert_eq!(
        h.run(m.create_zip("c1", &sources, "b.zip")),
        refused("Source path does not exist: nowhere")
    );
}

#[test]
fn archives_cannot_hold_what_has_no_name() {
    let mut h = host();
    h.present.push(("/srv/volumes/c1/world/..", PathStatus::Directory));
    h.links.push(("/srv/volumes/c1/world/..", "/srv/volumes/c1"));
    let sources = vec!["world/..".to_string()];
    let m = manager();
    match h.run(m.create_archive("c1", &sources, "b.tar", None)) {
        FileQuery::Perform { steps, .. } => assert_eq!(
            steps[2],
            FsStep::Fail { error: "Invalid directory name".to_string() }
        ),
        other => panic!("{:?}", other),
    }
    h.present.pop();
    h.present.push(("/srv/volumes/c1/world/..", PathStatus::Other));
    match h.run(m.create_archive("c1", &sources, "b.tar", None)) {
        FileQuery::Perform { steps, .. } => {
            assert_eq!(steps[2], FsStep::OpenFile { path: bytes("/srv/volumes/c1/world/..") });
            assert_eq!(
                steps[3],
                FsStep::Fail { error: "Invalid source file name".to_string() }
            );
        }
        other => panic!("{:?}", other),
    }
    match h.run(m.create_zip("c1", &sources, "b.zip")) {
        FileQuery::Perform { steps, .. } => assert_eq!(
            steps[2],
            FsStep::Fail { error: "Invalid source file name".to_string() }
        ),
        other => panic!("{:?}", other),
    }
}

#[test]
fn archives_are_extracted() {
    let h = host();
    let m = manager();
    assert_eq!(
        h.run(m.extract_archive("c1", "a.tar.gz", "dest")),
        reported(
            vec![
                FsStep::CreateDirectories { path: bytes("/srv/volumes/c1/dest") },
                FsStep::Unpack {
                    path: bytes("/srv/volumes/c1/a.tar.gz"),
                    compression: ArchiveCompression::Gzip,
                    to: bytes("/srv/volumes/c1/dest"),
                },
            ],
            "Archive extracted to: dest",
        )
    );
    assert_eq!(h.run(m.extract_archive("c1", "b.tar", "dest")), refused("Archive does not exist"));
}

#[test]
fn compression_is_known_by_name() {
    assert_eq!(detect_compression("x.tar.gz"), ArchiveCompression::Gzip);
    assert_eq!(detect_compression("x.tgz"), ArchiveCompression::Gzip);
    assert_eq!(detect_compression("x.tar.bz2"), ArchiveCompression::Bzip2);
    assert_eq!(detect_compression("x.tbz2"), ArchiveCompression::Bzip2);
    assert_eq!(detect_compression("x.tar"), ArchiveCompression::Plain);
    assert_eq!(detect_compression("x.gz"), ArchiveCompression::Plain);
    assert_eq!(choose_compression(&Some("Gzip".to_string())), ArchiveCompression::Plain);
    let h = Host {
        present: vec![
            ("/srv/volumes/c1", PathStatus::Directory),
            ("/srv/volumes/c1/X.TGZ", PathStatus::File),
        ],
        links: vec![],
        broken: vec![],
    };
    match h.run(manager().extract_archive("c1", "X.TGZ", "")) {
        FileQuery::Perform { steps, .. } => assert_eq!(
            steps[1],
            FsStep::Unpack {
                path: bytes("/srv/volumes/c1/X.TGZ"),
                compression: ArchiveCompression::Gzip,
                to: bytes("/srv/volumes/c1"),
            }
        ),
        other => panic!("{:?}", other),
    }
}

#[test]
fn zips_are_created() {
    let sources = vec!["world".to_string(), "server.jar".to_string()];
    assert_eq!(
        host().run(manager().create_zip("c1", &sources, "sub/b.zip")),
        reported(
            vec![
                FsStep::CreateDirectories { path: bytes("/srv/volumes/c1/sub") },
                FsStep::BeginZip { path: bytes("/srv/volumes/c1/sub/b.zip") },
                FsStep::AddZipDirectory { name: "world".to_string() },
                FsStep::AddZipTree {
                    base: bytes("/srv/volumes/c1/world"),
                    path: bytes("/srv/volumes/c1/world"),
                    prefix: "world".to_string(),
                },
                FsStep::AddZipFile {
                    name: "server.jar".to_string(),
                    path: bytes("/srv/volumes/c1/server.jar"),
                },
                FsStep::FinishZip,
            ],
            "Zip created: sub/b.zip (2 items)",
        )
    );
}

#[test]
fn trees_are_zipped_with_their_prefix() {
    let base = bytes("/srv/volumes/c1/world");
    let entries = vec![
        TreeEntry { path: bytes("/srv/volumes/c1/world/region"), is_directory: true },
        TreeEntry { path: bytes("/srv/volumes/c1/world/level.dat"), is_directory: false },
        TreeEntry { path: bytes("/srv/elsewhere"), is_directory: false },
    ];
    assert_eq!(
        zip_dir_with_prefix(&base, &entries, "world"),
        vec![
            FsStep::AddZipDirectory { name: "world/region".to_string() },
            FsStep::AddZipTree {
                base: base.clone(),
                path: bytes("/srv/volumes/c1/world/region"),
                prefix: "world".to_string(),
            },
            FsStep::AddZipFile {
                name: "world/level.dat".to_string(),
                path: bytes("/srv/volumes/c1/world/level.dat"),
            },
            FsStep::Fail { error: "Invalid path".to_string() },
        ]
    );
    let deeper = vec![TreeEntry {
        path: bytes("/srv/volumes/c1/world/region/r.0"),
        is_directory: false,
    }];
    assert_eq!(
        zip_dir_with_prefix(&base, &deeper, "world"),
        vec![FsStep::AddZipFile {
            name: "world/region/r.0".to_string(),
            path: bytes("/srv/volumes/c1/world/region/r.0"),
        }]
    );
}

#[test]
fn zips_are_extracted() {
    let h = host();
    let m = manager();
    assert_eq!(
        h.run(m.extract_zip("c1", "a.zip", "")),
        reported(
            vec![
                FsStep::CreateDirectories { path: bytes("/srv/volumes/c1") },
                FsStep::UnpackZip {
                    path: bytes("/srv/volumes/c1/a.zip"),
                    to: bytes("/srv/volumes/c1"),
                },
            ],
            "Zip extracted to: ",
        )
    );
    assert_eq!(h.run(m.extract_zip("c1", "b.zip", "")), refused("Zip file does not exist"));
}

#[test]
fn zip_entries_have_their_places() {
    let dest = bytes("/srv/volumes/c1/dest");
    assert_eq!(
        place_zip_entry(&dest, "world/", true),
        (
            vec![FsStep::CreateDirectories { path: bytes("/srv/volumes/c1/dest/world/") }],
            None
        )
    );
    assert_eq!(
        place_zip_entry(&dest, "world/level.dat", false),
        (
            vec![FsStep::CreateDirectories { path: bytes("/srv/volumes/c1/dest/world") }],
            Some(bytes("/srv/volumes/c1/dest/world/level.dat"))
        )
    );
}

#[test]
fn permissions_and_owners_are_changed() {
    let h = host();
    let m = manager();
    let run = |program: &str, argument: &str, complaint: &str| {
        perform(vec![FsStep::RunCommand {
            program: program.to_string(),
            argument: argument.to_string(),
            path: bytes("/srv/volumes/c1/server.jar"),
            complaint: complaint.to_string(),
        }])
    };
    assert_eq!(
        h.run(m.chmod("c1", "server.jar", "644")),
        run("chmod", "644", "Failed to change permissions: ")
    );
    assert_eq!(
        h.run(m.chown("c1", "server.jar", "root", None)),
        run("chown", "root", "Failed to change ownership: ")
    );
    assert_eq!(
        h.run(m.chown("c1", "server.jar", "root", Some("wheel".to_string()))),
        run("chown", "root:wheel", "Failed to change ownership: ")
    );
    assert_eq!(h.run(m.chmod("c1", "nowhere", "644")), refused("Path does not exist"));
    assert_eq!(h.run(m.chown("c1", "nowhere", "root", None)), refused("Path does not exist"));
}

#[test]
fn complaints_of_programs_are_errors() {
    assert_eq!(command_result(true, &b"noise".to_vec(), "Failed: "), Ok(()));
    assert_eq!(
        command_result(false, &b"invalid mode".to_vec(), "Failed to change permissions: "),
        Err("Failed to change permissions: invalid mode".to_string())
    );
    assert_eq!(
        command_result(false, &vec![b'a', 0xff], "Failed: "),
        Err("Failed: a\u{fffd}".to_string())
    );
}

#[test]
fn decided_jobs_stay_decided() {
    let job = manager().create_zip("c1", &Vec::new(), "b.zip");
    let job = job.told_exists(true).told_status(PathStatus::File).told_resolved(None, None);
    assert_eq!(job.query(), refused("No source paths provided"));
}

#[test]
fn listed_paths_lead_to_their_entries() {
    let given = lightd::listing::make_entry_path("world/region", "r.0");
    assert_eq!(
        manager().get_volume_path("c1", &given),
        manager().get_volume_path("c1", "world/region/r.0")
    );
}
