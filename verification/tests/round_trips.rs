use std::collections::BTreeMap;

use lightd::file_plan::{
    choose_compression, detect_compression, place_zip_entry, zip_dir_with_prefix,
    ArchiveCompression, FsStep, PathStatus, TreeEntry,
};
use lightd::filesystem_direct::{FileJob, FileQuery, FilesystemManagerDirect};

/// What is at a path: a directory, or a file with what is in it.
type Tree = BTreeMap<String, Option<Vec<u8>>>;

/// A disk in memory, without links.
#[derive(Default)]
struct Disk {
    nodes: Tree,
    text: String,
    tar: Option<(String, ArchiveCompression, Vec<(String, Tree)>)>,
    tars: BTreeMap<String, (ArchiveCompression, Vec<(String, Tree)>)>,
    zip: Option<(String, Vec<(String, Option<Vec<u8>>)>)>,
    zips: BTreeMap<String, Vec<(String, Option<Vec<u8>>)>>,
}

/// A path with each `..` taken out.
fn text(path: &[u8]) -> String {
    let plain = String::from_utf8(path.to_vec()).unwrap();
    let mut parts: Vec<&str> = Vec::new();
    for part in plain.split('/') {
        match part {
            "" | "." => {}
            ".." => {
                parts.pop();
            }
            name => parts.push(name),
        }
    }
    let root = if plain.starts_with('/') { "/" } else { "" };
    format!("{}{}", root, parts.join("/"))
}

fn below(tree: &Tree, path: &str) -> Tree {
    let inner = format!("{}/", path);
    tree.iter()
        .filter(|(p, _)| *p == path || p.starts_with(&inner))
        .map(|(p, node)| (p[path.len()..].to_string(), node.clone()))
        .collect()
}

impl Disk {
    fn new() -> Disk {
        let mut disk = Disk::default();
        disk.make("/v/c").unwrap();
        disk
    }

    /// Whether each `..` in a path leads back from a directory that is there.
    fn is_walkable(&self, path: &[u8]) -> bool {
        let plain = String::from_utf8(path.to_vec()).unwrap();
        plain
            .match_indices("/..")
            .filter(|(at, _)| plain[at + 3..].is_empty() || plain[at + 3..].starts_with('/'))
            .all(|(at, _)| self.nodes.get(&text(plain[..at].as_bytes())) == Some(&None))
    }

    fn status(&self, path: &[u8]) -> PathStatus {
        if !self.is_walkable(path) {
            return PathStatus::Missing;
        }
        match self.nodes.get(&text(path)) {
            None => PathStatus::Missing,
            Some(None) => PathStatus::Directory,
            Some(Some(_)) => PathStatus::File,
        }
    }

    fn make(&mut self, path: &str) -> Result<(), String> {
        let mut given = String::new();
        for part in path.split('/').filter(|part| !part.is_empty()) {
            given = format!("{}/{}", given, part);
            let at = text(given.as_bytes());
            match self.nodes.get(&at) {
                Some(Some(_)) => return Err(format!("{} is a file", at)),
                Some(None) => {}
                None => {
                    self.nodes.insert(at.clone(), None);
                }
            }
        }
        Ok(())
    }

    fn write(&mut self, path: &str, content: Vec<u8>) {
        let parent = &path[..path.rfind('/').unwrap()];
        assert_eq!(self.nodes.get(parent), Some(&None));
        self.nodes.insert(path.to_string(), Some(content));
    }

    fn run(&mut self, job: FileJob) -> Result<Option<String>, String> {
        let mut job = job;
        loop {
            match job.query() {
                FileQuery::Exists { path } => {
                    job = job.told_exists(self.status(&path) != PathStatus::Missing)
                }
                FileQuery::Resolve { path, root } => {
                    let canonical = text(&path).into_bytes();
                    job = job.told_resolved(Some(canonical), Some(root))
                }
                FileQuery::Status { path } => {
                    let status = self.status(&path);
                    job = job.told_status(status)
                }
                FileQuery::Refuse { error } => return Err(error),
                FileQuery::Perform { steps, report } => {
                    self.take(steps)?;
                    return Ok(report);
                }
            }
        }
    }

    fn take(&mut self, steps: Vec<FsStep>) -> Result<(), String> {
        for step in steps {
            match step {
                FsStep::CreateDirectories { path } => {
                    self.make(&String::from_utf8(path).unwrap())?
                }
                FsStep::WriteFile { path, content } => self.write(&text(&path), content),
                FsStep::ReadText { path } => {
                    let content = self.nodes[&text(&path)].clone().unwrap();
                    self.text = String::from_utf8(content).map_err(|e| e.to_string())?;
                }
                FsStep::CopyFile { from, to } => {
                    let content = self.nodes[&text(&from)].clone().unwrap();
                    self.write(&text(&to), content);
                }
                FsStep::RemoveTree { path } | FsStep::RemoveFile { path } => {
                    for (inner, _) in below(&self.nodes, &text(&path)) {
                        self.nodes.remove(&format!("{}{}", text(&path), inner));
                    }
                }
                FsStep::Rename { from, to } => {
                    let moved = below(&self.nodes, &text(&from));
                    for (inner, node) in moved {
                        self.nodes.remove(&format!("{}{}", text(&from), inner));
                        self.nodes.insert(format!("{}{}", text(&to), inner), node);
                    }
                }
                FsStep::BeginTar { path, compression } => {
                    self.write(&text(&path), Vec::new());
                    self.tar = Some((text(&path), compression, Vec::new()));
                }
                FsStep::AppendTree { name, path } | FsStep::AppendFile { name, path } => {
                    let tree = below(&self.nodes, &text(&path));
                    self.tar.as_mut().unwrap().2.push((text(&name), tree));
                }
                FsStep::FinishTar => {
                    let (path, compression, items) = self.tar.take().unwrap();
                    self.tars.insert(path, (compression, items));
                }
                FsStep::Unpack { path, compression, to } => {
                    let (made, items) = &self.tars[&text(&path)];
                    if *made != compression {
                        return Err("another compression".to_string());
                    }
                    for (name, tree) in items.clone() {
                        for (inner, node) in tree {
                            self.nodes.insert(format!("{}/{}{}", text(&to), name, inner), node);
                        }
                    }
                }
                FsStep::BeginZip { path } => {
                    self.write(&text(&path), Vec::new());
                    self.zip = Some((text(&path), Vec::new()));
                }
                FsStep::AddZipDirectory { name } => {
                    self.zip.as_mut().unwrap().1.push((format!("{}/", name), None))
                }
                FsStep::AddZipFile { name, path } => {
                    let content = self.nodes[&text(&path)].clone().unwrap();
                    self.zip.as_mut().unwrap().1.push((name, Some(content)));
                }
                FsStep::AddZipTree { base, path, prefix } => {
                    let inner = format!("{}/", text(&path));
                    let given = format!("{}/", String::from_utf8(path).unwrap());
                    let mut entries = Vec::new();
                    for (p, node) in &self.nodes {
                        if p.starts_with(&inner) && !p[inner.len()..].contains('/') {
                            entries.push(TreeEntry {
                                path: p.replacen(&inner, &given, 1).into_bytes(),
                                is_directory: node.is_none(),
                            });
                        }
                    }
                    self.take(zip_dir_with_prefix(&base, &entries, &prefix))?;
                }
                FsStep::FinishZip => {
                    let (path, entries) = self.zip.take().unwrap();
                    self.zips.insert(path, entries);
                }
                FsStep::UnpackZip { path, to } => {
                    for (name, content) in self.zips[&text(&path)].clone() {
                        let (steps, file) = place_zip_entry(&to, &name, content.is_none());
                        self.take(steps)?;
                        if let Some(file) = file {
                            self.write(&text(&file), content.unwrap());
                        }
                    }
                }
                FsStep::Fail { error } => return Err(error),
                other => panic!("{:?}", other),
            }
        }
        Ok(())
    }
}

fn manager() -> FilesystemManagerDirect {
    FilesystemManagerDirect::new("/v".to_string())
}

/// A disk with a directory that holds files, a directory and an empty directory, and a file
/// beside it.
fn filled() -> Disk {
    let m = manager();
    let mut d = Disk::new();
    d.run(m.write_file("c", "world/level.dat", "level")).unwrap();
    d.run(m.write_file("c", "world/region/r.0.mca", "region")).unwrap();
    d.run(m.create_directory("c", "world/empty")).unwrap();
    d.run(m.write_file("c", "grüße.txt", "hallo")).unwrap();
    d
}

#[test]
fn what_was_written_is_read() {
    let m = manager();
    let mut d = Disk::new();
    for content in ["a much longer content than the next one", "grüße", ""] {
        d.run(m.write_file("c", "/home/container/a/b/c.txt", content)).unwrap();
        d.run(m.get_file_content("c", "a/b/c.txt")).unwrap();
        assert_eq!(d.text, content);
        d.run(m.get_file_content("c", "a/b/c.txt")).unwrap();
        assert_eq!(d.text, content);
    }
    d.run(m.write_file_bytes("c", "a/b/c.txt", &b"bytes".to_vec())).unwrap();
    d.run(m.get_file_content("c", "/a/b/c.txt")).unwrap();
    assert_eq!(d.text, "bytes");
    d.run(m.write_file_bytes("c", "a/b/c.txt", &vec![0xff])).unwrap();
    assert!(d.run(m.get_file_content("c", "a/b/c.txt")).is_err());
}

#[test]
fn copies_and_deletions() {
    let m = manager();
    let mut d = filled();
    d.run(m.copy_file("c", "world/level.dat", "new/level.dat")).unwrap();
    assert_eq!(d.nodes["/v/c/new/level.dat"], Some(b"level".to_vec()));
    assert_eq!(d.nodes["/v/c/world/level.dat"], Some(b"level".to_vec()));
    d.run(m.delete("c", "world")).unwrap();
    assert!(below(&d.nodes, "/v/c/world").is_empty());
    assert_eq!(d.nodes["/v/c/new/level.dat"], Some(b"level".to_vec()));
    assert_eq!(d.run(m.delete("c", "world")), Err("Path does not exist".to_string()));
}

#[test]
fn renaming_back_undoes_a_renaming() {
    let m = manager();
    let mut d = filled();
    let before = d.nodes.clone();
    let world = below(&before, "/v/c/world");
    d.run(m.rename("c", "world", "old/worlds/1")).unwrap();
    assert!(!d.nodes.contains_key("/v/c/world"));
    assert_eq!(below(&d.nodes, "/v/c/old/worlds/1"), world);
    d.run(m.rename("c", "old/worlds/1", "world")).unwrap();
    assert_eq!(below(&d.nodes, "/v/c/world"), world);
    let made: Vec<&String> = d.nodes.keys().filter(|p| !before.contains_key(*p)).collect();
    assert_eq!(made, ["/v/c/old", "/v/c/old/worlds"]);
    let now = d.nodes.clone();
    assert_eq!(
        d.run(m.rename("c", "nothing", "deep/down/there")),
        Err("Source path does not exist".to_string())
    );
    assert_eq!(d.nodes, now);
}

#[test]
fn tar_archives_give_back_what_was_packed() {
    let m = manager();
    for (archive, compression) in [
        ("a.tar.gz", Some("gzip")),
        ("a.tgz", Some("gzip")),
        ("a.TAR.BZ2", Some("bzip2")),
        ("a.tbz2", Some("bzip2")),
        ("a.Tar", None),
    ] {
        let name = compression.map(|c: &str| c.to_string());
        assert_eq!(detect_compression(&archive.to_lowercase()), choose_compression(&name));
        let mut d = filled();
        let before = d.nodes.clone();
        let sources = vec!["world/".to_string(), "grüße.txt".to_string()];
        assert_eq!(
            d.run(m.create_archive("c", &sources, archive, name)),
            Ok(Some(format!("Archive created: {} (2 items)", archive)))
        );
        assert_eq!(
            d.run(m.extract_archive("c", archive, "out/here")),
            Ok(Some("Archive extracted to: out/here".to_string()))
        );
        assert_given_back(&d.nodes, &before, "/v/c/out/here");
        assert_eq!(below(&d.nodes, "/v/c/world"), below(&before, "/v/c/world"));
    }
    let mut d = filled();
    assert_eq!(
        d.run(m.extract_archive("c", "none.tar", "out")),
        Err("Archive does not exist".to_string())
    );
    assert!(!d.nodes.contains_key("/v/c/out"));
}

/// Whether a directory holds the two sources and nothing else.
fn assert_given_back(nodes: &Tree, before: &Tree, to: &str) {
    assert_eq!(
        below(nodes, &format!("{}/world", to)),
        below(before, "/v/c/world")
    );
    assert_eq!(
        below(nodes, &format!("{}/grüße.txt", to)),
        below(before, "/v/c/grüße.txt")
    );
    let found = below(nodes, to).len();
    assert_eq!(found, 1 + below(before, "/v/c/world").len() + 1);
}

#[test]
fn zip_archives_give_back_what_was_packed() {
    let m = manager();
    let mut d = filled();
    let before = d.nodes.clone();
    let sources = vec!["world".to_string(), "/home/container/grüße.txt".to_string()];
    assert_eq!(
        d.run(m.create_zip("c", &sources, "zips/a.zip")),
        Ok(Some("Zip created: zips/a.zip (2 items)".to_string()))
    );
    assert_eq!(
        d.run(m.extract_zip("c", "zips/a.zip", "out")),
        Ok(Some("Zip extracted to: out".to_string()))
    );
    assert_given_back(&d.nodes, &before, "/v/c/out");
    assert_eq!(d.nodes["/v/c/out/world/empty"], None);
    assert_eq!(
        d.run(m.extract_zip("c", "none.zip", "out2")),
        Err("Zip file does not exist".to_string())
    );
    assert!(!d.nodes.contains_key("/v/c/out2"));
}

#[test]
fn operations_go_by_the_place_that_paths_lead_to() {
    let m = manager();
    let mut d = filled();
    d.run(m.write_file("c", "world/../a.txt", "first")).unwrap();
    d.run(m.get_file_content("c", "world/region/../../a.txt")).unwrap();
    assert_eq!(d.text, "first");
    d.run(m.write_file("c", "world/empty/../region/../../a.txt", "second")).unwrap();
    d.run(m.get_file_content("c", "a.txt")).unwrap();
    assert_eq!(d.text, "second");
    d.run(m.copy_file("c", "world/../a.txt", "world/empty/../b.txt")).unwrap();
    assert_eq!(d.nodes["/v/c/world/b.txt"], Some(b"second".to_vec()));
    d.run(m.delete("c", "world/region/../b.txt")).unwrap();
    assert!(!d.nodes.contains_key("/v/c/world/b.txt"));
    let before = d.nodes.clone();
    d.run(m.rename("c", "world/../a.txt", "world/region/../a.txt")).unwrap();
    assert_eq!(d.nodes["/v/c/world/a.txt"], Some(b"second".to_vec()));
    assert!(!d.nodes.contains_key("/v/c/a.txt"));
    d.run(m.rename("c", "world/region/../a.txt", "world/../a.txt")).unwrap();
    assert_eq!(d.nodes, before);
    let escape = Err("Path traversal attempt detected".to_string());
    assert_eq!(d.run(m.write_file("c", "world/../../a.txt", "third")), escape);
    assert_eq!(d.nodes, before);
    // What is missing on the way is made.
    d.run(m.write_file("c", "nope/../b.txt", "fourth")).unwrap();
    assert_eq!(d.nodes["/v/c/nope"], None);
    assert_eq!(d.nodes["/v/c/b.txt"], Some(b"fourth".to_vec()));
    d.run(m.get_file_content("c", "nope/../b.txt")).unwrap();
    assert_eq!(d.text, "fourth");
    d.run(m.rename("c", "b.txt", "new/../c.txt")).unwrap();
    assert_eq!(d.nodes["/v/c/c.txt"], Some(b"fourth".to_vec()));
    d.run(m.rename("c", "new/../c.txt", "b.txt")).unwrap();
    assert_eq!(d.nodes["/v/c/b.txt"], Some(b"fourth".to_vec()));
    assert!(!d.nodes.contains_key("/v/c/c.txt"));
}

#[test]
fn archives_go_by_the_place_that_paths_lead_to() {
    let m = manager();
    let sources = vec!["world/../world".to_string(), "world/region/../../grüße.txt".to_string()];
    let mut d = filled();
    let before = d.nodes.clone();
    d.run(m.create_archive("c", &sources, "tars/../a.tar", None)).unwrap();
    d.run(m.extract_archive("c", "world/empty/../../a.tar", "nope/../out")).unwrap();
    assert_given_back(&d.nodes, &before, "/v/c/out");
    let mut d = filled();
    d.run(m.create_zip("c", &sources, "zips/../a.zip")).unwrap();
    d.run(m.extract_zip("c", "world/empty/../../a.zip", "nope/../out")).unwrap();
    assert_given_back(&d.nodes, &before, "/v/c/out");
}
