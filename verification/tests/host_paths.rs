use lightd::host_path::{
    join_path, lead_back, parent_path, path_components, path_file_name, path_goes_up_behind,
    path_is_within, path_leads_into, relative_path, take_out_parents, write_path,
};
use std::path::{Component, Path};

fn paths(length: usize) -> Vec<String> {
    let letters = ['a', '.', '/'];
    let mut all: Vec<String> = vec![String::new()];
    let mut last: Vec<String> = vec![String::new()];
    for _ in 0..length {
        let mut next: Vec<String> = Vec::new();
        for w in &last {
            for c in letters {
                let mut longer = w.clone();
                longer.push(c);
                next.push(longer);
            }
        }
        all.extend(next.iter().cloned());
        last = next;
    }
    all
}

fn bytes(path: &str) -> Vec<u8> {
    path.as_bytes().to_vec()
}

fn std_bytes(path: &Path) -> Vec<u8> {
    bytes(path.to_str().unwrap())
}

#[test]
fn parents_agree_with_std() {
    for p in paths(7) {
        assert_eq!(
            parent_path(&bytes(&p)),
            Path::new(&p).parent().map(std_bytes),
            "{:?}",
            p
        );
    }
}

#[test]
fn file_names_agree_with_std() {
    for p in paths(7) {
        assert_eq!(
            path_file_name(&bytes(&p)),
            Path::new(&p).file_name().map(|n| bytes(n.to_str().unwrap())),
            "{:?}",
            p
        );
    }
}

#[test]
fn components_agree_with_std() {
    for p in paths(7) {
        let expected: Vec<Vec<u8>> = Path::new(&p)
            .components()
            .map(|c| match c {
                Component::RootDir => bytes("/"),
                other => bytes(other.as_os_str().to_str().unwrap()),
            })
            .collect();
        assert_eq!(path_components(&bytes(&p)), expected, "{:?}", p);
    }
}

#[test]
fn containment_agrees_with_std() {
    for p in paths(4) {
        for base in paths(4) {
            assert_eq!(
                path_is_within(&bytes(&p), &bytes(&base)),
                Path::new(&p).starts_with(&base),
                "{:?} {:?}",
                p,
                base
            );
        }
    }
}

#[test]
fn relative_paths_agree_with_std() {
    for p in paths(5) {
        for base in paths(3) {
            assert_eq!(
                relative_path(&bytes(&p), &bytes(&base)),
                Path::new(&p).strip_prefix(&base).ok().map(std_bytes),
                "{:?} {:?}",
                p,
                base
            );
        }
    }
}

#[test]
fn joining_agrees_with_std() {
    for base in paths(4) {
        for p in paths(4) {
            assert_eq!(
                join_path(&bytes(&base), &bytes(&p)),
                std_bytes(&Path::new(&base).join(&p)),
                "{:?} {:?}",
                base,
                p
            );
        }
    }
}

#[test]
fn parents_drop_the_last_component() {
    let path = bytes("/srv/volumes/one/two");
    let up = parent_path(&path).unwrap();
    assert_eq!(up, bytes("/srv/volumes/one"));
    let mut front = path_components(&path);
    front.pop();
    assert_eq!(path_components(&up), front);
    assert_eq!(parent_path(&bytes("/")), None);
    assert_eq!(parent_path(&bytes("")), None);
    assert_eq!(parent_path(&bytes("one")), Some(bytes("")));
}

#[test]
fn joined_paths_lie_under_their_base() {
    let base = bytes("/srv/volumes/one");
    let whole = join_path(&base, &bytes("a/b"));
    assert_eq!(whole, bytes("/srv/volumes/one/a/b"));
    assert!(path_is_within(&whole, &base));
    assert!(!path_is_within(&bytes("/srv/volumes/one_data"), &base));
    assert_eq!(relative_path(&whole, &base), Some(bytes("a/b")));
}

#[test]
fn parents_are_taken_out_with_what_they_lead_back_from() {
    let out = |p: &str| write_path(&take_out_parents(&bytes(p)));
    assert_eq!(out("/a/b/../c"), bytes("/a/c"));
    assert_eq!(out("/a/../../b"), bytes("/b"));
    assert_eq!(out("/a/b/../.."), bytes("/"));
    assert_eq!(out("a/../b"), bytes("b"));
    assert_eq!(out("/a//./b/"), bytes("/a/b"));
    assert_eq!(out("/a/..b/..."), bytes("/a/..b/..."));
}

#[test]
fn paths_lead_into_directories() {
    let leads = |p: &str, base: &str| path_leads_into(&bytes(p), &bytes(base));
    assert!(leads("/v/c/x", "/v/c"));
    assert!(leads("/v/c", "/v/c"));
    assert!(leads("/v/c/a/../x", "/v/c"));
    assert!(leads("/v/d/../c/x", "/v/c"));
    assert!(!leads("/v/c/../d", "/v/c"));
    assert!(!leads("/v/c2", "/v/c"));
    assert!(!leads("/v", "/v/c"));
}

#[test]
fn paths_are_led_back_once() {
    let back = |p: &str, n: usize, front: &str| lead_back(&bytes(p), n, &bytes(front));
    assert!(path_goes_up_behind(&bytes("/v/c/a/../b"), 3));
    assert_eq!(back("/v/c/a/../b", 3, "/data/c"), bytes("/data/c/b"));
    assert_eq!(back("/v/c/a/b/../../x", 3, "/data/c"), bytes("/data/c/a/../x"));
    assert_eq!(back("/v/c/../x", 3, "/data/c"), bytes("/data/x"));
    assert!(!path_goes_up_behind(&bytes("/v/c/../b"), 4));
}
