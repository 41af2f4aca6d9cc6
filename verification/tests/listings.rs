use lightd::file_mode::{mode_to_string, rwx_triplet};
use lightd::listing::{make_entry_path, make_file_info, make_listing, make_shown_path, DirEntry};
use lightd::mimetype::{detect_mimetype, sniff_is_text_file, text_mimetype, HEAD_BYTES};
use lightd::order::{listing_order, SortKey};
use lightd::time::Timestamp;

fn entry(name: &str, is_directory: bool) -> DirEntry {
    DirEntry {
        name: name.as_bytes().to_vec(),
        is_directory,
        is_file: !is_directory,
        is_symlink: false,
        size: 12,
        unix_mode: if is_directory { 0o40755 } else { 0o100644 },
        modified: Some(Timestamp { secs: 1700000000, nanos: 0 }),
        created: Some(Timestamp { secs: 1600000000, nanos: 0 }),
        head: if is_directory { None } else { Some(b"text".to_vec()) },
        now: Timestamp { secs: 1800000000, nanos: 0 },
    }
}

#[test]
fn permission_letters() {
    assert_eq!(rwx_triplet(7), "rwx");
    assert_eq!(rwx_triplet(5), "r-x");
    assert_eq!(rwx_triplet(0), "---");
    assert_eq!(rwx_triplet(2), "-w-");
    assert_eq!(mode_to_string(0o755, true, false), "drwxr-xr-x");
    assert_eq!(mode_to_string(0o100644, false, false), "-rw-r--r--");
    assert_eq!(mode_to_string(0o777, true, true), "lrwxrwxrwx");
    assert_eq!(mode_to_string(0o4000, false, false), "----------");
}

#[test]
fn permission_letters_and_digits_say_the_same() {
    for mode in 0..0o1000u32 {
        let letters: Vec<char> = mode_to_string(mode, false, false).chars().collect();
        let digits = lightd::number::octal3_text(mode);
        for (k, digit) in digits.chars().enumerate() {
            let group = &letters[1 + 3 * k..4 + 3 * k];
            let value = (group[0] == 'r') as u32 * 4
                + (group[1] == 'w') as u32 * 2
                + (group[2] == 'x') as u32;
            assert_eq!(Some(value), digit.to_digit(8));
        }
    }
}

#[test]
fn text_is_told_from_anything_else() {
    assert_eq!(sniff_is_text_file(&None), None);
    assert_eq!(sniff_is_text_file(&Some(Vec::new())), Some(true));
    assert_eq!(sniff_is_text_file(&Some(b"hello\n".to_vec())), Some(true));
    assert_eq!(sniff_is_text_file(&Some("grüße".as_bytes().to_vec())), Some(true));
    assert_eq!(sniff_is_text_file(&Some(vec![104, 0, 105])), Some(false));
    assert_eq!(sniff_is_text_file(&Some(vec![0xff, 0xfe])), Some(false));
    assert_eq!(sniff_is_text_file(&Some(vec![0xc3])), Some(false));
}

#[test]
fn characters_may_be_cut_off_where_the_look_ends() {
    assert_eq!(HEAD_BYTES, 8192);
    // All beginnings of a text, cut off within characters of two, three and four bytes.
    for c in ["\u{e9}", "\u{800}", "\u{d7ff}", "\u{20ac}", "\u{10000}", "\u{10ffff}"] {
        for cut in 1..=c.len() {
            let mut head = "a".repeat(HEAD_BYTES - cut).into_bytes();
            head.extend_from_slice(&c.as_bytes()[..cut]);
            assert_eq!(head.len(), HEAD_BYTES);
            // A file that ends there is no text, unless the character is whole.
            assert_eq!(sniff_is_text_file(&Some(head.clone())), Some(cut == c.len()));
            assert_eq!(sniff_is_text_file(&Some(head[1..].to_vec())), Some(cut == c.len()));
            // Where the file goes on, it is.
            head.push(if cut < c.len() { c.as_bytes()[cut] } else { b'a' });
            assert_eq!(sniff_is_text_file(&Some(head)), Some(true));
        }
    }
    let mut source = "a".repeat(HEAD_BYTES - 1);
    source.push('\u{e9}');
    let whole = Some(source.as_bytes().to_vec());
    assert_eq!(detect_mimetype(&whole, "x.ts", false, false, true), "application/typescript");
    let cut = Some(source.as_bytes()[..HEAD_BYTES].to_vec());
    assert_ne!(detect_mimetype(&cut, "x.ts", false, false, true), "application/typescript");
    // What no character begins with stays binary, and so does anything in front of the end.
    for tail in [
        &[0x80u8][..],
        &[0xc1],
        &[0xf5],
        &[0xff],
        &[0xe0, 0x9f],
        &[0xed, 0xa0],
        &[0xf0, 0x8f],
        &[0xf4, 0x90],
        &[0xe2, 0x28],
        &[0xc3, 0x28],
        &[0xf0, 0x90, 0x28],
        &[0xf0, 0x90, 0x80, 0x28],
    ] {
        let mut head = "a".repeat(HEAD_BYTES - tail.len()).into_bytes();
        head.extend_from_slice(tail);
        assert_eq!(sniff_is_text_file(&Some(head.clone())), Some(false));
        head.push(b'a');
        assert_eq!(sniff_is_text_file(&Some(head)), Some(false));
    }
    let mut zero = vec![97u8; HEAD_BYTES];
    assert_eq!(sniff_is_text_file(&Some(zero.clone())), Some(true));
    zero[5] = 0;
    assert_eq!(sniff_is_text_file(&Some(zero)), Some(false));
    // What lies behind is not looked at.
    let mut behind = vec![97u8; HEAD_BYTES];
    behind.push(0);
    assert_eq!(sniff_is_text_file(&Some(behind)), Some(true));
}

#[test]
fn text_files_have_types_by_name() {
    let of = |name: &str| text_mimetype(name);
    assert_eq!(of("a.ts"), "application/typescript");
    assert_eq!(of("a.tsx"), "application/typescript");
    assert_eq!(of("a.js"), "application/javascript");
    assert_eq!(of("a.jsx"), "application/javascript");
    assert_eq!(of("a.json"), "application/json");
    assert_eq!(of("a.yml"), "text/yaml");
    assert_eq!(of("a.yaml"), "text/yaml");
    assert_eq!(of("a.toml"), "text/plain");
    assert_eq!(of("a.md"), "text/markdown");
    assert_eq!(of("a.rs"), "text/x-rust");
    assert_eq!(of("a.html"), "text/html");
    assert_eq!(of("a.css"), "text/css");
    assert_eq!(of("a.xml"), "application/xml");
    assert_eq!(of("a.env"), "text/plain");
    assert_eq!(of("notes"), "text/plain");
}

#[test]
fn types_of_entries() {
    let text = Some(b"let x = 1;".to_vec());
    let binary = Some(vec![0u8, 1, 2]);
    assert_eq!(detect_mimetype(&text, "A.TS", true, false, false), "inode/directory");
    assert_eq!(detect_mimetype(&text, "a.ts", false, true, false), "inode/symlink");
    assert_eq!(detect_mimetype(&text, "A.TS", false, false, true), "application/typescript");
    assert_eq!(detect_mimetype(&binary, "a.png", false, false, true), "image/png");
    assert_eq!(detect_mimetype(&binary, "A.PNG", false, false, true), "image/png");
    assert_eq!(detect_mimetype(&None, "a.html", false, false, true), "text/html");
    assert_eq!(
        detect_mimetype(&binary, "blob", false, false, true),
        "application/octet-stream"
    );
    assert_eq!(
        detect_mimetype(&text, "a.ts", false, false, false),
        "application/octet-stream"
    );
}

#[test]
fn source_files_are_not_taken_for_video() {
    let text = Some(b"export {}".to_vec());
    assert_eq!(detect_mimetype(&text, "x.ts", false, false, true), "application/typescript");
    let binary = Some(vec![0x47u8, 0, 0xff]);
    assert_ne!(detect_mimetype(&binary, "x.ts", false, false, true), "application/typescript");
}

#[test]
fn paths_of_entries() {
    assert_eq!(make_entry_path("", "a"), "/home/container/a");
    assert_eq!(make_entry_path("/", "a"), "/home/container/a");
    assert_eq!(make_entry_path("/home/container", "a"), "/home/container/a");
    assert_eq!(make_entry_path("/home/container/", "a"), "/home/container/a");
    assert_eq!(make_entry_path("/home/container/x/y/", "a"), "/home/container/x/y/a");
    assert_eq!(make_entry_path("x", "a"), "/home/container/x/a");
    assert_eq!(make_entry_path("//x//", "a"), "/home/container/x/a");
    assert_eq!(
        make_entry_path("/home/container/home/container", "a"),
        "/home/container/home/container/a"
    );
    assert_eq!(make_entry_path("/home/containerX", "a"), "/home/container/home/containerX/a");
}

#[test]
fn shown_paths() {
    assert_eq!(make_shown_path(""), "/home/container");
    assert_eq!(make_shown_path("/"), "/home/container");
    assert_eq!(make_shown_path("/home/container"), "/home/container");
    assert_eq!(make_shown_path("/home/container/x/"), "/home/container/x/");
    assert_eq!(make_shown_path("x/y"), "/home/container/x/y");
    assert_eq!(make_shown_path("//x"), "/home/container/x");
    assert_eq!(make_shown_path("/home/containerX"), "/home/container/home/containerX");
}

#[test]
fn infos_of_entries() {
    let info = make_file_info("plugins", &entry("Main.rs", false)).unwrap();
    assert_eq!(info.name, "Main.rs");
    assert_eq!(info.path, "/home/container/plugins/Main.rs");
    assert!(!info.is_directory);
    assert!(info.is_file);
    assert!(!info.is_symlink);
    assert_eq!(info.size, 12);
    assert_eq!(info.mode, "-rw-r--r--");
    assert_eq!(info.mode_bits, "644");
    assert_eq!(info.mimetype, "text/x-rust");
    assert_eq!(info.modified_at, "2023-11-14T22:13:20+00:00");
    assert_eq!(info.modified.as_deref(), Some("2023-11-14T22:13:20+00:00"));
    assert_eq!(info.created_at, "2020-09-13T12:26:40+00:00");
}

#[test]
fn missing_times_fall_back() {
    let mut e = entry("a", false);
    e.created = None;
    let info = make_file_info("", &e).unwrap();
    assert_eq!(info.created_at, info.modified_at);
    assert_eq!(info.modified_at, "2023-11-14T22:13:20+00:00");
    e.modified = None;
    let info = make_file_info("", &e).unwrap();
    assert_eq!(info.modified_at, "2027-01-15T08:00:00+00:00");
    assert_eq!(info.created_at, "2027-01-15T08:00:00+00:00");
}

#[test]
fn hidden_entries_have_no_info() {
    assert!(make_file_info("", &entry(".env", false)).is_none());
    assert!(make_file_info("", &entry(".", true)).is_none());
    assert!(make_file_info("", &entry("a.env", false)).is_some());
}

#[test]
fn names_that_are_not_text_are_shown_as_far_as_they_are() {
    let mut e = entry("a", false);
    e.name = vec![b'a', 0xff, b'b'];
    assert_eq!(make_file_info("", &e).unwrap().name, "a\u{fffd}b");
}

#[test]
fn listings_are_sorted_and_counted() {
    let entries = vec![
        entry("beta.txt", false),
        entry("Zoo", true),
        entry(".git", true),
        entry("Alpha.txt", false),
        entry("apps", true),
        entry("alpha.txt", false),
        entry(".hidden", false),
    ];
    let listing = make_listing("/", &entries);
    assert_eq!(listing.path, "/home/container");
    let names: Vec<&str> = listing.files.iter().map(|f| f.name.as_str()).collect();
    assert_eq!(names, vec!["apps", "Zoo", "Alpha.txt", "alpha.txt", "beta.txt"]);
    assert_eq!(listing.total_directories, 2);
    assert_eq!(listing.total_files, 3);
}

#[test]
fn empty_directories_have_empty_listings() {
    let listing = make_listing("x", &Vec::new());
    assert_eq!(listing.path, "/home/container/x");
    assert!(listing.files.is_empty());
    assert_eq!(listing.total_directories, 0);
    assert_eq!(listing.total_files, 0);
}

#[test]
fn listing_order_agrees_with_a_stable_sort() {
    let names = ["b", "A", "a", "ä", "Ä", "", "ab", "aa", "a", "z", "ß", "SS"];
    let mut items: Vec<(bool, String)> = Vec::new();
    for (i, n) in names.iter().enumerate() {
        items.push((i % 3 == 0, n.to_string()));
        items.push((i % 2 == 0, n.to_uppercase()));
    }
    let keys: Vec<SortKey> = items
        .iter()
        .map(|(d, n)| SortKey { is_directory: *d, name: n.to_lowercase().chars().collect() })
        .collect();
    let mut expected: Vec<usize> = (0..items.len()).collect();
    expected.sort_by(|a, b| match (items[*a].0, items[*b].0) {
        (true, false) => std::cmp::Ordering::Less,
        (false, true) => std::cmp::Ordering::Greater,
        _ => items[*a].1.to_lowercase().cmp(&items[*b].1.to_lowercase()),
    });
    assert_eq!(listing_order(&keys), expected);
}
