use lightd::number::{decimal_text, octal3_text, parse_port, signed_decimal_text};
use lightd::text::{
    chars_of, concat2, concat3, ends_with, join, same_text, starts_with, strip_prefix,
    strip_suffix, text_of, trim_leading, trim_trailing,
};
use lightd::time::{cutoff_time, system_time_to_rfc3339_utc, Timestamp, FIRST_SECOND, LAST_SECOND};

fn words() -> Vec<String> {
    let letters = ['a', 'b', '/', 'ß'];
    let mut all: Vec<String> = vec![String::new()];
    let mut last: Vec<String> = vec![String::new()];
    for _ in 0..4 {
        let mut next: Vec<String> = Vec::new();
        for w in &last {
            for c in letters {
                let mut longer = w.clone();
                longer.push(c);
                next.push(longer);
            }
        }
        all.extend(next.iter().cloned());
        last = next;
    }
    all
}

#[test]
fn prefixes_and_suffixes_agree_with_std() {
    for text in words() {
        for part in ["", "a", "/", "ab", "aa", "ß", "ßa"] {
            assert_eq!(starts_with(&text, part), text.starts_with(part));
            assert_eq!(ends_with(&text, part), text.ends_with(part));
            assert_eq!(
                strip_prefix(&text, part).as_deref(),
                text.strip_prefix(part)
            );
            assert_eq!(
                strip_suffix(&text, part).as_deref(),
                text.strip_suffix(part)
            );
        }
    }
}

#[test]
fn trimming_agrees_with_std() {
    for text in words() {
        for part in ["a", "/", "ab", "aa", "ß"] {
            assert_eq!(trim_leading(&text, part), text.trim_start_matches(part));
            assert_eq!(trim_trailing(&text, part), text.trim_end_matches(part));
        }
    }
}

#[test]
fn texts_are_taken_apart_and_put_together() {
    assert_eq!(chars_of("aß/"), vec!['a', 'ß', '/']);
    assert_eq!(text_of(&chars_of("abcdef"), 1, 3), "bc");
    assert!(same_text("abc", "abc"));
    assert!(!same_text("abc", "abd"));
    assert!(!same_text("abc", "ab"));
    assert_eq!(concat2("ab", "cd"), "abcd");
    assert_eq!(concat3("ab", "", "cd"), "abcd");
    let parts = vec!["java".to_string(), "-jar".to_string(), "server.jar".to_string()];
    assert_eq!(join(&parts, " "), "java -jar server.jar");
    assert_eq!(join(&vec!["one".to_string()], " "), "one");
    assert_eq!(join(&Vec::new(), " "), "");
}

#[test]
fn ports_are_read_as_std_reads_them() {
    for text in [
        "0", "1", "80", "8080", "65535", "65536", "99999", "+80", "-80", "+", "-", "", " 80",
        "80 ", "0080", "00000000000080", "8o", "٣", "1_000", "++1", "4294967297",
        "18446744073709551616",
    ] {
        assert_eq!(parse_port(text), text.parse::<u16>().ok(), "{:?}", text);
    }
}

#[test]
fn every_port_reads_back_as_it_is_written() {
    for port in 0..=u16::MAX {
        let text = decimal_text(port as u64);
        assert_eq!(text, port.to_string());
        assert_eq!(parse_port(&text), Some(port));
    }
}

#[test]
fn numbers_are_written_as_std_writes_them() {
    for n in [0u64, 7, 10, 99, 100, 4096, u64::MAX] {
        assert_eq!(decimal_text(n), n.to_string());
    }
    for n in [0i64, 5, -5, 1700000000, -1, i64::MAX, i64::MIN] {
        assert_eq!(signed_decimal_text(n), n.to_string());
    }
}

#[test]
fn permission_bits_are_written_in_octal() {
    assert_eq!(octal3_text(0o755), "755");
    assert_eq!(octal3_text(0o100644), "644");
    assert_eq!(octal3_text(0o7), "007");
    for mode in 0..0o2000u32 {
        assert_eq!(octal3_text(mode), format!("{:03o}", mode & 0o777));
    }
}

#[test]
fn times_are_written_as_dates() {
    let at = |secs: i64, nanos: u32| system_time_to_rfc3339_utc(&Timestamp { secs, nanos });
    assert_eq!(at(0, 0).as_deref(), Some("1970-01-01T00:00:00+00:00"));
    assert_eq!(
        at(1700000000, 500_000_000).as_deref(),
        Some("2023-11-14T22:13:20.500+00:00")
    );
    assert_eq!(at(-1, 0).as_deref(), Some("1969-12-31T23:59:59+00:00"));
}

#[test]
fn dates_can_be_given_up_to_the_bounds() {
    let first = system_time_to_rfc3339_utc(&Timestamp { secs: FIRST_SECOND, nanos: 0 });
    let last = system_time_to_rfc3339_utc(&Timestamp { secs: LAST_SECOND, nanos: 999_999_999 });
    assert_eq!(first.as_deref(), Some("-262143-01-01T00:00:00+00:00"));
    assert_eq!(last.as_deref(), Some("+262142-12-31T23:59:59.999999999+00:00"));
    assert!(chrono::DateTime::from_timestamp(FIRST_SECOND - 1, 0).is_none());
    assert!(chrono::DateTime::from_timestamp(LAST_SECOND + 1, 0).is_none());
}

#[test]
fn cutoffs_lie_minutes_before() {
    let now = Timestamp { secs: 1700000000, nanos: 7 };
    assert_eq!(
        cutoff_time(&now, 5),
        Some(Timestamp { secs: 1700000000 - 300, nanos: 7 })
    );
    assert_eq!(
        cutoff_time(&now, -1),
        Some(Timestamp { secs: 1700000060, nanos: 7 })
    );
    assert_eq!(cutoff_time(&now, 0), Some(now));
}

#[test]
fn cutoffs_without_a_date_do_not_exist() {
    let now = Timestamp { secs: 1700000000, nanos: 0 };
    assert_eq!(cutoff_time(&now, i64::MAX), None);
    assert_eq!(cutoff_time(&now, i64::MIN), None);
    let zero = Timestamp { secs: 0, nanos: 0 };
    assert_eq!(
        cutoff_time(&zero, -(LAST_SECOND / 60)),
        Some(Timestamp { secs: LAST_SECOND / 60 * 60, nanos: 0 })
    );
    assert_eq!(cutoff_time(&zero, -(LAST_SECOND / 60) - 1), None);
    assert_eq!(
        cutoff_time(&zero, -(FIRST_SECOND / 60)),
        Some(Timestamp { secs: FIRST_SECOND, nanos: 0 })
    );
    assert_eq!(cutoff_time(&zero, -(FIRST_SECOND / 60) + 1), None);
}

#[test]
fn points_in_time_are_compared() {
    let a = Timestamp { secs: 5, nanos: 1 };
    let b = Timestamp { secs: 5, nanos: 2 };
    assert!(b.is_not_before(&a));
    assert!(a.is_not_before(&a));
    assert!(!a.is_not_before(&b));
    assert!(a.is_valid());
    assert!(!Timestamp { secs: 0, nanos: 1_000_000_000 }.is_valid());
    assert!(!Timestamp { secs: LAST_SECOND + 1, nanos: 0 }.is_valid());
}
