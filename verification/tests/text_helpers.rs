use tor_replay::text::{chars_of, clip, contains, count_leading, eq_ignore_ascii_case, find_first, find_last};

#[test]
fn chars_of_keeps_order() {
    assert_eq!(chars_of("aé1"), vec!['a', 'é', '1']);
    assert!(chars_of("").is_empty());
}

#[test]
fn ascii_case_insensitive_equality() {
    assert!(eq_ignore_ascii_case("Guard", "gUARD"));
    assert!(!eq_ignore_ascii_case("Guard", "Guards"));
    assert!(!eq_ignore_ascii_case("É", "é"));
    assert!(eq_ignore_ascii_case("", ""));
}

#[test]
fn substring_search() {
    assert!(contains("abcdef", "cde"));
    assert!(contains("abcdef", ""));
    assert!(contains("abc", "abc"));
    assert!(!contains("abcdef", "cdf"));
    assert!(!contains("ab", "abc"));
}

#[test]
fn index_helpers() {
    let v = chars_of("[[a]b:c:d");
    assert_eq!(find_first(&v, ']'), 3);
    assert_eq!(find_first(&v, 'z'), v.len());
    assert_eq!(count_leading(&v, 3, '['), 2);
    assert_eq!(find_last(&v, ':'), Some(7));
    assert_eq!(find_last(&v, 'z'), None);
}

#[test]
fn clip_to_byte_limit() {
    assert_eq!(clip("hello world", 5), "hello");
    assert_eq!(clip("hi", 40), "hi");
    assert_eq!(clip("", 3), "");
}

#[test]
fn can_clip_checks_boundary() {
    assert!(tor_replay::text::can_clip("hello", 3));
    assert!(tor_replay::text::can_clip("hi", 40));
    assert!(!tor_replay::text::can_clip("aé", 2));
}
