use redis_core::glob::match_pattern;
use redis_core::glob::match_pattern_recursive;

fn m(pattern: &str, key: &str) -> bool {
    match_pattern(pattern.as_bytes(), key.as_bytes())
}

#[test]
fn star_matches_everything() {
    assert!(m("*", ""));
    assert!(m("*", "a"));
    assert!(m("*", "anything at all"));
    assert!(match_pattern(b"*", &[0, 255, 10]));
}

#[test]
fn question_mark_matches_one_byte() {
    assert!(m("h?llo", "hello"));
    assert!(m("h?llo", "hallo"));
    assert!(!m("h?llo", "hllo"));
    assert!(!m("h?llo", "heello"));
    assert!(!m("?", ""));
}

#[test]
fn literal_patterns() {
    assert!(m("", ""));
    assert!(!m("", "a"));
    assert!(m("abc", "abc"));
    assert!(!m("abc", "abd"));
    assert!(!m("abc", "ab"));
    assert!(!m("ab", "abc"));
}

#[test]
fn star_in_the_middle_and_several_stars() {
    assert!(m("h*llo", "hllo"));
    assert!(m("h*llo", "heeeello"));
    assert!(!m("h*llo", "heeeell"));
    assert!(m("*a*b*", "xxaxxbxx"));
    assert!(!m("*a*b*", "xxbxxaxx"));
    assert!(m("a**b", "ab"));
    assert!(m("user:*:name", "user:42:name"));
    assert!(!m("user:*:name", "user:42:nam"));
}

#[test]
fn classes() {
    assert!(m("h[ae]llo", "hello"));
    assert!(m("h[ae]llo", "hallo"));
    assert!(!m("h[ae]llo", "hillo"));
    assert!(m("h[a-c]llo", "hbllo"));
    assert!(!m("h[a-c]llo", "hdllo"));
    assert!(m("h[^e]llo", "hallo"));
    assert!(!m("h[^e]llo", "hello"));
    assert!(m("[0-9][0-9]", "42"));
    assert!(!m("[0-9][0-9]", "4x"));
    assert!(!m("[abc]", ""));
}

#[test]
fn class_edge_cases() {
    // A class that is closed at once holds nothing.
    assert!(!m("[]a", "a"));
    assert!(m("[^]a", "xa"));
    // A class that is never closed matches nothing.
    assert!(!m("[abc", "a"));
    // A dash at the start is a member; one before the closing bracket is dropped.
    assert!(m("[-a]", "-"));
    assert!(m("[a-]", "a"));
    assert!(!m("[a-]", "-"));
    // A backslash in a class is a member.
    assert!(m("[\\]", "\\"));
}

#[test]
fn escapes() {
    assert!(m("\\*", "*"));
    assert!(!m("\\*", "a"));
    assert!(m("a\\?c", "a?c"));
    assert!(!m("a\\?c", "abc"));
    assert!(!m("abc\\", "abc"));
    assert!(!m("\\", ""));
}

#[test]
fn matching_from_a_position() {
    assert!(match_pattern_recursive(b"xx*b", 2, b"yyyab", 3));
    assert!(!match_pattern_recursive(b"xx*b", 2, b"yyyab", 5));
    assert!(match_pattern_recursive(b"ab", 2, b"cd", 2));
}
