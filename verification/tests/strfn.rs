use nativum::strfn::{ascii_lower, ascii_upper, contains_ci, trim_text};

#[test]
fn case_mapping_touches_ascii_letters_only() {
    assert_eq!(ascii_upper("Hello, wörld 9"), "HELLO, WöRLD 9");
    assert_eq!(ascii_lower("Hello, WÖRLD 9"), "hello, wÖrld 9");
    assert_eq!(ascii_upper(""), "");
}

#[test]
fn trim_removes_outer_whitespace() {
    assert_eq!(trim_text("  a b \t\n"), "a b");
    assert_eq!(trim_text("\u{3000}x\u{a0}"), "x");
    assert_eq!(trim_text("   "), "");
}

#[test]
fn contains_ignores_ascii_case() {
    assert!(contains_ci("Read a Book", "book"));
    assert!(contains_ci("abc", ""));
    assert!(contains_ci("", ""));
    assert!(!contains_ci("abc", "abcd"));
    assert!(!contains_ci("abc", "x"));
    assert!(contains_ci("xyzABC", "zab"));
}
