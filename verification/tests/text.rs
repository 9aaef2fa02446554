use zaimeter::text::{
    append_decimal, append_signed, characters, contains, escape_applescript, same, starts_with,
    title_case,
};

#[test]
fn test_escape_applescript() {
    assert_eq!(escape_applescript(r#"a\b"c"#), r#"a\\b\"c"#);
}

#[test]
fn test_title_case() {
    assert_eq!(title_case("max"), "Max");
    assert_eq!(title_case("pro"), "Pro");
    assert_eq!(title_case("free"), "Free");
    assert_eq!(title_case(""), "");
}

#[test]
fn title_case_goes_beyond_ascii() {
    assert_eq!(title_case("\u{e9}t\u{e9}"), "\u{c9}t\u{e9}");
    assert_eq!(title_case("\u{df}a"), "SSa");
    assert_eq!(title_case("5h Max"), "5h Max");
    assert_eq!(title_case("mAX"), "MAX");
    for s in ["", "mAX", "Max", "5h Max", "\u{e9}t\u{e9}", "\u{df}a"] {
        let once = title_case(s);
        assert_eq!(title_case(&once), once);
    }
}

#[test]
fn search_and_prefix() {
    assert!(contains("max 20x", "20x"));
    assert!(contains("max", ""));
    assert!(!contains("ma", "max"));
    assert!(starts_with("[cred] x", "[cred]"));
    assert!(!starts_with("x [cred]", "[cred]"));
    assert!(same("a", "a") && !same("a", "A"));
    assert_eq!(characters("a\u{e9}"), vec!['a', '\u{e9}']);
}

#[test]
fn decimals() {
    for n in [0i64, 7, 10, 12345, -1, -10, i64::MAX, i64::MIN] {
        let mut out = "n=".to_string();
        append_signed(&mut out, n);
        assert_eq!(out, format!("n={n}"));
    }
    let mut out = String::new();
    append_decimal(&mut out, u64::MAX);
    assert_eq!(out, u64::MAX.to_string());
}

#[test]
fn escaping_every_special_character() {
    assert_eq!(escape_applescript(""), "");
    assert_eq!(escape_applescript("\"\\\"\n"), "\\\"\\\\\\\"\n");
}
