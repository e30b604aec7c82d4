use wm_core::util::{format_duration, slugify, truncate_str, unescape_text};

#[test]
fn test_unescape_text() {
    assert_eq!(unescape_text("line1\\nline2"), "line1\nline2");
    assert_eq!(unescape_text("col1\\tcol2"), "col1\tcol2");
    assert_eq!(unescape_text("no escapes"), "no escapes");
}

#[test]
fn test_truncate_str() {
    assert_eq!(truncate_str("hello", 10), "hello");
    assert!(truncate_str("hello world this is long", 10).ends_with("..."));
}

#[test]
fn test_slugify() {
    assert_eq!(slugify("Hello World"), "hello-world");
    assert_eq!(slugify("Auth & Security!"), "auth-security");
}

#[test]
fn test_format_duration() {
    assert_eq!(format_duration(45), "45s");
    assert_eq!(format_duration(130), "2m10s");
    assert_eq!(format_duration(3700), "1h1m");
}

#[test]
fn truncate_exact_values() {
    assert_eq!(truncate_str("hello world this is long", 10), "hello w...");
    assert_eq!(truncate_str("abcdef", 2), "...");
    assert_eq!(truncate_str("abc", 3), "abc");
    // the character count, not the UTF-8 length, decides whether to truncate
    assert_eq!(truncate_str("ééé", 5), "ééé");
    assert_eq!(truncate_str("éééééé", 10), "éééééé");
    assert_eq!(truncate_str("éééééé", 5), "éé...");
}

#[test]
fn slugify_edges() {
    assert_eq!(slugify("--Already--Sluggy--"), "already-sluggy");
    assert_eq!(slugify("!!!"), "");
    assert_eq!(slugify("a---b"), "a-b");
}

#[test]
fn format_duration_boundaries() {
    assert_eq!(format_duration(0), "0s");
    assert_eq!(format_duration(59), "59s");
    assert_eq!(format_duration(60), "1m0s");
    assert_eq!(format_duration(3599), "59m59s");
    assert_eq!(format_duration(3600), "1h0m");
}

#[test]
fn unescape_both() {
    assert_eq!(unescape_text("a\\tb\\nc"), "a\tb\nc");
}

#[test]
fn unicode_white_space_is_trimmed() {
    assert_eq!(wm_core::text::trim_str("\u{3000}\u{85}a b\u{2029}\u{a0}"), "a b");
    assert_eq!(wm_core::text::trim_str("\u{200b}a"), "\u{200b}a");
}
