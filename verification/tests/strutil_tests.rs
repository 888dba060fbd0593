use app_launcher::strutil::{contains_substring, last_index_of, str_lex_le, usize_to_string};
use app_launcher::paths::{config_path, has_extension, path_join, plist_path};

#[test]
fn substring_found() {
    assert!(contains_substring("hello world", "lo w"));
    assert!(contains_substring("abc", "abc"));
    assert!(contains_substring("abc", ""));
    assert!(contains_substring("xcode", "code"));
}

#[test]
fn substring_not_found() {
    assert!(!contains_substring("abc", "abcd"));
    assert!(!contains_substring("", "a"));
    assert!(!contains_substring("acbd", "ab"));
}

#[test]
fn decimal_rendering() {
    assert_eq!(usize_to_string(0), "0");
    assert_eq!(usize_to_string(7), "7");
    assert_eq!(usize_to_string(10), "10");
    assert_eq!(usize_to_string(12345), "12345");
}

#[test]
fn lexicographic_comparison() {
    assert!(str_lex_le("alpha", "zeta"));
    assert!(!str_lex_le("zeta", "alpha"));
    assert!(str_lex_le("abc", "abc"));
    assert!(str_lex_le("ab", "abc"));
    assert!(!str_lex_le("abc", "ab"));
    // Capitals sort before lowercase by scalar value.
    assert!(str_lex_le("Zeta", "alpha"));
}

#[test]
fn last_index_of_finds_last() {
    assert_eq!(last_index_of("a.b.c", '.'), Some(3));
    assert_eq!(last_index_of("abc", '.'), None);
    assert_eq!(last_index_of(".", '.'), Some(0));
}

#[test]
fn path_join_inserts_separator() {
    assert_eq!(path_join("/Applications", "Safari.app"), "/Applications/Safari.app");
    assert_eq!(path_join("/Applications/", "Safari.app"), "/Applications/Safari.app");
    assert_eq!(path_join("", "Safari.app"), "Safari.app");
    // An absolute right-hand side stands alone.
    assert_eq!(path_join("/Applications", "/tmp/x"), "/tmp/x");
}

#[test]
fn config_path_under_home() {
    assert_eq!(config_path("/Users/me"), "/Users/me/.app-launcher-config.json");
}

#[test]
fn plist_path_inside_bundle() {
    assert_eq!(
        plist_path("/Applications/Safari.app"),
        "/Applications/Safari.app/Contents/Info.plist"
    );
}

#[test]
fn extension_detection() {
    assert!(has_extension("AppIcon.icns"));
    assert!(has_extension("icon.png"));
    assert!(!has_extension("AppIcon"));
    // A leading dot alone marks a hidden file, not an extension.
    assert!(!has_extension(".icns"));
    assert!(has_extension("dir/file.png"));
    // The dot belongs to a directory name, not the file.
    assert!(!has_extension("dir.d/file"));
}
