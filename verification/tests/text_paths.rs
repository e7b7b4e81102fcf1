use codex_core::ordering::sort_desc;
use codex_core::ordering::Keyed;
use codex_core::paths;
use codex_core::paths::Component;
use codex_core::text;

#[test]
fn paths_are_taken_apart_and_put_together() {
    assert_eq!(
        paths::components("/a/./b/../c"),
        vec![
            Component::RootDir,
            Component::Normal("a".to_string()),
            Component::Normal("b".to_string()),
            Component::ParentDir,
            Component::Normal("c".to_string()),
        ]
    );
    assert_eq!(paths::components("./a")[0], Component::CurDir);
    assert_eq!(paths::join("/a", "b"), "/a/b");
    assert_eq!(paths::join("/a/", "b"), "/a/b");
    assert_eq!(paths::join("/a", "/b"), "/b");
    assert_eq!(paths::join("", "b"), "b");
    assert_eq!(paths::file_name("/a/b.tar.gz").as_deref(), Some("b.tar.gz"));
    assert_eq!(paths::file_name("/a/.."), None);
    assert_eq!(paths::file_stem("/a/b.tar.gz").as_deref(), Some("b.tar"));
    assert_eq!(paths::file_stem(".bashrc").as_deref(), Some(".bashrc"));
    assert!(paths::starts_with("/a/b", "/a"));
    assert!(!paths::starts_with("/ab", "/a"));
    assert!(paths::is_absolute("/a") && !paths::is_absolute("a"));
    assert_eq!(
        paths::normalize_path("/a/../../b"),
        vec![Component::RootDir, Component::Normal("b".to_string())]
    );
}

#[test]
fn texts_are_trimmed_and_split() {
    assert_eq!(text::trim(" \u{a0}a b\t\u{3000}"), "a b");
    assert_eq!(text::trim_end("a \n"), "a");
    assert_eq!(text::trim_end_of("a__", '_'), "a");
    assert_eq!(text::trim_start_of("__a", '_'), "a");
    assert_eq!(text::split("a;b;", ';'), vec!["a", "b", ""]);
    assert_eq!(
        text::split_once("a=b=c", '='),
        Some(("a".to_string(), "b=c".to_string()))
    );
    assert_eq!(text::split_once("a", '='), None);
    assert_eq!(text::lines("a\r\nb\n\nc"), vec!["a", "b", "", "c"]);
    assert_eq!(text::first_word("  a b").as_deref(), Some("a"));
    assert_eq!(text::first_word(" "), None);
    assert_eq!(text::strip_prefix("abc", "ab").as_deref(), Some("c"));
    assert_eq!(text::strip_suffix("abc", "x"), None);
    assert_eq!(text::join(&vec!["a".to_string(), "b".to_string()], ", "), "a, b");
    assert!(text::contains_str("hello", "ell"));
    assert!(text::starts_with("hello", "he") && text::ends_with("hello", "lo"));
}

#[test]
fn numbers_are_read_and_written() {
    assert_eq!(text::parse_u64("+007"), Some(7));
    assert_eq!(text::parse_u64("18446744073709551615"), Some(u64::MAX));
    assert_eq!(text::parse_u64("18446744073709551616"), None);
    assert_eq!(text::parse_u64("-1"), None);
    assert_eq!(text::parse_u64(""), None);
    assert_eq!(text::parse_u32("4294967296"), None);
    let mut out = String::new();
    text::push_signed_decimal(&mut out, i64::MIN);
    out.push(' ');
    text::push_padded(&mut out, 7, 4);
    out.push(' ');
    text::push_decimal(&mut out, 0);
    assert_eq!(out, "-9223372036854775808 0007 0");
}

#[test]
fn ascii_case_is_ignored_where_asked() {
    assert_eq!(text::to_ascii_lower("A\u{c4}z"), "a\u{c4}z");
    assert_eq!(text::to_ascii_upper("aZ1"), "AZ1");
    assert!(text::eq_ignore_ascii_case("Codex", "cODEX"));
    assert!(!text::eq_ignore_ascii_case("\u{c4}", "\u{e4}"));
    assert!(text::str_before("a", "b") && !text::str_before("b", "b"));
    assert!(text::str_before("ab", "abc"));
    assert!(text::str_before("\u{ffff}", "\u{10000}"));
}

#[test]
fn sorting_keeps_equal_items_in_place() {
    let keyed = |major, minor, value| Keyed { major, minor, value };
    let sorted = sort_desc(vec![
        keyed(1, 1, 'a'),
        keyed(2, 0, 'b'),
        keyed(1, 2, 'c'),
        keyed(1, 1, 'd'),
    ]);
    let values: Vec<char> = sorted.into_iter().map(|item| item.value).collect();
    assert_eq!(values, vec!['b', 'c', 'a', 'd']);
}
