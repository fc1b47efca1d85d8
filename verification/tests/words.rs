use lkpm::path::{
    absolute, directory_chain, file_name, join, list_holds_path, names_of, parent, paths_equal,
    strip_extension, strip_prefix, with_file_name,
};
use lkpm::text::{
    contains, decimal, decimal_wide, less, lines, parse_number, replace, rsplit_once,
    signed_decimal, sort_unique, split, to_ascii_lower, trim, words,
};

fn s(v: &[&str]) -> Vec<String> {
    v.iter().map(|x| x.to_string()).collect()
}

#[test]
fn paths_are_compared_by_their_names() {
    assert_eq!(names_of("/a//b/./c/"), s(&["a", "b", "c"]));
    assert!(absolute("/a"));
    assert!(!absolute("a"));
    assert!(paths_equal("/a//b/", "/a/b"));
    assert!(!paths_equal("a/b", "/a/b"));
    assert!(list_holds_path(&s(&["/x", "/a/b"]), "/a//b"));
}

#[test]
fn paths_are_put_together_and_taken_apart() {
    assert_eq!(join("/a", "b"), "/a/b");
    assert_eq!(join("/a/", "b"), "/a/b");
    assert_eq!(join("/a", "/b"), "/b");
    assert_eq!(join("", "b"), "b");
    assert_eq!(parent("/a/b").as_deref(), Some("/a"));
    assert_eq!(parent("a").as_deref(), Some(""));
    assert_eq!(parent("/"), None);
    assert_eq!(file_name("/a/b.c").as_deref(), Some("b.c"));
    assert_eq!(file_name("/a/.."), None);
    assert_eq!(with_file_name("/a/b", "c"), "/a/c");
    assert_eq!(strip_extension("/a/b.c"), "/a/b");
    assert_eq!(strip_extension("/a/.b"), "/a/.b");
    assert_eq!(strip_prefix("/a/b/c", "/a").as_deref(), Some("b/c"));
    assert_eq!(strip_prefix("/ab", "/a"), None);
    assert_eq!(directory_chain("/a/b"), s(&["/", "/a", "/a/b"]));
}

#[test]
fn numbers_are_written_and_read() {
    assert_eq!(decimal(0), "0");
    assert_eq!(decimal(u64::MAX), "18446744073709551615");
    assert_eq!(decimal_wide(u128::MAX), "340282366920938463463374607431768211455");
    assert_eq!(signed_decimal(-2147483648), "-2147483648");
    assert_eq!(signed_decimal(17), "17");
    assert_eq!(parse_number("18446744073709551615"), Some(u64::MAX));
    assert_eq!(parse_number("18446744073709551616"), None);
    assert_eq!(parse_number("+7"), Some(7));
    assert_eq!(parse_number(""), None);
    assert_eq!(parse_number("-1"), None);
}

#[test]
fn texts_are_cut() {
    assert_eq!(lines("a\r\nb\n\nc"), s(&["a", "b", "", "c"]));
    assert_eq!(words(" a \u{2003}b\n"), s(&["a", "b"]));
    assert_eq!(split("a,,b", ','), s(&["a", "", "b"]));
    assert_eq!(trim("\u{a0} x\t"), "x");
    assert_eq!(to_ascii_lower("ÄBc"), "Äbc");
    assert_eq!(replace("a'b", '\'', "xx"), "axxb");
    assert_eq!(rsplit_once("a/b/c", '/'), Some(("a/b".to_string(), "c".to_string())));
    assert!(contains("abc", "bc"));
    assert!(less("B", "a"));
    assert!(!less("é", "z"));
    assert_eq!(sort_unique(&s(&["b", "a", "b"])), s(&["a", "b"]));
}
