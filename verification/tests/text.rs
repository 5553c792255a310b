use buildprof::json::{parse_json, Json};
use buildprof::text::{
    bytes_file_name, bytes_start_with, contains_text, decimal_text, join_path, join_path_bytes,
    join_texts, nul_position, parse_i32, parse_u32, parse_u64, push_unsigned, same_bytes,
    same_text, split_ranges, text_file_name,
};

fn chars(text: &str) -> Vec<char> {
    text.chars().collect()
}

#[test]
fn numbers_come_back_from_their_digits() {
    for value in [0, 7, -7, i64::from(i32::MAX), i64::from(i32::MIN)] {
        let text = decimal_text(value);
        let all = chars(&text);
        assert_eq!(parse_i32(&all, 0, all.len()).map(i64::from), Some(value), "{text}");
    }
    assert_eq!(decimal_text(i64::MIN), "-9223372036854775808");
    let mut text = "n".to_owned();
    push_unsigned(&mut text, u64::MAX);
    assert_eq!(text, "n18446744073709551615");
}

#[test]
fn numbers_are_read_as_the_standard_library_does() {
    for text in ["", "+", "-", "+5", "-5", "00012", "4294967295", "4294967296", "1x", " 1", "-0"] {
        assert_eq!(parse_u32(&chars(text)), text.parse().ok(), "{text}");
        assert_eq!(parse_u64(&chars(text)), text.parse().ok(), "{text}");
        let all = chars(text);
        assert_eq!(parse_i32(&all, 0, all.len()), text.parse().ok(), "{text}");
    }
    assert_eq!(parse_u64(&chars("18446744073709551616")), None);
}

#[test]
fn file_names_are_those_of_the_standard_library() {
    for path in ["", "/", "a", "/a/b", "a/", "a//", "a/.", "a/./", "a/..", "..", ".", "./", "/.",
        "a/b/../", "a/.b", "a/./.", "//a", "a/ "]
    {
        let expected = std::path::Path::new(path).file_name().and_then(|name| name.to_str());
        assert_eq!(text_file_name(path).as_deref(), expected, "{path}");
        assert_eq!(
            bytes_file_name(path.as_bytes()).as_deref(),
            expected.map(str::as_bytes),
            "{path}"
        );
    }
}

#[test]
fn paths_are_joined_as_the_standard_library_does() {
    for (base, path) in [("/a", "b"), ("/a/", "b"), ("", "b"), ("/a", "/b"), ("/a", ""), ("a", "b")] {
        let expected = std::path::Path::new(base).join(path);
        assert_eq!(join_path(base, path), expected.to_str().unwrap());
        assert_eq!(
            join_path_bytes(base.as_bytes(), path.as_bytes()),
            expected.to_str().unwrap().as_bytes()
        );
    }
}

#[test]
fn texts_are_compared_and_searched() {
    assert!(same_text("\u{e9}", "\u{e9}") && !same_text("a", "ab"));
    assert!(same_bytes(b"ab", b"ab") && !same_bytes(b"ab", b"ac"));
    assert!(bytes_start_with(b"abc", b"ab") && !bytes_start_with(b"a", b"ab"));
    assert!(contains_text("rustc 1.90-nightly", "nightly") && !contains_text("night", "nightly"));
    assert!(contains_text("", "") && contains_text("aab", "ab"));
    assert_eq!(nul_position(b"ab\0", 0), 2);
    assert_eq!(nul_position(b"ab", 1), 2);
}

#[test]
fn texts_are_split_and_joined() {
    assert_eq!(split_ranges(b"a::b".as_slice(), b':'), [(0, 1), (2, 2), (3, 4)]);
    assert_eq!(split_ranges(b"".as_slice(), b':'), [(0, 0)]);
    assert_eq!(join_texts(&["a".to_owned(), "b".to_owned()], ", "), "a, b");
    assert_eq!(join_texts(&[], ", "), "");
}

#[test]
fn json_is_read_into_values() {
    let json = parse_json(r#"{"a":{"b":["x",-3]},"n":18446744073709551615,"f":1.5}"#).unwrap();
    assert_eq!(json.get("n").unwrap().as_u64(), Some(u64::MAX));
    assert_eq!(json.get("n").unwrap().as_integer(), Some(-1));
    assert_eq!(json.get("f").unwrap().as_u64(), None);
    let b = json.get("a").unwrap().get("b").unwrap();
    let Json::List { items } = b else { panic!("{b:?}") };
    assert_eq!(items[0].as_str(), Some("x"));
    assert_eq!(items[1].as_integer(), Some(-3));
    assert_eq!(items[1].as_u64(), None);
    assert!(json.get("c").is_none() && b.get("a").is_none());
    assert!(parse_json("{").is_none());
}
