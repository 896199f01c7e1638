use e_agent::order::{insert_sorted, Ordered};
use e_agent::path::{
    absolute, is_below, is_in, is_same_place, join_path, parent_directory, path_extension,
    split_path,
};
use e_agent::table::Table;
use e_agent::text::{
    clean, contains, decimal_text, ends_with, find, is_space_char, join, lower, parse_unsigned,
    preview, signed_text, split, split_words, starts_with, strip_prefix, take_line, trim,
};

use std::path::Path;

fn texts(items: &[&str]) -> Vec<String> {
    items.iter().map(|item| item.to_string()).collect()
}

#[test]
fn white_space_is_that_of_unicode() {
    for code in 0..=char::MAX as u32 {
        if let Some(c) = char::from_u32(code) {
            assert_eq!(is_space_char(c), c.is_whitespace(), "{code:x}");
        }
    }
}

#[test]
fn trimming_matches_the_standard_library() {
    for text in ["", " ", "a", " a b ", "\u{3000}x\n", "\t\r\n", "ü "] {
        assert_eq!(trim(text), text.trim());
        assert_eq!(trim(&trim(text)), trim(text));
    }
}

#[test]
fn words_and_lines_match_the_standard_library() {
    for text in [
        "",
        " ",
        "a",
        "  a  b\tc\n",
        "GET /x HTTP/1.1\r\nHost: y\r\n",
        "one\r",
        "\r\n",
        "\n",
        "a\r\r\nb",
    ] {
        let words: Vec<&str> = text.split_whitespace().collect();
        assert_eq!(split_words(text), words, "{text:?}");
        assert_eq!(take_line(text), text.lines().next().unwrap_or(""), "{text:?}");
    }
}

#[test]
fn searching_matches_the_standard_library() {
    for (text, needle) in [
        ("", ""),
        ("abc", ""),
        ("abc", "bc"),
        ("abc", "abcd"),
        ("aab", "ab"),
        ("x", "y"),
    ] {
        assert_eq!(contains(text, needle), text.contains(needle));
        assert_eq!(starts_with(text, needle), text.starts_with(needle));
        assert_eq!(ends_with(text, needle), text.ends_with(needle));
        assert_eq!(
            strip_prefix(text, needle).as_deref(),
            text.strip_prefix(needle)
        );
    }
    assert_eq!(find("éab", "ab"), Some(1));
    assert_eq!(find("ab", "x"), None);
}

#[test]
fn pieces_are_split_and_joined() {
    for text in ["", ".", "a.b", "a..b."] {
        let pieces: Vec<&str> = text.split('.').collect();
        assert_eq!(split(text, '.'), pieces);
        assert_eq!(join(&split(text, '.'), "."), text);
    }
    assert_eq!(
        clean(&texts(&[" a ", "", "  ", "b"])),
        texts(&["a", "b"])
    );
    assert_eq!(lower("AbC-É"), "AbC-É".to_ascii_lowercase());
}

#[test]
fn numbers_are_written_and_read() {
    for n in [0, 7, 10, 1000, u64::MAX] {
        assert_eq!(decimal_text(n), n.to_string());
        assert_eq!(parse_unsigned(&n.to_string(), u64::MAX), Some(n));
    }
    for n in [0, -1, i64::MIN, i64::MAX] {
        assert_eq!(signed_text(n), n.to_string());
    }
    for text in ["", "-1", "1a", " 1", "18446744073709551616"] {
        assert_eq!(parse_unsigned(text, u64::MAX), None, "{text}");
    }
    assert_eq!(parse_unsigned("256", 255), None);
    assert_eq!(parse_unsigned("0007", 255), Some(7));
    assert_eq!(parse_unsigned("+7", 255), "+7".parse::<u8>().ok().map(u64::from));
}

#[test]
fn previews_of_previews_change_nothing() {
    let text = "abcdefghijklmno";
    assert_eq!(preview(text, 10), "abcdef\u{2026}mno");
    for max in 0..20 {
        let once = preview(text, max);
        assert_eq!(preview(&once, max), once);
    }
}

#[test]
fn paths_are_compared_by_component() {
    let paths = ["/", "/a", "/a/", "/a/./b", "/a/b", "/ab", "a", "./a", "", "/a/../b"];
    for a in paths {
        assert_eq!(absolute(a), Path::new(a).is_absolute());
        for b in paths {
            assert_eq!(
                is_in(a, b),
                Path::new(a).starts_with(Path::new(b)),
                "{a} in {b}"
            );
            assert_eq!(is_same_place(a, b), Path::new(a) == Path::new(b), "{a} {b}");
            assert_eq!(is_below(a, b), is_in(a, b) && !is_same_place(a, b));
            assert_eq!(
                join_path(a, b),
                Path::new(a).join(b).to_str().unwrap(),
                "{a} + {b}"
            );
        }
    }
    assert_eq!(split_path("/a//b/"), texts(&["/", "a", "b"]));
    assert_eq!(parent_directory("/a/config.toml"), "/a");
}

#[test]
fn extensions_match_the_standard_library() {
    for path in ["a.png", "a.tar.gz", ".hidden", "a.", "a", "x/.y/b", "..", "/", "a/b.c/"] {
        let expected = Path::new(path)
            .extension()
            .map(|text| text.to_str().unwrap().to_string());
        assert_eq!(path_extension(path), expected, "{path}");
    }
}

#[test]
fn order_is_that_of_the_code_points() {
    for (a, b) in [("", "a"), ("a", "b"), ("Z", "a"), ("a", "aa"), ("a", "é")] {
        let (x, y) = (a.to_string(), b.to_string());
        assert_eq!(x.precedes(&y), a < b);
        assert_eq!(y.precedes(&x), b < a);
        assert!(!x.precedes(&x));
    }
    let mut sorted: Vec<String> = Vec::new();
    for item in ["b", "a", "b", "c"] {
        insert_sorted(&mut sorted, item.to_string());
    }
    assert_eq!(sorted, texts(&["a", "b", "c"]));
}

#[test]
fn tables_keep_the_latest_value() {
    let mut table: Table<String> = Table::new();
    table.insert("k".into(), "1".into());
    table.insert("k".into(), "2".into());
    assert_eq!(table.get("k").map(String::as_str), Some("2"));
    assert_eq!(table.get("x"), None);
    let doubled = Table {
        entries: vec![
            ("k".to_string(), "1".to_string()),
            ("k".to_string(), "2".to_string()),
        ],
    };
    assert_eq!(doubled.get("k").map(String::as_str), Some("2"));
    let mut copy = table.copy();
    copy.extend(&Table {
        entries: vec![("k".to_string(), "3".to_string())],
    });
    assert_eq!(copy.get("k").map(String::as_str), Some("3"));
    assert_eq!(table.get("k").map(String::as_str), Some("2"));
}

#[test]
fn paths_are_taken_apart_as_std_does() {
    let mut paths = vec![String::new()];
    let mut at = 0;
    while at < paths.len() {
        let path = paths[at].clone();
        at += 1;
        let parent = match Path::new(&path).parent() {
            Some(parent) => parent.to_str().unwrap(),
            None => ".",
        };
        assert_eq!(parent_directory(&path), parent, "{path:?}");
        let components: Vec<String> = Path::new(&path)
            .components()
            .map(|part| part.as_os_str().to_str().unwrap().to_string())
            .collect();
        assert_eq!(split_path(&path), components, "{path:?}");
        let extension = Path::new(&path)
            .extension()
            .map(|text| text.to_str().unwrap().to_string());
        assert_eq!(path_extension(&path), extension, "{path:?}");
        if path.len() < 8 {
            for c in ['/', '.', 'a'] {
                paths.push(format!("{path}{c}"));
            }
        }
    }
    assert_eq!(parent_directory("a/./c"), "a");
    assert_eq!(parent_directory("a/b/"), "a");
    assert_eq!(parent_directory(""), ".");
    assert_eq!(parent_directory("/"), ".");
    assert_eq!(parent_directory("./c"), ".");
    assert_eq!(parent_directory("c"), "");
}
