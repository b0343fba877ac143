//! The small tools that everything else is made of.

use std::path::Path;

use librarybridge::ordered::{before, TextMap};
use librarybridge::path::{
    ancestors, has_extension, is_absolute, join, last_component, parent, same_path, stem,
};
use librarybridge::sorting::{dedup, sort};
use librarybridge::text::{
    ascii_lower, blank, decimal, ends_with, pad, same_text, signed, split_char, starts_with, trim,
    unsigned, words,
};

#[test]
fn spaces_are_what_trimming_takes_off() {
    for code in 0..=0x10ffffu32 {
        if let Some(c) = char::from_u32(code) {
            assert_eq!(blank(c), c.is_whitespace(), "{code:x}");
        }
    }
    for text in ["", "  ", " a b ", "\u{3000}x\u{a0}", "x", "\n\tx y\r\n"] {
        assert_eq!(trim(text), text.trim());
        let split: Vec<&str> = text.split_whitespace().collect();
        assert_eq!(words(text), split);
    }
}

#[test]
fn texts_are_taken_apart() {
    for text in ["", "a", "a/b", "/a//b/", "//"] {
        let split: Vec<&str> = text.split('/').collect();
        assert_eq!(split_char(text, '/'), split, "{text}");
    }
    assert!(starts_with("abc", "ab") && !starts_with("abc", "b") && starts_with("x", ""));
    assert!(ends_with("abc", "bc") && !ends_with("abc", "b") && !ends_with("c", "bc"));
    assert!(same_text("été", "été") && !same_text("a", "ab"));
    assert_eq!(ascii_lower("ÀBC"), "ÀBC".to_ascii_lowercase());
}

#[test]
fn numbers_are_written_and_read() {
    for n in [0u64, 7, 10, 99, 100, 1234567890, u64::MAX] {
        assert_eq!(decimal(n), n.to_string());
        assert_eq!(unsigned(&n.to_string()), Some(n));
    }
    for n in [0i32, -1, 42, i32::MIN, i32::MAX] {
        assert_eq!(signed(n), n.to_string());
    }
    for text in ["", "+", "+5", "-5", "007", "18446744073709551616", "1 ", "a", "99999999999999999999999"] {
        assert_eq!(unsigned(text), text.parse::<u64>().ok(), "{text}");
    }
    for text in ["", "abc", "été", "abcdef"] {
        assert_eq!(pad(text, 4), format!("{text:<4}"));
    }
}

#[test]
fn texts_are_ordered_as_their_bytes_are() {
    let texts = ["b", "a", "ab", "", "é", "z", "Z", "\u{10000}", "\u{ffff}", "a"];
    for a in texts {
        for b in texts {
            assert_eq!(before(a, b), a < b, "{a:?} {b:?}");
        }
    }
    let mut expected: Vec<String> = texts.iter().map(|t| t.to_string()).collect();
    let sorted = sort(expected.clone());
    expected.sort();
    assert_eq!(sorted, expected);
    let shorter = dedup(sorted);
    expected.dedup();
    assert_eq!(shorter, expected);
}

#[test]
fn a_map_keeps_the_last_value() {
    let mut map: TextMap<u8> = TextMap::new();
    map.insert("b".to_string(), 1);
    map.insert("a".to_string(), 2);
    map.insert("b".to_string(), 3);
    map.insert_if_absent("a".to_string(), 4);
    map.insert_if_absent("c".to_string(), 5);
    assert_eq!(map.get("a"), Some(&2));
    assert_eq!(map.get("b"), Some(&3));
    assert_eq!(map.get("c"), Some(&5));
    assert_eq!(map.get("d"), None);
}

#[test]
fn paths_are_what_std_says_they_are() {
    let paths = [
        "", "/", "//", ".", "..", "a", "a/", "a//b", "/a", "/a/", "/a/./b", "./a", "/a/..", "a/.",
        "/a.b/c.d.e", ".hidden", "/x/.hidden", "a.", "//a//b//",
    ];
    for text in paths {
        let path = Path::new(text);
        let shown = |p: &Path| p.to_string_lossy().to_string();
        assert_eq!(is_absolute(text), path.is_absolute(), "{text}");
        assert_eq!(
            last_component(text),
            path.file_name().map(|n| n.to_string_lossy().to_string()),
            "{text}"
        );
        assert_eq!(parent(text), path.parent().map(shown), "{text}");
        let up: Vec<String> = path.ancestors().map(shown).collect();
        assert_eq!(ancestors(text), up, "{text}");
        assert_eq!(
            stem(text),
            path.file_stem().map(|n| n.to_string_lossy().to_string()).unwrap_or_default(),
            "{text}"
        );
        for extension in ["b", "d", "e", "hidden", ""] {
            assert_eq!(
                has_extension(text, extension),
                path.extension().map(|e| e == extension).unwrap_or(false),
                "{text} {extension}"
            );
        }
        for other in paths {
            assert_eq!(same_path(text, other), path == Path::new(other), "{text} {other}");
            assert_eq!(join(text, other), shown(&path.join(other)), "{text} {other}");
        }
    }
}
