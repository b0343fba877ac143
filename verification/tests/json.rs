use librarybridge::document::{json_bool, json_list, json_number, json_optional, json_string};
use librarybridge::json::{parse, read, Fault, Json};
use librarybridge::number::whole_number;

fn number(value: Option<&Json>) -> f64 {
    match value {
        Some(Json::Number(text)) => text.parse().unwrap(),
        other => panic!("{other:?}"),
    }
}

#[test]
fn reads_a_goggame_info_file() {
    let text = r#"{
            "buildId": "55",
            "name": "Beneath a Steel Sky",
            "playTasks": [
                {"category": "game", "isPrimary": true, "path": "BASS.exe", "type": "FileTask"},
                {"category": "document", "path": "manual.pdf", "type": "FileTask"}
            ]
        }"#;
    let value = parse(text).unwrap();
    assert_eq!(value.string("name").as_deref(), Some("Beneath a Steel Sky"));
    let primary = value
        .get("playTasks")
        .unwrap()
        .as_array()
        .iter()
        .find(|t| t.get("isPrimary").and_then(Json::as_bool) == Some(true))
        .unwrap();
    assert_eq!(primary.string("path").as_deref(), Some("BASS.exe"));
}

#[test]
fn handles_escapes_and_unicode() {
    let value = parse(r#"{"a": "line\nbreak", "b": "quote\"inside", "c": "été"}"#).unwrap();
    assert_eq!(value.string("a").as_deref(), Some("line\nbreak"));
    assert_eq!(value.string("b").as_deref(), Some("quote\"inside"));
    assert_eq!(value.string("c").as_deref(), Some("été"));
}

#[test]
fn handles_numbers_arrays_and_nulls() {
    let value = parse(r#"{"n": -12.5, "e": 1e3, "list": [1, 2, 3], "nothing": null}"#).unwrap();
    assert_eq!(number(value.get("n")), -12.5);
    assert_eq!(number(value.get("e")), 1000.0);
    assert_eq!(value.get("e").unwrap().as_u64(), Some(1000));
    assert_eq!(value.get("list").unwrap().as_array().len(), 3);
    assert!(matches!(value.get("nothing"), Some(Json::Null)));
}

#[test]
fn rejects_malformed_input() {
    assert!(parse("{").is_err());
    assert!(parse(r#"{"a": }"#).is_err());
    assert!(parse(r#"{"a": 1} trailing"#).is_err());
    assert!(parse(&format!("{}{}", "[".repeat(100), "]".repeat(100))).is_err());
}

#[test]
fn every_fault_is_told_apart() {
    assert_eq!(read("").unwrap_err(), Fault::Ended);
    assert_eq!(read("[1").unwrap_err(), Fault::CommaOrBracket { at: 2 });
    assert_eq!(read("{\"a\": 1").unwrap_err(), Fault::CommaOrBrace { at: 7 });
    assert_eq!(read("{a").unwrap_err(), Fault::Expected { byte: b'"', at: 1 });
    assert_eq!(read("{\"a\" 1}").unwrap_err(), Fault::Expected { byte: b':', at: 5 });
    assert_eq!(read("tru").unwrap_err(), Fault::Literal { at: 0 });
    assert_eq!(read("1 2").unwrap_err(), Fault::Trailing { at: 2 });
    assert_eq!(read("1e").unwrap_err(), Fault::Number { at: 0 });
    assert_eq!(read("\"a").unwrap_err(), Fault::OpenString);
    assert_eq!(read("\"a\\").unwrap_err(), Fault::OpenEscape);
    assert_eq!(read("\"\\u12").unwrap_err(), Fault::ShortUnicode);
    assert_eq!(read("\"\\u12zz\"").unwrap_err(), Fault::BadUnicode);
    assert_eq!(read("\"\\q\"").unwrap_err(), Fault::Escape { byte: b'q' });
    assert_eq!(read(&"[".repeat(40)).unwrap_err(), Fault::TooDeep);
    let long = " ".repeat(20 * 1024 * 1024);
    assert!(matches!(read(&long), Err(Fault::TooLong { bytes }) if bytes == long.len()));
}

#[test]
fn faults_are_put_into_words() {
    assert_eq!(parse("").unwrap_err(), "input ended early");
    assert_eq!(parse("1 2").unwrap_err(), "trailing content at byte 2");
    assert_eq!(parse("{a").unwrap_err(), "expected '\"' at byte 1");
    assert_eq!(parse("\"\\q\"").unwrap_err(), "unknown escape '\\q'");
    assert_eq!(parse("[1").unwrap_err(), "expected ',' or ']' at byte 2");
    assert_eq!(parse("{\"a\":1").unwrap_err(), "expected ',' or '}' at byte 6");
    assert_eq!(parse("nul").unwrap_err(), "unrecognised literal at byte 0");
    assert_eq!(parse("-").unwrap_err(), "bad number at byte 0");
    assert_eq!(parse("\"").unwrap_err(), "unterminated string");
    assert_eq!(parse("\"\\").unwrap_err(), "unterminated escape");
    assert_eq!(parse("\"\\u1").unwrap_err(), "truncated \\u escape");
    assert_eq!(parse("\"\\uwxyz\"").unwrap_err(), "bad \\u escape");
    assert_eq!(
        parse(&"[".repeat(40)).unwrap_err(),
        "nesting is deeper than the parser allows"
    );
}

#[test]
fn strings_are_read_as_they_are_written() {
    assert_eq!(parse("\"\\u0041\\u00e9\"").unwrap().as_str(), Some("Aé"));
    assert_eq!(parse("\"\\ud800\"").unwrap().as_str(), Some("\u{fffd}"));
    assert_eq!(parse("\"\\u+041\"").unwrap().as_str(), Some("A"));
    assert_eq!(parse("\"\\b\\f\\/\\r\\t\"").unwrap().as_str(), Some("\u{8}\u{c}/\r\t"));
    assert_eq!(parse("\" \\n\u{e9}\"").unwrap().as_str(), Some(" \né"));
    assert_eq!(parse("\"\\té\"").unwrap().as_str(), Some("\té"));
    assert_eq!(parse("\"é\\u00e9é\\\\日本\"").unwrap().as_str(), Some("ééé\\日本"));
}

#[test]
fn the_last_member_of_a_name_counts() {
    let value = parse("{\"a\": 1, \"b\": 2, \"a\": 3}").unwrap();
    assert_eq!(value.get("a").unwrap().as_u64(), Some(3));
    assert_eq!(value.get("b").unwrap().as_u64(), Some(2));
    assert!(value.get("c").is_none());
}

#[test]
fn other_shapes_give_nothing() {
    let value = parse("[true, \"x\"]").unwrap();
    assert!(value.get("a").is_none());
    assert!(value.as_str().is_none());
    assert!(value.as_bool().is_none());
    assert!(value.as_u64().is_none());
    assert_eq!(value.as_array().len(), 2);
    assert_eq!(parse("{}").unwrap().as_array().len(), 0);
    assert_eq!(parse("[ ]").unwrap().as_array().len(), 0);
    assert_eq!(parse(" false ").unwrap().as_bool(), Some(false));
}

#[test]
fn whole_numbers_agree_with_doubles() {
    let literals = [
        "0", "-0", "1", "-1", "1.0", "1.5", "0.5", "1e3", "1E+3", "1e-3", "1000e-3", "1.",
        ".5", "5.e0", "+7", "12345678901234567890", "18446744073709551615",
        "18446744073709551616", "99999999999999999999999", "1e400", "-1e400", "1e-400", "-1e-400",
        "9007199254740993", "9007199254740992.5", "4503599627370496.5", "4503599627370495.5",
        "4503599627370495.25", "0.9999999999999999", "0.99999999999999999",
        "0.99999999999999994", "2.9999999999999999", "2.9999999999999996",
        "123456789012345678901234567890e-20", "1e19", "1e20", "4.9e-324", "2e-324", "00012",
        "1e0000000000000000000003", "1e-9999999999999999999999", "1e9999999999999999999999", "0e99999",
    ];
    for literal in literals {
        let value: f64 = literal.parse().unwrap();
        let expected = if value >= 0.0 && value.fract() == 0.0 {
            Some(value as u64)
        } else {
            None
        };
        assert_eq!(whole_number(literal), expected, "{literal}");
    }
    assert_eq!(whole_number("abc"), None);
    assert_eq!(whole_number(""), None);
}

#[test]
fn strings_are_escaped_for_machines() {
    assert_eq!(json_string("plain"), "\"plain\"");
    assert_eq!(json_string("a\"b\\c"), "\"a\\\"b\\\\c\"");
    assert_eq!(json_string("\n\r\t"), "\"\\n\\r\\t\"");
    assert_eq!(json_string("\u{1}\u{1f}"), "\"\\u0001\\u001f\"");
    assert_eq!(json_string("é/"), "\"é/\"");
}

#[test]
fn a_written_string_reads_back() {
    for text in [
        "", "Alpha", "été", "a\"b", "tab\tand\nline", "é\\a", "\u{1}x", "\né", "\"日本\" \u{1f600}\\é",
    ] {
        let value = parse(&json_string(text)).unwrap();
        assert_eq!(value.as_str(), Some(text), "{text:?}");
    }
}

#[test]
fn lists_and_choices_are_written() {
    assert_eq!(json_list(&vec![]), "");
    assert_eq!(json_list(&vec!["a".to_string(), "b".to_string()]), "\"a\", \"b\"");
    assert_eq!(json_optional(&None), "null");
    assert_eq!(json_optional(&Some("x".to_string())), "\"x\"");
    assert_eq!(json_number(None), "null");
    assert_eq!(json_number(Some(7)), "7");
    assert_eq!(json_bool(true), "true");
    assert_eq!(json_bool(false), "false");
}
