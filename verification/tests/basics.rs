use ucp::json::{parse, parse_bytes, Json, JsonObject};
use ucp::order::{is_before, sort};
use ucp::paths::{
    backup_path, components, file_name, is_absolute, join_path, relative_to, split_extension,
};
use ucp::text::{
    byte_len, chars_of, contains, contains_char, copy_list, copy_option, decimal_text, ends_with,
    find_last, join, line_of, lines, list_contains, pad, records, same_text, split_on, starts_with,
    strip_prefix, strip_suffix, text_of, trim, trim_end, words, CharClass,
};

fn texts(items: &[&str]) -> Vec<String> {
    items.iter().map(|item| item.to_string()).collect()
}

#[test]
fn texts_are_compared_and_cut() {
    assert!(same_text("ä", "ä"));
    assert!(!same_text("a", "ab"));
    assert_eq!(byte_len("äb"), 3);
    let chars = chars_of("abca");
    assert_eq!(text_of(&chars, 1, 3), "bc");
    assert_eq!(find_last(&chars, 'a'), Some(3));
    assert_eq!(find_last(&chars, 'z'), None);
    assert!(contains("hello", "ell"));
    assert!(contains("hello", ""));
    assert!(!contains("hello", "lle"));
    assert!(contains_char("a/b", '/'));
    assert!(starts_with("rollout-x", "rollout-"));
    assert!(!starts_with("x", "xy"));
    assert!(ends_with("a.jsonl", ".jsonl"));
    assert_eq!(strip_prefix("fco_1", "fco_").as_deref(), Some("1"));
    assert_eq!(strip_prefix("1", "fco_"), None);
    assert_eq!(strip_suffix("a.toml", ".toml").as_deref(), Some("a"));
    assert_eq!(strip_suffix("a", ".toml"), None);
    assert_eq!(copy_option(&Some("x".to_string())).as_deref(), Some("x"));
    assert_eq!(copy_list(&texts(&["a", "b"])), texts(&["a", "b"]));
    assert!(list_contains(&texts(&["a", "b"]), "b"));
    assert!(!list_contains(&texts(&["a", "b"]), "c"));
}

#[test]
fn contents_split_into_records_and_lines() {
    let content = "a\r\n\nb\rc\nlast";
    assert_eq!(
        records(content),
        texts(&["a\r\n", "\n", "b\rc\n", "last"])
    );
    assert_eq!(records(content).concat(), content);
    assert_eq!(
        lines(content),
        content.lines().map(str::to_string).collect::<Vec<_>>()
    );
    assert_eq!(line_of("a\r\n"), "a");
    assert_eq!(line_of("a\r"), "a\r");
    assert!(records("").is_empty());
    assert!(lines("").is_empty());
    assert_eq!(lines("a\n"), texts(&["a"]));
}

#[test]
fn pieces_join_again() {
    assert_eq!(split_on("a..b", '.'), texts(&["a", "", "b"]));
    assert_eq!(split_on("", '.'), texts(&[""]));
    assert_eq!(join(&split_on("a..b", '.'), "."), "a..b");
    assert_eq!(join(&texts(&["a", "b", "c"]), ", "), "a, b, c");
    assert_eq!(join(&Vec::new(), ", "), "");
}

#[test]
fn ends_are_trimmed() {
    assert_eq!(trim("\u{a0} a b\n", CharClass::Space), "a b");
    assert_eq!(trim("__a_b_", CharClass::Underscore), "a_b");
    assert_eq!(trim_end(" a\r\n\r\n", CharClass::LineEnd), " a");
    assert_eq!(trim("  ", CharClass::Space), "");
    assert_eq!(words(" a\tb \u{2003}c"), texts(&["a", "b", "c"]));
}

#[test]
fn numbers_and_columns() {
    assert_eq!(decimal_text(0), "0");
    assert_eq!(decimal_text(120), "120");
    assert_eq!(decimal_text(u64::MAX), "18446744073709551615");
    assert_eq!(pad("ab", 4), "ab  ");
    assert_eq!(pad("abcde", 4), "abcde");
    assert_eq!(pad("ä", 2), "ä ");
}

#[test]
fn texts_are_sorted_by_code_point() {
    assert!(is_before("B", "a"));
    assert!(is_before("a", "ab"));
    assert!(!is_before("a", "a"));
    assert!(is_before("z", "é"));
    let mut expected = texts(&["b", "a_10", "a_2", "", "é", "B", "a_10"]);
    let sorted = sort(texts(&["b", "a_10", "a_2", "", "é", "B", "a_10"]));
    expected.sort();
    assert_eq!(sorted, expected);
}

#[test]
fn paths_are_taken_apart() {
    assert!(is_absolute("/a"));
    assert!(!is_absolute("a"));
    assert_eq!(join_path("/a", "b"), "/a/b");
    assert_eq!(join_path("/a/", "b"), "/a/b");
    assert_eq!(join_path("", "b"), "b");
    assert_eq!(join_path("/a", "/b"), "/b");
    assert_eq!(components("/a//b/./c/"), texts(&["/", "a", "b", "c"]));
    assert_eq!(relative_to("/a/b/c", "/a").as_deref(), Some("b/c"));
    assert_eq!(relative_to("/ab/c", "/a"), None);
    assert_eq!(file_name("/a/b.c").as_deref(), Some("b.c"));
    assert_eq!(file_name("/a/.."), None);
    assert_eq!(file_name("/"), None);
    assert_eq!(
        split_extension("a.b.toml"),
        ("a.b".to_string(), Some("toml".to_string()))
    );
    assert_eq!(split_extension(".toml"), (".toml".to_string(), None));
    assert_eq!(split_extension("a."), ("a".to_string(), Some(String::new())));
}

#[test]
fn backups_keep_their_place() {
    assert_eq!(
        backup_path(
            "/h/.codex/sessions/2026/r.jsonl",
            "/h/.codex",
            "/h/.codex/.b",
            "rollout.jsonl"
        ),
        "/h/.codex/.b/sessions/2026/r.jsonl"
    );
    assert_eq!(
        backup_path("/x/r.jsonl", "/h/.codex", "/b", "rollout.jsonl"),
        "/b/r.jsonl"
    );
    assert_eq!(
        backup_path("/", "/h/.codex", "/b", "rollout.jsonl"),
        "/b/rollout.jsonl"
    );
}

#[test]
fn documents_are_read_and_written() {
    let text = "{\"b\":[1,-2,true,null,\"x\\u00e9\\n\"],\"a\":{\"big\":18446744073709551615}}";
    let json = parse(text).unwrap();
    assert_eq!(
        json.render(),
        "{\"a\":{\"big\":18446744073709551615},\"b\":[1,-2,true,null,\"xé\\n\"]}"
    );
    assert_eq!(
        parse("{\"a\":[1]}").unwrap().render_pretty(),
        "{\n  \"a\": [\n    1\n  ]\n}"
    );
    let list = json.get("b").unwrap().as_array().unwrap();
    assert_eq!(list[0].as_i64(), Some(1));
    assert_eq!(list[1].as_i64(), Some(-2));
    assert_eq!(list[1].as_u64(), None);
    assert_eq!(list[2].as_bool(), Some(true));
    assert_eq!(list[4].as_str().map(|s| s.as_str()), Some("xé\n"));
    let big = json.get_in("a", "big").unwrap();
    assert_eq!(big.as_u64(), Some(u64::MAX));
    assert_eq!(big.as_i64(), None);
    assert!(json.get("c").is_none());
    assert!(list[0].get("a").is_none());
    assert_eq!(json.copy(), json);
    assert!(parse("{").is_none());
    assert!(parse_bytes(b"\xff").is_none());
    assert_eq!(parse_bytes(b"[]").unwrap().render(), "[]");
    assert_eq!(parse("{\"a\":1,\"a\":2}").unwrap().render(), "{\"a\":2}");
}

#[test]
fn objects_hold_members() {
    let mut object = JsonObject::new();
    object.insert("n".to_string(), Json::integer(-5));
    object.insert("t".to_string(), Json::text("x"));
    object.insert("n".to_string(), Json::integer(6));
    assert_eq!(object.len(), 2);
    assert!(object.contains_key("n"));
    assert_eq!(object.get("n").unwrap().as_i64(), Some(6));
    let copy = object.copy();
    assert_eq!(object.take("t").unwrap().render(), "\"x\"");
    assert!(object.take("t").is_none());
    assert_eq!(object.len(), 1);
    let (key, value) = object.member(0);
    assert_eq!(key.as_str(), "n");
    assert_eq!(value.as_i64(), Some(6));
    assert_eq!(Json::Object(copy).render(), "{\"n\":6,\"t\":\"x\"}");
    let row = parse("{\"type\":\"x\",\"n\":1}").unwrap();
    assert_eq!(row.text_at("type").map(|s| s.as_str()), Some("x"));
    assert!(row.text_at("n").is_none());
    assert!(row.as_object().is_some());
}
