use tfstatediff::diff::{flatten, is_sensitive_path, REDACTED};
use tfstatediff::json::{display, from_json, number_display, values_equal};
use tfstatediff::map::{all_keys, SortedMap};
use tfstatediff::sensitive::{key_names_secret, last_path_segment, redact};
use tfstatediff::text::{before, chars_of, occurs_in, push_decimal, same_text};
use tfstatediff::value::{Json, Num};

fn text(s: &str) -> Json {
    Json::String(s.to_string())
}

fn number(n: u64) -> Json {
    Json::Num(Num::PosInt(n))
}

fn float(x: f64) -> Json {
    Json::Num(Num::Float(serde_json::Number::from_f64(x).unwrap()))
}

fn object(members: Vec<(&str, Json)>) -> Json {
    let mut map = SortedMap::new();
    for (key, value) in members {
        map.insert(key.to_string(), value);
    }
    Json::Object(map)
}

fn flat(value: &Json) -> Vec<(String, String)> {
    let mut out = SortedMap::new();
    flatten("", value, &mut out);
    let mut rows = Vec::new();
    for i in 0..out.len() {
        let (path, leaf) = out.entry(i);
        rows.push((path.clone(), leaf.clone()));
    }
    rows
}

fn pair(path: &str, leaf: &str) -> (String, String) {
    (path.to_string(), leaf.to_string())
}

#[test]
fn is_sensitive_path_matches_common_keyword_case_insensitively() {
    assert!(is_sensitive_path("attributes.Password"));
    assert!(is_sensitive_path("db.master_password"));
    assert!(is_sensitive_path("tags.access_key"));
    assert!(!is_sensitive_path("tags.Name"));
}

#[test]
fn flatten_handles_nested_objects_and_arrays() {
    let value = object(vec![
        ("a", object(vec![("b", number(1))])),
        ("c", Json::Array(vec![number(10), number(20)])),
    ]);
    let mut out = SortedMap::new();
    flatten("", &value, &mut out);
    assert_eq!(out.get("a.b"), Some(&"1".to_string()));
    assert_eq!(out.get("c[0]"), Some(&"10".to_string()));
    assert_eq!(out.get("c[1]"), Some(&"20".to_string()));
}

#[test]
fn every_keyword_marks_a_path() {
    assert!(is_sensitive_path("password"));
    assert!(is_sensitive_path("client_secret"));
    assert!(is_sensitive_path("x.TOKEN_ID"));
    assert!(is_sensitive_path("tls.private_key_pem"));
    assert!(is_sensitive_path("access_key"));
    assert!(is_sensitive_path("credentials"));
    assert!(is_sensitive_path("my_api_key"));
    assert!(!is_sensitive_path(""));
    assert!(!is_sensitive_path("private-key"));
}

#[test]
fn only_the_last_key_counts() {
    assert!(!is_sensitive_path("secrets.value"));
    assert!(!is_sensitive_path("secrets[0].value"));
    assert!(is_sensitive_path("a.secrets[0]"));
    assert!(is_sensitive_path("a.secrets[0][12]"));
    assert!(!is_sensitive_path("a.x[password]"));
    assert!(!is_sensitive_path("password."));
}

#[test]
fn letters_beyond_ascii_are_lowered_too() {
    // U+212A KELVIN SIGN is lowered to an ordinary `k`.
    assert!(is_sensitive_path("TO\u{212A}EN"));
    assert!(!is_sensitive_path("pass\u{00DF}word"));
    assert!(is_sensitive_path("\u{00C4}_PASSWORD"));
}

#[test]
fn a_key_is_taken_as_it_stands() {
    assert!(key_names_secret("db_password_old"));
    assert!(!key_names_secret("db_PASSWORD_old"));
}

#[test]
fn last_segments() {
    assert_eq!(last_path_segment("a.b.c"), "c");
    assert_eq!(last_path_segment("abc"), "abc");
    assert_eq!(last_path_segment("a.b[3].c[0][1]"), "c");
    assert_eq!(last_path_segment("a.b[3.5]"), "5]");
    assert_eq!(last_path_segment("[0]"), "");
    assert_eq!(last_path_segment("\u{00E9}.\u{00FC}[0]"), "\u{00FC}");
}

#[test]
fn redaction_hides_the_text() {
    assert_eq!(redact(true, "hunter2"), "(sensitive value, redacted)");
    assert_eq!(redact(true, "hunter2"), REDACTED);
    assert_eq!(redact(false, "hunter2"), "hunter2");
}

#[test]
fn flatten_writes_every_kind_of_leaf() {
    let value = object(vec![
        ("null", Json::Null),
        ("yes", Json::Bool(true)),
        ("no", Json::Bool(false)),
        ("big", number(u64::MAX)),
        ("negative", Json::Num(Num::NegInt(i64::MIN))),
        ("float", float(1.5)),
        ("text", text("a \"quoted\" word")),
        ("empty_object", object(vec![])),
        ("empty_array", Json::Array(vec![])),
    ]);
    assert_eq!(
        flat(&value),
        vec![
            pair("big", "18446744073709551615"),
            pair("float", "1.5"),
            pair("negative", "-9223372036854775808"),
            pair("no", "false"),
            pair("null", "null"),
            pair("text", "a \"quoted\" word"),
            pair("yes", "true"),
        ]
    );
}

#[test]
fn flatten_of_a_scalar_uses_the_prefix_as_it_is() {
    assert_eq!(flat(&number(0)), vec![pair("", "0")]);
    let mut out = SortedMap::new();
    flatten("x", &Json::Array(vec![Json::Array(vec![text("deep")])]), &mut out);
    assert_eq!(out.get("x[0][0]"), Some(&"deep".to_string()));
    assert_eq!(out.len(), 1);
}

#[test]
fn flatten_keeps_what_is_there_and_replaces_what_it_finds() {
    let mut out = SortedMap::new();
    out.insert("kept".to_string(), "old".to_string());
    out.insert("a".to_string(), "old".to_string());
    flatten("", &object(vec![("a", text("new"))]), &mut out);
    assert_eq!(out.get("kept"), Some(&"old".to_string()));
    assert_eq!(out.get("a"), Some(&"new".to_string()));
}

#[test]
fn of_two_leaves_on_one_path_the_later_counts() {
    let value = object(vec![("a.b", number(2)), ("a", object(vec![("b", number(1))]))]);
    assert_eq!(flat(&value), vec![pair("a.b", "2")]);
}

#[test]
fn more_than_ten_items_have_decimal_positions() {
    let mut items = Vec::new();
    for _ in 0..12 {
        items.push(Json::Null);
    }
    let rows = flat(&object(vec![("x", Json::Array(items))]));
    assert_eq!(rows.len(), 12);
    assert_eq!(rows[0].0, "x[0]");
    assert_eq!(rows[1].0, "x[10]");
    assert_eq!(rows[2].0, "x[11]");
    assert_eq!(rows[3].0, "x[1]");
}

#[test]
fn values_are_written_as_compact_json() {
    let value = object(vec![
        ("b", Json::Array(vec![number(1), Json::Null, text("x\n\"y\"")])),
        ("a", float(0.25)),
    ]);
    assert_eq!(display(&value), "{\"a\":0.25,\"b\":[1,null,\"x\\n\\\"y\\\"\"]}");
    assert_eq!(display(&text("s")), "\"s\"");
    assert_eq!(display(&Json::Bool(true)), "true");
    assert_eq!(display(&Json::Null), "null");
}

#[test]
fn numbers_are_written_out() {
    assert_eq!(number_display(&Num::PosInt(40)), "40");
    assert_eq!(number_display(&Num::NegInt(-7)), "-7");
    let n = serde_json::Number::from_f64(2.5).unwrap();
    assert_eq!(number_display(&Num::Float(n)), "2.5");
}

#[test]
fn values_are_compared_by_kind_and_contents() {
    assert!(values_equal(&float(0.0), &float(-0.0)));
    assert!(!values_equal(&float(1.0), &number(1)));
    assert!(!values_equal(&text("1"), &number(1)));
    assert!(values_equal(&number(5), &number(5)));
    assert!(!values_equal(&Json::Null, &Json::Bool(false)));
    let a = object(vec![("x", number(1)), ("y", Json::Array(vec![text("z")]))]);
    let b = object(vec![("y", Json::Array(vec![text("z")])), ("x", number(1))]);
    let c = object(vec![("x", number(1)), ("y", Json::Array(vec![text("w")]))]);
    assert!(values_equal(&a, &b));
    assert!(values_equal(&a, &a));
    assert!(!values_equal(&a, &c));
    assert!(!values_equal(&c, &a));
    assert!(!values_equal(&Json::Array(vec![]), &Json::Array(vec![Json::Null])));
}

#[test]
fn maps_keep_their_keys_in_order() {
    let mut map = SortedMap::new();
    for key in ["m", "z", "a", "\u{10000}", "\u{FFFD}", "", "mm"] {
        map.insert(key.to_string(), key.len());
    }
    map.insert("m".to_string(), 99);
    let mut keys = Vec::new();
    for i in 0..map.len() {
        keys.push(map.entry(i).0.clone());
    }
    let mut sorted = keys.clone();
    sorted.sort();
    assert_eq!(keys, sorted);
    assert_eq!(keys.len(), 7);
    assert_eq!(map.get("m"), Some(&99));
    assert_eq!(map.get("zz"), None);
    assert_eq!(map.get(""), Some(&0));
}

#[test]
fn keys_of_two_maps_are_merged() {
    let mut a = SortedMap::new();
    let mut b = SortedMap::new();
    for key in ["a", "c", "d"] {
        a.insert(key.to_string(), 1);
    }
    for key in ["b", "c", "e"] {
        b.insert(key.to_string(), true);
    }
    assert_eq!(all_keys(&a, &b), vec!["a", "b", "c", "d", "e"]);
    let none: SortedMap<u8> = SortedMap::new();
    assert_eq!(all_keys(&none, &b), vec!["b", "c", "e"]);
    assert!(all_keys(&none, &none).is_empty());
}

#[test]
fn texts_are_ordered_like_strings() {
    let texts = ["", "a", "ab", "b", "B", "\u{00E9}", "\u{FFFD}", "\u{10000}"];
    for x in texts {
        for y in texts {
            assert_eq!(before(x, y), x < y);
            assert_eq!(same_text(x, y), x == y);
        }
    }
}

#[test]
fn words_are_found_anywhere() {
    assert!(occurs_in("key", "key"));
    assert!(occurs_in("key", "a_key"));
    assert!(occurs_in("aab", "aaab"));
    assert!(occurs_in("", ""));
    assert!(!occurs_in("key", "ke"));
    assert!(!occurs_in("key", "k-e-y"));
}

#[test]
fn decimals_and_characters() {
    let mut out = String::from("n=");
    push_decimal(&mut out, 0);
    push_decimal(&mut out, 1905);
    assert_eq!(out, "n=01905");
    assert_eq!(chars_of("a\u{00E9}"), vec!['a', '\u{00E9}']);
}

fn parsed(json: &str) -> Json {
    from_json(serde_json::from_str::<serde_json::Value>(json).unwrap())
}

#[test]
fn parsed_values_are_taken_over() {
    let json = "{\"a\":[null,true,false,-3,7,18446744073709551615,2.5,\"s\"],\"b\":{},\"c\":{\"d\":[[]]}}";
    assert_eq!(display(&parsed(json)), json);
    let shuffled = parsed("{\"b\": {}, \"c\": {\"d\": [[ ]]}, \"a\": [null, true, false, -3, 7, 18446744073709551615, 2.5, \"s\"]}");
    assert!(values_equal(&parsed(json), &shuffled));
    assert!(matches!(parsed("-0"), Json::Num(Num::Float(_))));
    assert!(matches!(parsed("0"), Json::Num(Num::PosInt(0))));
    assert!(matches!(parsed("-1"), Json::Num(Num::NegInt(-1))));
}

#[test]
fn parsed_attributes_are_flattened() {
    let value = parsed("{\"ingress\": [{\"from_port\": 80, \"cidr\": [\"10.0.0.0/8\"]}], \"tags\": {\"Name\": \"web\"}, \"ratio\": 1e3}");
    assert_eq!(
        flat(&value),
        vec![
            pair("ingress[0].cidr[0]", "10.0.0.0/8"),
            pair("ingress[0].from_port", "80"),
            pair("ratio", "1000.0"),
            pair("tags.Name", "web"),
        ]
    );
}

#[test]
fn leaf_paths_lead_on_from_the_prefix() {
    let mut out = SortedMap::new();
    let value = object(vec![("b", text("1")), ("c", Json::Array(vec![text("2")]))]);
    flatten("a", &Json::Array(vec![value]), &mut out);
    let (first, _) = out.entry(0);
    let (second, _) = out.entry(1);
    assert_eq!(out.len(), 2);
    assert_eq!(first, "a[0].b");
    assert_eq!(second, "a[0].c[0]");
}
