use jviewson::json::{
    array_child_key, array_child_path, collect_tree_matches, node_label, object_child_path,
    preview_for_value, read_and_parse_json, tree_node_id, value_as_string, JsonValue,
    PREVIEW_CHAR_LIMIT,
};

fn s(x: &str) -> String {
    x.to_string()
}

fn parse_json(text: &str) -> Result<JsonValue, String> {
    read_and_parse_json("doc", Ok(s(text)), None).map(|(doc, _, _)| doc)
}

fn sample() -> JsonValue {
    JsonValue::Object(vec![
        (s("name"), JsonValue::String(s("Alice"))),
        (
            s("tags"),
            JsonValue::Array(vec![JsonValue::String(s("x")), JsonValue::String(s("alice"))]),
        ),
    ])
}

#[test]
fn value_as_string_writes_each_kind() {
    assert_eq!(value_as_string(&JsonValue::String(s("a\"b\n"))), "\"a\\\"b\\n\"");
    let n = serde_json::Number::from_f64(1.5).unwrap();
    assert_eq!(value_as_string(&JsonValue::Number(s("1.5"), n)), "1.5");
    assert_eq!(value_as_string(&JsonValue::Bool(true)), "true");
    assert_eq!(value_as_string(&JsonValue::Bool(false)), "false");
    assert_eq!(value_as_string(&JsonValue::Null), "null");
    assert_eq!(value_as_string(&JsonValue::Array(vec![])), "<nested>");
    assert_eq!(value_as_string(&JsonValue::Object(vec![])), "<nested>");
}

#[test]
fn node_label_by_kind() {
    assert_eq!(node_label("k", &JsonValue::Object(vec![])), "k: {}");
    assert_eq!(
        node_label("k", &JsonValue::Array(vec![JsonValue::Null, JsonValue::Null])),
        "k: [2]"
    );
    assert_eq!(node_label("[3]", &JsonValue::String(s("v"))), "[3]: \"v\"");
    assert_eq!(
        node_label("n", &JsonValue::Number(s("-7"), serde_json::Number::from(-7))),
        "n: -7"
    );
}

#[test]
fn child_keys_and_paths() {
    assert_eq!(array_child_key(12), "[12]");
    assert_eq!(array_child_path("$.a", 0), "$.a[0]");
    assert_eq!(object_child_path("$", "key"), "$.key");
    assert_eq!(tree_node_id("$.a", true), "tree-search-$.a");
    assert_eq!(tree_node_id("$.a", false), "tree-$.a");
}

#[test]
fn tree_matches_in_preorder_and_open_paths_in_postorder() {
    let doc = sample();
    let mut matches = Vec::new();
    let mut open = Vec::new();
    let found = collect_tree_matches("root", "$", &doc, "alice", &mut matches, &mut open);
    assert!(found);
    assert_eq!(matches, vec![s("$.name"), s("$.tags[1]")]);
    assert_eq!(open, vec![s("$.name"), s("$.tags[1]"), s("$.tags"), s("$")]);
}

#[test]
fn tree_matches_labels_and_keys() {
    let doc = sample();
    let mut matches = Vec::new();
    let mut open = Vec::new();
    assert!(collect_tree_matches("root", "$", &doc, "[2]", &mut matches, &mut open));
    assert_eq!(matches, vec![s("$.tags")]);
    assert_eq!(open, vec![s("$.tags"), s("$")]);
    let mut matches = Vec::new();
    let mut open = Vec::new();
    assert!(!collect_tree_matches("root", "$", &doc, "zzz", &mut matches, &mut open));
    assert!(matches.is_empty());
    assert!(open.is_empty());
}

#[test]
fn tree_search_appends_to_what_is_there() {
    let mut matches = vec![s("before")];
    let mut open = vec![s("kept")];
    assert!(collect_tree_matches(
        "root",
        "$",
        &JsonValue::Bool(true),
        "true",
        &mut matches,
        &mut open
    ));
    assert_eq!(matches, vec![s("before"), s("$")]);
    assert_eq!(open, vec![s("kept"), s("$")]);
}

#[test]
fn preview_uses_pretty_text_for_containers() {
    let doc = parse_json("{\"a\": 1}").unwrap();
    assert_eq!(preview_for_value(&doc), "{\n  \"a\": 1\n}");
    assert_eq!(preview_for_value(&JsonValue::String(s("hi"))), "\"hi\"");
    assert_eq!(preview_for_value(&JsonValue::Null), "null");
    assert_eq!(preview_for_value(&JsonValue::Array(vec![])), "[]");
}

#[test]
fn preview_is_cut_at_the_limit() {
    let long = "x".repeat(PREVIEW_CHAR_LIMIT);
    let doc = JsonValue::Array(vec![JsonValue::String(long.clone())]);
    let pretty = format!("[\n  \"{long}\"\n]");
    let total = pretty.chars().count();
    let expected = format!(
        "{}\n\n[Preview truncated: showing {} of {} characters]",
        pretty.chars().take(PREVIEW_CHAR_LIMIT).collect::<String>(),
        PREVIEW_CHAR_LIMIT,
        total
    );
    assert_eq!(preview_for_value(&doc), expected);
}

#[test]
fn parse_keeps_numbers_and_member_order_of_the_parser() {
    let doc = parse_json("{\"b\": [1, 2.50, -3e2], \"a\": null, \"c\": \"t\"}").unwrap();
    let mut matches = Vec::new();
    let mut open = Vec::new();
    collect_tree_matches("root", "$", &doc, "", &mut matches, &mut open);
    assert_eq!(
        matches,
        vec![s("$"), s("$.a"), s("$.b"), s("$.b[0]"), s("$.b[1]"), s("$.b[2]"), s("$.c")]
    );
    match &doc {
        JsonValue::Object(members) => match &members[1].1 {
            JsonValue::Array(items) => {
                assert_eq!(value_as_string(&items[0]), "1");
                assert_eq!(value_as_string(&items[1]), "2.5");
                assert_eq!(value_as_string(&items[2]), "-300.0");
            }
            _ => panic!("not an array"),
        },
        _ => panic!("not an object"),
    }
}

#[test]
fn parse_reports_the_parser_error() {
    let err = parse_json("{\"a\": }").unwrap_err();
    let why = serde_json::from_str::<serde_json::Value>("{\"a\": }").unwrap_err().to_string();
    assert_eq!(err, format!("Invalid JSON in 'doc': {why}"));
}

#[test]
fn pretty_form_of_nested_document() {
    let (_, pretty, _) = read_and_parse_json("doc", Ok(s("[1, {\"k\": true}]")), None).unwrap();
    assert_eq!(pretty, "[\n  1,\n  {\n    \"k\": true\n  }\n]");
}

#[test]
fn read_and_parse_reports_each_failure() {
    assert_eq!(
        read_and_parse_json("/x.json", Err(s("No such file")), None).unwrap_err(),
        "Could not read file '/x.json': No such file"
    );
    let bad = read_and_parse_json("/x.json", Ok(s("[1,")), None).unwrap_err();
    let why = serde_json::from_str::<serde_json::Value>("[1,").unwrap_err().to_string();
    assert_eq!(bad, format!("Invalid JSON in '/x.json': {why}"));
    let (doc, pretty, modified) =
        read_and_parse_json("/x.json", Ok(s("{\"a\":[true]}")), Some(3)).unwrap();
    assert_eq!(pretty, "{\n  \"a\": [\n    true\n  ]\n}");
    assert_eq!(modified, Some(3));
    assert_eq!(node_label("root", &doc), "root: {}");
}
