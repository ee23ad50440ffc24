use quilt_mesh::json::{
    canonical_json, copy_json, json_text, parse_json, parse_or_empty, parse_text_list,
    parse_text_map, text_list, Json, DEEPEST_NESTING, RESERVED_NAME,
};

fn parsed(text: &str) -> Json {
    match parse_json(text) {
        Some(document) => document,
        None => panic!("no document: {}", text),
    }
}

#[test]
fn documents_are_printed_compactly_and_in_order() {
    let document = parsed("{ \"b\" : [1, 2.5, -3], \"a\" : {\"z\": null, \"y\": true} }");
    assert_eq!(json_text(&document), "{\"a\":{\"y\":true,\"z\":null},\"b\":[1,2.5,-3]}");
}

#[test]
fn canonical_form_sorts_members_at_every_depth() {
    let inner = Json::empty_object()
        .with("z", Json::unsigned(1))
        .with("a", Json::text("x"));
    let document = Json::empty_object().with("outer", inner).with("b", Json::Null);
    let canonical = canonical_json(&document);
    match &canonical {
        Json::Object(members) => {
            assert_eq!(members[0].0, "b");
            assert_eq!(members[1].0, "outer");
            match &members[1].1 {
                Json::Object(inner) => {
                    assert_eq!(inner[0].0, "a");
                    assert_eq!(inner[1].0, "z");
                }
                _ => panic!("no object"),
            }
        }
        _ => panic!("no object"),
    }
    assert_eq!(json_text(&canonical_json(&canonical)), json_text(&canonical));
}

#[test]
fn the_later_of_two_members_counts() {
    let document = Json::empty_object()
        .with("a", Json::unsigned(1))
        .with("a", Json::unsigned(2));
    assert_eq!(document.get_u64("a"), Some(2));
    assert_eq!(json_text(&document), "{\"a\":2}");
    assert_eq!(json_text(&canonical_json(&document)), "{\"a\":2}");
    assert_eq!(parsed("{\"a\":1,\"a\":2}").get_u64("a"), Some(2));
}

#[test]
fn members_are_read_by_kind() {
    let document = parsed("{\"t\":\"x\",\"b\":false,\"n\":7,\"m\":-7,\"f\":7.0,\"z\":null}");
    assert_eq!(document.get_text("t").as_deref(), Some("x"));
    assert_eq!(document.get_text("n"), None);
    assert_eq!(document.get_bool("b"), Some(false));
    assert_eq!(document.get_bool("t"), None);
    assert_eq!(document.get_u64("n"), Some(7));
    assert_eq!(document.get_u64("m"), None);
    assert_eq!(document.get_u64("f"), None);
    assert_eq!(document.get_i64("n"), Some(7));
    assert_eq!(document.get_i64("m"), Some(-7));
    assert_eq!(document.get_i64("f"), None);
    assert!(document.get("z").is_some());
    assert!(document.get("missing").is_none());
    assert!(parsed("[1]").get("0").is_none());
}

#[test]
fn numbers_keep_their_range() {
    let big = parsed("{\"a\":18446744073709551615,\"b\":9223372036854775808}");
    assert_eq!(big.get_u64("a"), Some(u64::MAX));
    assert_eq!(big.get_i64("a"), None);
    assert_eq!(big.get_i64("b"), None);
    assert_eq!(json_text(&Json::signed(-5)), "-5");
    assert_eq!(json_text(&Json::signed(5)), "5");
    assert_eq!(json_text(&Json::unsigned(u64::MAX)), "18446744073709551615");
}

#[test]
fn text_that_is_no_document_is_told() {
    assert!(parse_json("{").is_none());
    assert!(parse_json("").is_none());
    assert_eq!(json_text(&parse_or_empty("nonsense")), "{}");
    assert_eq!(json_text(&parse_or_empty("[true]")), "[true]");
}

#[test]
fn printing_agrees_with_the_library_for_documents() {
    for text in [
        "{\"a\":\"q\\\"uote\\n\",\"é\":[{},[],\"\\u0001\"]}",
        "[1.5e300,0.1,-0.0,1e-7]",
        "\"text\"",
        "null",
    ] {
        let value: serde_json::Value = serde_json::from_str(text).unwrap();
        assert_eq!(json_text(&parsed(text)), value.to_string());
        assert_eq!(json_text(&copy_json(&parsed(text))), value.to_string());
    }
}

#[test]
fn lists_of_texts_are_read_back() {
    let list = vec!["c-1".to_string(), "with \"quotes\"".to_string(), String::new()];
    let text = text_list(&list);
    assert_eq!(text, "[\"c-1\",\"with \\\"quotes\\\"\",\"\"]");
    assert_eq!(parse_text_list(&text), list);
    assert!(parse_text_list("{}").is_empty());
    assert!(parse_text_list("[1]").is_empty());
}

#[test]
fn objects_of_texts_are_read() {
    let mut entries = parse_text_map("{\"zone\":\"b\",\"arch\":\"arm\"}").unwrap();
    entries.sort();
    assert_eq!(
        entries,
        vec![
            ("arch".to_string(), "arm".to_string()),
            ("zone".to_string(), "b".to_string())
        ]
    );
    assert!(parse_text_map("{\"a\":1}").is_none());
    assert!(parse_text_map("[]").is_none());
}

#[test]
fn a_missing_text_is_null() {
    assert_eq!(json_text(&Json::text_or_null(&None)), "null");
    assert_eq!(json_text(&Json::text_or_null(&Some("a".to_string()))), "\"a\"");
}

fn read_back(document: &Json) -> Option<String> {
    parse_json(&json_text(document)).map(|read| json_text(&read))
}

#[test]
fn nested_documents_are_read_back() {
    let inner = Json::empty_object()
        .with("z", Json::Array(vec![Json::Null, Json::signed(-1), Json::text("\u{1}\"é")]))
        .with("a", Json::Array(Vec::new()));
    let document = Json::empty_object()
        .with("deep", Json::Array(vec![inner, Json::empty_object()]))
        .with("flag", Json::Bool(true));
    let text = json_text(&document);
    assert_eq!(
        text,
        "{\"deep\":[{\"a\":[],\"z\":[null,-1,\"\\u0001\\\"é\"]},{}],\"flag\":true}"
    );
    match parsed(&text) {
        Json::Object(members) => {
            assert_eq!(members.len(), 2);
            assert_eq!(members[0].0, "deep");
            match &members[0].1 {
                Json::Array(items) => {
                    assert_eq!(items.len(), 2);
                    assert!(matches!(&items[0], Json::Object(held) if held.len() == 2));
                    assert!(matches!(&items[1], Json::Object(held) if held.is_empty()));
                }
                _ => panic!("no list"),
            }
            assert!(matches!(members[1].1, Json::Bool(true)));
        }
        _ => panic!("no object"),
    }
    assert_eq!(read_back(&document), Some(text));
}

fn nested(depth: u64) -> Json {
    let mut document = Json::Null;
    for _ in 0..depth {
        document = Json::Array(vec![document]);
    }
    document
}

#[test]
fn documents_are_read_back_up_to_a_depth() {
    let deep = nested(DEEPEST_NESTING);
    assert_eq!(read_back(&deep), Some(json_text(&deep)));
    assert_eq!(read_back(&nested(DEEPEST_NESTING + 1)), None);
}

#[test]
fn the_reserved_name_is_not_read_back() {
    let document = Json::empty_object().with(RESERVED_NAME, Json::text("[1]"));
    assert_eq!(read_back(&document).as_deref(), Some("[1]"));
    let document = Json::empty_object().with(RESERVED_NAME, Json::unsigned(1));
    assert_eq!(read_back(&document), None);
}

#[test]
fn the_later_of_two_members_is_printed_at_every_depth() {
    let twice = Json::empty_object()
        .with("b", Json::unsigned(1))
        .with("a", Json::unsigned(2))
        .with("b", Json::unsigned(3));
    let document = Json::Array(vec![Json::empty_object().with("inner", twice)]);
    assert_eq!(json_text(&document), "[{\"inner\":{\"a\":2,\"b\":3}}]");
}
