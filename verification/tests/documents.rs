use hub_store::managers::database_manager::{rec_del, rec_get, rec_ins};
use hub_store::managers::error::ServerError;
use hub_store::managers::json::{Document, Tag};
use hub_store::managers::json_text::to_value_from_str;

fn doc(text: &str) -> Document {
    to_value_from_str(text).expect("the text is JSON")
}

fn path(segments: &[&str]) -> Vec<String> {
    segments.iter().map(|s| s.to_string()).collect()
}

fn number_i(n: i64) -> Document {
    Document::Number(serde_json::Number::from(n))
}

#[test]
fn parsing_tells_the_variants_apart() {
    assert!(matches!(doc("null"), Document::Null));
    assert!(matches!(doc("true"), Document::Bool(true)));
    assert!(matches!(doc("12"), Document::Number(_)));
    assert!(matches!(doc("\"s\""), Document::String(s) if s == "s"));
    assert!(matches!(doc("[1,\"a\"]"), Document::Array(items) if items.len() == 2));
    assert!(matches!(doc("{\"k\":1,\"l\":2}"), Document::Object(fields) if fields.len() == 2));
}

#[test]
fn parsing_rejects_what_is_no_json() {
    assert!(to_value_from_str("").is_none());
    assert!(to_value_from_str("{").is_none());
    assert!(to_value_from_str("1 2").is_none());
    assert!(to_value_from_str("hello").is_none());
    assert!(to_value_from_str("{\"a\":1,}").is_none());
}

#[test]
fn a_repeated_key_is_read_once() {
    match doc("{\"a\":1,\"a\":2}") {
        Document::Object(fields) => {
            assert_eq!(fields.len(), 1);
            assert_eq!(fields[0].0, "a");
            assert_eq!(fields[0].1.to_string(), "2");
        }
        other => panic!("unexpected {:?}", other),
    }
}

#[test]
fn a_parsed_object_lists_its_fields_in_key_order() {
    match doc("{\"b\":1,\"ab\":2,\"a\":3,\"B\":4,\"\":5,\"é\":6}") {
        Document::Object(fields) => {
            let keys: Vec<&str> = fields.iter().map(|f| f.0.as_str()).collect();
            assert_eq!(keys, vec!["", "B", "a", "ab", "b", "é"]);
        }
        other => panic!("unexpected {:?}", other),
    }
}

#[test]
fn writing_is_compact_and_sorted_by_key() {
    assert_eq!(doc(" { \"b\" : [ 1 , 2 ] , \"a\" : null } ").to_string(), "{\"a\":null,\"b\":[1,2]}");
    assert_eq!(doc("\"q\\\"uote\"").to_string(), "\"q\\\"uote\"");
    assert_eq!(doc("1e2").to_string(), "100.0");
    assert_eq!(doc("-0").to_string(), "-0.0");
    assert_eq!(doc("[]").to_string(), "[]");
}

#[test]
fn documents_built_by_hand_are_written_too() {
    let built = Document::Object(vec![
        ("z".to_string(), Document::Array(vec![Document::Null, Document::Bool(false)])),
        ("a".to_string(), number_i(-3)),
        ("m".to_string(), Document::String("text".to_string())),
        (
            "f".to_string(),
            Document::Number(serde_json::Number::from_f64(0.25).unwrap()),
        ),
    ]);
    assert_eq!(built.to_string(), "{\"a\":-3,\"f\":0.25,\"m\":\"text\",\"z\":[null,false]}");
}

#[test]
fn tags_follow_the_variant_and_the_kind_of_number() {
    assert_eq!(doc("null").tag(), Tag::Null);
    assert_eq!(doc("false").tag(), Tag::Bool);
    assert_eq!(doc("\"\"").tag(), Tag::String);
    assert_eq!(doc("[]").tag(), Tag::Array);
    assert_eq!(doc("{}").tag(), Tag::Object);
    assert_eq!(doc("0").tag(), Tag::Int64);
    assert_eq!(doc("-9223372036854775808").tag(), Tag::Int64);
    assert_eq!(doc("9223372036854775807").tag(), Tag::Int64);
    assert_eq!(doc("9223372036854775808").tag(), Tag::UInt64);
    assert_eq!(doc("18446744073709551615").tag(), Tag::UInt64);
    assert_eq!(doc("18446744073709551616").tag(), Tag::Float64);
    assert_eq!(doc("0.0").tag(), Tag::Float64);
    assert_eq!(Document::Number(serde_json::Number::from(7u64)).tag(), Tag::Int64);
    assert_eq!(Document::Number(serde_json::Number::from(u64::MAX)).tag(), Tag::UInt64);
}

#[test]
fn a_document_accepts_its_own_tag_only() {
    assert!(doc("1").accepts(&doc("-2")));
    assert!(!doc("1").accepts(&doc("2.0")));
    assert!(!doc("1").accepts(&doc("\"1\"")));
    assert!(doc("[1]").accepts(&doc("[]")));
    assert!(doc("{}").accepts(&doc("{\"a\":[]}")));
    assert!(!doc("{}").accepts(&doc("[]")));
    assert!(!doc("null").accepts(&doc("null")));
    assert!(!doc("true").accepts(&doc("null")));
}

#[test]
fn get_reads_a_field_of_an_object() {
    let d = doc("{\"a\":1,\"b\":{\"c\":2}}");
    assert_eq!(d.get(&"a".to_string()).map(|v| v.to_string()), Some("1".to_string()));
    assert_eq!(d.get(&"b".to_string()).map(|v| v.to_string()), Some("{\"c\":2}".to_string()));
    assert!(d.get(&"c".to_string()).is_none());
    assert!(doc("[1]").get(&"0".to_string()).is_none());
    assert!(doc("5").get(&"a".to_string()).is_none());
}

#[test]
fn rec_get_walks_objects() {
    let d = doc("{\"b\":{\"c\":\"deep\"},\"n\":1}");
    assert_eq!(rec_get(&path(&["b", "c"]), &d), Ok("\"deep\"".to_string()));
    assert_eq!(rec_get(&path(&["n"]), &d), Ok("1".to_string()));
    assert_eq!(rec_get(&path(&["missing"]), &d), Ok("null".to_string()));
    assert_eq!(rec_get(&path(&["n", "x"]), &d), Ok("null".to_string()));
    assert_eq!(rec_get(&path(&["missing", "x"]), &d), Err(ServerError::INVALID_JSON));
    assert_eq!(rec_get(&path(&[]), &d), Err(ServerError::INVALID_ARG));
    assert_eq!(rec_get(&path(&["a"]), &doc("3")), Ok("null".to_string()));
}

#[test]
fn rec_ins_changes_the_document_on_success_only() {
    let mut d = doc("{\"b\":{\"c\":1}}");
    assert_eq!(rec_ins(&path(&["b", "c"]), &mut d, doc("2")), Ok(()));
    assert_eq!(rec_ins(&path(&["b", "d"]), &mut d, doc("[]")), Ok(()));
    assert_eq!(rec_ins(&path(&["e"]), &mut d, doc("null")), Ok(()));
    assert_eq!(d.to_string(), "{\"b\":{\"c\":2,\"d\":[]},\"e\":null}");
    assert_eq!(
        rec_ins(&path(&["b", "c"]), &mut d, doc("\"s\"")),
        Err(ServerError::INCOMPATIBLE_DATA_TYPES)
    );
    assert_eq!(rec_ins(&path(&["x", "y"]), &mut d, doc("1")), Err(ServerError::INVALID_ARG));
    assert_eq!(rec_ins(&path(&["b", "c", "y"]), &mut d, doc("1")), Err(ServerError::INVALID_JSON));
    assert_eq!(rec_ins(&path(&[]), &mut d, doc("1")), Err(ServerError::FAILED_READ));
    assert_eq!(d.to_string(), "{\"b\":{\"c\":2,\"d\":[]},\"e\":null}");
    let mut scalar = doc("5");
    assert_eq!(rec_ins(&path(&["a"]), &mut scalar, doc("1")), Err(ServerError::INVALID_JSON));
    assert_eq!(scalar.to_string(), "5");
}

#[test]
fn rec_del_removes_the_last_field_of_the_path() {
    let mut d = doc("{\"b\":{\"c\":1,\"d\":2},\"e\":3}");
    assert_eq!(rec_del(&path(&["b", "c"]), &mut d), Ok("1".to_string()));
    assert_eq!(d.to_string(), "{\"b\":{\"d\":2},\"e\":3}");
    assert_eq!(rec_del(&path(&["b", "c"]), &mut d), Ok("NOT_FOUND".to_string()));
    assert_eq!(rec_del(&path(&["e", "x"]), &mut d), Ok("NOT_FOUND".to_string()));
    assert_eq!(rec_del(&path(&["q", "x"]), &mut d), Err(ServerError::INVALID_JSON));
    assert_eq!(rec_del(&path(&[]), &mut d), Err(ServerError::INVALID_ARG));
    assert_eq!(rec_del(&path(&["b"]), &mut d), Ok("{\"d\":2}".to_string()));
    assert_eq!(d.to_string(), "{\"e\":3}");
}

#[test]
fn deep_documents_are_converted_both_ways() {
    let mut text = String::new();
    for _ in 0..60 {
        text.push_str("{\"k\":[");
    }
    text.push_str("1");
    for _ in 0..60 {
        text.push_str("]}");
    }
    assert_eq!(doc(&text).to_string(), text);
}
