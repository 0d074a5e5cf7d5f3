use turbovec_rs::import::{
    is_reserved_record_key, json_scalar_to_string, load_vector_arg, number_in_f32_range, parse_import_lines,
    parse_import_record, parse_vector_value, ImportError, ImportLinesError, VectorArgError, VectorError,
};
use turbovec_rs::json::{JsonNumber, JsonValue};
use turbovec_rs::sidecar::meta_from_text;

fn as_f32(n: &JsonNumber) -> f32 {
    match n {
        JsonNumber::PosInt(u) => *u as f32,
        JsonNumber::NegInt(i) => *i as f32,
        JsonNumber::Float { bits, .. } => f64::from_bits(*bits) as f32,
    }
}

fn floats(v: &Option<Vec<JsonNumber>>) -> Option<Vec<f32>> {
    v.as_ref().map(|xs| xs.iter().map(as_f32).collect())
}

fn is_str(v: Option<&JsonValue>, expected: &str) -> bool {
    matches!(v, Some(JsonValue::Str(s)) if s == expected)
}

#[test]
fn parses_rag_style_jsonl_record() {
    let record = parse_import_record(
        r#"{"id":"doc-1","vector_field":"content","fields":{"content":"hello vector","doc":"guide","lang":"zh"}}"#,
        None,
        None,
    )
    .unwrap();

    assert_eq!(record.external_id.as_deref(), Some("doc-1"));
    assert_eq!(record.vector_field, "content");
    assert_eq!(record.vector_text, "hello vector");
    assert!(is_str(record.meta.get("external_id"), "doc-1"));
    assert!(is_str(record.meta.get("doc"), "guide"));
    assert!(record.meta.get("content").is_none());
    assert!(record.vector.is_none());
}

#[test]
fn parses_descriptor_jsonl_record_with_vector_marker() {
    let record = parse_import_record(
        r#"{"id":7,"fields":{"content":{"value":"semantic text","index":["vector"]},"kind":{"value":"note","index":["filter"]}}}"#,
        None,
        None,
    )
    .unwrap();

    assert_eq!(record.external_id.as_deref(), Some("7"));
    assert_eq!(record.vector_field, "content");
    assert_eq!(record.vector_text, "semantic text");
    assert!(is_str(record.meta.get("kind"), "note"));
}

#[test]
fn parses_direct_precomputed_vector() {
    let record = parse_import_record(
        r#"{"id":"doc-1","vector_field":"content","fields":{"content":"kept text","lang":"zh"},"vector":[0.1,0.2,-0.3]}"#,
        None,
        None,
    )
    .unwrap();

    assert_eq!(record.vector_field, "content");
    assert_eq!(floats(&record.vector).as_deref(), Some(&[0.1, 0.2, -0.3][..]));
    assert_eq!(record.vector_text, "kept text");
}

#[test]
fn parses_keyed_precomputed_vector_and_infers_field() {
    let record = parse_import_record(
        r#"{"id":"doc-1","fields":{"content":"kept text","lang":"zh"},"vectors":{"content":[0.1,0.2]}}"#,
        None,
        None,
    )
    .unwrap();

    assert_eq!(record.vector_field, "content");
    assert_eq!(floats(&record.vector).as_deref(), Some(&[0.1, 0.2][..]));
}

#[test]
fn parses_query_vector_from_arg_and_file() {
    let vector = load_vector_arg(Some("[0.1,0.2]"), None).unwrap();
    assert_eq!(floats(&vector).as_deref(), Some(&[0.1, 0.2][..]));

    // The text the vector file holds.
    let vector = load_vector_arg(None, Some("[0.3,0.4]")).unwrap();
    assert_eq!(floats(&vector).as_deref(), Some(&[0.3, 0.4][..]));
}

#[test]
fn rejects_multiple_vector_fields() {
    let err = parse_import_record(
        r#"{"vector_fields":["title","body"],"fields":{"title":"a","body":"b"}}"#,
        None,
        None,
    )
    .unwrap_err()
    .message();

    assert!(err.contains("expected exactly one vector field"));
}

#[test]
fn parses_zvec_style_jsonl_record() {
    let record = parse_import_record(
        r#"{"pk":"doc-1","fields":{"text":"semantic text","category":"tech"}}"#,
        None,
        Some("text"),
    )
    .unwrap();

    assert_eq!(record.external_id.as_deref(), Some("doc-1"));
    assert_eq!(record.vector_field, "text");
    assert_eq!(record.vector_text, "semantic text");
    assert!(is_str(record.meta.get("category"), "tech"));
    assert!(record.meta.get("text").is_none());
}

// ---- further cases ----

#[test]
fn vector_field_count_message_lists_sorted_candidates() {
    let err = parse_import_record(
        r#"{"vector_fields":["title","body","title"],"fields":{"title":"a","body":"b"}}"#,
        None,
        None,
    )
    .unwrap_err();
    match &err {
        ImportError::VectorFieldCount(v) => assert_eq!(v, &vec!["body".to_string(), "title".to_string()]),
        other => panic!("unexpected {:?}", other),
    }
    assert_eq!(err.message(), "expected exactly one vector field, found 2 ([\"body\", \"title\"])");
}

#[test]
fn no_candidate_falls_back_to_text_then_content() {
    let r = parse_import_record(r#"{"text":"t","content":"c"}"#, None, None).unwrap();
    assert_eq!(r.vector_field, "text");
    let r = parse_import_record(r#"{"content":"c","lang":"en"}"#, None, None).unwrap();
    assert_eq!(r.vector_field, "content");
    assert!(is_str(r.meta.get("lang"), "en"));
    let r = parse_import_record(r#"{"body":"b","content":"c"}"#, Some("body"), Some("content")).unwrap();
    assert_eq!(r.vector_field, "body");
}

#[test]
fn both_vector_forms_are_refused() {
    let err = parse_import_record(
        r#"{"fields":{"content":"x"},"vector":[1],"vectors":{"content":[1]}}"#,
        None,
        None,
    )
    .unwrap_err();
    assert!(matches!(&err, ImportError::BothVectors(f) if f == "content"));
    assert_eq!(err.message(), "record cannot contain both `vector` and `vectors.content`");
}

#[test]
fn records_without_fields_or_objects_are_refused() {
    let err = parse_import_record(r#"{"id":"x","fields":{}}"#, None, None).unwrap_err();
    assert_eq!(err.message(), "record has no fields to import");
    let err = parse_import_record("[1,2]", None, None).unwrap_err();
    assert_eq!(err.message(), "JSONL record must be an object");
    let err = parse_import_record(r#"{"id":[1],"text":"x"}"#, None, None).unwrap_err();
    assert_eq!(err.message(), "record `id`/`pk` must be a scalar value");
    let err = parse_import_record(r#"{"text":"   "}"#, None, None).unwrap_err();
    assert_eq!(err.message(), "vector field `text` is empty");
    let err = parse_import_record(r#"{"text":5}"#, None, None).unwrap_err();
    assert_eq!(err.message(), "vector field `text` must be a string");
    let err = parse_import_record(r#"{"fields":{"a":{"index":["filter"]}}}"#, None, None).unwrap_err();
    assert_eq!(err.message(), "field descriptor must include `value`");
    let err = parse_import_record("{not json", None, None).unwrap_err();
    assert!(matches!(err, ImportError::Json(_)));
}

#[test]
fn bad_vectors_are_refused_item_by_item() {
    let err = parse_import_record(r#"{"text":"x","vector":[]}"#, None, None).unwrap_err();
    assert_eq!(err.message(), "vector cannot be empty");
    let err = parse_import_record(r#"{"text":"x","vector":[1,"a"]}"#, None, None).unwrap_err();
    assert_eq!(err.message(), "vector item 1 must be a number");
    let err = parse_import_record(r#"{"text":"x","vector":[1e39]}"#, None, None).unwrap_err();
    assert_eq!(err.message(), "vector item 0 is outside finite f32 range");
    let err = parse_import_record(r#"{"text":"x","vector":{"a":1}}"#, None, None).unwrap_err();
    assert_eq!(err.message(), "vector must be a JSON array");
}

#[test]
fn numbers_in_and_out_of_f32_range() {
    assert!(number_in_f32_range(&JsonNumber::PosInt(u64::MAX)));
    assert!(number_in_f32_range(&JsonNumber::NegInt(i64::MIN)));
    let max = JsonNumber::Float { text: "3.4028234663852886e38".to_string(), bits: (f32::MAX as f64).to_bits() };
    assert!(number_in_f32_range(&max));
    let big = JsonNumber::Float { text: "1e39".to_string(), bits: 1e39f64.to_bits() };
    assert!(!number_in_f32_range(&big));
}

#[test]
fn vector_value_parsing() {
    let v = meta_from_text("[1, -2, 0.5]");
    let ns = parse_vector_value(&v).unwrap();
    assert_eq!(ns.iter().map(as_f32).collect::<Vec<_>>(), vec![1.0, -2.0, 0.5]);
    assert!(matches!(parse_vector_value(&meta_from_text("3")), Err(VectorError::NotArray)));
}

#[test]
fn query_vector_argument_errors() {
    let e = load_vector_arg(Some("[1]"), Some("[2]")).unwrap_err();
    assert!(matches!(e, VectorArgError::BothGiven));
    assert_eq!(e.message(), "pass only one of --vector or --vector-file");
    let e = load_vector_arg(Some("[1,"), None).unwrap_err();
    assert_eq!(e.message(), "parsing --vector JSON array");
    let e = load_vector_arg(None, Some("nope")).unwrap_err();
    assert_eq!(e.message(), "parsing --vector-file JSON array");
    assert!(load_vector_arg(None, None).unwrap().is_none());
}

#[test]
fn scalar_ids_and_reserved_keys() {
    assert_eq!(json_scalar_to_string(&meta_from_text("7")).as_deref(), Some("7"));
    assert_eq!(json_scalar_to_string(&meta_from_text("-7")).as_deref(), Some("-7"));
    assert_eq!(json_scalar_to_string(&meta_from_text("true")).as_deref(), Some("true"));
    assert!(json_scalar_to_string(&meta_from_text("null")).is_none());
    for k in ["id", "pk", "fields", "vector_field", "vector_fields", "vector", "vectors"] {
        assert!(is_reserved_record_key(k));
    }
    assert!(!is_reserved_record_key("text"));
}

#[test]
fn jsonl_lines_skip_blanks_and_number_errors() {
    let recs = parse_import_lines("\n{\"text\":\"a\"}\n  \n{\"text\":\"b\"}\r\n", None, None).unwrap();
    assert_eq!(recs.len(), 2);
    assert_eq!(recs[1].vector_text, "b");
    let err = parse_import_lines("{\"text\":\"a\"}\n\n{oops}\n", None, None).unwrap_err();
    assert!(matches!(err, ImportLinesError::Line(3, _)));
    assert_eq!(err.message("in.jsonl"), "parsing in.jsonl line 3");
    let err = parse_import_lines(" \n\n", None, None).unwrap_err();
    assert!(matches!(err, ImportLinesError::NoRecords));
    assert_eq!(err.message("stdin"), "no JSONL records found in stdin");
}

#[test]
fn record_shape_errors() {
    let cases = [
        (r#"{"fields":"x"}"#, "record `fields` must be an object"),
        (r#"{"fields":{"bad-name":"x"}}"#, "metadata field `bad-name` contains unsupported characters"),
        (r#"{"vector_field":3,"text":"x"}"#, "record `vector_field` must be a string"),
        (r#"{"vector_fields":"text","text":"x"}"#, "record `vector_fields` must be an array"),
        (r#"{"vector_fields":[1],"text":"x"}"#, "record `vector_fields` items must be strings"),
        (r#"{"vectors":[1],"text":"x"}"#, "record `vectors` must be an object keyed by vector field"),
        (r#"{"vector_field":"body","text":"x"}"#, "vector field `body` is not present in fields"),
    ];
    for (line, message) in cases {
        let err = parse_import_record(line, None, None).unwrap_err();
        assert_eq!(err.message(), message, "for {line}");
    }
    assert!(matches!(
        parse_import_record(r#"{"fields":"x"}"#, None, None).unwrap_err(),
        ImportError::FieldsNotObject
    ));
}

#[test]
fn line_error_lists_sorted_vector_field_candidates() {
    let content = "{\"text\":\"a\"}\n{\"vector_fields\":[\"zeta\",\"alpha\"],\"fields\":{\"zeta\":\"z\",\"alpha\":\"a\"}}\n";
    let err = parse_import_lines(content, None, None).unwrap_err();
    match &err {
        ImportLinesError::Line(2, ImportError::VectorFieldCount(v)) => {
            assert_eq!(v, &vec!["alpha".to_string(), "zeta".to_string()])
        }
        other => panic!("unexpected {:?}", other),
    }
}
