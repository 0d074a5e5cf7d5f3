use turbovec_rs::commands::{
    batch_to_embed, bootstrap_dim, check_new_keys, doc_to_export_json, export_precheck, filter_ids, info_report,
    init_report, new_index_meta, plan_search, require_nonempty_index, search_hit, validate_vectors_dim,
    CommandError, ImportSession, SearchStep,
};
use turbovec_rs::filter::{CmpOp, FilterExpr, FilterValue};
use turbovec_rs::import::{parse_import_record, ImportRecord};
use turbovec_rs::json::{JsonNumber, JsonValue};
use turbovec_rs::sidecar::meta_from_text;
use turbovec_rs::sidecar::{DocRow, IndexMeta};

fn get<'a>(v: &'a JsonValue, k: &str) -> &'a JsonValue {
    v.get(k).unwrap_or_else(|| panic!("missing {k} in {v:?}"))
}

fn is_str(v: &JsonValue, s: &str) -> bool {
    matches!(v, JsonValue::Str(x) if x == s)
}

fn is_num(v: &JsonValue, n: u64) -> bool {
    matches!(v, JsonValue::Number(JsonNumber::PosInt(x)) if *x == n)
}

#[test]
fn cmd_export_helper_projects_meta_into_fields() {
    let doc = DocRow {
        external_id: Some("doc-1".to_string()),
        vector_field: "content".to_string(),
        text: "hello".to_string(),
        meta: meta_from_text(r#"{"lang":"zh"}"#),
    };
    let value = doc_to_export_json(7, &doc);
    assert!(is_str(get(&value, "pk"), "doc-1"));
    assert!(is_str(get(get(&value, "fields"), "lang"), "zh"));
    assert!(is_str(get(get(&value, "fields"), "content"), "hello"));

    // No external_id -> pk falls back to numeric id.
    let doc_no_pk = DocRow {
        external_id: None,
        vector_field: "content".to_string(),
        text: "x".to_string(),
        meta: JsonValue::Null,
    };
    let value = doc_to_export_json(42, &doc_no_pk);
    assert!(is_str(get(&value, "pk"), "42"));
    // meta=Null contributes no keys; only the vector_field text is projected.
    match get(&value, "fields") {
        JsonValue::Object(m) => {
            assert_eq!(m.len(), 1);
            assert_eq!(m[0].0, "content");
            assert!(is_str(&m[0].1, "x"));
        },
        other => panic!("unexpected {:?}", other),
    }
}

// ---- further cases ----

fn records(lines: &[&str]) -> Vec<ImportRecord> {
    lines.iter().map(|l| parse_import_record(l, None, None).unwrap()).collect()
}

#[test]
fn new_index_parameters_are_checked() {
    let m = new_index_meta(8, 4).unwrap();
    assert_eq!((m.next_id, m.dim, m.bits, m.model.as_str()), (1, 8, 4, ""));
    let e = new_index_meta(0, 4).unwrap_err();
    assert_eq!(e.message(), "dim must be a positive multiple of 8, got 0");
    let e = new_index_meta(12, 4).unwrap_err();
    assert_eq!(e.message(), "dim must be a positive multiple of 8, got 12");
    let e = new_index_meta(16, 5).unwrap_err();
    assert_eq!(e.message(), "bits must be 2, 3, or 4, got 5");
    assert!(new_index_meta(16, 2).is_ok() && new_index_meta(16, 3).is_ok());
}

#[test]
fn bootstrap_dimension_prefers_flag_then_first_vector() {
    let rs = records(&[r#"{"text":"a"}"#, r#"{"text":"b","vector":[1,2,3]}"#, r#"{"text":"c","vector":[1]}"#]);
    assert_eq!(bootstrap_dim(Some(16), &rs), 16);
    assert_eq!(bootstrap_dim(None, &rs), 3);
    assert_eq!(bootstrap_dim(None, &records(&[r#"{"text":"a"}"#])), 1024);
}

fn meta(next_id: u64, model: &str) -> IndexMeta {
    IndexMeta { next_id, dim: 2, bits: 4, model: model.to_string() }
}

#[test]
fn import_session_hands_out_consecutive_fresh_ids() {
    let rs = records(&[
        r#"{"id":"a","text":"a","vector":[1,2]}"#,
        r#"{"id":"b","text":"b","vector":[1,2]}"#,
        r#"{"id":"c","text":"c","vector":[1,2]}"#,
    ]);
    let mut s = ImportSession::start(&rs, meta(10, "old"), Some("m1"), 2);
    assert!(s.embedding_model().is_none());
    assert_eq!(s.next_batch(), Some((0, 2)));
    assert!(s.batch_ids_fit());
    let c = s.commit_batch();
    assert_eq!(c.ids, vec![10, 11]);
    // The metadata saved before the batch is stored already moves past its ids.
    assert_eq!((c.meta.next_id, c.meta.model.as_str()), (12, "old"));
    assert_eq!(s.next_batch(), Some((2, 3)));
    let c = s.commit_batch();
    assert_eq!(c.ids, vec![12]);
    assert_eq!(c.meta.next_id, 13);
    assert_eq!(s.next_batch(), None);
    assert_eq!(s.next_id(), 13);
    assert_eq!(s.done(), 3);
    let fin = s.finish();
    assert_eq!((fin.next_id, fin.model.as_str()), (13, "m1"));
    let summary = s.summary(5);
    assert!(is_num(get(&summary, "success"), 3));
    assert!(is_num(get(&summary, "errors"), 0));
    assert!(is_num(get(&summary, "total"), 5));
}

#[test]
fn import_session_embeds_missing_vectors_with_default_model() {
    let rs = records(&[r#"{"text":"a","vector":[1,2]}"#, r#"{"text":"b"}"#]);
    let mut s = ImportSession::start(&rs, meta(1, ""), None, 0);
    assert_eq!(s.batch_size(), 1);
    assert_eq!(s.embedding_model().as_deref(), Some("bge-m3"));
    let (idx, texts) = batch_to_embed(&rs, 0, 2);
    assert_eq!(idx, vec![1]);
    assert_eq!(texts, vec!["b".to_string()]);
    let e = s.record_embeddings(1, 0).unwrap_err();
    assert_eq!(e.message(), "embedding count mismatch: sent 1, received 0");
    assert!(!s.used_embedding());
    s.record_embeddings(1, 1).unwrap();
    assert!(s.used_embedding());
    assert_eq!(s.finish().model, "bge-m3");
}

#[test]
fn import_session_keeps_stored_model_without_one() {
    let rs = records(&[r#"{"text":"a","vector":[1,2]}"#]);
    let mut s = ImportSession::start(&rs, meta(4, "kept"), None, 8);
    let e = s.record_embeddings(0, 0).unwrap_err();
    assert!(matches!(e, CommandError::NoEmbeddingModel));
    assert_eq!(e.message(), "records without vectors require an embedding model");
    assert_eq!(s.finish().model, "kept");
}

#[test]
fn batch_ids_overflow_is_detected() {
    let rs = records(&[r#"{"text":"a","vector":[1]}"#]);
    let s = ImportSession::start(&rs, meta(u64::MAX - 1, ""), None, 4);
    assert!(s.batch_ids_fit());
    let two = records(&[r#"{"text":"a","vector":[1]}"#, r#"{"text":"b","vector":[1]}"#]);
    let s = ImportSession::start(&two, meta(u64::MAX - 2, ""), None, 4);
    assert!(s.batch_ids_fit());
    let s = ImportSession::start(&two, meta(u64::MAX - 1, ""), None, 4);
    assert!(!s.batch_ids_fit());
}

#[test]
fn vector_dimensions_are_checked_in_order() {
    assert!(validate_vectors_dim(&vec![8, 8], 8).is_ok());
    let e = validate_vectors_dim(&vec![8, 3, 2], 8).unwrap_err();
    assert!(matches!(e, CommandError::VectorDim { index: 1, expected: 8, got: 3 }));
    assert_eq!(e.message(), "vector dimension mismatch at batch item 1: index expects 8, got 3");
}

#[test]
fn existing_primary_keys_are_refused() {
    let rs = records(&[r#"{"text":"a"}"#, r#"{"id":"doc-1","text":"b"}"#, r#"{"id":"doc-2","text":"c"}"#]);
    assert!(check_new_keys(&rs, 0, 3, &vec![false, false, false]).is_ok());
    let e = check_new_keys(&rs, 0, 3, &vec![false, true, true]).unwrap_err();
    assert_eq!(e.message(), "primary key `doc-1` already exists; turbovec-rs cannot overwrite vectors in-place yet");
    assert!(check_new_keys(&rs, 0, 1, &vec![true]).is_ok());
}

#[test]
fn search_planning() {
    assert!(require_nonempty_index(3).is_ok());
    assert_eq!(require_nonempty_index(0).unwrap_err().message(), "index is empty (import documents first)");
    let empty: Vec<u64> = Vec::new();
    assert!(matches!(plan_search(Some(&empty), Some("q"), Some(3), 8), Ok(SearchStep::NoMatches)));
    let some = vec![1u64];
    let e = plan_search(Some(&some), Some("q"), Some(8), 8).unwrap_err();
    assert_eq!(e.message(), "pass only one of --query, --vector, or --vector-file");
    assert!(matches!(plan_search(None, Some("q"), None, 8), Ok(SearchStep::Embed(t)) if t == "q"));
    assert!(matches!(plan_search(None, None, Some(8), 8), Ok(SearchStep::Vector)));
    let e = plan_search(None, None, Some(2), 8).unwrap_err();
    assert_eq!(e.message(), "query vector dimension mismatch: index expects 8, got 2");
    let e = plan_search(None, None, None, 8).unwrap_err();
    assert_eq!(e.message(), "search requires one of --query, --vector, or --vector-file");
}

#[test]
fn search_hits_fill_in_missing_documents() {
    let hit = search_hit(3, None, JsonValue::Number(JsonNumber::PosInt(1)));
    assert!(is_str(get(&hit, "text"), "<id 3 text missing>"));
    assert!(is_str(get(&hit, "vector_field"), "content"));
    assert!(matches!(get(&hit, "external_id"), JsonValue::Null));
    assert!(matches!(get(&hit, "meta"), JsonValue::Object(m) if m.is_empty()));
    let doc = DocRow {
        external_id: Some("e".to_string()),
        vector_field: "body".to_string(),
        text: "t".to_string(),
        meta: meta_from_text("{\"k\":1}"),
    };
    let hit = search_hit(4, Some(&doc), JsonValue::Null);
    assert!(is_str(get(&hit, "external_id"), "e"));
    assert!(is_str(get(&hit, "text"), "t"));
    assert!(is_num(get(&hit, "id"), 4));
}

#[test]
fn export_prechecks_in_order() {
    let e = export_precheck(true, false, "/x.tvim").unwrap_err();
    assert!(e.message().contains("--include-vectors is not supported"));
    let e = export_precheck(false, false, "/x.tvim").unwrap_err();
    assert_eq!(e.message(), "db not found: /x.tvim");
    assert!(export_precheck(false, true, "/x.tvim").is_ok());
}

#[test]
fn filter_ids_need_the_sidecar() {
    let f = FilterExpr::Cmp("lang".to_string(), CmpOp::Eq, FilterValue::Str("zh".to_string()));
    let e = filter_ids("/tmp/docs.tvim", false, &f).unwrap_err();
    assert_eq!(e.message(), "metadata filter requires SQLite sidecar /tmp/docs.tvim.sqlite");
    let q = filter_ids("/tmp/docs.tvim", true, &f).unwrap();
    assert_eq!(q.sql, "SELECT id FROM docs WHERE json_extract(meta, ?) = ? ORDER BY id");
    let bad = FilterExpr::Cmp("bad-field".to_string(), CmpOp::Eq, FilterValue::Int(1));
    let e = filter_ids("/tmp/docs.tvim", true, &bad).unwrap_err();
    assert_eq!(e.message(), "compiling metadata filter: metadata field `bad-field` contains unsupported characters");
}

#[test]
fn init_and_stats_reports() {
    let r = init_report("/tmp/d.tvim", 8, 4);
    assert!(is_str(get(&r, "db"), "/tmp/d.tvim"));
    assert!(is_num(get(&r, "dimension"), 8));
    assert!(is_num(get(&r, "bits"), 4));
    assert!(matches!(get(&r, "created"), JsonValue::Bool(true)));
    let m = IndexMeta { next_id: 3, dim: 8, bits: 4, model: "bge-m3".to_string() };
    let s = info_report("/tmp/d.tvim", 8, 2, 2, 1234, Some(&m));
    assert!(is_num(get(&s, "vectors"), 2));
    assert!(is_num(get(&s, "index_size_bytes"), 1234));
    assert!(is_num(get(get(&s, "meta"), "next_id"), 3));
    assert!(is_str(get(get(&s, "meta"), "model"), "bge-m3"));
    let s = info_report("/tmp/d.tvim", 8, 0, 0, 0, None);
    assert!(matches!(get(&s, "meta"), JsonValue::Object(m) if m.is_empty()));
}

#[test]
fn import_then_export_keeps_primary_key_and_fields() {
    let with_id = parse_import_record(
        r#"{"id":"doc-9","vector_field":"content","fields":{"content":"hello","lang":"zh"}}"#,
        None,
        None,
    )
    .unwrap();
    let row = DocRow {
        external_id: with_id.external_id.clone(),
        vector_field: with_id.vector_field.clone(),
        text: with_id.vector_text.clone(),
        meta: with_id.meta.duplicate(),
    };
    let exported = doc_to_export_json(3, &row);
    assert!(is_str(get(&exported, "pk"), "doc-9"));
    let fields = get(&exported, "fields");
    assert!(is_str(get(fields, "content"), "hello"));
    assert!(is_str(get(fields, "lang"), "zh"));
    assert!(is_str(get(fields, "external_id"), "doc-9"));

    let without_id = parse_import_record(r#"{"text":"plain"}"#, None, None).unwrap();
    let row = DocRow {
        external_id: without_id.external_id.clone(),
        vector_field: without_id.vector_field.clone(),
        text: without_id.vector_text.clone(),
        meta: without_id.meta.duplicate(),
    };
    let exported = doc_to_export_json(12, &row);
    assert!(is_str(get(&exported, "pk"), "12"));
    assert!(is_str(get(get(&exported, "fields"), "text"), "plain"));
}

#[test]
fn missing_files_are_named() {
    assert_eq!(CommandError::InputNotFound("in.jsonl".to_string()).message(), "input file not found: in.jsonl");
    assert_eq!(CommandError::IndexNotFound("/x.tvim".to_string()).message(), "index not found: /x.tvim");
}

#[test]
fn a_later_import_starts_above_every_committed_id() {
    let rs = records(&[r#"{"text":"a","vector":[1]}"#, r#"{"text":"b","vector":[1]}"#]);
    let mut first = ImportSession::start(&rs, meta(1, ""), None, 1);
    let c = first.commit_batch();
    assert_eq!(c.ids, vec![1]);
    // The import stops here (say, the next batch is refused); the saved
    // metadata is the checkpoint, and the next import starts from it.
    let mut second = ImportSession::start(&rs, c.meta, None, 1);
    assert_eq!(second.commit_batch().ids, vec![2]);
}

#[test]
fn a_key_stored_by_an_earlier_batch_is_refused_later() {
    let rs = records(&[r#"{"id":"k","text":"a"}"#, r#"{"id":"k","text":"b"}"#]);
    assert!(check_new_keys(&rs, 0, 1, &vec![false]).is_ok());
    let e = check_new_keys(&rs, 1, 2, &vec![true]).unwrap_err();
    assert!(matches!(e, CommandError::DuplicateKey(ref k) if k == "k"));
}
