use turbovec_rs::filter::{CmpOp, FilterExpr, FilterValue, SqlParam, SqliteWhere};
use turbovec_rs::json::{JsonNumber, JsonValue};
use turbovec_rs::sidecar::{
    doc_count_from_sql, doc_id_from_sql, doc_ids_from_sql, filter_ids_query, meta_from_text, meta_path,
    query_doc_ids, sql_doc_id, sqlite_path, IndexMeta, SidecarError,
};

#[test]
fn sqlite_path_preserves_tvim_stem() {
    assert_eq!(sqlite_path("/tmp/docs.tvim"), "/tmp/docs.tvim.sqlite");
}

#[test]
fn meta_path_shares_the_stem() {
    assert_eq!(meta_path("/tmp/docs.tvim"), "/tmp/docs.tvim.meta.json");
    assert_eq!(sqlite_path("rel/a.b.tvim"), "rel/a.b.tvim.sqlite");
    assert_eq!(sqlite_path("noext"), "noext.tvim.sqlite");
}

#[test]
fn document_ids_cross_into_sqlite_integers() {
    assert_eq!(sql_doc_id(42), Ok(42));
    assert_eq!(sql_doc_id(i64::MAX as u64), Ok(i64::MAX));
    assert_eq!(sql_doc_id(i64::MAX as u64 + 1), Err(SidecarError::IdTooLarge));
    assert_eq!(SidecarError::IdTooLarge.message(), "document id does not fit SQLite INTEGER");
}

#[test]
fn stored_integers_are_checked_on_the_way_out() {
    assert_eq!(doc_id_from_sql(7), Ok(7));
    assert_eq!(doc_id_from_sql(-1), Err(SidecarError::NegativeId));
    assert_eq!(SidecarError::NegativeId.message(), "SQLite document id is negative");
    assert_eq!(doc_count_from_sql(3), Ok(3));
    assert_eq!(doc_count_from_sql(-3), Err(SidecarError::CountOutOfRange));
    assert_eq!(SidecarError::CountOutOfRange.message(), "SQLite doc count is negative or too large");
    assert_eq!(doc_ids_from_sql(&vec![1, 2, 5]), Ok(vec![1, 2, 5]));
    assert_eq!(doc_ids_from_sql(&vec![1, -2, 5]), Err(SidecarError::NegativeId));
}

#[test]
fn stored_metadata_falls_back_to_an_empty_object() {
    match meta_from_text("{\"lang\":\"zh\"}") {
        JsonValue::Object(m) => {
            assert_eq!(m.len(), 1);
            assert_eq!(m[0].0, "lang");
        },
        other => panic!("unexpected {:?}", other),
    }
    match meta_from_text("not json") {
        JsonValue::Object(m) => assert!(m.is_empty()),
        other => panic!("unexpected {:?}", other),
    }
    assert!(matches!(meta_from_text("3"), JsonValue::Number(JsonNumber::PosInt(3))));
}

#[test]
fn document_id_queries_are_ordered_and_parameterized() {
    let all = query_doc_ids(None).unwrap();
    assert_eq!(all.sql, "SELECT id FROM docs ORDER BY id");
    assert!(all.params.is_empty());
    let f = FilterExpr::Cmp("lang".to_string(), CmpOp::Eq, FilterValue::Str("zh".to_string()));
    let q = query_doc_ids(Some(&f)).unwrap();
    assert_eq!(q.sql, "SELECT id FROM docs WHERE json_extract(meta, ?) = ? ORDER BY id");
    assert_eq!(q.params.len(), 2);
    let bad = FilterExpr::Cmp("bad-field".to_string(), CmpOp::Eq, FilterValue::Int(1));
    assert!(query_doc_ids(Some(&bad)).is_err());
    let empty = filter_ids_query(SqliteWhere { clause: String::new(), params: vec![SqlParam::Null] });
    assert_eq!(empty.sql, "SELECT id FROM docs ORDER BY id");
    assert_eq!(empty.params.len(), 1);
}

#[test]
fn index_meta_copies() {
    let m = IndexMeta { next_id: 3, dim: 8, bits: 4, model: "bge-m3".to_string() };
    let c = m.duplicate();
    assert_eq!((c.next_id, c.dim, c.bits, c.model.as_str()), (3, 8, 4, "bge-m3"));
}
