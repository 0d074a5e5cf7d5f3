use turbovec_rs::json::{JsonNumber, JsonValue};
use turbovec_rs::sidecar::meta_from_text;
use turbovec_rs::sidecar::DocRow;
use turbovec_rs::sql_query::{
    doc_to_query_record, find_keyword_ci, limit_ids, parse_sql_metadata_query, query_report,
    QueryError,
};

#[test]
fn parses_sql_metadata_query() {
    let query = parse_sql_metadata_query(
        "SELECT pk, category FROM articles WHERE category = 'tech' LIMIT 20",
    )
    .unwrap();
    assert_eq!(query.select, vec!["pk", "category"]);
    assert_eq!(query.filter.as_deref(), Some("category = 'tech'"));
    assert_eq!(query.limit, Some(20));
}

// ---- further cases ----

#[test]
fn query_keywords_ignore_case_and_star_selects_all() {
    let q = parse_sql_metadata_query("  select * from docs where lang = 'zh' ;").unwrap();
    assert!(q.select.is_empty());
    assert_eq!(q.filter.as_deref(), Some("lang = 'zh'"));
    assert!(q.limit.is_none());
    let q = parse_sql_metadata_query("SELECT a,, b FROM c LIMIT +5").unwrap();
    assert_eq!(q.select, vec!["a", "b"]);
    assert!(q.filter.is_none());
    assert_eq!(q.limit, Some(5));
}

#[test]
fn query_errors_name_what_is_missing() {
    let e = parse_sql_metadata_query("SELECT a").unwrap_err();
    assert!(matches!(e, QueryError::MissingFrom));
    assert_eq!(e.message(), "query must use SELECT ... FROM <collection> [WHERE ...] [LIMIT n]");
    let e = parse_sql_metadata_query("DELETE a FROM b").unwrap_err();
    assert_eq!(e.message(), "query must start with SELECT");
    let e = parse_sql_metadata_query("SELECT a FROM WHERE x = 1").unwrap_err();
    assert!(matches!(e, QueryError::MissingCollection));
    assert_eq!(e.message(), "query must name a collection after FROM");
    let e = parse_sql_metadata_query("SELECT a FROM   LIMIT 5").unwrap_err();
    assert!(matches!(e, QueryError::MissingCollection));
    let e = parse_sql_metadata_query("SELECT a FROM b LIMIT ten").unwrap_err();
    assert_eq!(e.message(), "invalid LIMIT value `ten`");
}

#[test]
fn empty_where_before_limit_gives_no_filter() {
    let q = parse_sql_metadata_query("SELECT a FROM docs WHERE LIMIT 5").unwrap();
    assert_eq!(q.select, vec!["a"]);
    assert!(q.filter.is_none());
    assert_eq!(q.limit, Some(5));
    let q = parse_sql_metadata_query("SELECT a FROM   docs   WHERE x = 1 LIMIT 5").unwrap();
    assert_eq!(q.filter.as_deref(), Some("x = 1"));
}

#[test]
fn keyword_search_is_case_insensitive() {
    let v: Vec<char> = "a FrOm b".chars().collect();
    assert_eq!(find_keyword_ci(&v, " from "), Some(1));
    assert_eq!(find_keyword_ci(&v, " where "), None);
}

fn doc() -> DocRow {
    DocRow {
        external_id: Some("doc-1".to_string()),
        vector_field: "content".to_string(),
        text: "alpha".to_string(),
        meta: meta_from_text("{\"category\":\"tech\",\"lang\":\"zh\"}"),
    }
}

fn member<'a>(v: &'a JsonValue, k: &str) -> Option<&'a JsonValue> {
    v.get(k)
}

#[test]
fn full_query_record_has_every_field() {
    let r = doc_to_query_record(5, Some(&doc()), &Vec::new());
    match &r {
        JsonValue::Object(m) => {
            let keys: Vec<&str> = m.iter().map(|(k, _)| k.as_str()).collect();
            assert_eq!(keys, vec!["id", "pk", "doc_id", "score", "external_id", "vector_field", "text", "meta"]);
        },
        other => panic!("unexpected {:?}", other),
    }
    assert!(matches!(member(&r, "id"), Some(JsonValue::Number(JsonNumber::PosInt(5)))));
    assert!(matches!(member(&r, "score"), Some(JsonValue::Null)));
    assert!(matches!(member(&r, "pk"), Some(JsonValue::Str(s)) if s == "doc-1"));
}

#[test]
fn projected_query_record_reads_fields_then_metadata() {
    let sel = vec!["pk".to_string(), "category".to_string(), "missing".to_string()];
    let r = doc_to_query_record(5, Some(&doc()), &sel);
    match &r {
        JsonValue::Object(m) => assert_eq!(m.len(), 3),
        other => panic!("unexpected {:?}", other),
    }
    assert!(matches!(member(&r, "pk"), Some(JsonValue::Str(s)) if s == "doc-1"));
    assert!(matches!(member(&r, "category"), Some(JsonValue::Str(s)) if s == "tech"));
    assert!(matches!(member(&r, "missing"), Some(JsonValue::Null)));
    let r = doc_to_query_record(9, None, &vec!["pk".to_string(), "lang".to_string()]);
    assert!(matches!(member(&r, "pk"), Some(JsonValue::Str(s)) if s == "9"));
    assert!(matches!(member(&r, "lang"), Some(JsonValue::Null)));
}

#[test]
fn query_ids_are_truncated_to_the_limit() {
    assert_eq!(limit_ids(vec![1, 2, 3], Some(2)), vec![1, 2]);
    assert_eq!(limit_ids(vec![1, 2, 3], Some(5)), vec![1, 2, 3]);
    assert_eq!(limit_ids(vec![1, 2, 3], None), vec![1, 2, 3]);
    assert_eq!(limit_ids(vec![1, 2, 3], Some(0)), Vec::<u64>::new());
}

#[test]
fn query_report_wraps_records() {
    let r = query_report(vec![JsonValue::Null]);
    assert!(matches!(member(&r, "records"), Some(JsonValue::Array(a)) if a.len() == 1));
}

#[test]
fn trailing_semicolons_are_ignored() {
    let a = parse_sql_metadata_query("SELECT a FROM docs WHERE x = 1 LIMIT 3").unwrap();
    let b = parse_sql_metadata_query("SELECT a FROM docs WHERE x = 1 LIMIT 3 ;;  ").unwrap();
    assert_eq!(a.select, b.select);
    assert_eq!(a.filter, b.filter);
    assert_eq!(b.limit, Some(3));
    let c = parse_sql_metadata_query("SELECT a FROM docs;").unwrap();
    let d = parse_sql_metadata_query("SELECT a FROM docs;;;").unwrap();
    assert_eq!(c.select, d.select);
    assert!(c.filter.is_none() && d.filter.is_none());
}

#[test]
fn keyword_case_and_trailing_semicolons_give_equal_queries() {
    let a = parse_sql_metadata_query("SELECT Title, pk FROM Docs WHERE Lang = 'ZH' LIMIT 4").unwrap();
    let b = parse_sql_metadata_query("select Title, pk fRoM Docs wHeRe Lang = 'ZH' Limit 4 ;;; ").unwrap();
    assert_eq!(a.select, vec!["Title", "pk"]);
    assert_eq!(a.select, b.select);
    assert_eq!(a.filter.as_deref(), Some("Lang = 'ZH'"));
    assert_eq!(a.filter, b.filter);
    assert_eq!(a.limit, b.limit);
    assert!(parse_sql_metadata_query("SELECT a FROM").is_err());
    assert!(parse_sql_metadata_query("select a from ;").is_err());
}
