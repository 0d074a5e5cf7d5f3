use turbovec_rs::commands::CommandError;
use turbovec_rs::filter::{
    compile_compare, compile_filter_expr, json_path_param, merge_params, sqlite_value, validate_meta_field_name,
    CmpOp, FilterError, FilterExpr, FilterValue, SqlParam, SqliteWhere,
};

fn cmp(field: &str, op: CmpOp, v: FilterValue) -> FilterExpr {
    FilterExpr::Cmp(field.to_string(), op, v)
}

fn s(x: &str) -> FilterValue {
    FilterValue::Str(x.to_string())
}

/// `source = 'docs' AND lang = 'zh' AND kind IN ('guide','api')`, parsed.
fn docs_zh_guides() -> FilterExpr {
    FilterExpr::And(vec![
        cmp("source", CmpOp::Eq, s("docs")),
        cmp("lang", CmpOp::Eq, s("zh")),
        cmp("kind", CmpOp::In, FilterValue::List(vec![s("guide"), s("api")])),
    ])
}

fn compile_filter(e: &FilterExpr) -> Result<SqliteWhere, CommandError> {
    compile_filter_expr(e).map_err(CommandError::Filter)
}

#[test]
fn filter_test_filter_compiler_uses_placeholders_and_params() {
    let compiled = compile_filter(&docs_zh_guides()).unwrap();
    assert!(compiled.clause.contains("json_extract(meta, ?) = ?"));
    assert!(compiled.clause.contains("json_extract(meta, ?) IN (?, ?)"));
    assert_eq!(compiled.params.len(), 7);
}

#[test]
fn filter_test_filter_compiler_rejects_invalid_field_names() {
    let err = compile_filter(&cmp("bad-field", CmpOp::Eq, s("x"))).unwrap_err().message();
    assert!(err.contains("unsupported characters") || err.contains("parsing metadata filter"));
}

#[test]
fn filter_test_empty_in_lists_have_total_boolean_semantics() {
    let in_clause = compile_filter_expr(&cmp("source", CmpOp::In, FilterValue::List(Vec::new()))).unwrap();
    assert_eq!(in_clause.clause, "(0 = 1)");

    let not_in_clause = compile_filter_expr(&cmp("source", CmpOp::NotIn, FilterValue::List(Vec::new()))).unwrap();
    assert_eq!(not_in_clause.clause, "(1 = 1)");
}

#[test]
fn filter_tests_filter_compiler_uses_placeholders_and_params() {
    let compiled = compile_filter(&docs_zh_guides()).unwrap();
    assert!(compiled.clause.contains("json_extract(meta, ?) = ?"));
    assert!(compiled.clause.contains("json_extract(meta, ?) IN (?, ?)"));
    assert_eq!(compiled.params.len(), 7);
}

#[test]
fn filter_tests_filter_compiler_rejects_invalid_field_names() {
    let err = compile_filter(&cmp("bad-field", CmpOp::Eq, s("x"))).unwrap_err().message();
    assert!(err.contains("unsupported characters") || err.contains("parsing metadata filter"));
}

#[test]
fn filter_tests_empty_in_lists_have_total_boolean_semantics() {
    let in_clause = compile_filter_expr(&cmp("source", CmpOp::In, FilterValue::List(Vec::new()))).unwrap();
    assert_eq!(in_clause.clause, "(0 = 1)");

    let not_in_clause = compile_filter_expr(&cmp("source", CmpOp::NotIn, FilterValue::List(Vec::new()))).unwrap();
    assert_eq!(not_in_clause.clause, "(1 = 1)");
}

#[test]
fn contains_compiles_to_json_each_membership() {
    let clause = compile_filter_expr(&cmp("tags", CmpOp::Contains, s("md"))).unwrap();
    assert_eq!(
        clause.clause,
        "(EXISTS (SELECT 1 FROM json_each(meta, ?) AS je WHERE je.value = ?))"
    );
    assert_eq!(clause.params.len(), 2);

    let not_clause = compile_filter_expr(&cmp("tags", CmpOp::NotContains, s("md"))).unwrap();
    assert!(not_clause.clause.starts_with("json_type(meta, ?) IS NOT NULL AND NOT ("));
    assert!(not_clause.clause.contains("json_each(meta, ?)"));
    assert_eq!(not_clause.params.len(), 3);
}

#[test]
fn contains_any_compiles_to_json_each_overlap() {
    let clause = compile_filter_expr(&cmp(
        "tags",
        CmpOp::ContainsAny,
        FilterValue::List(vec![s("md"), s("rs")]),
    ))
    .unwrap();
    assert!(clause
        .clause
        .contains("EXISTS (SELECT 1 FROM json_each(meta, ?) AS je WHERE je.value IN (?, ?))"));
    assert_eq!(clause.params.len(), 3);

    let empty = compile_filter_expr(&cmp("tags", CmpOp::ContainsAny, FilterValue::List(Vec::new()))).unwrap();
    assert_eq!(empty.clause, "(0 = 1)");

    let not_any = compile_filter_expr(&cmp(
        "tags",
        CmpOp::NotContainsAny,
        FilterValue::List(vec![s("md")]),
    ))
    .unwrap();
    assert!(not_any.clause.starts_with("json_type(meta, ?) IS NOT NULL AND NOT EXISTS"));
    assert_eq!(not_any.params.len(), 3);
}

// ---- further cases ----

fn text(p: &SqlParam) -> &str {
    match p {
        SqlParam::Text(t) => t.as_str(),
        other => panic!("not text: {:?}", other),
    }
}

#[test]
fn compiled_and_binds_paths_and_values_in_order() {
    let w = compile_filter_expr(&docs_zh_guides()).unwrap();
    assert_eq!(
        w.clause,
        "(json_extract(meta, ?) = ? AND json_extract(meta, ?) = ? AND json_extract(meta, ?) IN (?, ?))"
    );
    let texts: Vec<&str> = w.params.iter().map(text).collect();
    assert_eq!(texts, vec!["$.source", "docs", "$.lang", "zh", "$.kind", "guide", "api"]);
}

#[test]
fn literal_values_never_reach_the_clause() {
    let a = compile_filter_expr(&cmp("a", CmpOp::Eq, s("x' OR 1=1 --"))).unwrap();
    let b = compile_filter_expr(&cmp("zz.yy", CmpOp::Eq, s("plain"))).unwrap();
    assert_eq!(a.clause, b.clause);
    assert_eq!(text(&a.params[1]), "x' OR 1=1 --");
}

#[test]
fn null_and_exists_comparisons_test_presence() {
    assert_eq!(
        compile_filter_expr(&cmp("a", CmpOp::Eq, FilterValue::Null)).unwrap().clause,
        "json_type(meta, ?) IS NULL"
    );
    assert_eq!(
        compile_filter_expr(&cmp("a", CmpOp::Ne, FilterValue::Null)).unwrap().clause,
        "json_type(meta, ?) IS NOT NULL"
    );
    assert_eq!(
        compile_filter_expr(&cmp("a", CmpOp::Exists, FilterValue::Bool(false))).unwrap().clause,
        "json_type(meta, ?) IS NULL"
    );
    assert_eq!(
        compile_filter_expr(&cmp("a", CmpOp::Exists, FilterValue::Bool(true))).unwrap().clause,
        "json_type(meta, ?) IS NOT NULL"
    );
}

#[test]
fn or_not_and_empty_connectives() {
    assert_eq!(compile_filter_expr(&FilterExpr::Or(Vec::new())).unwrap().clause, "(0 = 1)");
    assert_eq!(compile_filter_expr(&FilterExpr::And(Vec::new())).unwrap().clause, "");
    let w = compile_filter_expr(&FilterExpr::Not(Box::new(cmp("n", CmpOp::Ge, FilterValue::Int(3))))).unwrap();
    assert_eq!(w.clause, "NOT (json_extract(meta, ?) >= ?)");
    assert!(matches!(w.params[1], SqlParam::Integer(3)));
    let o = compile_filter_expr(&FilterExpr::Or(vec![
        cmp("a", CmpOp::Lt, FilterValue::Int(1)),
        cmp("b", CmpOp::Like, s("x%")),
    ]))
    .unwrap();
    assert_eq!(o.clause, "(json_extract(meta, ?) < ? OR json_extract(meta, ?) LIKE ?)");
}

#[test]
fn list_operators_need_lists_and_scalars_need_scalars() {
    let e = compile_filter_expr(&cmp("a", CmpOp::In, s("x"))).unwrap_err();
    assert!(matches!(e, FilterError::ListRequired(CmpOp::In)));
    assert_eq!(e.message(), "IN requires a list value");
    let e = compile_filter_expr(&cmp("a", CmpOp::Eq, FilterValue::List(vec![]))).unwrap_err();
    assert!(matches!(e, FilterError::ListAsScalar));
    assert_eq!(e.message(), "list value cannot be bound as a scalar");
}

#[test]
fn field_name_rules() {
    assert!(validate_meta_field_name("a.b_c.D9").is_ok());
    let e = validate_meta_field_name("").unwrap_err();
    assert_eq!(e.message(), "metadata field name cannot be empty");
    let e = validate_meta_field_name("a..b").unwrap_err();
    assert_eq!(e.message(), "metadata field `a..b` contains an empty path segment");
    let e = validate_meta_field_name("9a").unwrap_err();
    assert_eq!(e.message(), "metadata field `9a` must start each path segment with ASCII letter or `_`");
    let e = validate_meta_field_name("a-b").unwrap_err();
    assert_eq!(e.message(), "metadata field `a-b` contains unsupported characters");
}

#[test]
fn json_path_is_dollar_dot_field() {
    let p = json_path_param("meta.lang").unwrap();
    assert_eq!(text(&p), "$.meta.lang");
}

#[test]
fn scalar_values_bind_as_sqlite_values() {
    assert!(matches!(sqlite_value(&FilterValue::Bool(true)).unwrap(), SqlParam::Integer(1)));
    assert!(matches!(sqlite_value(&FilterValue::Date(17)).unwrap(), SqlParam::Integer(17)));
    assert!(matches!(sqlite_value(&FilterValue::Null).unwrap(), SqlParam::Null));
    let bits = 2.5f64.to_bits();
    assert!(matches!(sqlite_value(&FilterValue::Float(bits)).unwrap(), SqlParam::Real(b) if b == bits));
}

#[test]
fn compare_and_merge_directly() {
    let a = compile_compare("x", CmpOp::Ne, &FilterValue::Int(2)).unwrap();
    let empty = SqliteWhere { clause: String::new(), params: Vec::new() };
    let m = merge_params(&vec![empty, a], " AND ");
    assert_eq!(m.clause, "(json_extract(meta, ?) != ?)");
    assert_eq!(m.params.len(), 2);
}
