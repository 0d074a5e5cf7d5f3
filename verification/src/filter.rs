//! Metadata filters: field-name rules and compilation of a filter
//! expression into a parameterized SQLite `WHERE` clause over the `meta`
//! JSON column.
use vstd::prelude::*;
use crate::text::{chars_of, is_ascii_alnum, is_ascii_alpha, push_str, split_chars, split_on, string_of, string_from};

verus! {

/// Comparison operators of the filter language.
#[derive(Debug, Clone, Copy, PartialEq, Eq, Structural)]
pub enum CmpOp {
    Eq,
    Ne,
    Lt,
    Le,
    Gt,
    Ge,
    Like,
    NotLike,
    In,
    NotIn,
    Exists,
    Contains,
    NotContains,
    ContainsAny,
    NotContainsAny,
}

/// Literal values of the filter language. A floating-point literal is
/// carried by the bit pattern of its IEEE-754 binary64 value.
#[derive(Debug)]
pub enum FilterValue {
    Str(String),
    Int(i64),
    Date(i64),
    Float(u64),
    Bool(bool),
    Null,
    List(Vec<FilterValue>),
}

/// A parsed metadata filter.
#[derive(Debug)]
pub enum FilterExpr {
    And(Vec<FilterExpr>),
    Or(Vec<FilterExpr>),
    Not(Box<FilterExpr>),
    Cmp(String, CmpOp, FilterValue),
}

/// A value bound to a `?` placeholder. `Real` carries the bit pattern of an
/// IEEE-754 binary64 value.
#[derive(Debug)]
pub enum SqlParam {
    Null,
    Integer(i64),
    Real(u64),
    Text(String),
}

/// A parameterized SQLite condition: the clause and, in placeholder order,
/// the values bound to it.
#[derive(Debug)]
pub struct SqliteWhere {
    pub clause: String,
    pub params: Vec<SqlParam>,
}

/// Why a field name or a filter was refused.
#[derive(Debug)]
pub enum FilterError {
    /// The field name is empty.
    EmptyFieldName,
    /// A dot-separated segment of the field is empty.
    EmptySegment(String),
    /// A segment starts with something other than an ASCII letter or `_`.
    BadSegmentStart(String),
    /// A segment holds something other than ASCII letters, digits or `_`.
    UnsupportedCharacters(String),
    /// A list was given where a single value is bound.
    ListAsScalar,
    /// The operator needs a list of values.
    ListRequired(CmpOp),
}

pub enum ParamModel {
    Null,
    Integer(i64),
    Real(u64),
    Text(Seq<char>),
}

pub enum FilterFault {
    EmptyFieldName,
    EmptySegment(Seq<char>),
    BadSegmentStart(Seq<char>),
    UnsupportedCharacters(Seq<char>),
    ListAsScalar,
    ListRequired(CmpOp),
}

/// The model of a compiled condition: clause text and bound values.
#[verifier::ext_equal]
pub struct WhereModel {
    pub clause: Seq<char>,
    pub params: Seq<ParamModel>,
}

impl View for SqlParam {
    type V = ParamModel;

    open spec fn view(&self) -> ParamModel {
        match *self {
            SqlParam::Null => ParamModel::Null,
            SqlParam::Integer(i) => ParamModel::Integer(i),
            SqlParam::Real(b) => ParamModel::Real(b),
            SqlParam::Text(s) => ParamModel::Text(s@),
        }
    }
}

pub open spec fn params_model(p: Seq<SqlParam>) -> Seq<ParamModel> {
    p.map_values(|x: SqlParam| x@)
}

impl View for SqliteWhere {
    type V = WhereModel;

    open spec fn view(&self) -> WhereModel {
        WhereModel { clause: self.clause@, params: params_model(self.params@) }
    }
}

impl View for FilterError {
    type V = FilterFault;

    open spec fn view(&self) -> FilterFault {
        match *self {
            FilterError::EmptyFieldName => FilterFault::EmptyFieldName,
            FilterError::EmptySegment(f) => FilterFault::EmptySegment(f@),
            FilterError::BadSegmentStart(f) => FilterFault::BadSegmentStart(f@),
            FilterError::UnsupportedCharacters(f) => FilterFault::UnsupportedCharacters(f@),
            FilterError::ListAsScalar => FilterFault::ListAsScalar,
            FilterError::ListRequired(op) => FilterFault::ListRequired(op),
        }
    }
}

/// The description of a filter error.
pub open spec fn filter_message(e: FilterFault) -> Seq<char> {
    match e {
        FilterFault::EmptyFieldName => "metadata field name cannot be empty"@,
        FilterFault::EmptySegment(f) => "metadata field `"@ + f + "` contains an empty path segment"@,
        FilterFault::BadSegmentStart(f) => "metadata field `"@ + f
            + "` must start each path segment with ASCII letter or `_`"@,
        FilterFault::UnsupportedCharacters(f) => "metadata field `"@ + f + "` contains unsupported characters"@,
        FilterFault::ListAsScalar => "list value cannot be bound as a scalar"@,
        FilterFault::ListRequired(op) => op_sql(op) + " requires a list value"@,
    }
}

impl FilterError {
    /// The description of the error.
    pub fn message(&self) -> (r: String)
        ensures
            r@ == filter_message(self@),
    {
        match self {
            FilterError::EmptyFieldName => string_from("metadata field name cannot be empty"),
            FilterError::EmptySegment(f) => {
                let mut s = string_from("metadata field `");
                push_str(&mut s, f.as_str());
                push_str(&mut s, "` contains an empty path segment");
                s
            },
            FilterError::BadSegmentStart(f) => {
                let mut s = string_from("metadata field `");
                push_str(&mut s, f.as_str());
                push_str(&mut s, "` must start each path segment with ASCII letter or `_`");
                s
            },
            FilterError::UnsupportedCharacters(f) => {
                let mut s = string_from("metadata field `");
                push_str(&mut s, f.as_str());
                push_str(&mut s, "` contains unsupported characters");
                s
            },
            FilterError::ListAsScalar => string_from("list value cannot be bound as a scalar"),
            FilterError::ListRequired(op) => {
                let mut s = string_from(op_sql_str(*op));
                push_str(&mut s, " requires a list value");
                s
            },
        }
    }
}

// ---------------------------------------------------------------------------
// Field names
// ---------------------------------------------------------------------------

pub open spec fn segment_start_ok(c: char) -> bool {
    is_ascii_alpha(c) || c == '_'
}

pub open spec fn segment_char_ok(c: char) -> bool {
    is_ascii_alnum(c) || c == '_'
}

/// Which rule a path segment breaks, if any: 0 none, 1 empty, 2 bad start,
/// 3 unsupported character.
pub open spec fn segment_fault(s: Seq<char>) -> int {
    if s.len() == 0 {
        1
    } else if !segment_start_ok(s[0]) {
        2
    } else if exists|i: int| 1 <= i < s.len() && !segment_char_ok(#[trigger] s[i]) {
        3
    } else {
        0
    }
}

/// The fault of the first segment that breaks a rule (0 when none does).
pub open spec fn first_segment_fault(segs: Seq<Seq<char>>) -> int
    decreases segs.len(),
{
    if segs.len() == 0 {
        0
    } else if segment_fault(segs[0]) != 0 {
        segment_fault(segs[0])
    } else {
        first_segment_fault(segs.drop_first())
    }
}

/// A field name is a non-empty sequence of dot-separated segments, each an
/// ASCII letter or `_` followed by ASCII letters, digits or `_`.
pub open spec fn field_name_ok(f: Seq<char>) -> bool {
    f.len() > 0 && forall|i: int| 0 <= i < split_on(f, '.').len() ==> segment_fault(#[trigger] split_on(f, '.')[i]) == 0
}

/// The outcome of checking a metadata field name.
pub open spec fn field_check(f: Seq<char>) -> Result<(), FilterFault> {
    if f.len() == 0 {
        Err(FilterFault::EmptyFieldName)
    } else {
        let k = first_segment_fault(split_on(f, '.'));
        if k == 1 {
            Err(FilterFault::EmptySegment(f))
        } else if k == 2 {
            Err(FilterFault::BadSegmentStart(f))
        } else if k == 3 {
            Err(FilterFault::UnsupportedCharacters(f))
        } else {
            Ok(())
        }
    }
}

proof fn lemma_first_segment_fault(segs: Seq<Seq<char>>)
    ensures
        first_segment_fault(segs) == 0 <==> forall|i: int| 0 <= i < segs.len() ==> segment_fault(#[trigger] segs[i]) == 0,
        1 <= first_segment_fault(segs) <= 3 || first_segment_fault(segs) == 0,
    decreases segs.len(),
{
    if segs.len() > 0 {
        lemma_first_segment_fault(segs.drop_first());
        if segment_fault(segs[0]) == 0 {
            assert forall|i: int| 0 <= i < segs.len() && (forall|j: int| 0 <= j < segs.drop_first().len() ==> segment_fault(#[trigger] segs.drop_first()[j]) == 0) implies segment_fault(#[trigger] segs[i]) == 0 by {
                if i > 0 {
                    assert(segs[i] == segs.drop_first()[i - 1]);
                }
            }
            assert forall|j: int| 0 <= j < segs.drop_first().len() && (forall|i: int| 0 <= i < segs.len() ==> segment_fault(#[trigger] segs[i]) == 0) implies segment_fault(#[trigger] segs.drop_first()[j]) == 0 by {
                assert(segs.drop_first()[j] == segs[j + 1]);
            }
        }
    }
}

/// A metadata field name is accepted exactly when it follows the grammar:
/// non-empty, and every dot-separated segment an ASCII letter or `_`
/// followed by ASCII letters, digits or `_`.
pub proof fn lemma_field_check_ok(f: Seq<char>)
    ensures
        field_check(f) is Ok <==> field_name_ok(f),
{
    lemma_first_segment_fault(split_on(f, '.'));
}

fn segment_fault_of(s: &Vec<char>) -> (k: u8)
    ensures
        k as int == segment_fault(s@),
{
    if s.len() == 0 {
        return 1;
    }
    let c = s[0];
    if !(('a' <= c && c <= 'z') || ('A' <= c && c <= 'Z') || c == '_') {
        return 2;
    }
    let mut i: usize = 1;
    while i < s.len()
        invariant
            1 <= i <= s@.len(),
            segment_start_ok(s@[0]),
            forall|j: int| 1 <= j < i ==> segment_char_ok(#[trigger] s@[j]),
        decreases s.len() - i,
    {
        let d = s[i];
        if !(('a' <= d && d <= 'z') || ('A' <= d && d <= 'Z') || ('0' <= d && d <= '9') || d == '_') {
            assert(!segment_char_ok(s@[i as int]));
            return 3;
        }
        i = i + 1;
    }
    0
}

/// Checks a metadata field name (a dot-separated JSON path).
pub fn validate_meta_field_name(field: &str) -> (r: Result<(), FilterError>)
    ensures
        match r {
            Ok(()) => field_check(field@) is Ok,
            Err(e) => field_check(field@) == Err::<(), FilterFault>(e@),
        },
{
    let chars = chars_of(field);
    if chars.len() == 0 {
        return Err(FilterError::EmptyFieldName);
    }
    let segs = split_chars(&chars, '.');
    let ghost all = split_on(field@, '.');
    let mut i: usize = 0;
    assert(all.skip(0) =~= all);
    while i < segs.len()
        invariant
            i <= segs@.len(),
            segs@.len() == all.len(),
            chars@ == field@,
            field@.len() > 0,
            all == split_on(field@, '.'),
            forall|j: int| 0 <= j < segs@.len() ==> #[trigger] segs@[j]@ == all[j],
            first_segment_fault(all) == first_segment_fault(all.skip(i as int)),
        decreases segs.len() - i,
    {
        let k = segment_fault_of(&segs[i]);
        assert(all.skip(i as int)[0] == all[i as int]);
        if k != 0 {
            let name = string_of(&chars);
            if k == 1 {
                return Err(FilterError::EmptySegment(name));
            } else if k == 2 {
                return Err(FilterError::BadSegmentStart(name));
            } else {
                return Err(FilterError::UnsupportedCharacters(name));
            }
        }
        assert(all.skip(i as int).drop_first() =~= all.skip(i + 1));
        i = i + 1;
    }
    assert(all.skip(i as int).len() == 0);
    Ok(())
}

/// The JSON path bound for a field: `$.` followed by the field name.
pub open spec fn json_path(f: Seq<char>) -> Seq<char> {
    "$."@ + f
}

/// The bound JSON path of a field, after checking its name.
pub fn json_path_param(field: &str) -> (r: Result<SqlParam, FilterError>)
    ensures
        match r {
            Ok(p) => field_check(field@) is Ok && p@ == ParamModel::Text(json_path(field@)),
            Err(e) => field_check(field@) == Err::<(), FilterFault>(e@),
        },
{
    match validate_meta_field_name(field) {
        Ok(()) => {
            let mut s = String::new();
            push_str(&mut s, "$.");
            push_str(&mut s, field);
            Ok(SqlParam::Text(s))
        },
        Err(e) => Err(e),
    }
}

// ---------------------------------------------------------------------------
// Compilation
// ---------------------------------------------------------------------------

/// SQL spelling of an operator.
pub open spec fn op_sql(op: CmpOp) -> Seq<char> {
    match op {
        CmpOp::Eq => "="@,
        CmpOp::Ne => "!="@,
        CmpOp::Lt => "<"@,
        CmpOp::Le => "<="@,
        CmpOp::Gt => ">"@,
        CmpOp::Ge => ">="@,
        CmpOp::Like => "LIKE"@,
        CmpOp::NotLike => "NOT LIKE"@,
        CmpOp::In => "IN"@,
        CmpOp::NotIn => "NOT IN"@,
        CmpOp::Exists => "EXISTS"@,
        CmpOp::Contains => "CONTAINS"@,
        CmpOp::NotContains => "NOT CONTAINS"@,
        CmpOp::ContainsAny => "CONTAINS ANY"@,
        CmpOp::NotContainsAny => "NOT CONTAINS ANY"@,
    }
}

pub fn op_sql_str(op: CmpOp) -> (r: &'static str)
    ensures
        r@ == op_sql(op),
{
    match op {
        CmpOp::Eq => "=",
        CmpOp::Ne => "!=",
        CmpOp::Lt => "<",
        CmpOp::Le => "<=",
        CmpOp::Gt => ">",
        CmpOp::Ge => ">=",
        CmpOp::Like => "LIKE",
        CmpOp::NotLike => "NOT LIKE",
        CmpOp::In => "IN",
        CmpOp::NotIn => "NOT IN",
        CmpOp::Exists => "EXISTS",
        CmpOp::Contains => "CONTAINS",
        CmpOp::NotContains => "NOT CONTAINS",
        CmpOp::ContainsAny => "CONTAINS ANY",
        CmpOp::NotContainsAny => "NOT CONTAINS ANY",
    }
}

/// The value bound for a literal; a list cannot be bound as one value.
pub open spec fn scalar_param(v: FilterValue) -> Result<ParamModel, FilterFault> {
    match v {
        FilterValue::Str(s) => Ok(ParamModel::Text(s@)),
        FilterValue::Int(n) => Ok(ParamModel::Integer(n)),
        FilterValue::Date(n) => Ok(ParamModel::Integer(n)),
        FilterValue::Float(b) => Ok(ParamModel::Real(b)),
        FilterValue::Bool(b) => Ok(ParamModel::Integer(if b { 1 } else { 0 })),
        FilterValue::Null => Ok(ParamModel::Null),
        FilterValue::List(_) => Err(FilterFault::ListAsScalar),
    }
}

/// The values bound for a list, or the fault of its first bad item.
pub open spec fn list_params(items: Seq<FilterValue>) -> Result<Seq<ParamModel>, FilterFault>
    decreases items.len(),
{
    if items.len() == 0 {
        Ok(Seq::empty())
    } else {
        match list_params(items.drop_last()) {
            Err(e) => Err(e),
            Ok(ps) => match scalar_param(items.last()) {
                Ok(p) => Ok(ps.push(p)),
                Err(e) => Err(e),
            },
        }
    }
}

proof fn lemma_list_params_prefix_err(items: Seq<FilterValue>, i: int)
    requires
        0 <= i <= items.len(),
        list_params(items.take(i)) is Err,
    ensures
        list_params(items) == list_params(items.take(i)),
    decreases items.len() - i,
{
    if i < items.len() {
        assert(items.take(i + 1).drop_last() =~= items.take(i));
        lemma_list_params_prefix_err(items, i + 1);
    } else {
        assert(items.take(i) =~= items);
    }
}

/// `n` placeholders separated by `, `.
pub open spec fn placeholders(n: nat) -> Seq<char>
    decreases n,
{
    if n <= 1 {
        if n == 1 { "?"@ } else { Seq::empty() }
    } else {
        placeholders((n - 1) as nat) + ", ?"@
    }
}

pub open spec fn json_each_eq() -> Seq<char> {
    "EXISTS (SELECT 1 FROM json_each(meta, ?) AS je WHERE je.value = ?)"@
}

pub open spec fn json_each_in(n: nat) -> Seq<char> {
    "EXISTS (SELECT 1 FROM json_each(meta, ?) AS je WHERE je.value IN ("@ + placeholders(n) + "))"@
}

/// The condition for a list operator on a non-empty list of `n` values.
pub open spec fn list_clause(op: CmpOp, n: nat) -> Seq<char> {
    match op {
        CmpOp::In => "json_extract(meta, ?) IN ("@ + placeholders(n) + ")"@,
        CmpOp::NotIn => "json_extract(meta, ?) NOT IN ("@ + placeholders(n) + ")"@,
        CmpOp::ContainsAny => "("@ + json_each_in(n) + ")"@,
        _ => "json_type(meta, ?) IS NOT NULL AND NOT "@ + json_each_in(n),
    }
}

pub open spec fn is_list_op(op: CmpOp) -> bool {
    op == CmpOp::In || op == CmpOp::NotIn || op == CmpOp::ContainsAny || op == CmpOp::NotContainsAny
}

/// The compiled condition for one comparison.
pub open spec fn compare_spec(f: Seq<char>, op: CmpOp, v: FilterValue) -> Result<WhereModel, FilterFault> {
    let path = ParamModel::Text(json_path(f));
    if field_check(f) is Err {
        Err(field_check(f)->Err_0)
    } else if op == CmpOp::Exists {
        Ok(WhereModel {
            clause: if (v matches FilterValue::Bool(false)) {
                "json_type(meta, ?) IS NULL"@
            } else {
                "json_type(meta, ?) IS NOT NULL"@
            },
            params: seq![path],
        })
    } else if op == CmpOp::Eq && (v is Null) {
        Ok(WhereModel { clause: "json_type(meta, ?) IS NULL"@, params: seq![path] })
    } else if op == CmpOp::Ne && (v is Null) {
        Ok(WhereModel { clause: "json_type(meta, ?) IS NOT NULL"@, params: seq![path] })
    } else if is_list_op(op) {
        match v {
            FilterValue::List(items) => if items@.len() == 0 {
                Ok(WhereModel {
                    clause: if op == CmpOp::In || op == CmpOp::ContainsAny { "(0 = 1)"@ } else { "(1 = 1)"@ },
                    params: Seq::empty(),
                })
            } else {
                match list_params(items@) {
                    Err(e) => Err(e),
                    Ok(ps) => Ok(WhereModel {
                        clause: list_clause(op, items@.len()),
                        params: if op == CmpOp::NotContainsAny { seq![path, path] + ps } else { seq![path] + ps },
                    }),
                }
            },
            _ => Err(FilterFault::ListRequired(op)),
        }
    } else {
        match scalar_param(v) {
            Err(e) => Err(e),
            Ok(p) => if op == CmpOp::Contains {
                Ok(WhereModel { clause: "("@ + json_each_eq() + ")"@, params: seq![path, p] })
            } else if op == CmpOp::NotContains {
                Ok(WhereModel {
                    clause: "json_type(meta, ?) IS NOT NULL AND NOT ("@ + json_each_eq() + ")"@,
                    params: seq![path, path, p],
                })
            } else {
                Ok(WhereModel { clause: "json_extract(meta, ?) "@ + op_sql(op) + " ?"@, params: seq![path, p] })
            },
        }
    }
}

/// Non-empty clauses joined by `sep`.
pub open spec fn joined(parts: Seq<WhereModel>, sep: Seq<char>) -> Seq<char>
    decreases parts.len(),
{
    if parts.len() == 0 {
        Seq::empty()
    } else {
        let j = joined(parts.drop_last(), sep);
        let c = parts.last().clause;
        if c.len() == 0 {
            j
        } else if j.len() == 0 {
            c
        } else {
            j + sep + c
        }
    }
}

/// Parameters of the parts with a non-empty clause, in order.
pub open spec fn merged_params(parts: Seq<WhereModel>) -> Seq<ParamModel>
    decreases parts.len(),
{
    if parts.len() == 0 {
        Seq::empty()
    } else if parts.last().clause.len() == 0 {
        merged_params(parts.drop_last())
    } else {
        merged_params(parts.drop_last()) + parts.last().params
    }
}

/// Parts combined with `sep`: parts with an empty clause are left out, the
/// rest are joined and parenthesized (an empty clause when none is left).
pub open spec fn merge_spec(parts: Seq<WhereModel>, sep: Seq<char>) -> WhereModel {
    let j = joined(parts, sep);
    WhereModel {
        clause: if j.len() == 0 { Seq::empty() } else { "("@ + j + ")"@ },
        params: merged_params(parts),
    }
}

/// The compiled condition of a filter expression.
pub open spec fn compile_spec(e: FilterExpr) -> Result<WhereModel, FilterFault>
    decreases e,
{
    match e {
        FilterExpr::And(es) => match compile_all(es@) {
            Ok(ws) => Ok(merge_spec(ws, " AND "@)),
            Err(x) => Err(x),
        },
        FilterExpr::Or(es) => if es@.len() == 0 {
            Ok(WhereModel { clause: "(0 = 1)"@, params: Seq::empty() })
        } else {
            match compile_all(es@) {
                Ok(ws) => Ok(merge_spec(ws, " OR "@)),
                Err(x) => Err(x),
            }
        },
        FilterExpr::Not(b) => match compile_spec(*b) {
            Ok(w) => Ok(WhereModel { clause: "NOT ("@ + w.clause + ")"@, params: w.params }),
            Err(x) => Err(x),
        },
        FilterExpr::Cmp(f, op, v) => compare_spec(f@, op, v),
    }
}

/// The compiled conditions of a list of expressions, in order, or the
/// fault of the first one that fails.
pub open spec fn compile_all(es: Seq<FilterExpr>) -> Result<Seq<WhereModel>, FilterFault>
    decreases es,
{
    if es.len() == 0 {
        Ok(Seq::empty())
    } else {
        match compile_all(es.drop_last()) {
            Err(x) => Err(x),
            Ok(ws) => match compile_spec(es.last()) {
                Ok(w) => Ok(ws.push(w)),
                Err(x) => Err(x),
            },
        }
    }
}

/// What the SQL text of a comparison can depend on in a literal: whether
/// it is `false`, null, a list of some length, or any other value.
pub enum ValueShape {
    Scalar,
    False,
    Null,
    List(nat),
}

pub open spec fn value_shape(v: FilterValue) -> ValueShape {
    match v {
        FilterValue::Bool(false) => ValueShape::False,
        FilterValue::Null => ValueShape::Null,
        FilterValue::List(items) => ValueShape::List(items@.len()),
        _ => ValueShape::Scalar,
    }
}

/// Two filters of the same structure: the same connectives and operators,
/// and literals of the same shape, whatever the field names and values.
pub open spec fn same_shape(a: FilterExpr, b: FilterExpr) -> bool
    decreases a,
{
    match a {
        FilterExpr::And(xs) => match b {
            FilterExpr::And(ys) => same_shapes(xs@, ys@),
            _ => false,
        },
        FilterExpr::Or(xs) => match b {
            FilterExpr::Or(ys) => same_shapes(xs@, ys@),
            _ => false,
        },
        FilterExpr::Not(x) => match b {
            FilterExpr::Not(y) => same_shape(*x, *y),
            _ => false,
        },
        FilterExpr::Cmp(_, op, v) => match b {
            FilterExpr::Cmp(_, op2, w) => op == op2 && value_shape(v) == value_shape(w),
            _ => false,
        },
    }
}

pub open spec fn same_shapes(xs: Seq<FilterExpr>, ys: Seq<FilterExpr>) -> bool
    decreases xs,
{
    xs.len() == ys.len() && (xs.len() == 0 || (same_shapes(xs.drop_last(), ys.drop_last()) && same_shape(
        xs.last(),
        ys.last(),
    )))
}

proof fn lemma_joined_same_clauses(p1: Seq<WhereModel>, p2: Seq<WhereModel>, sep: Seq<char>)
    requires
        p1.len() == p2.len(),
        forall|i: int| 0 <= i < p1.len() ==> #[trigger] p1[i].clause == p2[i].clause,
    ensures
        joined(p1, sep) == joined(p2, sep),
    decreases p1.len(),
{
    if p1.len() > 0 {
        lemma_joined_same_clauses(p1.drop_last(), p2.drop_last(), sep);
        assert(p1.last().clause == p2.last().clause);
    }
}

/// A comparison of a field with a single (non-list) value compares the
/// field's JSON value with a bound parameter by the operator's own SQL
/// operator: `= != < <= > >= LIKE NOT LIKE`, binding the field's path
/// `$.<field>` and then the value. In particular `>` is strict: it never
/// compiles as `>=`. (`= null` and `!= null` test presence instead.)
pub proof fn lemma_scalar_comparisons(f: Seq<char>, v: FilterValue)
    requires
        field_check(f) is Ok,
        !(v is List),
    ensures
        ({
            let ps = seq![ParamModel::Text("$."@ + f), scalar_param(v)->Ok_0];
            &&& scalar_param(v) is Ok
            &&& !(v is Null) ==> compare_spec(f, CmpOp::Eq, v) == Ok::<WhereModel, FilterFault>(
                WhereModel { clause: "json_extract(meta, ?) "@ + "="@ + " ?"@, params: ps },
            )
            &&& !(v is Null) ==> compare_spec(f, CmpOp::Ne, v) == Ok::<WhereModel, FilterFault>(
                WhereModel { clause: "json_extract(meta, ?) "@ + "!="@ + " ?"@, params: ps },
            )
            &&& compare_spec(f, CmpOp::Lt, v) == Ok::<WhereModel, FilterFault>(
                WhereModel { clause: "json_extract(meta, ?) "@ + "<"@ + " ?"@, params: ps },
            )
            &&& compare_spec(f, CmpOp::Le, v) == Ok::<WhereModel, FilterFault>(
                WhereModel { clause: "json_extract(meta, ?) "@ + "<="@ + " ?"@, params: ps },
            )
            &&& compare_spec(f, CmpOp::Gt, v) == Ok::<WhereModel, FilterFault>(
                WhereModel { clause: "json_extract(meta, ?) "@ + ">"@ + " ?"@, params: ps },
            )
            &&& compare_spec(f, CmpOp::Ge, v) == Ok::<WhereModel, FilterFault>(
                WhereModel { clause: "json_extract(meta, ?) "@ + ">="@ + " ?"@, params: ps },
            )
            &&& compare_spec(f, CmpOp::Like, v) == Ok::<WhereModel, FilterFault>(
                WhereModel { clause: "json_extract(meta, ?) "@ + "LIKE"@ + " ?"@, params: ps },
            )
            &&& compare_spec(f, CmpOp::NotLike, v) == Ok::<WhereModel, FilterFault>(
                WhereModel { clause: "json_extract(meta, ?) "@ + "NOT LIKE"@ + " ?"@, params: ps },
            )
        }),
        compare_spec(f, CmpOp::Gt, v) != compare_spec(f, CmpOp::Ge, v),
        compare_spec(f, CmpOp::Lt, v) != compare_spec(f, CmpOp::Le, v),
{
    reveal_strlit(">");
    reveal_strlit(">=");
    reveal_strlit("<");
    reveal_strlit("<=");
    let a = "json_extract(meta, ?) "@;
    let b = " ?"@;
    assert((a + ">"@ + b).len() != (a + ">="@ + b).len());
    assert((a + "<"@ + b).len() != (a + "<="@ + b).len());
}

/// Values never reach the SQL text: two filters of the same structure that
/// both compile give the same clause, whatever their field names and
/// literals, which are bound as parameters.
pub proof fn lemma_clause_ignores_values(a: FilterExpr, b: FilterExpr)
    requires
        same_shape(a, b),
        compile_spec(a) is Ok,
        compile_spec(b) is Ok,
    ensures
        compile_spec(a)->Ok_0.clause == compile_spec(b)->Ok_0.clause,
    decreases a,
{
    match a {
        FilterExpr::And(xs) => {
            let ys = b->And_0;
            lemma_clauses_ignore_values(xs@, ys@);
            lemma_joined_same_clauses(compile_all(xs@)->Ok_0, compile_all(ys@)->Ok_0, " AND "@);
        },
        FilterExpr::Or(xs) => {
            let ys = b->Or_0;
            assert(same_shapes(xs@, ys@));
            assert(xs@.len() == ys@.len());
            if xs@.len() > 0 {
                lemma_clauses_ignore_values(xs@, ys@);
                lemma_joined_same_clauses(compile_all(xs@)->Ok_0, compile_all(ys@)->Ok_0, " OR "@);
            }
        },
        FilterExpr::Not(x) => {
            let y = b->Not_0;
            lemma_clause_ignores_values(*x, *y);
        },
        FilterExpr::Cmp(_, _, _) => {},
    }
}

proof fn lemma_clauses_ignore_values(xs: Seq<FilterExpr>, ys: Seq<FilterExpr>)
    requires
        same_shapes(xs, ys),
        compile_all(xs) is Ok,
        compile_all(ys) is Ok,
    ensures
        compile_all(xs)->Ok_0.len() == xs.len(),
        compile_all(ys)->Ok_0.len() == ys.len(),
        forall|i: int|
            0 <= i < xs.len() ==> #[trigger] compile_all(xs)->Ok_0[i].clause == compile_all(ys)->Ok_0[i].clause,
    decreases xs,
{
    if xs.len() > 0 {
        lemma_clauses_ignore_values(xs.drop_last(), ys.drop_last());
        lemma_clause_ignores_values(xs.last(), ys.last());
        let w1 = compile_all(xs)->Ok_0;
        let w2 = compile_all(ys)->Ok_0;
        assert forall|i: int| 0 <= i < xs.len() implies #[trigger] w1[i].clause == w2[i].clause by {
            if i < xs.len() - 1 {
                assert(w1[i] == compile_all(xs.drop_last())->Ok_0[i]);
                assert(w2[i] == compile_all(ys.drop_last())->Ok_0[i]);
            }
        }
    }
}

/// Empty lists have total semantics: `f IN ()` compiles to a condition that
/// is always false and `f NOT IN ()` to one that is always true, with no
/// value bound, whether or not the field exists.
pub proof fn lemma_empty_in_lists(f: String, empty: Vec<FilterValue>)
    requires
        field_check(f@) is Ok,
        empty@.len() == 0,
    ensures
        compile_spec(FilterExpr::Cmp(f, CmpOp::In, FilterValue::List(empty))) == Ok::<WhereModel, FilterFault>(
            WhereModel { clause: "(0 = 1)"@, params: Seq::empty() },
        ),
        compile_spec(FilterExpr::Cmp(f, CmpOp::NotIn, FilterValue::List(empty))) == Ok::<WhereModel, FilterFault>(
            WhereModel { clause: "(1 = 1)"@, params: Seq::empty() },
        ),
{
}

/// The model of a compilation outcome.
pub open spec fn where_result(r: Result<SqliteWhere, FilterError>) -> Result<WhereModel, FilterFault> {
    match r {
        Ok(w) => Ok(w@),
        Err(e) => Err(e@),
    }
}

impl SqlParam {
    pub fn duplicate(&self) -> (r: SqlParam)
        ensures
            r@ == self@,
    {
        match self {
            SqlParam::Null => SqlParam::Null,
            SqlParam::Integer(i) => SqlParam::Integer(*i),
            SqlParam::Real(b) => SqlParam::Real(*b),
            SqlParam::Text(t) => SqlParam::Text(t.clone()),
        }
    }
}

/// The value bound for a literal.
pub fn sqlite_value(v: &FilterValue) -> (r: Result<SqlParam, FilterError>)
    ensures
        match r {
            Ok(p) => scalar_param(*v) == Ok::<ParamModel, FilterFault>(p@),
            Err(e) => scalar_param(*v) == Err::<ParamModel, FilterFault>(e@),
        },
{
    match v {
        FilterValue::Str(s) => Ok(SqlParam::Text(s.clone())),
        FilterValue::Int(n) => Ok(SqlParam::Integer(*n)),
        FilterValue::Date(n) => Ok(SqlParam::Integer(*n)),
        FilterValue::Float(b) => Ok(SqlParam::Real(*b)),
        FilterValue::Bool(b) => Ok(SqlParam::Integer(if *b { 1 } else { 0 })),
        FilterValue::Null => Ok(SqlParam::Null),
        FilterValue::List(_) => Err(FilterError::ListAsScalar),
    }
}

/// Appends the values bound for a list to `out`.
fn push_list_params(items: &Vec<FilterValue>, out: &mut Vec<SqlParam>) -> (r: Result<(), FilterError>)
    ensures
        match r {
            Ok(()) => list_params(items@) is Ok && params_model(final(out)@) == params_model(old(out)@) + list_params(items@)->Ok_0,
            Err(e) => list_params(items@) == Err::<Seq<ParamModel>, FilterFault>(e@),
        },
{
    let ghost base = params_model(out@);
    let mut i: usize = 0;
    assert(items@.take(0) =~= Seq::<FilterValue>::empty());
    while i < items.len()
        invariant
            i <= items@.len(),
            list_params(items@.take(i as int)) is Ok,
            params_model(out@) == base + list_params(items@.take(i as int))->Ok_0,
        decreases items.len() - i,
    {
        assert(items@.take(i + 1).drop_last() =~= items@.take(i as int));
        match sqlite_value(&items[i]) {
            Ok(p) => {
                let ghost before = out@;
                assert(items@.take(i + 1).last() == items@[i as int]);
                out.push(p);
                assert(params_model(out@) =~= params_model(before).push(p@));
                assert(params_model(out@) =~= base + list_params(items@.take(i + 1))->Ok_0);
            },
            Err(e) => {
                proof {
                    lemma_list_params_prefix_err(items@, i + 1);
                }
                return Err(e);
            },
        }
        i = i + 1;
    }
    assert(items@.take(i as int) =~= items@);
    Ok(())
}

fn placeholders_string(n: usize) -> (s: String)
    requires
        n >= 1,
    ensures
        s@ == placeholders(n as nat),
{
    let mut s = String::new();
    push_str(&mut s, "?");
    let mut i: usize = 1;
    while i < n
        invariant
            1 <= i <= n,
            s@ == placeholders(i as nat),
        decreases n - i,
    {
        push_str(&mut s, ", ?");
        i = i + 1;
    }
    s
}


fn json_each_in_string(n: usize) -> (s: String)
    requires
        n >= 1,
    ensures
        s@ == json_each_in(n as nat),
{
    let mut s = string_from("EXISTS (SELECT 1 FROM json_each(meta, ?) AS je WHERE je.value IN (");
    let ph = placeholders_string(n);
    push_str(&mut s, ph.as_str());
    push_str(&mut s, "))");
    assert(s@ =~= json_each_in(n as nat));
    s
}

fn list_clause_string(op: CmpOp, n: usize) -> (s: String)
    requires
        n >= 1,
        is_list_op(op),
    ensures
        s@ == list_clause(op, n as nat),
{
    match op {
        CmpOp::In => {
            let mut s = string_from("json_extract(meta, ?) IN (");
            push_str(&mut s, placeholders_string(n).as_str());
            push_str(&mut s, ")");
            assert(s@ =~= list_clause(op, n as nat));
            s
        },
        CmpOp::NotIn => {
            let mut s = string_from("json_extract(meta, ?) NOT IN (");
            push_str(&mut s, placeholders_string(n).as_str());
            push_str(&mut s, ")");
            assert(s@ =~= list_clause(op, n as nat));
            s
        },
        CmpOp::ContainsAny => {
            let mut s = string_from("(");
            push_str(&mut s, json_each_in_string(n).as_str());
            push_str(&mut s, ")");
            assert(s@ =~= list_clause(op, n as nat));
            s
        },
        _ => {
            let mut s = string_from("json_type(meta, ?) IS NOT NULL AND NOT ");
            push_str(&mut s, json_each_in_string(n).as_str());
            assert(s@ =~= list_clause(op, n as nat));
            s
        },
    }
}

/// Compiles one comparison of a metadata field.
pub fn compile_compare(field: &str, op: CmpOp, value: &FilterValue) -> (r: Result<SqliteWhere, FilterError>)
    ensures
        where_result(r) == compare_spec(field@, op, *value),
{
    let path = match json_path_param(field) {
        Ok(p) => p,
        Err(e) => return Err(e),
    };
    let is_null = match value {
        FilterValue::Null => true,
        _ => false,
    };
    if op == CmpOp::Exists {
        let absent = match value {
            FilterValue::Bool(b) => !*b,
            _ => false,
        };
        let clause = if absent {
            string_from("json_type(meta, ?) IS NULL")
        } else {
            string_from("json_type(meta, ?) IS NOT NULL")
        };
        let w = SqliteWhere { clause, params: vec![path] };
        assert(w@ =~= compare_spec(field@, op, *value)->Ok_0);
        return Ok(w);
    }
    if (op == CmpOp::Eq || op == CmpOp::Ne) && is_null {
        let clause = if op == CmpOp::Eq {
            string_from("json_type(meta, ?) IS NULL")
        } else {
            string_from("json_type(meta, ?) IS NOT NULL")
        };
        let w = SqliteWhere { clause, params: vec![path] };
        assert(w@ =~= compare_spec(field@, op, *value)->Ok_0);
        return Ok(w);
    }
    if op == CmpOp::In || op == CmpOp::NotIn || op == CmpOp::ContainsAny || op == CmpOp::NotContainsAny {
        match value {
            FilterValue::List(items) => {
                if items.len() == 0 {
                    let clause = if op == CmpOp::In || op == CmpOp::ContainsAny {
                        string_from("(0 = 1)")
                    } else {
                        string_from("(1 = 1)")
                    };
                    let w = SqliteWhere { clause, params: Vec::new() };
                    assert(w@ =~= compare_spec(field@, op, *value)->Ok_0);
                    return Ok(w);
                }
                let mut params: Vec<SqlParam> = Vec::new();
                if op == CmpOp::NotContainsAny {
                    params.push(path.duplicate());
                }
                params.push(path);
                let ghost head = params_model(params@);
                match push_list_params(items, &mut params) {
                    Ok(()) => {},
                    Err(e) => return Err(e),
                }
                let w = SqliteWhere { clause: list_clause_string(op, items.len()), params };
                assert(head =~= if op == CmpOp::NotContainsAny {
                    seq![ParamModel::Text(json_path(field@)), ParamModel::Text(json_path(field@))]
                } else {
                    seq![ParamModel::Text(json_path(field@))]
                });
                assert(w@ =~= compare_spec(field@, op, *value)->Ok_0);
                return Ok(w);
            },
            _ => return Err(FilterError::ListRequired(op)),
        }
    }
    let p = match sqlite_value(value) {
        Ok(p) => p,
        Err(e) => return Err(e),
    };
    if op == CmpOp::Contains {
        let mut clause = string_from("(");
        push_str(&mut clause, "EXISTS (SELECT 1 FROM json_each(meta, ?) AS je WHERE je.value = ?)");
        push_str(&mut clause, ")");
        let w = SqliteWhere { clause, params: vec![path, p] };
        assert(w@ =~= compare_spec(field@, op, *value)->Ok_0);
        Ok(w)
    } else if op == CmpOp::NotContains {
        let mut clause = string_from("json_type(meta, ?) IS NOT NULL AND NOT (");
        push_str(&mut clause, "EXISTS (SELECT 1 FROM json_each(meta, ?) AS je WHERE je.value = ?)");
        push_str(&mut clause, ")");
        let path2 = path.duplicate();
        let w = SqliteWhere { clause, params: vec![path, path2, p] };
        assert(w@ =~= compare_spec(field@, op, *value)->Ok_0);
        Ok(w)
    } else {
        let mut clause = string_from("json_extract(meta, ?) ");
        push_str(&mut clause, op_sql_str(op));
        push_str(&mut clause, " ?");
        let w = SqliteWhere { clause, params: vec![path, p] };
        assert(w@ =~= compare_spec(field@, op, *value)->Ok_0);
        Ok(w)
    }
}

pub open spec fn parts_model(p: Seq<SqliteWhere>) -> Seq<WhereModel> {
    p.map_values(|w: SqliteWhere| w@)
}

proof fn lemma_compile_all_prefix_err(es: Seq<FilterExpr>, i: int)
    requires
        0 <= i <= es.len(),
        compile_all(es.take(i)) is Err,
    ensures
        compile_all(es) == compile_all(es.take(i)),
    decreases es.len() - i,
{
    if i < es.len() {
        assert(es.take(i + 1).drop_last() =~= es.take(i));
        lemma_compile_all_prefix_err(es, i + 1);
    } else {
        assert(es.take(i) =~= es);
    }
}

/// Combines compiled parts with `sep`.
pub fn merge_params(parts: &Vec<SqliteWhere>, sep: &str) -> (r: SqliteWhere)
    ensures
        r@ == merge_spec(parts_model(parts@), sep@),
{
    let ghost pm = parts_model(parts@);
    let mut j = String::new();
    let mut params: Vec<SqlParam> = Vec::new();
    let mut i: usize = 0;
    assert(pm.take(0) =~= Seq::<WhereModel>::empty());
    while i < parts.len()
        invariant
            i <= parts@.len(),
            pm == parts_model(parts@),
            j@ == joined(pm.take(i as int), sep@),
            params_model(params@) == merged_params(pm.take(i as int)),
        decreases parts.len() - i,
    {
        assert(pm.take(i + 1).drop_last() =~= pm.take(i as int));
        assert(pm.take(i + 1).last() == parts@[i as int]@);
        let part = &parts[i];
        if !part.clause.as_str().is_empty() {
            if j.as_str().is_empty() {
                push_str(&mut j, part.clause.as_str());
                assert(j@ =~= joined(pm.take(i + 1), sep@));
            } else {
                push_str(&mut j, sep);
                push_str(&mut j, part.clause.as_str());
                assert(j@ =~= joined(pm.take(i + 1), sep@));
            }
            let ghost before = params_model(params@);
            let mut k: usize = 0;
            while k < part.params.len()
                invariant
                    k <= part.params@.len(),
                    params_model(params@) == before + params_model(part.params@).take(k as int),
                decreases part.params.len() - k,
            {
                let ghost prev = params@;
                let d = part.params[k].duplicate();
                params.push(d);
                assert(params_model(params@) =~= params_model(prev).push(d@));
                assert(params_model(part.params@).take(k + 1) =~= params_model(part.params@).take(k as int).push(part.params@[k as int]@));
                assert(params_model(params@) =~= before + params_model(part.params@).take(k + 1));
                k = k + 1;
            }
            assert(params_model(part.params@).take(k as int) =~= params_model(part.params@));
        }
        i = i + 1;
    }
    assert(pm.take(i as int) =~= pm);
    let clause = if j.as_str().is_empty() {
        String::new()
    } else {
        let mut c = string_from("(");
        push_str(&mut c, j.as_str());
        push_str(&mut c, ")");
        c
    };
    let r = SqliteWhere { clause, params };
    assert(r@ =~= merge_spec(pm, sep@));
    r
}

fn compile_list(es: &Vec<FilterExpr>) -> (r: Result<Vec<SqliteWhere>, FilterError>)
    ensures
        match r {
            Ok(ws) => compile_all(es@) == Ok::<Seq<WhereModel>, FilterFault>(parts_model(ws@)),
            Err(x) => compile_all(es@) == Err::<Seq<WhereModel>, FilterFault>(x@),
        },
    decreases es,
{
    let mut ws: Vec<SqliteWhere> = Vec::new();
    let mut i: usize = 0;
    assert(es@.take(0) =~= Seq::<FilterExpr>::empty());
    assert(parts_model(ws@) =~= Seq::<WhereModel>::empty());
    while i < es.len()
        invariant
            i <= es@.len(),
            compile_all(es@.take(i as int)) == Ok::<Seq<WhereModel>, FilterFault>(parts_model(ws@)),
        decreases es.len() - i,
    {
        assert(es@.take(i + 1).drop_last() =~= es@.take(i as int));
        assert(es@.take(i + 1).last() == es@[i as int]);
        proof {
            vstd::std_specs::vec::axiom_vec_index_decreases(*es, i as int);
        }
        match compile_filter_expr(&es[i]) {
            Ok(w) => {
                let ghost before = ws@;
                ws.push(w);
                assert(parts_model(ws@) =~= parts_model(before).push(w@));
            },
            Err(x) => {
                proof {
                    lemma_compile_all_prefix_err(es@, i + 1);
                }
                return Err(x);
            },
        }
        i = i + 1;
    }
    assert(es@.take(i as int) =~= es@);
    Ok(ws)
}

/// Compiles a filter expression into a parameterized SQLite condition
/// over the `meta` column.
pub fn compile_filter_expr(e: &FilterExpr) -> (r: Result<SqliteWhere, FilterError>)
    ensures
        where_result(r) == compile_spec(*e),
    decreases e,
{
    match e {
        FilterExpr::And(es) => match compile_list(es) {
            Ok(ws) => {
                let w = merge_params(&ws, " AND ");
                Ok(w)
            },
            Err(x) => Err(x),
        },
        FilterExpr::Or(es) => {
            if es.len() == 0 {
                let w = SqliteWhere { clause: string_from("(0 = 1)"), params: Vec::new() };
                assert(w@ =~= compile_spec(*e)->Ok_0);
                return Ok(w);
            }
            match compile_list(es) {
                Ok(ws) => Ok(merge_params(&ws, " OR ")),
                Err(x) => Err(x),
            }
        },
        FilterExpr::Not(b) => match compile_filter_expr(b) {
            Ok(w) => {
                let mut c = string_from("NOT (");
                push_str(&mut c, w.clause.as_str());
                push_str(&mut c, ")");
                let r = SqliteWhere { clause: c, params: w.params };
                assert(r@ =~= compile_spec(*e)->Ok_0);
                Ok(r)
            },
            Err(x) => Err(x),
        },
        FilterExpr::Cmp(f, op, v) => compile_compare(f.as_str(), *op, v),
    }
}

} // verus!
