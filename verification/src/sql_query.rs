//! Parsing of zvec-style metadata queries:
//! `SELECT <fields> FROM <collection> [WHERE <filter>] [LIMIT <n>]`.
use vstd::prelude::*;
use crate::text::{
    lemma_trim_start_len,
    chars_of, find, find_chars, is_ws, lower_chars, lower_seq, parse_usize, parse_usize_chars,
    split_chars, split_on, string_of_range, strip_trailing, trim, trim_bounds, trim_start,
};

use crate::commands::{jnum, jopt, pk_spec};
use crate::json::{
    JsonModel, JsonNumber, JsonValue, items_model, lemma_model_of_array, lemma_model_of_object, members_model, obj_get,
    obj_insert, object_get, object_insert,
};
use crate::sidecar::{DocRow, DocView};
use crate::text::opt_str;
use crate::text::{
    lemma_filter_take_step, lemma_find_occurs, lemma_lower_char, lemma_lower_lower, lemma_lower_parse_usize,
    lemma_lower_split, lemma_lower_strip, lemma_lower_subrange, lemma_lower_trim, lemma_lower_trim_start, lower_all,
};
use crate::text::string_from;
use crate::json::{first_key_at, key_index, lemma_key_index};
use crate::text::{
    all_char, all_ws, lemma_strip_suffix, lemma_trim_end_idem_start, lemma_trim_end_ws_suffix,
    lemma_trim_start_all_ws, lemma_trim_start_append, lemma_trim_start_fixed, lemma_trim_start_idem,
    lemma_trim_start_last, trim_end,
};

verus! {

/// A parsed metadata query. An empty `select` stands for the whole record.
#[derive(Debug)]
pub struct SqlMetadataQuery {
    pub select: Vec<String>,
    pub filter: Option<String>,
    pub limit: Option<usize>,
}

/// Why a metadata query was refused.
#[derive(Debug)]
pub enum QueryError {
    /// No ` FROM ` keyword.
    MissingFrom,
    /// The text before ` FROM ` does not start with `SELECT `.
    MissingSelect,
    /// Nothing names a collection after ` FROM `.
    MissingCollection,
    /// The text after ` LIMIT ` is not an unsigned integer.
    InvalidLimit(String),
}

pub enum QueryFault {
    MissingFrom,
    MissingSelect,
    MissingCollection,
    InvalidLimit(Seq<char>),
}

/// The description of a query error.
pub open spec fn query_message(e: QueryFault) -> Seq<char> {
    match e {
        QueryFault::MissingFrom => "query must use SELECT ... FROM <collection> [WHERE ...] [LIMIT n]"@,
        QueryFault::MissingSelect => "query must start with SELECT"@,
        QueryFault::MissingCollection => "query must name a collection after FROM"@,
        QueryFault::InvalidLimit(v) => "invalid LIMIT value `"@ + v + "`"@,
    }
}

impl QueryError {
    pub fn message(&self) -> (r: String)
        ensures
            r@ == query_message(self@),
    {
        match self {
            QueryError::MissingFrom => string_from("query must use SELECT ... FROM <collection> [WHERE ...] [LIMIT n]"),
            QueryError::MissingSelect => string_from("query must start with SELECT"),
            QueryError::MissingCollection => string_from("query must name a collection after FROM"),
            QueryError::InvalidLimit(v) => {
                let mut s = string_from("invalid LIMIT value `");
                crate::text::push_str(&mut s, v.as_str());
                crate::text::push_str(&mut s, "`");
                s
            },
        }
    }
}

#[verifier::ext_equal]
pub struct QueryModel {
    pub select: Seq<Seq<char>>,
    pub filter: Option<Seq<char>>,
    pub limit: Option<nat>,
}

impl View for QueryError {
    type V = QueryFault;

    open spec fn view(&self) -> QueryFault {
        match *self {
            QueryError::MissingFrom => QueryFault::MissingFrom,
            QueryError::MissingSelect => QueryFault::MissingSelect,
            QueryError::MissingCollection => QueryFault::MissingCollection,
            QueryError::InvalidLimit(v) => QueryFault::InvalidLimit(v@),
        }
    }
}

pub open spec fn strings_model(v: Seq<String>) -> Seq<Seq<char>> {
    v.map_values(|s: String| s@)
}

impl View for SqlMetadataQuery {
    type V = QueryModel;

    open spec fn view(&self) -> QueryModel {
        QueryModel {
            select: strings_model(self.select@),
            filter: match self.filter {
                Some(f) => Some(f@),
                None => None,
            },
            limit: match self.limit {
                Some(n) => Some(n as nat),
                None => None,
            },
        }
    }
}

/// The statement with surrounding whitespace and trailing `;` removed.
pub open spec fn statement(sql: Seq<char>) -> Seq<char> {
    trim(strip_trailing(trim(sql), ';'))
}

/// The position of the first ` FROM ` (any letter case).
pub open spec fn from_pos(t: Seq<char>) -> Option<int> {
    find(lower_seq(t), " from "@)
}

/// The text before ` FROM ` starts with `SELECT ` (any letter case).
pub open spec fn head_is_select(t: Seq<char>, f: int) -> bool {
    let h = lower_seq(trim_start(t.subrange(0, f)));
    h.len() >= 7 && h.take(7) == "select "@
}

/// The text after `FROM`, from the space that follows it: a keyword
/// right after `FROM` is still found as ` WHERE ` or ` LIMIT `.
pub open spec fn after_from(t: Seq<char>, f: int) -> Seq<char> {
    t.subrange(f + 5, t.len() as int)
}

pub open spec fn where_pos(a: Seq<char>) -> Option<int> {
    find(lower_seq(a), " where "@)
}

pub open spec fn limit_pos(a: Seq<char>) -> Option<int> {
    find(lower_seq(a), " limit "@)
}

/// Where the collection name ends.
pub open spec fn tail_start(a: Seq<char>) -> int {
    match (where_pos(a), limit_pos(a)) {
        (Some(w), Some(l)) => if w <= l { w } else { l },
        (Some(w), None) => w,
        (None, Some(l)) => l,
        (None, None) => a.len() as int,
    }
}

/// The filter text: what follows ` WHERE `, up to a later ` LIMIT `;
/// none when it is empty, as when ` LIMIT ` begins inside ` WHERE `
/// (`... WHERE LIMIT 5`).
pub open spec fn filter_text(a: Seq<char>) -> Option<Seq<char>> {
    match where_pos(a) {
        Some(w) => {
            let end = match limit_pos(a) {
                Some(l) => if l > w { l } else { a.len() as int },
                None => a.len() as int,
            };
            if w + 7 > end {
                None
            } else {
                let f = trim(a.subrange(w + 7, end));
                if f.len() == 0 {
                    None
                } else {
                    Some(f)
                }
            }
        },
        None => None,
    }
}

/// The text after ` LIMIT `, trimmed.
pub open spec fn limit_text(a: Seq<char>, l: int) -> Seq<char> {
    trim(a.subrange(l + 7, a.len() as int))
}

/// The selected fields: `*` selects the whole record; otherwise the
/// comma-separated names, trimmed, without empty ones.
pub open spec fn select_fields(s: Seq<char>) -> Seq<Seq<char>> {
    if s == seq!['*'] {
        Seq::empty()
    } else {
        trim_all(split_on(s, ',')).filter(nonempty())
    }
}

/// The outcome of parsing a metadata query.
pub open spec fn sql_query_spec(sql: Seq<char>) -> Result<QueryModel, QueryFault> {
    statement_query(statement(sql))
}

/// The outcome of parsing a statement `t` (the query with surrounding
/// whitespace and trailing `;` removed).
pub open spec fn statement_query(t: Seq<char>) -> Result<QueryModel, QueryFault> {
    match from_pos(t) {
        None => Err(QueryFault::MissingFrom),
        Some(f) => if !head_is_select(t, f) {
            Err(QueryFault::MissingSelect)
        } else {
            let a = after_from(t, f);
            if trim(a.subrange(0, tail_start(a))).len() == 0 {
                Err(QueryFault::MissingCollection)
            } else {
                match limit_pos(a) {
                    Some(l) => match parse_usize(limit_text(a, l)) {
                        None => Err(QueryFault::InvalidLimit(limit_text(a, l))),
                        Some(n) => Ok(QueryModel {
                            select: select_fields(trim(t.subrange(6, f))),
                            filter: filter_text(a),
                            limit: Some(n),
                        }),
                    },
                    None => Ok(QueryModel {
                        select: select_fields(trim(t.subrange(6, f))),
                        filter: filter_text(a),
                        limit: None,
                    }),
                }
            }
        }
    }
}

// ---------------------------------------------------------------------------
// Letter case
// ---------------------------------------------------------------------------

pub open spec fn lower_opt(o: Option<Seq<char>>) -> Option<Seq<char>> {
    match o {
        Some(x) => Some(lower_seq(x)),
        None => None,
    }
}

/// A parse outcome with every text lowered to ASCII small letters.
pub open spec fn lower_result(r: Result<QueryModel, QueryFault>) -> Result<QueryModel, QueryFault> {
    match r {
        Ok(q) => Ok(QueryModel { select: lower_all(q.select), filter: lower_opt(q.filter), limit: q.limit }),
        Err(QueryFault::InvalidLimit(v)) => Err(QueryFault::InvalidLimit(lower_seq(v))),
        Err(e) => Err(e),
    }
}

proof fn lemma_lower_all_lower(ps: Seq<Seq<char>>)
    ensures
        lower_all(lower_all(ps)) == lower_all(ps),
{
    assert forall|i: int| 0 <= i < ps.len() implies lower_all(lower_all(ps))[i] == lower_all(ps)[i] by {
        lemma_lower_lower(ps[i]);
    }
    assert(lower_all(lower_all(ps)) =~= lower_all(ps));
}

proof fn lemma_lower_statement(s: Seq<char>)
    ensures
        statement(lower_seq(s)) == lower_seq(statement(s)),
{
    lemma_lower_trim(s);
    lemma_lower_strip(trim(s));
    lemma_lower_trim(strip_trailing(trim(s), ';'));
}

proof fn lemma_lower_find(t: Seq<char>, k: Seq<char>)
    ensures
        find(lower_seq(lower_seq(t)), k) == find(lower_seq(t), k),
        find(lower_seq(t), k) matches Some(i) ==> 0 <= i && i + k.len() <= t.len(),
{
    lemma_lower_lower(t);
    lemma_find_occurs(lower_seq(t), k);
}

proof fn lemma_lower_filter_nonempty(ps: Seq<Seq<char>>)
    ensures
        lower_all(ps).filter(nonempty()) == lower_all(ps.filter(nonempty())),
    decreases ps.len(),
{
    if ps.len() > 0 {
        let n = ps.len() - 1;
        lemma_lower_filter_nonempty(ps.take(n));
        lemma_filter_take_step(ps, nonempty(), n);
        lemma_filter_take_step(lower_all(ps), nonempty(), n);
        assert(lower_all(ps).take(n) =~= lower_all(ps.take(n)));
        assert(ps.take(n + 1) =~= ps);
        assert(lower_all(ps).take(n + 1) =~= lower_all(ps));
        let f = ps.take(n).filter(nonempty());
        assert(lower_all(f.push(ps[n])) =~= lower_all(f).push(lower_seq(ps[n])));
    }
}

proof fn lemma_lower_select(x: Seq<char>)
    ensures
        select_fields(lower_seq(x)) == lower_all(select_fields(x)),
{
    let lx = lower_seq(x);
    if x.len() == 1 {
        lemma_lower_char(x[0]);
    }
    if x == seq!['*'] {
        assert(lx =~= seq!['*']);
        assert(lower_all(Seq::<Seq<char>>::empty()) =~= Seq::<Seq<char>>::empty());
    } else {
        assert(lx != seq!['*']) by {
            if lx == seq!['*'] {
                assert(lx[0] == '*');
                assert(x =~= seq!['*']);
            }
        }
        lemma_lower_split(x);
        let ps = split_on(x, ',');
        assert forall|i: int| 0 <= i < ps.len() implies #[trigger] trim(lower_seq(ps[i])) == lower_seq(trim(ps[i])) by {
            lemma_lower_trim(ps[i]);
        }
        assert(trim_all(lower_all(ps)) =~= lower_all(trim_all(ps)));
        lemma_lower_filter_nonempty(trim_all(ps));
    }
}

proof fn lemma_lower_after(a: Seq<char>, w: Option<int>, l: Option<int>)
    requires
        w == where_pos(a),
        l == limit_pos(a),
    ensures
        where_pos(lower_seq(a)) == w,
        limit_pos(lower_seq(a)) == l,
        tail_start(lower_seq(a)) == tail_start(a),
        0 <= tail_start(a) <= a.len(),
        trim(lower_seq(a).subrange(0, tail_start(a))).len() == trim(a.subrange(0, tail_start(a))).len(),
        filter_text(lower_seq(a)) == lower_opt(filter_text(a)),
        l matches Some(p) ==> limit_text(lower_seq(a), p) == lower_seq(limit_text(a, p)),
{
    reveal_strlit(" where ");
    reveal_strlit(" limit ");
    lemma_lower_find(a, " where "@);
    lemma_lower_find(a, " limit "@);
    let la = lower_seq(a);
    let t = tail_start(a);
    lemma_lower_subrange(a, 0, t);
    lemma_lower_trim(a.subrange(0, t));
    match w {
        Some(wp) => {
            let end = match l {
                Some(lp) => if lp > wp { lp } else { a.len() as int },
                None => a.len() as int,
            };
            if wp + 7 <= end {
                lemma_lower_subrange(a, wp + 7, end);
                lemma_lower_trim(a.subrange(wp + 7, end));
            }
        },
        None => {},
    }
    match l {
        Some(lp) => {
            lemma_lower_subrange(a, lp + 7, a.len() as int);
            lemma_lower_trim(a.subrange(lp + 7, a.len() as int));
        },
        None => {},
    }
}

/// Lowering a query's text changes its parse only by lowering the texts
/// the parse returns.
proof fn lemma_lower_query(s: Seq<char>)
    ensures
        lower_result(sql_query_spec(lower_seq(s))) == lower_result(sql_query_spec(s)),
{
    lemma_lower_statement(s);
    lemma_lower_statement_query(statement(s));
}

proof fn lemma_lower_statement_query(t: Seq<char>)
    ensures
        lower_result(statement_query(lower_seq(t))) == lower_result(statement_query(t)),
{
    reveal_strlit(" from ");
    reveal_strlit(" where ");
    reveal_strlit(" limit ");
    let lt = lower_seq(t);
    lemma_lower_find(t, " from "@);
    match from_pos(t) {
        None => {},
        Some(f) => {
            lemma_lower_subrange(t, 0, f);
            lemma_lower_trim_start(t.subrange(0, f));
            lemma_lower_lower(trim_start(t.subrange(0, f)));
            assert(head_is_select(lt, f) == head_is_select(t, f));
            if head_is_select(t, f) {
                lemma_trim_start_len(t.subrange(0, f));
                let a = after_from(t, f);
                lemma_lower_subrange(t, f + 5, t.len() as int);
                assert(after_from(lt, f) == lower_seq(a));
                lemma_lower_after(a, where_pos(a), limit_pos(a));
                lemma_lower_subrange(t, 6, f);
                lemma_lower_trim(t.subrange(6, f));
                lemma_lower_select(trim(t.subrange(6, f)));
                lemma_lower_all_lower(select_fields(trim(t.subrange(6, f))));
                match filter_text(a) {
                    Some(x) => lemma_lower_lower(x),
                    None => {},
                }
                match limit_pos(a) {
                    Some(lp) => {
                        lemma_lower_parse_usize(limit_text(a, lp));
                        lemma_lower_lower(limit_text(a, lp));
                    },
                    None => {},
                }
            }
        },
    }
}

/// Keywords are matched without regard to ASCII letter case: two queries
/// that differ only in letter case parse alike, both failing the same way
/// or both succeeding with the same limit and with select names and filter
/// that differ only in letter case.
pub proof fn lemma_keywords_ignore_case(s1: Seq<char>, s2: Seq<char>)
    requires
        lower_seq(s1) == lower_seq(s2),
    ensures
        lower_result(sql_query_spec(s1)) == lower_result(sql_query_spec(s2)),
{
    lemma_lower_query(s1);
    lemma_lower_query(s2);
}

/// Semicolons at the end of a query, with whitespace before and after them,
/// are ignored: `s` followed by whitespace, one or more `;` and whitespace
/// parses as `s` does. This holds unless `s` (trimmed) already ends in `;`
/// and something stands between that `;` and the added ones (whitespace in
/// `s` or in `p1`): then the first `;` is kept (`"a;"` against `"a; ;"`).
pub proof fn lemma_trailing_semicolons(s: Seq<char>, p1: Seq<char>, p2: Seq<char>, p3: Seq<char>)
    requires
        all_ws(p1),
        p2.len() > 0,
        all_char(p2, ';'),
        all_ws(p3),
        trim(s).len() == 0 || trim(s).last() != ';' || (p1.len() == 0 && !is_ws(s.last())),
    ensures
        statement(s + p1 + p2 + p3) == statement(s),
        sql_query_spec(s + p1 + p2 + p3) == sql_query_spec(s),
{
    let rest = p1 + p2 + p3;
    assert(s + p1 + p2 + p3 =~= s + rest);
    let v = trim_start(s);
    lemma_trim_start_append(s, rest);
    lemma_trim_start_idem(s);
    assert(!is_ws(';'));
    if v.len() > 0 {
        let u = v + p1 + p2;
        assert(v + rest =~= u + p3);
        lemma_trim_end_ws_suffix(u, p3);
        assert(u.last() == p2.last());
        assert(trim_end(u) == u);
        lemma_strip_suffix(v + p1, p2);
        lemma_trim_end_idem_start(v);
        let w = trim_end(v);
        assert(trim(s) == w);
        if w.last() != ';' {
            if p1.len() > 0 {
                assert((v + p1).last() == p1.last());
                assert(is_ws(p1[p1.len() - 1]));
            } else {
                assert(v + p1 =~= v);
                if !is_ws(v.last()) {
                    assert(trim_end(v) == v);
                }
            }
            assert(strip_trailing(v + p1, ';') == v + p1);
            lemma_trim_start_append(v, p1);
            lemma_trim_end_ws_suffix(v, p1);
            assert(trim(v + p1) == w);
            assert(strip_trailing(w, ';') == w);
            lemma_trim_start_fixed(w);
            assert(trim(w) == w);
        } else {
            assert(v + p1 =~= v);
            lemma_trim_start_last(s);
            assert(trim_end(v) == v);
        }
    } else {
        assert(rest =~= p1 + (p2 + p3));
        lemma_trim_start_all_ws(p1);
        lemma_trim_start_append(p1, p2 + p3);
        assert((p2 + p3)[0] == p2[0]);
        assert(p2[0] == ';');
        lemma_trim_start_fixed(p2 + p3);
        lemma_trim_end_ws_suffix(p2, p3);
        assert(p2.last() == ';');
        assert(trim_end(p2) == p2);
        assert(Seq::<char>::empty() + p2 =~= p2);
        lemma_strip_suffix(Seq::<char>::empty(), p2);
        assert(strip_trailing(Seq::<char>::empty(), ';') == Seq::<char>::empty());
        assert(trim_start(Seq::<char>::empty()) == Seq::<char>::empty());
        assert(trim_end(Seq::<char>::empty()) == Seq::<char>::empty());
    }
    assert(statement(s + p1 + p2 + p3) == statement(s));
}

/// Position `i` of the statement `t` lies in one of the keywords the parse
/// matched: `SELECT` at the start, ` FROM `, and the ` WHERE ` and ` LIMIT `
/// found after it.
pub open spec fn keyword_at(t: Seq<char>, i: int) -> bool {
    match from_pos(t) {
        None => false,
        Some(f) => {
            let a = after_from(t, f);
            ||| 0 <= i < 6
            ||| f <= i < f + 6
            ||| (where_pos(a) matches Some(w) && f + 5 + w <= i < f + 5 + w + 7)
            ||| (limit_pos(a) matches Some(l) && f + 5 + l <= i < f + 5 + l + 7)
        }
    }
}

/// Two statements that differ only in the letter case of the keywords the
/// parse matches either both parse, to equal results, or both fail.
pub proof fn lemma_statement_keyword_case(t1: Seq<char>, t2: Seq<char>)
    requires
        lower_seq(t1) == lower_seq(t2),
        forall|i: int| 0 <= i < t1.len() && !keyword_at(t1, i) ==> t1[i] == t2[i],
    ensures
        statement_query(t1) is Ok <==> statement_query(t2) is Ok,
        statement_query(t1) is Ok ==> statement_query(t1) == statement_query(t2),
{
    reveal_strlit(" from ");
    reveal_strlit(" where ");
    reveal_strlit(" limit ");
    lemma_lower_statement_query(t1);
    lemma_lower_statement_query(t2);
    assert(t1.len() == t2.len());
    lemma_lower_find(t1, " from "@);
    if statement_query(t1) is Ok {
        let f = from_pos(t1)->0;
        assert(from_pos(t2) == from_pos(t1));
        lemma_trim_start_len(t1.subrange(0, f));
        let a1 = after_from(t1, f);
        let a2 = after_from(t2, f);
        lemma_lower_subrange(t1, f + 5, t1.len() as int);
        lemma_lower_subrange(t2, f + 5, t2.len() as int);
        assert(lower_seq(a1) == lower_seq(a2));
        lemma_lower_find(a1, " where "@);
        lemma_lower_find(a1, " limit "@);
        assert(where_pos(a2) == where_pos(a1));
        assert(limit_pos(a2) == limit_pos(a1));
        assert forall|j: int| 6 <= j < f implies t1[j] == t2[j] by {
            assert(!keyword_at(t1, j));
        }
        assert(t1.subrange(6, f) =~= t2.subrange(6, f));
        match where_pos(a1) {
            Some(w) => {
                let end = match limit_pos(a1) {
                    Some(l) => if l > w { l } else { a1.len() as int },
                    None => a1.len() as int,
                };
                if w + 7 <= end {
                    assert forall|k: int| w + 7 <= k < end implies a1[k] == a2[k] by {
                        assert(!keyword_at(t1, f + 5 + k));
                        assert(a1[k] == t1[f + 5 + k]);
                        assert(a2[k] == t2[f + 5 + k]);
                    }
                    assert(a1.subrange(w + 7, end) =~= a2.subrange(w + 7, end));
                }
                assert(filter_text(a1) == filter_text(a2));
            },
            None => {},
        }
    }
}

/// Keywords are matched without regard to letter case, and trailing `;`
/// are ignored: let `k` be `s` with the keywords its parse matches
/// (`SELECT`, `FROM`, `WHERE`, `LIMIT`) written in another letter case, and
/// add to `k` whitespace, one or more `;` and whitespace. The result parses
/// to the same query as `s`, or both fail. The keyword condition is stated
/// on the statements, which differ from the queries only by surrounding
/// whitespace and trailing `;`; the trailing part excludes only the inputs
/// named at `lemma_trailing_semicolons`.
pub proof fn lemma_keyword_case_and_semicolons(
    s: Seq<char>,
    k: Seq<char>,
    p1: Seq<char>,
    p2: Seq<char>,
    p3: Seq<char>,
)
    requires
        lower_seq(statement(s)) == lower_seq(statement(k)),
        forall|i: int|
            0 <= i < statement(s).len() && !keyword_at(statement(s), i) ==> statement(s)[i] == statement(k)[i],
        all_ws(p1),
        p2.len() > 0,
        all_char(p2, ';'),
        all_ws(p3),
        trim(k).len() == 0 || trim(k).last() != ';' || (p1.len() == 0 && !is_ws(k.last())),
    ensures
        sql_query_spec(s) is Ok <==> sql_query_spec(k + p1 + p2 + p3) is Ok,
        sql_query_spec(s) is Ok ==> sql_query_spec(s) == sql_query_spec(k + p1 + p2 + p3),
{
    lemma_trailing_semicolons(k, p1, p2, p3);
    lemma_statement_keyword_case(statement(s), statement(k));
}

/// Pieces kept by a select list: the non-empty ones.
pub open spec fn nonempty() -> spec_fn(Seq<char>) -> bool {
    |p: Seq<char>| p.len() > 0
}

/// Each piece trimmed.
pub open spec fn trim_all(ps: Seq<Seq<char>>) -> Seq<Seq<char>> {
    ps.map_values(|p: Seq<char>| trim(p))
}

proof fn lemma_filter_step(s: Seq<Seq<char>>, i: int)
    requires
        0 <= i < s.len(),
    ensures
        s.take(i + 1).filter(nonempty()) == (if s[i].len() > 0 {
            s.take(i).filter(nonempty()).push(s[i])
        } else {
            s.take(i).filter(nonempty())
        }),
{
    assert(s.take(i + 1).drop_last() =~= s.take(i));
    assert(s.take(i + 1).last() == s[i]);
    reveal_with_fuel(Seq::filter, 1);
}

/// `v[lo..hi]` as a vector.
pub fn sub_chars(v: &Vec<char>, lo: usize, hi: usize) -> (r: Vec<char>)
    requires
        lo <= hi <= v@.len(),
    ensures
        r@ == v@.subrange(lo as int, hi as int),
{
    let mut r: Vec<char> = Vec::new();
    let mut i = lo;
    while i < hi
        invariant
            lo <= i <= hi <= v@.len(),
            r@ == v@.subrange(lo as int, i as int),
        decreases hi - i,
    {
        r.push(v[i]);
        assert(r@ =~= v@.subrange(lo as int, i + 1));
        i = i + 1;
    }
    r
}

/// `v` trimmed.
pub fn trim_chars(v: &Vec<char>) -> (r: Vec<char>)
    ensures
        r@ == trim(v@),
{
    let (lo, hi) = trim_bounds(v.as_slice(), 0, v.len());
    assert(v@.subrange(0, v@.len() as int) =~= v@);
    sub_chars(v, lo, hi)
}

fn strip_trailing_chars(v: &Vec<char>, c: char) -> (r: Vec<char>)
    ensures
        r@ == strip_trailing(v@, c),
{
    let mut hi = v.len();
    assert(v@.subrange(0, hi as int) =~= v@);
    while hi > 0 && v[hi - 1] == c
        invariant
            hi <= v@.len(),
            strip_trailing(v@.subrange(0, hi as int), c) == strip_trailing(v@, c),
        decreases hi,
    {
        assert(v@.subrange(0, hi as int).drop_last() =~= v@.subrange(0, hi - 1));
        hi = hi - 1;
    }
    sub_chars(v, 0, hi)
}

fn trim_start_chars(v: &Vec<char>) -> (r: Vec<char>)
    ensures
        r@ == trim_start(v@),
{
    let mut lo: usize = 0;
    assert(v@.subrange(0, v@.len() as int) =~= v@);
    while lo < v.len() && crate::text::is_whitespace(v[lo])
        invariant
            lo <= v@.len(),
            trim_start(v@.subrange(lo as int, v@.len() as int)) == trim_start(v@),
        decreases v.len() - lo,
    {
        assert(v@.subrange(lo as int, v@.len() as int).drop_first() =~= v@.subrange(lo + 1, v@.len() as int));
        lo = lo + 1;
    }
    sub_chars(v, lo, v.len())
}

/// First position of the keyword `kw` in `v`, ignoring ASCII letter case.
pub fn find_keyword_ci(v: &Vec<char>, kw: &str) -> (r: Option<usize>)
    ensures
        match r {
            Some(i) => find(lower_seq(v@), kw@) == Some(i as int) && i + kw@.len() <= v@.len(),
            None => find(lower_seq(v@), kw@) is None,
        },
{
    let l = lower_chars(v.as_slice());
    let k = chars_of(kw);
    find_chars(l.as_slice(), k.as_slice())
}

fn select_list(s: &Vec<char>) -> (r: Vec<String>)
    ensures
        strings_model(r@) == select_fields(s@),
{
    if s.len() == 1 && s[0] == '*' {
        assert(s@ =~= seq!['*']);
        return Vec::new();
    }
    assert(s@ != seq!['*']) by {
        if s@ == seq!['*'] {
            assert(s@.len() == 1 && s@[0] == '*');
        }
    }
    let pieces = split_chars(s.as_slice(), ',');
    let ghost ps = split_on(s@, ',');
    let ghost tp = trim_all(ps);
    let mut out: Vec<String> = Vec::new();
    let mut i: usize = 0;
    assert(tp.take(0).filter(nonempty()) =~= Seq::<Seq<char>>::empty());
    while i < pieces.len()
        invariant
            i <= pieces@.len(),
            pieces@.len() == ps.len(),
            tp == trim_all(ps),
            forall|j: int| 0 <= j < pieces@.len() ==> #[trigger] pieces@[j]@ == ps[j],
            strings_model(out@) == tp.take(i as int).filter(nonempty()),
        decreases pieces.len() - i,
    {
        let piece = &pieces[i];
        let t = trim_chars(piece);
        assert(tp.take(i + 1).drop_last() =~= tp.take(i as int));
        assert(tp.take(i + 1).last() == trim(ps[i as int]));
        let ghost before = out@;
        if t.len() > 0 {
            let st = crate::text::string_of(t.as_slice());
            out.push(st);
            assert(strings_model(out@) =~= strings_model(before).push(t@));
        }
        proof {
            lemma_filter_step(tp, i as int);
        }
        assert(strings_model(out@) =~= tp.take(i + 1).filter(nonempty()));
        i = i + 1;
    }
    assert(tp.take(i as int) =~= tp);
    out
}

/// The statement text of a query: trimmed, without trailing `;`.
fn statement_chars(sql: &str) -> (t: Vec<char>)
    ensures
        t@ == statement(sql@),
{
    let all = chars_of(sql);
    let t0 = trim_chars(&all);
    let t1 = strip_trailing_chars(&t0, ';');
    trim_chars(&t1)
}

/// Whether `head`, once trimmed at the start, begins with `select `
/// regardless of letter case.
fn starts_with_select(head: &Vec<char>) -> (b: bool)
    ensures
        b == ({
            let h = lower_seq(trim_start(head@));
            h.len() >= 7 && h.take(7) == "select "@
        }),
{
    proof {
        reveal_strlit("select ");
    }
    let head_ts = trim_start_chars(head);
    let head_l = lower_chars(head_ts.as_slice());
    let sel_kw = chars_of("select ");
    if head_l.len() < 7 {
        return false;
    }
    let mut k: usize = 0;
    while k < 7
        invariant
            k <= 7,
            head_l@ == lower_seq(trim_start(head@)),
            head_l@.len() >= 7,
            sel_kw@ == "select "@,
            sel_kw@.len() == 7,
            forall|j: int| 0 <= j < k ==> head_l@[j] == sel_kw@[j],
        decreases 7 - k,
    {
        if head_l[k] != sel_kw[k] {
            assert(head_l@.take(7)[k as int] != "select "@[k as int]);
            return false;
        }
        k = k + 1;
    }
    assert(head_l@.take(7) =~= "select "@);
    true
}

/// The parts after ` FROM `: the filter and the limit.
fn parse_after_from(a: &Vec<char>) -> (r: Result<(Option<String>, Option<usize>), QueryError>)
    ensures
        match r {
            Ok((f, l)) => {
                &&& trim(a@.subrange(0, tail_start(a@))).len() > 0
                &&& (match f {
                    Some(s) => filter_text(a@) == Some(s@),
                    None => filter_text(a@) is None,
                })
                &&& (match limit_pos(a@) {
                    Some(lp) => parse_usize(limit_text(a@, lp)) is Some && l == Some(parse_usize(limit_text(a@, lp))->Some_0 as usize),
                    None => l is None,
                })
            },
            Err(e) => {
                ||| trim(a@.subrange(0, tail_start(a@))).len() == 0 && e@ == QueryFault::MissingCollection
                ||| trim(a@.subrange(0, tail_start(a@))).len() > 0 && limit_pos(a@) is Some && parse_usize(
                    limit_text(a@, limit_pos(a@)->Some_0),
                ) is None && e@ == QueryFault::InvalidLimit(limit_text(a@, limit_pos(a@)->Some_0))
            },
        },
{
    proof {
        reveal_strlit(" where ");
        reveal_strlit(" limit ");
        assert(" where "@.len() == 7);
        assert(" limit "@.len() == 7);
    }
    let wpos = find_keyword_ci(a, " where ");
    let lpos = find_keyword_ci(a, " limit ");
    let tail = match (wpos, lpos) {
        (Some(w), Some(l)) => if w <= l { w } else { l },
        (Some(w), None) => w,
        (None, Some(l)) => l,
        (None, None) => a.len(),
    };
    let coll_raw = sub_chars(a, 0, tail);
    let coll = trim_chars(&coll_raw);
    if coll.len() == 0 {
        return Err(QueryError::MissingCollection);
    }
    let filter = match wpos {
        Some(w) => {
            let end = match lpos {
                Some(l) => if l > w { l } else { a.len() },
                None => a.len(),
            };
            if end - w < 7 {
                None
            } else {
                let fr = sub_chars(a, w + 7, end);
                let ft = trim_chars(&fr);
                if ft.len() == 0 {
                    None
                } else {
                    Some(crate::text::string_of(ft.as_slice()))
                }
            }
        },
        None => None,
    };
    let limit = match lpos {
        Some(l) => {
            let n = a.len();
            assert(l + 7 <= n);
            let lr = sub_chars(a, l + 7, n);
            let lt = trim_chars(&lr);
            match parse_usize_chars(lt.as_slice()) {
                Some(n) => Some(n),
                None => return Err(QueryError::InvalidLimit(crate::text::string_of(lt.as_slice()))),
            }
        },
        None => None,
    };
    Ok((filter, limit))
}

/// Parses `SELECT <fields> FROM <collection> [WHERE <filter>] [LIMIT <n>]`.
/// Keywords are matched without regard to ASCII letter case; a keyword
/// right after `FROM` leaves the collection unnamed.
#[verifier::rlimit(40)]
pub fn parse_sql_metadata_query(sql: &str) -> (r: Result<SqlMetadataQuery, QueryError>)
    ensures
        match r {
            Ok(q) => sql_query_spec(sql@) == Ok::<QueryModel, QueryFault>(q@),
            Err(e) => sql_query_spec(sql@) == Err::<QueryModel, QueryFault>(e@),
        },
{
    proof {
        reveal_strlit(" from ");
        assert(" from "@.len() == 6);
    }
    let t = statement_chars(sql);
    let f = match find_keyword_ci(&t, " from ") {
        Some(f) => f,
        None => return Err(QueryError::MissingFrom),
    };
    let head = sub_chars(&t, 0, f);
    if !starts_with_select(&head) {
        return Err(QueryError::MissingSelect);
    }
    assert(head_is_select(t@, f as int));
    proof {
        lemma_trim_start_len(t@.subrange(0, f as int));
    }
    let tn = t.len();
    assert(f + 6 <= tn);
    let a = sub_chars(&t, f + 5, tn);
    assert(a@ == after_from(t@, f as int));
    assert(from_pos(t@) == Some(f as int));
    let (filter, limit) = match parse_after_from(&a) {
        Ok(p) => p,
        Err(e) => return Err(e),
    };
    let sel = sub_chars(&t, 6, f);
    let sel_t = trim_chars(&sel);
    let select = select_list(&sel_t);
    let q = SqlMetadataQuery { select, filter, limit };
    assert(q@ =~= sql_query_spec(sql@)->Ok_0);
    Ok(q)
}

// ---------------------------------------------------------------------------
// Query records
// ---------------------------------------------------------------------------

/// Every field a query can select by name, for document `id`: its ids,
/// its primary key, an empty score and, when the document is stored, its
/// row.
pub open spec fn query_full(id: u64, doc: Option<DocView>) -> Seq<(Seq<char>, JsonModel)> {
    let ext = match doc {
        Some(d) => d.external_id,
        None => None,
    };
    let base = seq![
        ("id"@, jnum(id)),
        ("pk"@, JsonModel::Str(pk_spec(id, ext))),
        ("doc_id"@, jopt(ext)),
        ("score"@, JsonModel::Null),
    ];
    match doc {
        Some(d) => base + seq![
            ("external_id"@, jopt(d.external_id)),
            ("vector_field"@, JsonModel::Str(d.vector_field)),
            ("text"@, JsonModel::Str(d.text)),
            ("meta"@, d.meta),
        ],
        None => base,
    }
}

/// The value a selected name takes: a field of the record, else a member
/// of the document's metadata, else null.
pub open spec fn selected_value(full: Seq<(Seq<char>, JsonModel)>, doc: Option<DocView>, f: Seq<char>) -> JsonModel {
    match obj_get(full, f) {
        Some(x) => x,
        None => match doc {
            Some(d) => match d.meta.get(f) {
                Some(x) => x,
                None => JsonModel::Null,
            },
            None => JsonModel::Null,
        },
    }
}

/// The selected names with their values, a name selected twice keeping its
/// first place.
pub open spec fn project(full: Seq<(Seq<char>, JsonModel)>, doc: Option<DocView>, sel: Seq<Seq<char>>) -> Seq<(Seq<char>, JsonModel)>
    decreases sel.len(),
{
    if sel.len() == 0 {
        Seq::empty()
    } else {
        obj_insert(project(full, doc, sel.drop_last()), sel.last(), selected_value(full, doc, sel.last()))
    }
}

/// The record a query prints for document `id`: every field when nothing
/// is selected, else the selected ones.
pub open spec fn query_record_spec(id: u64, doc: Option<DocView>, sel: Seq<Seq<char>>) -> JsonModel {
    if sel.len() == 0 {
        JsonModel::Object(query_full(id, doc))
    } else {
        JsonModel::Object(project(query_full(id, doc), doc, sel))
    }
}

/// A stored document's query record carries the document's own text and
/// vector field: in the full record (`SELECT *`) the member `text` is the
/// document's text and `vector_field` the field its vector was made from,
/// and selecting `text` or `vector_field` alone gives just that member.
pub proof fn lemma_query_record_document(id: u64, d: DocView)
    ensures
        query_record_spec(id, Some(d), Seq::empty()) matches JsonModel::Object(m) && obj_get(m, "text"@) == Some(
            JsonModel::Str(d.text),
        ) && obj_get(m, "vector_field"@) == Some(JsonModel::Str(d.vector_field)),
        query_record_spec(id, Some(d), seq!["text"@]) == JsonModel::Object(seq![("text"@, JsonModel::Str(d.text))]),
        query_record_spec(id, Some(d), seq!["vector_field"@]) == JsonModel::Object(
            seq![("vector_field"@, JsonModel::Str(d.vector_field))],
        ),
{
    reveal_strlit("id");
    reveal_strlit("pk");
    reveal_strlit("doc_id");
    reveal_strlit("score");
    reveal_strlit("external_id");
    reveal_strlit("vector_field");
    reveal_strlit("text");
    let m = query_full(id, Some(d));
    assert(m.len() == 8);
    assert(m[5].0 == "vector_field"@ && m[6].0 == "text"@);
    assert(m[0].0 == "id"@ && m[1].0 == "pk"@ && m[2].0 == "doc_id"@);
    assert(m[3].0 == "score"@ && m[4].0 == "external_id"@);
    assert(first_key_at(m, "text"@, 6));
    assert(first_key_at(m, "vector_field"@, 5));
    lemma_key_index(m, "text"@, 6);
    lemma_key_index(m, "vector_field"@, 5);
    let e = Seq::<(Seq<char>, JsonModel)>::empty();
    assert(key_index(e, "text"@) is None);
    assert(key_index(e, "vector_field"@) is None);
    assert(seq!["text"@].drop_last() =~= Seq::<Seq<char>>::empty());
    assert(seq!["vector_field"@].drop_last() =~= Seq::<Seq<char>>::empty());
    assert(project(m, Some(d), Seq::<Seq<char>>::empty()) == e);
    assert(e.push(("text"@, JsonModel::Str(d.text))) =~= seq![("text"@, JsonModel::Str(d.text))]);
    assert(e.push(("vector_field"@, JsonModel::Str(d.vector_field))) =~= seq![
        ("vector_field"@, JsonModel::Str(d.vector_field)),
    ]);
}

fn query_member(k: &str, v: JsonValue) -> (r: (String, JsonValue))
    ensures
        r.0@ == k@,
        r.1@ == v@,
{
    (string_from(k), v)
}

fn opt_string_json(s: &Option<String>) -> (r: JsonValue)
    ensures
        r@ == jopt(opt_str(*s)),
{
    match s {
        Some(x) => JsonValue::Str(x.clone()),
        None => JsonValue::Null,
    }
}

pub fn doc_to_query_record(id: u64, doc: Option<&DocRow>, select: &Vec<String>) -> (r: JsonValue)
    ensures
        r@ == query_record_spec(id, match doc { Some(d) => Some(d@), None => None }, strings_model(select@)),
{
    let ghost dv = match doc { Some(d) => Some(d@), None => None };
    let no_ext: Option<String> = None;
    let ext: &Option<String> = match doc {
        Some(d) => &d.external_id,
        None => &no_ext,
    };
    let pk = match ext {
        Some(e) => e.clone(),
        None => crate::text::u64_to_string(id),
    };
    let mut full: Vec<(String, JsonValue)> = vec![
        query_member("id", JsonValue::Number(JsonNumber::PosInt(id))),
        query_member("pk", JsonValue::Str(pk)),
        query_member("doc_id", opt_string_json(ext)),
        query_member("score", JsonValue::Null),
    ];
    match doc {
        Some(d) => {
            full.push(query_member("external_id", opt_string_json(&d.external_id)));
            full.push(query_member("vector_field", JsonValue::Str(d.vector_field.clone())));
            full.push(query_member("text", JsonValue::Str(d.text.clone())));
            full.push(query_member("meta", d.meta.duplicate()));
        },
        None => {},
    }
    let ghost fm = query_full(id, dv);
    assert(members_model(full@) =~= fm);
    if select.len() == 0 {
        proof {
            lemma_model_of_object(full);
        }
        return JsonValue::Object(full);
    }
    let ghost sel = strings_model(select@);
    let mut out: Vec<(String, JsonValue)> = Vec::new();
    let mut i: usize = 0;
    assert(members_model(out@) =~= project(fm, dv, sel.take(0)));
    while i < select.len()
        invariant
            i <= select@.len(),
            sel == strings_model(select@),
            fm == members_model(full@),
            fm == query_full(id, dv),
            dv == match doc { Some(d) => Some(d@), None => None::<DocView> },
            members_model(out@) == project(fm, dv, sel.take(i as int)),
        decreases select.len() - i,
    {
        assert(sel.take(i + 1).drop_last() =~= sel.take(i as int));
        assert(sel.take(i + 1).last() == select@[i as int]@);
        let f = select[i].as_str();
        let v = match object_get(&full, f) {
            Some(x) => x.duplicate(),
            None => match doc {
                Some(d) => match d.meta.get(f) {
                    Some(x) => x.duplicate(),
                    None => JsonValue::Null,
                },
                None => JsonValue::Null,
            },
        };
        assert(v@ == selected_value(fm, dv, select@[i as int]@));
        object_insert(&mut out, select[i].clone(), v);
        i = i + 1;
    }
    assert(sel.take(i as int) =~= sel);
    proof {
        lemma_model_of_object(out);
    }
    JsonValue::Object(out)
}

/// The ids a query keeps: the first `limit` of them, or all.
pub fn limit_ids(ids: Vec<u64>, limit: Option<usize>) -> (r: Vec<u64>)
    ensures
        r@ == match limit {
            Some(n) => if n < ids@.len() {
                ids@.take(n as int)
            } else {
                ids@
            },
            None => ids@,
        },
{
    match limit {
        Some(n) => {
            if n < ids.len() {
                let mut r: Vec<u64> = Vec::new();
                let mut i: usize = 0;
                while i < n
                    invariant
                        i <= n < ids@.len(),
                        r@ == ids@.take(i as int),
                    decreases n - i,
                {
                    r.push(ids[i]);
                    assert(ids@.take(i + 1) =~= ids@.take(i as int).push(ids@[i as int]));
                    i = i + 1;
                }
                r
            } else {
                ids
            }
        },
        None => ids,
    }
}

/// What a query prints: its records.
pub fn query_report(records: Vec<JsonValue>) -> (r: JsonValue)
    ensures
        r@ == JsonModel::Object(seq![("records"@, JsonModel::Array(items_model(records@)))]),
{
    proof {
        lemma_model_of_array(records);
    }
    let a = JsonValue::Array(records);
    let ghost am = a@;
    let e = vec![query_member("records", a)];
    assert(members_model(e@) =~= seq![("records"@, am)]);
    proof {
        lemma_model_of_object(e);
    }
    JsonValue::Object(e)
}

} // verus!
