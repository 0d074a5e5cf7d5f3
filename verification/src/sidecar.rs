//! The SQLite sidecar beside an index file: where it and the index
//! metadata live, the rows it holds, the queries run on it and the checks
//! on the integers that cross into and out of SQLite.
use vstd::prelude::*;
use crate::filter::{FilterError, FilterExpr, FilterFault, SqlParam, SqliteWhere, WhereModel, compile_filter_expr, compile_spec, params_model, where_result};
use crate::json::{JsonModel, JsonValue, lemma_model_of_object, parse_json, serde_json_from_str};
use crate::text::{opt_str, push_str, string_from};

verus! {

/// Index metadata kept beside the index file.
#[derive(Debug)]
pub struct IndexMeta {
    pub next_id: u64,
    pub dim: usize,
    pub bits: usize,
    pub model: String,
}

#[verifier::ext_equal]
pub struct MetaView {
    pub next_id: u64,
    pub dim: usize,
    pub bits: usize,
    pub model: Seq<char>,
}

impl View for IndexMeta {
    type V = MetaView;

    open spec fn view(&self) -> MetaView {
        MetaView { next_id: self.next_id, dim: self.dim, bits: self.bits, model: self.model@ }
    }
}

impl IndexMeta {
    pub fn duplicate(&self) -> (r: IndexMeta)
        ensures
            r@ == self@,
    {
        IndexMeta { next_id: self.next_id, dim: self.dim, bits: self.bits, model: self.model.clone() }
    }
}

/// A document row of the sidecar.
#[derive(Debug)]
pub struct DocRow {
    pub external_id: Option<String>,
    pub vector_field: String,
    pub text: String,
    pub meta: JsonValue,
}

#[verifier::ext_equal]
pub struct DocView {
    pub external_id: Option<Seq<char>>,
    pub vector_field: Seq<char>,
    pub text: Seq<char>,
    pub meta: JsonModel,
}

impl View for DocRow {
    type V = DocView;

    open spec fn view(&self) -> DocView {
        DocView { external_id: opt_str(self.external_id), vector_field: self.vector_field@, text: self.text@, meta: self.meta@ }
    }
}

// ---------------------------------------------------------------------------
// File locations
// ---------------------------------------------------------------------------

/// What `PathBuf::set_extension` makes of a path and an extension on this
/// platform.
pub uninterp spec fn path_with_extension(path: Seq<char>, ext: Seq<char>) -> Seq<char>;

/// `dir` ends where a file name starts: it is empty or ends with `/`.
pub open spec fn is_dir_prefix(dir: Seq<char>) -> bool {
    dir.len() == 0 || dir.last() == '/'
}

/// A file stem: non-empty, without `/`.
pub open spec fn is_stem(stem: Seq<char>) -> bool {
    stem.len() > 0 && !stem.contains('/')
}

/// An extension that names no directory: without `/`.
pub open spec fn is_plain_ext(ext: Seq<char>) -> bool {
    ext.len() > 0 && !ext.contains('/')
}

/// `path` with its extension set to `ext` (std `PathBuf::set_extension`).
///
/// Trusted: the result is the path that `set_extension` leaves, as text
/// (a path built from text stays text). For a path `dir` + `stem.old`,
/// whose file name has the stem `stem` and the extension `old` (without
/// `.`), the extension is replaced and the rest kept, as the
/// documentation of `set_extension`, `file_stem` and `extension` states.
#[verifier::external_body]
fn with_extension(path: &str, ext: &str) -> (r: String)
    requires
        is_plain_ext(ext@),
    ensures
        r@ == path_with_extension(path@, ext@),
        forall|dir: Seq<char>, stem: Seq<char>, old: Seq<char>|
            #![trigger dir + stem + seq!['.'] + old]
            is_dir_prefix(dir) && is_stem(stem) && is_plain_ext(old) && !old.contains('.') && path@ == dir + stem
                + seq!['.'] + old ==> r@ == dir + stem + seq!['.'] + ext@,
{
    let mut p = std::path::PathBuf::from(path);
    p.set_extension(ext);
    p.to_string_lossy().into_owned()
}

proof fn lemma_tvim_name(dir: Seq<char>, stem: Seq<char>)
    ensures
        dir + stem + ".tvim"@ == dir + stem + seq!['.'] + "tvim"@,
        is_plain_ext("tvim"@),
        !"tvim"@.contains('.'),
{
    reveal_strlit(".tvim");
    reveal_strlit("tvim");
    assert(dir + stem + ".tvim"@ =~= dir + stem + seq!['.'] + "tvim"@);
    assert(!"tvim"@.contains('/')) by {
        if "tvim"@.contains('/') {
            let i = choose|i: int| 0 <= i < "tvim"@.len() && "tvim"@[i] == '/';
        }
    }
    assert(!"tvim"@.contains('.')) by {
        if "tvim"@.contains('.') {
            let i = choose|i: int| 0 <= i < "tvim"@.len() && "tvim"@[i] == '.';
        }
    }
}

/// The sidecar database of an index: its extension replaced by
/// `tvim.sqlite`, so `dir/docs.tvim` becomes `dir/docs.tvim.sqlite`, beside
/// the index and with its stem.
pub fn sqlite_path(index: &str) -> (r: String)
    ensures
        r@ == path_with_extension(index@, "tvim.sqlite"@),
        forall|dir: Seq<char>, stem: Seq<char>|
            #![trigger dir + stem + ".tvim"@]
            is_dir_prefix(dir) && is_stem(stem) && index@ == dir + stem + ".tvim"@ ==> r@ == dir + stem + ".tvim.sqlite"@,
{
    proof {
        reveal_strlit("tvim.sqlite");
        reveal_strlit(".tvim.sqlite");
        assert(!"tvim.sqlite"@.contains('/')) by {
            if "tvim.sqlite"@.contains('/') {
                let i = choose|i: int| 0 <= i < "tvim.sqlite"@.len() && "tvim.sqlite"@[i] == '/';
            }
        }
    }
    let r = with_extension(index, "tvim.sqlite");
    proof {
        assert forall|dir: Seq<char>, stem: Seq<char>|
            is_dir_prefix(dir) && is_stem(stem) && index@ == dir + stem + ".tvim"@ implies r@ == dir + stem
                + ".tvim.sqlite"@ by {
            lemma_tvim_name(dir, stem);
            assert(index@ == dir + stem + seq!['.'] + "tvim"@);
            assert(dir + stem + seq!['.'] + "tvim.sqlite"@ =~= dir + stem + ".tvim.sqlite"@);
        }
    }
    r
}

/// The metadata file of an index: its extension replaced by
/// `tvim.meta.json`, so `dir/docs.tvim` becomes `dir/docs.tvim.meta.json`,
/// beside the index and with its stem.
pub fn meta_path(index: &str) -> (r: String)
    ensures
        r@ == path_with_extension(index@, "tvim.meta.json"@),
        forall|dir: Seq<char>, stem: Seq<char>|
            #![trigger dir + stem + ".tvim"@]
            is_dir_prefix(dir) && is_stem(stem) && index@ == dir + stem + ".tvim"@ ==> r@ == dir + stem + ".tvim.meta.json"@,
{
    proof {
        reveal_strlit("tvim.meta.json");
        reveal_strlit(".tvim.meta.json");
        assert(!"tvim.meta.json"@.contains('/')) by {
            if "tvim.meta.json"@.contains('/') {
                let i = choose|i: int| 0 <= i < "tvim.meta.json"@.len() && "tvim.meta.json"@[i] == '/';
            }
        }
    }
    let r = with_extension(index, "tvim.meta.json");
    proof {
        assert forall|dir: Seq<char>, stem: Seq<char>|
            is_dir_prefix(dir) && is_stem(stem) && index@ == dir + stem + ".tvim"@ implies r@ == dir + stem
                + ".tvim.meta.json"@ by {
            lemma_tvim_name(dir, stem);
            assert(index@ == dir + stem + seq!['.'] + "tvim"@);
            assert(dir + stem + seq!['.'] + "tvim.meta.json"@ =~= dir + stem + ".tvim.meta.json"@);
        }
    }
    r
}

// ---------------------------------------------------------------------------
// Integers crossing into and out of SQLite
// ---------------------------------------------------------------------------

/// Why an integer did not fit on its way into or out of SQLite.
#[derive(Debug, Clone, Copy, PartialEq, Eq, Structural)]
pub enum SidecarError {
    /// A document id above `i64::MAX`.
    IdTooLarge,
    /// A stored document id below zero.
    NegativeId,
    /// A stored count below zero or above `usize::MAX`.
    CountOutOfRange,
}

pub open spec fn sidecar_message(e: SidecarError) -> Seq<char> {
    match e {
        SidecarError::IdTooLarge => "document id does not fit SQLite INTEGER"@,
        SidecarError::NegativeId => "SQLite document id is negative"@,
        SidecarError::CountOutOfRange => "SQLite doc count is negative or too large"@,
    }
}

impl SidecarError {
    pub fn message(&self) -> (r: String)
        ensures
            r@ == sidecar_message(*self),
    {
        match self {
            SidecarError::IdTooLarge => string_from("document id does not fit SQLite INTEGER"),
            SidecarError::NegativeId => string_from("SQLite document id is negative"),
            SidecarError::CountOutOfRange => string_from("SQLite doc count is negative or too large"),
        }
    }
}

/// A document id as a SQLite `INTEGER`.
pub fn sql_doc_id(id: u64) -> (r: Result<i64, SidecarError>)
    ensures
        id <= i64::MAX ==> r == Ok::<i64, SidecarError>(id as i64),
        id > i64::MAX ==> r == Err::<i64, SidecarError>(SidecarError::IdTooLarge),
{
    if id <= 0x7fff_ffff_ffff_ffffu64 {
        Ok(id as i64)
    } else {
        Err(SidecarError::IdTooLarge)
    }
}

/// A stored SQLite `INTEGER` as a document id.
pub fn doc_id_from_sql(v: i64) -> (r: Result<u64, SidecarError>)
    ensures
        v >= 0 ==> r == Ok::<u64, SidecarError>(v as u64),
        v < 0 ==> r == Err::<u64, SidecarError>(SidecarError::NegativeId),
{
    if v >= 0 {
        Ok(v as u64)
    } else {
        Err(SidecarError::NegativeId)
    }
}

/// A stored row count as a `usize`.
pub fn doc_count_from_sql(v: i64) -> (r: Result<usize, SidecarError>)
    ensures
        0 <= v <= usize::MAX ==> r == Ok::<usize, SidecarError>(v as usize),
        !(0 <= v <= usize::MAX) ==> r == Err::<usize, SidecarError>(SidecarError::CountOutOfRange),
{
    if v >= 0 && (v as u64) as u128 <= usize::MAX as u128 {
        Ok(v as usize)
    } else {
        Err(SidecarError::CountOutOfRange)
    }
}

/// The stored ids of a query, each checked: all of them, or the error of
/// the first negative one.
pub fn doc_ids_from_sql(rows: &Vec<i64>) -> (r: Result<Vec<u64>, SidecarError>)
    ensures
        match r {
            Ok(ids) => {
                &&& ids@.len() == rows@.len()
                &&& forall|i: int| 0 <= i < rows@.len() ==> #[trigger] rows@[i] >= 0
                &&& forall|i: int| 0 <= i < rows@.len() ==> #[trigger] ids@[i] == rows@[i] as u64
            },
            Err(e) => e == SidecarError::NegativeId && exists|i: int| 0 <= i < rows@.len() && #[trigger] rows@[i] < 0,
        },
{
    let mut ids: Vec<u64> = Vec::new();
    let mut i: usize = 0;
    while i < rows.len()
        invariant
            i <= rows@.len(),
            ids@.len() == i,
            forall|j: int| 0 <= j < i ==> #[trigger] rows@[j] >= 0,
            forall|j: int| 0 <= j < i ==> #[trigger] ids@[j] == rows@[j] as u64,
        decreases rows.len() - i,
    {
        match doc_id_from_sql(rows[i]) {
            Ok(id) => {
                let ghost before = ids@;
                ids.push(id);
                assert(rows@[i as int] >= 0);
                assert(ids@[i as int] == rows@[i as int] as u64);
                assert(forall|j: int| 0 <= j < i ==> ids@[j] == before[j]);
            },
            Err(e) => {
                assert(rows@[i as int] < 0);
                return Err(e);
            },
        }
        i = i + 1;
    }
    Ok(ids)
}

// ---------------------------------------------------------------------------
// Stored metadata
// ---------------------------------------------------------------------------

/// The metadata of a row as stored text: its JSON, or an empty object
/// when the text is not JSON.
pub open spec fn stored_meta(text: Seq<char>) -> JsonModel {
    match serde_json_from_str(text) {
        Ok(v) => v,
        Err(_) => JsonModel::Object(Seq::empty()),
    }
}

/// Reads the stored metadata of a row.
pub fn meta_from_text(text: &str) -> (r: JsonValue)
    ensures
        r@ == stored_meta(text@),
{
    match parse_json(text) {
        Ok(v) => v,
        Err(_) => {
            let e: Vec<(String, JsonValue)> = Vec::new();
            proof {
                lemma_model_of_object(e);
            }
            assert(crate::json::members_model(e@) =~= Seq::<(Seq<char>, JsonModel)>::empty());
            JsonValue::Object(e)
        },
    }
}

// ---------------------------------------------------------------------------
// Queries
// ---------------------------------------------------------------------------

/// The query listing document ids in id order: all rows, or those meeting
/// a condition.
pub open spec fn ids_query(clause: Option<Seq<char>>) -> Seq<char> {
    let base = match clause {
        Some(c) => if c.len() == 0 {
            "SELECT id FROM docs"@
        } else {
            "SELECT id FROM docs WHERE "@ + c
        },
        None => "SELECT id FROM docs"@,
    };
    base + " ORDER BY id"@
}

fn ids_query_string(clause: Option<&str>) -> (r: String)
    ensures
        r@ == ids_query(opt_ref_clause(clause)),
{
    let mut s = string_from("SELECT id FROM docs");
    match clause {
        Some(c) => {
            if !c.is_empty() {
                push_str(&mut s, " WHERE ");
                push_str(&mut s, c);
            }
        },
        None => {},
    }
    push_str(&mut s, " ORDER BY id");
    proof {
        reveal_strlit("SELECT id FROM docs");
        reveal_strlit(" WHERE ");
        reveal_strlit("SELECT id FROM docs WHERE ");
        assert("SELECT id FROM docs"@ + " WHERE "@ =~= "SELECT id FROM docs WHERE "@);
        match clause {
            Some(c) => if c@.len() > 0 {
                assert("SELECT id FROM docs"@ + " WHERE "@ + c@ =~= "SELECT id FROM docs WHERE "@ + c@);
            },
            None => {},
        }
    }
    s
}

pub open spec fn opt_ref_clause(c: Option<&str>) -> Option<Seq<char>> {
    match c {
        Some(s) => Some(s@),
        None => None,
    }
}

/// A query to run on the sidecar and the values bound to its placeholders.
#[derive(Debug)]
pub struct SidecarQuery {
    pub sql: String,
    pub params: Vec<SqlParam>,
}

/// The ids of the documents, in id order, that meet the filter (all of
/// them without one); the filter's compile error otherwise.
pub open spec fn doc_ids_query_spec(filter: Option<FilterExpr>) -> Result<WhereModel, FilterFault> {
    match filter {
        None => Ok(WhereModel { clause: ids_query(None), params: Seq::empty() }),
        Some(f) => match compile_spec(f) {
            Ok(w) => Ok(WhereModel { clause: ids_query(Some(w.clause)), params: w.params }),
            Err(e) => Err(e),
        },
    }
}

/// The query behind listing the ids of the documents that meet an
/// optional filter, in id order.
pub fn query_doc_ids(filter: Option<&FilterExpr>) -> (r: Result<SidecarQuery, FilterError>)
    ensures
        match r {
            Ok(q) => doc_ids_query_spec(match filter { Some(f) => Some(*f), None => None }) == Ok::<WhereModel, FilterFault>(
                WhereModel { clause: q.sql@, params: params_model(q.params@) },
            ),
            Err(e) => doc_ids_query_spec(match filter { Some(f) => Some(*f), None => None }) == Err::<WhereModel, FilterFault>(e@),
        },
{
    match filter {
        None => {
            let q = SidecarQuery { sql: ids_query_string(None), params: Vec::new() };
            assert(params_model(q.params@) =~= Seq::<crate::filter::ParamModel>::empty());
            Ok(q)
        },
        Some(f) => match compile_filter_expr(f) {
            Ok(w) => {
                let sql = ids_query_string(Some(w.clause.as_str()));
                Ok(SidecarQuery { sql, params: w.params })
            },
            Err(e) => Err(e),
        },
    }
}

/// The query behind listing the ids of the documents that meet a compiled
/// filter, in id order.
pub fn filter_ids_query(compiled: SqliteWhere) -> (r: SidecarQuery)
    ensures
        r.sql@ == ids_query(Some(compiled.clause@)),
        params_model(r.params@) == params_model(compiled.params@),
{
    let sql = ids_query_string(Some(compiled.clause.as_str()));
    SidecarQuery { sql, params: compiled.params }
}

} // verus!
