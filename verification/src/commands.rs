//! The decisions of the commands: index parameters, the import session
//! that hands out document ids batch by batch, search planning, and the
//! JSON records the commands print.
use vstd::prelude::*;
use crate::config::default_model;
use crate::filter::{FilterError, FilterExpr, FilterFault, compile_filter_expr, compile_spec};
use crate::import::{ImportRecord, RecordModel, numbers, records_model};
use crate::json::{JsonModel, JsonNumber, JsonValue, NumberModel, lemma_model_of_object, members_model};
use crate::json::{first_key_at, lemma_key_index, obj_get};
use crate::sidecar::{DocRow, DocView, IndexMeta, MetaView, SidecarQuery, filter_ids_query, ids_query, path_with_extension, sqlite_path};
use crate::text::{decimal, opt_ref_str, opt_str, push_decimal, push_str, string_from};

verus! {

broadcast use vstd::string::group_string_axioms;

// ---------------------------------------------------------------------------
// Errors
// ---------------------------------------------------------------------------

/// Why a command refused to go on.
#[derive(Debug)]
pub enum CommandError {
    /// The dimension is zero or not a multiple of 8.
    BadDim(usize),
    /// The bit width is not 2, 3 or 4.
    BadBits(usize),
    /// Records lack vectors and no embedding model was chosen.
    NoEmbeddingModel,
    /// The embedding service returned another number of vectors.
    EmbeddingCount { sent: usize, received: usize },
    /// The vector at this position of the batch has another dimension.
    VectorDim { index: usize, expected: usize, got: usize },
    /// A record's primary key is already stored.
    DuplicateKey(String),
    /// The input file does not exist.
    InputNotFound(String),
    /// The index file does not exist (search, filter ids).
    IndexNotFound(String),
    /// The index file does not exist (export, query, stats).
    DbNotFound(String),
    /// The index holds no vector.
    IndexEmpty,
    /// Both a query text and a query vector were given.
    QueryAndVector,
    /// Neither a query text nor a query vector was given.
    NoQuery,
    /// The query vector's dimension differs from the index's.
    QueryDim { expected: usize, got: usize },
    /// Raw vectors were asked for on export.
    IncludeVectors,
    /// A metadata filter was given but the sidecar at this path is missing.
    MissingSidecar(String),
    /// The metadata filter was refused.
    Filter(FilterError),
}

pub enum CommandFault {
    BadDim(usize),
    BadBits(usize),
    NoEmbeddingModel,
    EmbeddingCount { sent: usize, received: usize },
    VectorDim { index: usize, expected: usize, got: usize },
    DuplicateKey(Seq<char>),
    InputNotFound(Seq<char>),
    IndexNotFound(Seq<char>),
    DbNotFound(Seq<char>),
    IndexEmpty,
    QueryAndVector,
    NoQuery,
    QueryDim { expected: usize, got: usize },
    IncludeVectors,
    MissingSidecar(Seq<char>),
    Filter(FilterFault),
}

impl View for CommandError {
    type V = CommandFault;

    open spec fn view(&self) -> CommandFault {
        match *self {
            CommandError::BadDim(d) => CommandFault::BadDim(d),
            CommandError::BadBits(b) => CommandFault::BadBits(b),
            CommandError::NoEmbeddingModel => CommandFault::NoEmbeddingModel,
            CommandError::EmbeddingCount { sent, received } => CommandFault::EmbeddingCount { sent, received },
            CommandError::VectorDim { index, expected, got } => CommandFault::VectorDim { index, expected, got },
            CommandError::DuplicateKey(k) => CommandFault::DuplicateKey(k@),
            CommandError::InputNotFound(p) => CommandFault::InputNotFound(p@),
            CommandError::IndexNotFound(p) => CommandFault::IndexNotFound(p@),
            CommandError::DbNotFound(p) => CommandFault::DbNotFound(p@),
            CommandError::IndexEmpty => CommandFault::IndexEmpty,
            CommandError::QueryAndVector => CommandFault::QueryAndVector,
            CommandError::NoQuery => CommandFault::NoQuery,
            CommandError::QueryDim { expected, got } => CommandFault::QueryDim { expected, got },
            CommandError::IncludeVectors => CommandFault::IncludeVectors,
            CommandError::MissingSidecar(p) => CommandFault::MissingSidecar(p@),
            CommandError::Filter(e) => CommandFault::Filter(e@),
        }
    }
}

pub open spec fn dec(n: usize) -> Seq<char> {
    decimal(n as nat)
}

/// The one-line description of a command error.
pub open spec fn command_message(e: CommandFault) -> Seq<char> {
    match e {
        CommandFault::BadDim(d) => "dim must be a positive multiple of 8, got "@ + dec(d),
        CommandFault::BadBits(b) => "bits must be 2, 3, or 4, got "@ + dec(b),
        CommandFault::NoEmbeddingModel => "records without vectors require an embedding model"@,
        CommandFault::EmbeddingCount { sent, received } => "embedding count mismatch: sent "@ + dec(sent)
            + ", received "@ + dec(received),
        CommandFault::VectorDim { index, expected, got } => "vector dimension mismatch at batch item "@
            + dec(index) + ": index expects "@ + dec(expected) + ", got "@ + dec(got),
        CommandFault::DuplicateKey(k) => "primary key `"@ + k
            + "` already exists; turbovec-rs cannot overwrite vectors in-place yet"@,
        CommandFault::InputNotFound(p) => "input file not found: "@ + p,
        CommandFault::IndexNotFound(p) => "index not found: "@ + p,
        CommandFault::DbNotFound(p) => "db not found: "@ + p,
        CommandFault::IndexEmpty => "index is empty (import documents first)"@,
        CommandFault::QueryAndVector => "pass only one of --query, --vector, or --vector-file"@,
        CommandFault::NoQuery => "search requires one of --query, --vector, or --vector-file"@,
        CommandFault::QueryDim { expected, got } => "query vector dimension mismatch: index expects "@
            + dec(expected) + ", got "@ + dec(got),
        CommandFault::IncludeVectors =>
            "--include-vectors is not supported: turbovec-rs cannot reconstruct raw vectors from the quantized index"@,
        CommandFault::MissingSidecar(p) => "metadata filter requires SQLite sidecar "@ + p,
        CommandFault::Filter(e) => "compiling metadata filter: "@ + crate::filter::filter_message(e),
    }
}

fn push_usize(s: &mut String, n: usize)
    ensures
        final(s)@ == old(s)@ + dec(n),
{
    push_decimal(s, n as u64);
}

impl CommandError {
    /// The one-line description of the error.
    pub fn message(&self) -> (r: String)
        ensures
            r@ == command_message(self@),
    {
        match self {
            CommandError::BadDim(d) => {
                let mut s = string_from("dim must be a positive multiple of 8, got ");
                push_usize(&mut s, *d);
                s
            },
            CommandError::BadBits(b) => {
                let mut s = string_from("bits must be 2, 3, or 4, got ");
                push_usize(&mut s, *b);
                s
            },
            CommandError::NoEmbeddingModel => string_from("records without vectors require an embedding model"),
            CommandError::EmbeddingCount { sent, received } => {
                let mut s = string_from("embedding count mismatch: sent ");
                push_usize(&mut s, *sent);
                push_str(&mut s, ", received ");
                push_usize(&mut s, *received);
                s
            },
            CommandError::VectorDim { index, expected, got } => {
                let mut s = string_from("vector dimension mismatch at batch item ");
                push_usize(&mut s, *index);
                push_str(&mut s, ": index expects ");
                push_usize(&mut s, *expected);
                push_str(&mut s, ", got ");
                push_usize(&mut s, *got);
                s
            },
            CommandError::DuplicateKey(k) => {
                let mut s = string_from("primary key `");
                push_str(&mut s, k.as_str());
                push_str(&mut s, "` already exists; turbovec-rs cannot overwrite vectors in-place yet");
                s
            },
            CommandError::InputNotFound(p) => {
                let mut s = string_from("input file not found: ");
                push_str(&mut s, p.as_str());
                s
            },
            CommandError::IndexNotFound(p) => {
                let mut s = string_from("index not found: ");
                push_str(&mut s, p.as_str());
                s
            },
            CommandError::DbNotFound(p) => {
                let mut s = string_from("db not found: ");
                push_str(&mut s, p.as_str());
                s
            },
            CommandError::IndexEmpty => string_from("index is empty (import documents first)"),
            CommandError::QueryAndVector => string_from("pass only one of --query, --vector, or --vector-file"),
            CommandError::NoQuery => string_from("search requires one of --query, --vector, or --vector-file"),
            CommandError::QueryDim { expected, got } => {
                let mut s = string_from("query vector dimension mismatch: index expects ");
                push_usize(&mut s, *expected);
                push_str(&mut s, ", got ");
                push_usize(&mut s, *got);
                s
            },
            CommandError::IncludeVectors => string_from(
                "--include-vectors is not supported: turbovec-rs cannot reconstruct raw vectors from the quantized index",
            ),
            CommandError::MissingSidecar(p) => {
                let mut s = string_from("metadata filter requires SQLite sidecar ");
                push_str(&mut s, p.as_str());
                s
            },
            CommandError::Filter(e) => {
                let mut s = string_from("compiling metadata filter: ");
                let m = e.message();
                push_str(&mut s, m.as_str());
                s
            },
        }
    }
}

// ---------------------------------------------------------------------------
// Index creation
// ---------------------------------------------------------------------------

/// The metadata of a new index: ids start at 1 and no model is recorded.
/// The dimension must be a positive multiple of 8 and the bit width 2, 3
/// or 4.
pub fn new_index_meta(dim: usize, bits: usize) -> (r: Result<IndexMeta, CommandError>)
    ensures
        (dim == 0 || dim % 8 != 0) ==> (r matches Err(CommandError::BadDim(d)) && d == dim),
        (dim > 0 && dim % 8 == 0 && !(bits == 2 || bits == 3 || bits == 4)) ==> (r matches Err(CommandError::BadBits(b))
            && b == bits),
        (dim > 0 && dim % 8 == 0 && (bits == 2 || bits == 3 || bits == 4)) ==> (r matches Ok(m) && m@ == (MetaView {
            next_id: 1,
            dim,
            bits,
            model: Seq::empty(),
        })),
{
    if dim == 0 || dim % 8 != 0 {
        return Err(CommandError::BadDim(dim));
    }
    if !(bits == 2 || bits == 3 || bits == 4) {
        return Err(CommandError::BadBits(bits));
    }
    let m = IndexMeta { next_id: 1, dim, bits, model: String::new() };
    assert(m@ =~= MetaView { next_id: 1, dim, bits, model: Seq::empty() });
    Ok(m)
}

/// The dimension of an index created by an import: the given one, else the
/// length of the first precomputed vector, else 1024.
pub open spec fn bootstrap_dim_spec(dim: Option<usize>, rs: Seq<RecordModel>) -> nat {
    match dim {
        Some(d) => d as nat,
        None => match first_vector_len(rs) {
            Some(n) => n,
            None => 1024,
        },
    }
}

/// The length of the first precomputed vector.
pub open spec fn first_vector_len(rs: Seq<RecordModel>) -> Option<nat>
    decreases rs.len(),
{
    if rs.len() == 0 {
        None
    } else {
        match first_vector_len(rs.drop_last()) {
            Some(n) => Some(n),
            None => match rs.last().vector {
                Some(v) => Some(v.len()),
                None => None,
            },
        }
    }
}

proof fn lemma_first_vector_len_prefix(rs: Seq<RecordModel>, i: int)
    requires
        0 <= i <= rs.len(),
        first_vector_len(rs.take(i)) is Some,
    ensures
        first_vector_len(rs) == first_vector_len(rs.take(i)),
    decreases rs.len() - i,
{
    if i < rs.len() {
        assert(rs.take(i + 1).drop_last() =~= rs.take(i));
        lemma_first_vector_len_prefix(rs, i + 1);
    } else {
        assert(rs.take(i) =~= rs);
    }
}

pub fn bootstrap_dim(dim: Option<usize>, records: &Vec<ImportRecord>) -> (r: usize)
    ensures
        r == bootstrap_dim_spec(dim, records_model(records@)),
{
    if let Some(d) = dim {
        return d;
    }
    let ghost rs = records_model(records@);
    let mut i: usize = 0;
    while i < records.len()
        invariant
            i <= records@.len(),
            rs == records_model(records@),
            dim is None,
            first_vector_len(rs.take(i as int)) is None,
        decreases records.len() - i,
    {
        assert(rs.take(i + 1).drop_last() =~= rs.take(i as int));
        assert(rs.take(i + 1).last() == records@[i as int]@);
        match &records[i].vector {
            Some(v) => {
                assert(numbers(v@).len() == v@.len());
                assert(first_vector_len(rs.take(i + 1)) == Some(v@.len()));
                proof {
                    lemma_first_vector_len_prefix(rs, i + 1);
                }
                return v.len();
            },
            None => {},
        }
        i = i + 1;
    }
    assert(rs.take(i as int) =~= rs);
    1024
}

// ---------------------------------------------------------------------------
// The import session
// ---------------------------------------------------------------------------

/// Some record has no precomputed vector.
pub open spec fn needs_embedding(rs: Seq<RecordModel>) -> bool {
    exists|i: int| 0 <= i < rs.len() && (#[trigger] rs[i]).vector is None
}

/// The model that embeds the records without vectors: the given one, else
/// the default; none when every record has its vector.
pub open spec fn embedding_model_spec(rs: Seq<RecordModel>, model: Option<Seq<char>>) -> Option<Seq<char>> {
    if needs_embedding(rs) {
        Some(
            match model {
                Some(m) => m,
                None => default_model(),
            },
        )
    } else {
        None
    }
}

/// The model that embeds an import is the one the caller names; `bge-m3`
/// is used only when the caller names none, and no model at all when every
/// record brings its own vector.
pub proof fn lemma_embedding_model_choice(rs: Seq<RecordModel>, m: Seq<char>)
    ensures
        (exists|i: int| 0 <= i < rs.len() && (#[trigger] rs[i]).vector is None) ==> {
            &&& embedding_model_spec(rs, Some(m)) == Some(m)
            &&& embedding_model_spec(rs, None) == Some("bge-m3"@)
        },
        (forall|i: int| 0 <= i < rs.len() ==> (#[trigger] rs[i]).vector is Some) ==> {
            &&& embedding_model_spec(rs, Some(m)) is None
            &&& embedding_model_spec(rs, None) is None
        },
{
    if forall|i: int| 0 <= i < rs.len() ==> (#[trigger] rs[i]).vector is Some {
        assert(!needs_embedding(rs));
    }
}

/// The model recorded when a session finishes: the embedding model once a
/// batch was embedded, else the one named, else the index's own.
pub open spec fn finished_model(v: SessionView) -> Seq<char> {
    if v.used_embedding {
        match v.embedding_model {
            Some(e) => e,
            None => default_model(),
        }
    } else {
        match v.model {
            Some(x) => x,
            None => v.meta.model,
        }
    }
}

/// A session started for records of which some lack a vector, with the
/// model `m` named, embeds with `m` and, once it has embedded, records `m`
/// as the index's model.
pub proof fn lemma_session_uses_named_model(rs: Seq<RecordModel>, m: Seq<char>, v: SessionView)
    requires
        exists|i: int| 0 <= i < rs.len() && (#[trigger] rs[i]).vector is None,
        v.embedding_model == embedding_model_spec(rs, Some(m)),
    ensures
        v.embedding_model == Some(m),
        v.used_embedding ==> finished_model(v) == m,
{
    lemma_embedding_model_choice(rs, m);
}

fn any_missing_vector(records: &Vec<ImportRecord>) -> (b: bool)
    ensures
        b == needs_embedding(records_model(records@)),
{
    let ghost rs = records_model(records@);
    let mut i: usize = 0;
    while i < records.len()
        invariant
            i <= records@.len(),
            rs == records_model(records@),
            forall|j: int| 0 <= j < i ==> (#[trigger] rs[j]).vector is Some,
        decreases records.len() - i,
    {
        assert(rs[i as int] == records@[i as int]@);
        if records[i].vector.is_none() {
            assert(rs[i as int].vector is None);
            return true;
        }
        i = i + 1;
    }
    false
}

/// An import in progress: records are stored in batches, each record of a
/// batch receiving the next document id.
#[derive(Debug)]
pub struct ImportSession {
    /// The index metadata; `next_id` is the id the next record receives.
    meta: IndexMeta,
    /// Records per batch, at least 1.
    batch_size: usize,
    /// The number of records to import.
    total: usize,
    /// The id the first record received; the records stored so far are
    /// `meta.next_id - first_id`.
    first_id: u64,
    /// The model that embeds records without vectors, if any lack one.
    embedding_model: Option<String>,
    /// The model named by the caller.
    model: Option<String>,
    /// Some batch was embedded.
    used_embedding: bool,
}

/// What an import session stands for.
#[verifier::ext_equal]
pub struct SessionView {
    pub meta: MetaView,
    pub batch_size: nat,
    pub total: nat,
    /// Records stored so far.
    pub done: nat,
    pub first_id: u64,
    pub embedding_model: Option<Seq<char>>,
    pub model: Option<Seq<char>>,
    pub used_embedding: bool,
}

impl View for ImportSession {
    type V = SessionView;

    closed spec fn view(&self) -> SessionView {
        SessionView {
            meta: self.meta@,
            batch_size: self.batch_size as nat,
            total: self.total as nat,
            done: (self.meta.next_id - self.first_id) as nat,
            first_id: self.first_id,
            embedding_model: opt_str(self.embedding_model),
            model: opt_str(self.model),
            used_embedding: self.used_embedding,
        }
    }
}

/// The session's invariant: batches hold at least one record, and ids are
/// handed out in order from `first_id`, one per stored record.
pub open spec fn session_wf(v: SessionView) -> bool {
    &&& v.batch_size >= 1
    &&& v.done <= v.total
    &&& v.meta.next_id == v.first_id + v.done
}

/// The number of records in the batch after those stored so far.
pub open spec fn batch_len(v: SessionView) -> nat {
    if v.total - v.done <= v.batch_size {
        (v.total - v.done) as nat
    } else {
        v.batch_size
    }
}

/// The ids a batch of `len` records receives when the next id is `next_id`.
pub open spec fn batch_ids(next_id: u64, len: nat) -> Seq<u64> {
    Seq::new(len, |i: int| (next_id + i) as u64)
}

/// A committed batch: the ids of its records, and the metadata to save
/// before their vectors and rows are stored, so that these ids are never
/// handed out again, even when the import fails later.
#[derive(Debug)]
pub struct BatchCommit {
    pub ids: Vec<u64>,
    pub meta: IndexMeta,
}

impl ImportSession {
    #[verifier::type_invariant]
    spec fn inv(self) -> bool {
        &&& self.batch_size >= 1
        &&& self.first_id <= self.meta.next_id
        &&& self.meta.next_id - self.first_id <= self.total
    }

    /// Starts importing `records` into an index with metadata `meta`.
    pub fn start(records: &Vec<ImportRecord>, meta: IndexMeta, model: Option<&str>, batch_size: usize) -> (s: ImportSession)
        ensures
            session_wf(s@),
            s@.meta == meta@,
            s@.batch_size == if batch_size == 0 { 1 } else { batch_size },
            s@.total == records@.len(),
            s@.done == 0,
            s@.first_id == meta.next_id,
            s@.embedding_model == embedding_model_spec(records_model(records@), opt_ref_str(model)),
            s@.model == opt_ref_str(model),
            !s@.used_embedding,
    {
        let needs = any_missing_vector(records);
        let embedding_model = if needs {
            match model {
                Some(m) => Some(string_from(m)),
                None => Some(string_from("bge-m3")),
            }
        } else {
            None
        };
        let model_copy = match model {
            Some(m) => Some(string_from(m)),
            None => None,
        };
        let first_id = meta.next_id;
        ImportSession {
            meta,
            batch_size: if batch_size == 0 { 1 } else { batch_size },
            total: records.len(),
            first_id,
            embedding_model,
            model: model_copy,
            used_embedding: false,
        }
    }

    /// Records per batch.
    pub fn batch_size(&self) -> (r: usize)
        ensures
            r == self@.batch_size,
    {
        self.batch_size
    }

    /// The number of records stored so far.
    pub fn done(&self) -> (r: usize)
        ensures
            r == self@.done,
    {
        proof {
            use_type_invariant(self);
        }
        (self.meta.next_id - self.first_id) as usize
    }

    /// The index dimension.
    pub fn dim(&self) -> (r: usize)
        ensures
            r == self@.meta.dim,
    {
        self.meta.dim
    }

    /// The id the next record receives.
    pub fn next_id(&self) -> (r: u64)
        ensures
            r == self@.meta.next_id,
    {
        self.meta.next_id
    }

    /// The model that embeds records without vectors, if any lack one.
    pub fn embedding_model(&self) -> (r: &Option<String>)
        ensures
            opt_str(*r) == self@.embedding_model,
    {
        &self.embedding_model
    }

    /// Whether some batch was embedded.
    pub fn used_embedding(&self) -> (r: bool)
        ensures
            r == self@.used_embedding,
    {
        self.used_embedding
    }

    /// The bounds `[start, end)` of the next batch of records, if any are
    /// left.
    pub fn next_batch(&self) -> (r: Option<(usize, usize)>)
        ensures
            session_wf(self@),
            self@.done < self@.total ==> r == Some((self@.done as usize, (self@.done + batch_len(self@)) as usize)),
            self@.done == self@.total ==> r is None,
    {
        proof {
            use_type_invariant(self);
        }
        let done = (self.meta.next_id - self.first_id) as usize;
        if done >= self.total {
            return None;
        }
        let left = self.total - done;
        let end = if left <= self.batch_size { self.total } else { done + self.batch_size };
        Some((done, end))
    }

    /// Whether the ids of the next batch fit in `u64`.
    pub fn batch_ids_fit(&self) -> (b: bool)
        ensures
            b == (self@.meta.next_id + batch_len(self@) <= u64::MAX),
    {
        proof {
            use_type_invariant(self);
        }
        let done = (self.meta.next_id - self.first_id) as usize;
        let left = self.total - done;
        let len = if left <= self.batch_size { left } else { self.batch_size };
        self.meta.next_id <= u64::MAX - (len as u64)
    }

    /// Records that the records of the batch without vectors were sent to
    /// be embedded (`sent` texts) and `received` vectors came back.
    pub fn record_embeddings(&mut self, sent: usize, received: usize) -> (r: Result<(), CommandError>)
        ensures
            old(self)@.embedding_model is None ==> r matches Err(CommandError::NoEmbeddingModel),
            old(self)@.embedding_model is Some && sent != received ==> (r matches Err(
                CommandError::EmbeddingCount { sent: s, received: v },
            ) && s == sent && v == received),
            old(self)@.embedding_model is Some && sent == received ==> r is Ok,
            final(self)@ == (SessionView { used_embedding: if r is Ok { true } else { old(self)@.used_embedding }, ..old(self)@ }),
    {
        proof {
            use_type_invariant(&*self);
        }
        if self.embedding_model.is_none() {
            return Err(CommandError::NoEmbeddingModel);
        }
        if sent != received {
            return Err(CommandError::EmbeddingCount { sent, received });
        }
        self.used_embedding = true;
        Ok(())
    }

    /// Commits the next batch: its records receive consecutive ids from
    /// `next_id`, which moves past them; the metadata to save now records
    /// the new `next_id` and keeps the stored model.
    pub fn commit_batch(&mut self) -> (r: BatchCommit)
        requires
            old(self)@.done < old(self)@.total,
            old(self)@.meta.next_id + batch_len(old(self)@) <= u64::MAX,
        ensures
            session_wf(final(self)@),
            r.ids@ == batch_ids(old(self)@.meta.next_id, batch_len(old(self)@)),
            final(self)@ == (SessionView {
                meta: MetaView { next_id: (old(self)@.meta.next_id + batch_len(old(self)@)) as u64, ..old(self)@.meta },
                done: old(self)@.done + batch_len(old(self)@),
                ..old(self)@
            }),
            r.meta@ == final(self)@.meta,
    {
        proof {
            use_type_invariant(&*self);
        }
        let done = (self.meta.next_id - self.first_id) as usize;
        let left = self.total - done;
        let len = if left <= self.batch_size { left } else { self.batch_size };
        let start = self.meta.next_id;
        let mut ids: Vec<u64> = Vec::new();
        let mut k: usize = 0;
        while k < len
            invariant
                k <= len,
                start + len <= u64::MAX,
                ids@ == Seq::new(k as nat, |i: int| (start + i) as u64),
            decreases len - k,
        {
            ids.push(start + (k as u64));
            assert(ids@ =~= Seq::new((k + 1) as nat, |i: int| (start + i) as u64));
            k = k + 1;
        }
        assert(ids@ =~= batch_ids(start, len as nat));
        self.meta.next_id = start + (len as u64);
        let meta = self.meta.duplicate();
        proof {
            use_type_invariant(&*self);
        }
        assert(self@ =~= (SessionView {
            meta: MetaView { next_id: (old(self)@.meta.next_id + batch_len(old(self)@)) as u64, ..old(self)@.meta },
            done: old(self)@.done + batch_len(old(self)@),
            ..old(self)@
        }));
        BatchCommit { ids, meta }
    }

    /// The metadata saved when the import ends: the embedding model when a
    /// batch was embedded, else the caller's model, else the stored one.
    pub fn finish(&self) -> (m: IndexMeta)
        ensures
            m@.next_id == self@.meta.next_id,
            m@.dim == self@.meta.dim,
            m@.bits == self@.meta.bits,
            m@.model == finished_model(self@),
    {
        let model = if self.used_embedding {
            match &self.embedding_model {
                Some(e) => e.clone(),
                None => string_from("bge-m3"),
            }
        } else {
            match &self.model {
                Some(x) => x.clone(),
                None => self.meta.model.clone(),
            }
        };
        IndexMeta { next_id: self.meta.next_id, dim: self.meta.dim, bits: self.meta.bits, model }
    }
}

/// Ids are never handed out twice, across batches and across imports. A
/// batch committed from session state `v` receives
/// `batch_ids(v.meta.next_id, batch_len(v))`, and the metadata saved with it
/// records `next_id + batch_len(v)`. Any later state `later`, whether the same
/// session after that commit or a session started from metadata saved at or
/// after it (`start` keeps the saved `next_id`), has `later.meta.next_id` at
/// least that far, so every id its next batch receives lies above every id
/// of the committed batch.
pub proof fn lemma_ids_never_reused(v: SessionView, later: SessionView)
    requires
        session_wf(v),
        session_wf(later),
        v.meta.next_id + batch_len(v) <= later.meta.next_id,
        later.meta.next_id + batch_len(later) <= u64::MAX,
    ensures
        forall|i: int, j: int|
            0 <= i < batch_len(v) && 0 <= j < batch_len(later) ==> #[trigger] batch_ids(v.meta.next_id, batch_len(v))[i]
                < #[trigger] batch_ids(later.meta.next_id, batch_len(later))[j],
        forall|i: int|
            0 <= i < batch_len(v) ==> v.meta.next_id <= #[trigger] batch_ids(v.meta.next_id, batch_len(v))[i]
                < v.meta.next_id + batch_len(v),
{
}

/// Positions within the batch `rs` of the records without vectors, in
/// order.
pub open spec fn missing_vectors(rs: Seq<RecordModel>) -> Seq<int>
    decreases rs.len(),
{
    if rs.len() == 0 {
        Seq::empty()
    } else {
        let rest = missing_vectors(rs.drop_last());
        if rs.last().vector is None {
            rest.push(rs.len() - 1)
        } else {
            rest
        }
    }
}

/// The positions within the batch `records[start..end]` of the records
/// without vectors, and their texts to embed, in order.
pub fn batch_to_embed(records: &Vec<ImportRecord>, start: usize, end: usize) -> (r: (Vec<usize>, Vec<String>))
    requires
        start <= end <= records@.len(),
    ensures
        r.0@.len() == r.1@.len(),
        r.0@.map_values(|i: usize| i as int) == missing_vectors(records_model(records@).subrange(start as int, end as int)),
        forall|k: int| 0 <= k < r.0@.len() ==> (#[trigger] r.1@[k])@ == records@[start + r.0@[k]].vector_text@,
{
    let ghost rs = records_model(records@).subrange(start as int, end as int);
    let mut idx: Vec<usize> = Vec::new();
    let mut texts: Vec<String> = Vec::new();
    let mut i: usize = start;
    while i < end
        invariant
            start <= i <= end <= records@.len(),
            rs == records_model(records@).subrange(start as int, end as int),
            idx@.len() == texts@.len(),
            idx@.map_values(|i: usize| i as int) == missing_vectors(rs.take(i - start)),
            forall|k: int| 0 <= k < idx@.len() ==> #[trigger] idx@[k] < i - start,
            forall|k: int| 0 <= k < idx@.len() ==> (#[trigger] texts@[k])@ == records@[start + idx@[k]].vector_text@,
        decreases end - i,
    {
        assert(rs.take(i - start + 1).drop_last() =~= rs.take(i - start));
        assert(rs.take(i - start + 1).last() == records@[i as int]@);
        if records[i].vector.is_none() {
            let ghost before = idx@;
            idx.push(i - start);
            texts.push(records[i].vector_text.clone());
            assert(idx@.map_values(|i: usize| i as int) =~= before.map_values(|i: usize| i as int).push(i - start));
        }
        i = i + 1;
    }
    assert(rs.take(end - start) =~= rs);
    (idx, texts)
}

/// The first position whose vector length differs from `dim`.
pub open spec fn first_dim_mismatch(lens: Seq<usize>, dim: usize) -> Option<int>
    decreases lens.len(),
{
    if lens.len() == 0 {
        None
    } else {
        match first_dim_mismatch(lens.drop_last(), dim) {
            Some(i) => Some(i),
            None => if lens.last() != dim {
                Some(lens.len() - 1)
            } else {
                None
            },
        }
    }
}

proof fn lemma_first_dim_mismatch_prefix(lens: Seq<usize>, dim: usize, i: int)
    requires
        0 <= i <= lens.len(),
        first_dim_mismatch(lens.take(i), dim) is Some,
    ensures
        first_dim_mismatch(lens, dim) == first_dim_mismatch(lens.take(i), dim),
    decreases lens.len() - i,
{
    if i < lens.len() {
        assert(lens.take(i + 1).drop_last() =~= lens.take(i));
        lemma_first_dim_mismatch_prefix(lens, dim, i + 1);
    } else {
        assert(lens.take(i) =~= lens);
    }
}

/// Checks that every vector of a batch, given by its length, has the
/// index's dimension; the first that does not is reported.
pub fn validate_vectors_dim(lens: &Vec<usize>, dim: usize) -> (r: Result<(), CommandError>)
    ensures
        match first_dim_mismatch(lens@, dim) {
            None => r is Ok,
            Some(i) => r matches Err(CommandError::VectorDim { index, expected, got }) && index == i && expected == dim
                && got == lens@[i],
        },
{
    let mut i: usize = 0;
    while i < lens.len()
        invariant
            i <= lens@.len(),
            first_dim_mismatch(lens@.take(i as int), dim) is None,
        decreases lens.len() - i,
    {
        assert(lens@.take(i + 1).drop_last() =~= lens@.take(i as int));
        assert(lens@.take(i + 1).last() == lens@[i as int]);
        if lens[i] != dim {
            proof {
                lemma_first_dim_mismatch_prefix(lens@, dim, i + 1);
            }
            return Err(CommandError::VectorDim { index: i, expected: dim, got: lens[i] });
        }
        i = i + 1;
    }
    assert(lens@.take(i as int) =~= lens@);
    Ok(())
}

/// The first record of a batch whose primary key is already stored;
/// `exists[i]` tells whether the key of `keys[i]` is.
pub open spec fn first_existing(keys: Seq<Option<Seq<char>>>, exists: Seq<bool>) -> Option<int>
    decreases keys.len(),
{
    if keys.len() == 0 {
        None
    } else {
        match first_existing(keys.drop_last(), exists) {
            Some(i) => Some(i),
            None => if keys.last() is Some && exists[keys.len() - 1] {
                Some(keys.len() - 1)
            } else {
                None
            },
        }
    }
}

proof fn lemma_first_existing_prefix(keys: Seq<Option<Seq<char>>>, exists: Seq<bool>, i: int)
    requires
        0 <= i <= keys.len(),
        first_existing(keys.take(i), exists) is Some,
    ensures
        first_existing(keys, exists) == first_existing(keys.take(i), exists),
    decreases keys.len() - i,
{
    if i < keys.len() {
        assert(keys.take(i + 1).drop_last() =~= keys.take(i));
        lemma_first_existing_prefix(keys, exists, i + 1);
    } else {
        assert(keys.take(i) =~= keys);
    }
}

proof fn lemma_first_existing_none(keys: Seq<Option<Seq<char>>>, exists: Seq<bool>)
    requires
        first_existing(keys, exists) is None,
    ensures
        forall|i: int| 0 <= i < keys.len() && #[trigger] keys[i] is Some ==> !exists[i],
    decreases keys.len(),
{
    if keys.len() > 0 {
        lemma_first_existing_none(keys.drop_last(), exists);
        assert forall|i: int| 0 <= i < keys.len() && #[trigger] keys[i] is Some implies !exists[i] by {
            if i < keys.len() - 1 {
                assert(keys.drop_last()[i] == keys[i]);
            }
        }
    }
}

/// No key (a present one) occurs twice.
pub open spec fn keys_distinct(ks: Seq<Option<Seq<char>>>) -> bool {
    forall|i: int, j: int| 0 <= i < j < ks.len() && ks[i] is Some ==> #[trigger] ks[i] != #[trigger] ks[j]
}

/// External ids stay unique: when the stored keys are distinct, `exists`
/// tells for each key of a batch whether it is stored, and `check_new_keys`
/// accepts the batch (no key is stored already), the stored keys followed
/// by the batch's keys are still distinct. The batch's own keys must be
/// distinct: two records of one batch that share a key both pass the check
/// and are both stored. Applied batch after batch, with the keys stored so
/// far, this covers a whole import.
pub proof fn lemma_new_keys_stay_unique(
    stored: Seq<Option<Seq<char>>>,
    keys: Seq<Option<Seq<char>>>,
    exists: Seq<bool>,
)
    requires
        keys_distinct(stored),
        keys_distinct(keys),
        exists.len() == keys.len(),
        forall|i: int| 0 <= i < keys.len() && #[trigger] keys[i] is Some ==> exists[i] == stored.contains(keys[i]),
        first_existing(keys, exists) is None,
    ensures
        keys_distinct(stored + keys),
{
    lemma_first_existing_none(keys, exists);
    let all = stored + keys;
    let n = stored.len() as int;
    assert forall|i: int, j: int| 0 <= i < j < all.len() && all[i] is Some implies #[trigger] all[i] != #[trigger] all[j] by {
        if j < n {
            assert(all[i] == stored[i] && all[j] == stored[j]);
        } else if i >= n {
            assert(all[i] == keys[i - n] && all[j] == keys[j - n]);
        } else {
            assert(all[i] == stored[i] && all[j] == keys[j - n]);
            if all[i] == all[j] {
                assert(keys[j - n] is Some);
                assert(!exists[j - n]);
                assert(stored.contains(keys[j - n]));
            }
        }
    }
}

pub open spec fn batch_keys(records: Seq<ImportRecord>, start: int, end: int) -> Seq<Option<Seq<char>>> {
    Seq::new((end - start) as nat, |i: int| opt_str(records[start + i].external_id))
}

/// Refuses a batch in which a record's primary key is already stored: the
/// first such key is reported. `exists[i]` tells whether the key of the
/// batch's record `i` is stored (false for a record without key).
pub fn check_new_keys(records: &Vec<ImportRecord>, start: usize, end: usize, exists: &Vec<bool>) -> (r: Result<(), CommandError>)
    requires
        start <= end <= records@.len(),
        exists@.len() == end - start,
    ensures
        match first_existing(batch_keys(records@, start as int, end as int), exists@) {
            None => r is Ok,
            Some(i) => r matches Err(CommandError::DuplicateKey(k)) && Some(k@) == opt_str(records@[start + i].external_id),
        },
{
    let ghost keys = batch_keys(records@, start as int, end as int);
    let mut i: usize = 0;
    while i < end - start
        invariant
            start <= end <= records@.len(),
            exists@.len() == end - start,
            i <= end - start,
            keys == batch_keys(records@, start as int, end as int),
            first_existing(keys.take(i as int), exists@) is None,
        decreases end - start - i,
    {
        assert(keys.take(i + 1).drop_last() =~= keys.take(i as int));
        assert(keys.take(i + 1).last() == keys[i as int]);
        match &records[start + i].external_id {
            Some(k) => {
                if exists[i] {
                    proof {
                        lemma_first_existing_prefix(keys, exists@, i + 1);
                    }
                    return Err(CommandError::DuplicateKey(k.clone()));
                }
            },
            None => {},
        }
        i = i + 1;
    }
    assert(keys.take(i as int) =~= keys);
    Ok(())
}

// ---------------------------------------------------------------------------
// JSON records
// ---------------------------------------------------------------------------

pub open spec fn jnum(n: u64) -> JsonModel {
    JsonModel::Number(NumberModel::PosInt(n))
}

pub open spec fn jopt(s: Option<Seq<char>>) -> JsonModel {
    match s {
        Some(x) => JsonModel::Str(x),
        None => JsonModel::Null,
    }
}

fn num(n: u64) -> (r: JsonValue)
    ensures
        r@ == jnum(n),
{
    JsonValue::Number(JsonNumber::PosInt(n))
}

fn opt_json(s: &Option<String>) -> (r: JsonValue)
    ensures
        r@ == jopt(opt_str(*s)),
{
    match s {
        Some(x) => JsonValue::Str(x.clone()),
        None => JsonValue::Null,
    }
}

fn member(k: &str, v: JsonValue) -> (r: (String, JsonValue))
    ensures
        r.0@ == k@,
        r.1@ == v@,
{
    (string_from(k), v)
}

fn object(e: Vec<(String, JsonValue)>) -> (r: JsonValue)
    ensures
        r@ == JsonModel::Object(members_model(e@)),
{
    proof {
        lemma_model_of_object(e);
    }
    JsonValue::Object(e)
}

/// What `json!` prints for the import summary.
pub open spec fn add_summary_spec(added: usize, total: usize) -> JsonModel {
    JsonModel::Object(seq![("success"@, jnum(added as u64)), ("errors"@, jnum(0)), ("total"@, jnum(total as u64))])
}

impl ImportSession {
    /// The summary printed when the import ends; `index_len` is the number
    /// of vectors the index holds.
    pub fn summary(&self, index_len: usize) -> (r: JsonValue)
        ensures
            r@ == add_summary_spec(self@.done as usize, index_len),
    {
        let done = self.done();
        let e = vec![
            member("success", num(done as u64)),
            member("errors", num(0)),
            member("total", num(index_len as u64)),
        ];
        let r = object(e);
        assert(members_model(e@) =~= seq![("success"@, jnum(done as u64)), ("errors"@, jnum(0)), ("total"@, jnum(index_len as u64))]);
        r
    }
}

/// What `init` prints.
pub open spec fn init_report_spec(db: Seq<char>, dim: usize, bits: usize) -> JsonModel {
    JsonModel::Object(
        seq![("db"@, JsonModel::Str(db)), ("dimension"@, jnum(dim as u64)), ("bits"@, jnum(bits as u64)), ("created"@, JsonModel::Bool(true))],
    )
}

pub fn init_report(db: &str, dim: usize, bits: usize) -> (r: JsonValue)
    ensures
        r@ == init_report_spec(db@, dim, bits),
{
    let e = vec![
        member("db", JsonValue::Str(string_from(db))),
        member("dimension", num(dim as u64)),
        member("bits", num(bits as u64)),
        member("created", JsonValue::Bool(true)),
    ];
    let r = object(e);
    assert(members_model(e@) =~= seq![("db"@, JsonModel::Str(db@)), ("dimension"@, jnum(dim as u64)), ("bits"@, jnum(bits as u64)), ("created"@, JsonModel::Bool(true))]);
    r
}

/// What `stats` prints about the stored metadata: bits, model and next
/// id, or nothing when it could not be read.
pub open spec fn info_meta_spec(meta: Option<MetaView>) -> JsonModel {
    match meta {
        Some(m) => JsonModel::Object(seq![("bits"@, jnum(m.bits as u64)), ("model"@, JsonModel::Str(m.model)), ("next_id"@, jnum(m.next_id))]),
        None => JsonModel::Object(Seq::empty()),
    }
}

/// What `stats` prints.
pub open spec fn info_report_spec(db: Seq<char>, dim: usize, vectors: usize, texts: usize, size: u64, meta: Option<MetaView>) -> JsonModel {
    JsonModel::Object(
        seq![
            ("db"@, JsonModel::Str(db)),
            ("dimension"@, jnum(dim as u64)),
            ("vectors"@, jnum(vectors as u64)),
            ("texts"@, jnum(texts as u64)),
            ("index_size_bytes"@, jnum(size)),
            ("meta"@, info_meta_spec(meta)),
        ],
    )
}

pub fn info_report(db: &str, dim: usize, vectors: usize, texts: usize, size: u64, meta: Option<&IndexMeta>) -> (r: JsonValue)
    ensures
        r@ == info_report_spec(db@, dim, vectors, texts, size, match meta { Some(m) => Some(m@), None => None }),
{
    let m = match meta {
        Some(m) => {
            let e = vec![member("bits", num(m.bits as u64)), member("model", JsonValue::Str(m.model.clone())), member("next_id", num(m.next_id))];
            assert(members_model(e@) =~= seq![("bits"@, jnum(m.bits as u64)), ("model"@, JsonModel::Str(m.model@)), ("next_id"@, jnum(m.next_id))]);
            object(e)
        },
        None => {
            let e: Vec<(String, JsonValue)> = Vec::new();
            assert(members_model(e@) =~= Seq::<(Seq<char>, JsonModel)>::empty());
            object(e)
        },
    };
    let e = vec![
        member("db", JsonValue::Str(string_from(db))),
        member("dimension", num(dim as u64)),
        member("vectors", num(vectors as u64)),
        member("texts", num(texts as u64)),
        member("index_size_bytes", num(size)),
        member("meta", m),
    ];
    let ghost mm = info_meta_spec(match meta { Some(m) => Some(m@), None => None });
    let r = object(e);
    assert(members_model(e@) =~= seq![
        ("db"@, JsonModel::Str(db@)),
        ("dimension"@, jnum(dim as u64)),
        ("vectors"@, jnum(vectors as u64)),
        ("texts"@, jnum(texts as u64)),
        ("index_size_bytes"@, jnum(size)),
        ("meta"@, mm),
    ]);
    r
}

/// The primary key of a stored document: its external id, else its
/// internal id in decimal.
pub open spec fn pk_spec(id: u64, external_id: Option<Seq<char>>) -> Seq<char> {
    match external_id {
        Some(e) => e,
        None => decimal(id as nat),
    }
}

fn pk_of(id: u64, external_id: &Option<String>) -> (r: String)
    ensures
        r@ == pk_spec(id, opt_str(*external_id)),
{
    match external_id {
        Some(e) => e.clone(),
        None => crate::text::u64_to_string(id),
    }
}

/// The exported record of a document: its primary key, and its metadata
/// object with the vector field set to the document's text.
pub open spec fn export_record_spec(id: u64, doc: DocView) -> JsonModel {
    let fields = match doc.meta {
        JsonModel::Object(m) => m,
        _ => Seq::empty(),
    };
    JsonModel::Object(
        seq![
            ("pk"@, JsonModel::Str(pk_spec(id, doc.external_id))),
            ("fields"@, JsonModel::Object(crate::json::obj_insert(fields, doc.vector_field, JsonModel::Str(doc.text)))),
        ],
    )
}

pub fn doc_to_export_json(id: u64, doc: &DocRow) -> (r: JsonValue)
    ensures
        r@ == export_record_spec(id, doc@),
{
    let mut fields: Vec<(String, JsonValue)> = match &doc.meta {
        JsonValue::Object(m) => {
            proof {
                lemma_model_of_object(*m);
            }
            crate::json::duplicate_members(m)
        },
        _ => {
            let e: Vec<(String, JsonValue)> = Vec::new();
            assert(members_model(e@) =~= Seq::<(Seq<char>, JsonModel)>::empty());
            e
        },
    };
    crate::json::object_insert(&mut fields, doc.vector_field.clone(), JsonValue::Str(doc.text.clone()));
    let ghost fm = members_model(fields@);
    let e = vec![member("pk", JsonValue::Str(pk_of(id, &doc.external_id))), member("fields", object(fields))];
    let r = object(e);
    assert(members_model(e@) =~= seq![("pk"@, JsonModel::Str(pk_spec(id, doc@.external_id))), ("fields"@, JsonModel::Object(fm))]);
    r
}

/// The row the sidecar holds for an imported record.
pub open spec fn stored_row(r: RecordModel) -> DocView {
    DocView { external_id: r.external_id, vector_field: r.vector_field, text: r.vector_text, meta: r.meta }
}

/// The fields of an imported record as exported: its metadata with the
/// vector field set to its text.
pub open spec fn exported_fields(r: RecordModel) -> Seq<(Seq<char>, JsonModel)> {
    crate::json::obj_insert(
        match r.meta {
            JsonModel::Object(m) => m,
            _ => Seq::empty(),
        },
        r.vector_field,
        JsonModel::Str(r.vector_text),
    )
}

/// Exporting the row stored for an imported record under internal id `id`
/// gives as primary key the record's external id, or else `id` in decimal
/// (`pk_spec`); its fields are the record's metadata with the vector field
/// set to the record's text. A query of the same row gives the same
/// primary key.
pub proof fn lemma_export_round_trip(id: u64, r: RecordModel)
    ensures
        export_record_spec(id, stored_row(r)) == JsonModel::Object(
            seq![("pk"@, JsonModel::Str(pk_spec(id, r.external_id))), ("fields"@, JsonModel::Object(exported_fields(r)))],
        ),
        crate::sql_query::query_full(id, Some(stored_row(r)))[1] == ("pk"@, JsonModel::Str(pk_spec(id, r.external_id))),
{
    let pk = JsonModel::Str(pk_spec(id, r.external_id));
    let fm = JsonModel::Object(exported_fields(r));
    assert(export_record_spec(id, stored_row(r))->Object_0 =~= seq![("pk"@, pk), ("fields"@, fm)]);
}

/// A search hit: a missing document reads as text `<id N text missing>`,
/// vector field `content` and empty metadata.
pub open spec fn search_hit_spec(id: u64, doc: Option<DocView>, score: JsonModel) -> JsonModel {
    JsonModel::Object(
        seq![
            ("id"@, jnum(id)),
            ("external_id"@, match doc {
                Some(d) => jopt(d.external_id),
                None => JsonModel::Null,
            }),
            ("vector_field"@, JsonModel::Str(match doc {
                Some(d) => d.vector_field,
                None => "content"@,
            })),
            ("score"@, score),
            ("text"@, JsonModel::Str(match doc {
                Some(d) => d.text,
                None => "<id "@ + decimal(id as nat) + " text missing>"@,
            })),
            ("meta"@, match doc {
                Some(d) => d.meta,
                None => JsonModel::Object(Seq::empty()),
            }),
        ],
    )
}

/// A search hit shows its stored document as stored: the hit's
/// `vector_field`, `text` and `meta` are the document's own, and its
/// `score` is the score given. The defaults (`vector_field` `content`, an
/// empty `meta`) apply only when the document is missing.
pub proof fn lemma_search_hit_document(id: u64, doc: Option<DocView>, score: JsonModel)
    ensures
        search_hit_spec(id, doc, score) matches JsonModel::Object(m) && {
            &&& obj_get(m, "score"@) == Some(score)
            &&& doc matches Some(d) ==> {
                &&& obj_get(m, "vector_field"@) == Some(JsonModel::Str(d.vector_field))
                &&& obj_get(m, "text"@) == Some(JsonModel::Str(d.text))
                &&& obj_get(m, "meta"@) == Some(d.meta)
            }
            &&& doc is None ==> {
                &&& obj_get(m, "vector_field"@) == Some(JsonModel::Str("content"@))
                &&& obj_get(m, "meta"@) == Some(JsonModel::Object(Seq::empty()))
            }
        },
{
    reveal_strlit("id");
    reveal_strlit("external_id");
    reveal_strlit("vector_field");
    reveal_strlit("score");
    reveal_strlit("text");
    reveal_strlit("meta");
    let m = search_hit_spec(id, doc, score)->Object_0;
    assert(m.len() == 6);
    assert(m[0].0 == "id"@ && m[1].0 == "external_id"@ && m[2].0 == "vector_field"@);
    assert(m[3].0 == "score"@ && m[4].0 == "text"@ && m[5].0 == "meta"@);
    assert(m[4].0[0] != m[5].0[0]);
    assert(first_key_at(m, "vector_field"@, 2));
    assert(first_key_at(m, "score"@, 3));
    assert(first_key_at(m, "text"@, 4));
    assert(first_key_at(m, "meta"@, 5));
    lemma_key_index(m, "vector_field"@, 2);
    lemma_key_index(m, "score"@, 3);
    lemma_key_index(m, "text"@, 4);
    lemma_key_index(m, "meta"@, 5);
}

pub fn search_hit(id: u64, doc: Option<&DocRow>, score: JsonValue) -> (r: JsonValue)
    ensures
        r@ == search_hit_spec(id, match doc { Some(d) => Some(d@), None => None }, score@),
{
    let ghost dv = match doc { Some(d) => Some(d@), None => None };
    let ghost sm = score@;
    let (ext, vf, text, meta) = match doc {
        Some(d) => (opt_json(&d.external_id), d.vector_field.clone(), d.text.clone(), d.meta.duplicate()),
        None => {
            let mut t = string_from("<id ");
            push_decimal(&mut t, id);
            push_str(&mut t, " text missing>");
            let e: Vec<(String, JsonValue)> = Vec::new();
            assert(members_model(e@) =~= Seq::<(Seq<char>, JsonModel)>::empty());
            (JsonValue::Null, string_from("content"), t, object(e))
        },
    };
    let e = vec![
        member("id", num(id)),
        member("external_id", ext),
        member("vector_field", JsonValue::Str(vf)),
        member("score", score),
        member("text", JsonValue::Str(text)),
        member("meta", meta),
    ];
    let r = object(e);
    assert(members_model(e@) =~= search_hit_spec(id, dv, sm)->Object_0);
    r
}

// ---------------------------------------------------------------------------
// Search, export and filter decisions
// ---------------------------------------------------------------------------

/// Refuses to search an index that holds no vector.
pub fn require_nonempty_index(len: usize) -> (r: Result<(), CommandError>)
    ensures
        len == 0 ==> r matches Err(CommandError::IndexEmpty),
        len > 0 ==> r is Ok,
{
    if len == 0 {
        Err(CommandError::IndexEmpty)
    } else {
        Ok(())
    }
}

/// What a search does once the index is loaded.
#[derive(Debug)]
pub enum SearchStep {
    /// The filter matches no document: the result is empty.
    NoMatches,
    /// Embed this query text, then search.
    Embed(String),
    /// Search with the given query vector.
    Vector,
}

/// Decides a search: an empty filter result ends it; otherwise exactly one
/// of a query text and a query vector must be given, the vector with the
/// index's dimension.
pub fn plan_search(allowlist: Option<&Vec<u64>>, query: Option<&str>, vector_len: Option<usize>, index_dim: usize) -> (r: Result<SearchStep, CommandError>)
    ensures
        (allowlist matches Some(a) && a@.len() == 0) ==> r matches Ok(SearchStep::NoMatches),
        !(allowlist matches Some(a) && a@.len() == 0) ==> match (query, vector_len) {
            (Some(_), Some(_)) => r matches Err(CommandError::QueryAndVector),
            (Some(q), None) => (r matches Ok(SearchStep::Embed(t)) && t@ == q@),
            (None, Some(n)) => if n != index_dim {
                (r matches Err(CommandError::QueryDim { expected, got }) && expected == index_dim && got == n)
            } else {
                r matches Ok(SearchStep::Vector)
            },
            (None, None) => r matches Err(CommandError::NoQuery),
        },
{
    if let Some(a) = allowlist {
        if a.len() == 0 {
            return Ok(SearchStep::NoMatches);
        }
    }
    match (query, vector_len) {
        (Some(_), Some(_)) => Err(CommandError::QueryAndVector),
        (Some(q), None) => Ok(SearchStep::Embed(string_from(q))),
        (None, Some(n)) => if n != index_dim {
            Err(CommandError::QueryDim { expected: index_dim, got: n })
        } else {
            Ok(SearchStep::Vector)
        },
        (None, None) => Err(CommandError::NoQuery),
    }
}

/// Refuses an export that asks for raw vectors, then one of a missing
/// database.
pub fn export_precheck(include_vectors: bool, db_exists: bool, db: &str) -> (r: Result<(), CommandError>)
    ensures
        include_vectors ==> r matches Err(CommandError::IncludeVectors),
        !include_vectors && !db_exists ==> (r matches Err(CommandError::DbNotFound(p)) && p@ == db@),
        !include_vectors && db_exists ==> r is Ok,
{
    if include_vectors {
        return Err(CommandError::IncludeVectors);
    }
    if !db_exists {
        return Err(CommandError::DbNotFound(string_from(db)));
    }
    Ok(())
}

/// Refuses a metadata filter when the sidecar of `index` is missing.
pub fn sidecar_required(index: &str, sidecar_exists: bool) -> (r: Result<(), CommandError>)
    ensures
        !sidecar_exists ==> (r matches Err(CommandError::MissingSidecar(p)) && p@ == path_with_extension(index@, "tvim.sqlite"@)),
        sidecar_exists ==> r is Ok,
{
    if !sidecar_exists {
        return Err(CommandError::MissingSidecar(sqlite_path(index)));
    }
    Ok(())
}

/// The query listing the ids of the documents that meet a metadata filter.
/// The filter needs the sidecar, which `sidecar_exists` tells about.
pub fn filter_ids(index: &str, sidecar_exists: bool, filter: &FilterExpr) -> (r: Result<SidecarQuery, CommandError>)
    ensures
        !sidecar_exists ==> (r matches Err(CommandError::MissingSidecar(p)) && p@ == path_with_extension(index@, "tvim.sqlite"@)),
        sidecar_exists ==> match compile_spec(*filter) {
            Err(e) => r matches Err(CommandError::Filter(x)) && x@ == e,
            Ok(w) => (r matches Ok(q) && q.sql@ == ids_query(Some(w.clause)) && crate::filter::params_model(q.params@) == w.params),
        },
{
    match sidecar_required(index, sidecar_exists) {
        Ok(()) => {},
        Err(e) => return Err(e),
    }
    match compile_filter_expr(filter) {
        Ok(w) => Ok(filter_ids_query(w)),
        Err(e) => Err(CommandError::Filter(e)),
    }
}

} // verus!
