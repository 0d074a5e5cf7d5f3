//! Import records: one JSON object per JSONL line, resolved into the text
//! of exactly one vector field, an optional precomputed vector, and the
//! remaining fields as metadata.
use vstd::prelude::*;
use crate::filter::{field_check, FilterError, FilterFault};
use crate::filter::validate_meta_field_name;
use crate::json::{
    JsonModel, JsonNumber, JsonValue, NumberModel, duplicate_members, key_index,
    lemma_key_index, lemma_model_of_array, lemma_model_of_object, members_model, number_text,
    number_to_string, obj_get, obj_has, obj_insert, object_find, object_get, object_insert,
    serde_json_from_str,
};
use crate::text::{opt_ref_str, opt_str, push_str, sorted_distinct, sorted_strict, str_eq, strs, string_from, trim};

verus! {

/// A record ready to be stored.
#[derive(Debug)]
pub struct ImportRecord {
    pub external_id: Option<String>,
    pub vector_field: String,
    pub vector_text: String,
    /// The precomputed vector, as JSON numbers within the finite `f32` range.
    pub vector: Option<Vec<JsonNumber>>,
    pub meta: JsonValue,
}

/// Why a value was not accepted as a vector.
#[derive(Debug, Clone, Copy, PartialEq, Eq, Structural)]
pub enum VectorError {
    /// Not a JSON array.
    NotArray,
    /// An empty array.
    Empty,
    /// The item at this index is not a number.
    ItemNotNumber(usize),
    /// The item at this index lies outside the finite `f32` range.
    ItemOutOfRange(usize),
}

/// Why a JSONL record was refused.
#[derive(Debug)]
pub enum ImportError {
    /// The line is not JSON; the parser's message.
    Json(String),
    NotObject,
    IdNotScalar,
    FieldsNotObject,
    Field(FilterError),
    DescriptorWithoutValue,
    NoFields,
    VectorFieldNotString,
    VectorFieldsNotArray,
    VectorFieldsItemNotString,
    VectorsNotObject,
    /// Not exactly one vector field: the distinct candidates, in order.
    VectorFieldCount(Vec<String>),
    VectorFieldMissing(String),
    VectorTextNotString(String),
    VectorTextEmpty(String),
    BothVectors(String),
    Vector(VectorError),
}

pub enum ImportFault {
    Json(Seq<char>),
    NotObject,
    IdNotScalar,
    FieldsNotObject,
    Field(FilterFault),
    DescriptorWithoutValue,
    NoFields,
    VectorFieldNotString,
    VectorFieldsNotArray,
    VectorFieldsItemNotString,
    VectorsNotObject,
    VectorFieldCount(Set<Seq<char>>),
    VectorFieldMissing(Seq<char>),
    VectorTextNotString(Seq<char>),
    VectorTextEmpty(Seq<char>),
    BothVectors(Seq<char>),
    Vector(VectorError),
}

impl View for ImportError {
    type V = ImportFault;

    open spec fn view(&self) -> ImportFault {
        match *self {
            ImportError::Json(m) => ImportFault::Json(m@),
            ImportError::NotObject => ImportFault::NotObject,
            ImportError::IdNotScalar => ImportFault::IdNotScalar,
            ImportError::FieldsNotObject => ImportFault::FieldsNotObject,
            ImportError::Field(e) => ImportFault::Field(e@),
            ImportError::DescriptorWithoutValue => ImportFault::DescriptorWithoutValue,
            ImportError::NoFields => ImportFault::NoFields,
            ImportError::VectorFieldNotString => ImportFault::VectorFieldNotString,
            ImportError::VectorFieldsNotArray => ImportFault::VectorFieldsNotArray,
            ImportError::VectorFieldsItemNotString => ImportFault::VectorFieldsItemNotString,
            ImportError::VectorsNotObject => ImportFault::VectorsNotObject,
            ImportError::VectorFieldCount(v) => ImportFault::VectorFieldCount(strs(v@).to_set()),
            ImportError::VectorFieldMissing(f) => ImportFault::VectorFieldMissing(f@),
            ImportError::VectorTextNotString(f) => ImportFault::VectorTextNotString(f@),
            ImportError::VectorTextEmpty(f) => ImportFault::VectorTextEmpty(f@),
            ImportError::BothVectors(f) => ImportFault::BothVectors(f@),
            ImportError::Vector(e) => ImportFault::Vector(e),
        }
    }
}

#[verifier::ext_equal]
pub struct RecordModel {
    pub external_id: Option<Seq<char>>,
    pub vector_field: Seq<char>,
    pub vector_text: Seq<char>,
    pub vector: Option<Seq<NumberModel>>,
    pub meta: JsonModel,
}

pub open spec fn numbers(v: Seq<JsonNumber>) -> Seq<NumberModel> {
    v.map_values(|n: JsonNumber| n@)
}

impl View for ImportRecord {
    type V = RecordModel;

    open spec fn view(&self) -> RecordModel {
        RecordModel {
            external_id: opt_str(self.external_id),
            vector_field: self.vector_field@,
            vector_text: self.vector_text@,
            vector: match self.vector {
                Some(v) => Some(numbers(v@)),
                None => None,
            },
            meta: self.meta@,
        }
    }
}

pub type Members = Seq<(Seq<char>, JsonModel)>;

// ---------------------------------------------------------------------------
// What a record means
// ---------------------------------------------------------------------------

/// Text of a scalar (`json_scalar_to_string`): a string as is, a number and a
/// boolean as written; other values have none.
pub open spec fn scalar_text(v: JsonModel) -> Option<Seq<char>> {
    match v {
        JsonModel::Str(s) => Some(s),
        JsonModel::Number(n) => Some(number_text(n)),
        JsonModel::Bool(b) => Some(if b { "true"@ } else { "false"@ }),
        _ => None,
    }
}

/// The external id: the scalar under `id`, else under `pk`.
pub open spec fn external_id_spec(o: Members) -> Result<Option<Seq<char>>, ImportFault> {
    let v = if obj_get(o, "id"@) is Some { obj_get(o, "id"@) } else { obj_get(o, "pk"@) };
    match v {
        None => Ok(None),
        Some(x) => match scalar_text(x) {
            Some(s) => Ok(Some(s)),
            None => Err(ImportFault::IdNotScalar),
        },
    }
}

/// Keys of a record that are not fields.
pub open spec fn reserved_key(k: Seq<char>) -> bool {
    k == "id"@ || k == "pk"@ || k == "fields"@ || k == "vector_field"@ || k == "vector_fields"@
        || k == "vector"@ || k == "vectors"@
}

pub open spec fn not_reserved() -> spec_fn((Seq<char>, JsonModel)) -> bool {
    |m: (Seq<char>, JsonModel)| !reserved_key(m.0)
}

/// The fields as written: the `fields` object, or else every member that
/// is not a reserved key.
pub open spec fn raw_fields(o: Members) -> Result<Members, ImportFault> {
    match obj_get(o, "fields"@) {
        Some(JsonModel::Object(m)) => Ok(m),
        Some(_) => Err(ImportFault::FieldsNotObject),
        None => Ok(o.filter(not_reserved())),
    }
}

/// A field's value: a descriptor object (one with `index` or `value`)
/// stands for its `value`.
pub open spec fn field_value_spec(v: JsonModel) -> Result<JsonModel, ImportFault> {
    match v {
        JsonModel::Object(m) => if obj_has(m, "index"@) || obj_has(m, "value"@) {
            match obj_get(m, "value"@) {
                Some(x) => Ok(x),
                None => Err(ImportFault::DescriptorWithoutValue),
            }
        } else {
            Ok(v)
        },
        _ => Ok(v),
    }
}

/// Fields with checked names and unwrapped descriptors, in order.
pub open spec fn normalize(raw: Members) -> Result<Members, ImportFault>
    decreases raw.len(),
{
    if raw.len() == 0 {
        Ok(Seq::empty())
    } else {
        match normalize(raw.drop_last()) {
            Err(e) => Err(e),
            Ok(out) => match field_check(raw.last().0) {
                Err(e) => Err(ImportFault::Field(e)),
                Ok(_) => match field_value_spec(raw.last().1) {
                    Err(e) => Err(e),
                    Ok(v) => Ok(obj_insert(out, raw.last().0, v)),
                },
            },
        }
    }
}

/// The record's fields; a record needs at least one.
pub open spec fn fields_spec(o: Members) -> Result<Members, ImportFault> {
    match raw_fields(o) {
        Err(e) => Err(e),
        Ok(raw) => match normalize(raw) {
            Err(e) => Err(e),
            Ok(f) => if f.len() == 0 {
                Err(ImportFault::NoFields)
            } else {
                Ok(f)
            },
        },
    }
}

pub open spec fn is_str() -> spec_fn(JsonModel) -> bool {
    |v: JsonModel| v is Str
}

pub open spec fn str_of() -> spec_fn(JsonModel) -> Seq<char> {
    |v: JsonModel| v->Str_0
}

/// A field descriptor marked for the vector index.
pub open spec fn is_vector_descriptor(v: JsonModel) -> bool {
    match v {
        JsonModel::Object(d) => match obj_get(d, "index"@) {
            Some(JsonModel::Array(idx)) => exists|j: int| 0 <= j < idx.len() && idx[j] == JsonModel::Str("vector"@),
            _ => false,
        },
        _ => false,
    }
}

pub open spec fn vector_descriptor() -> spec_fn((Seq<char>, JsonModel)) -> bool {
    |m: (Seq<char>, JsonModel)| is_vector_descriptor(m.1)
}

pub open spec fn member_key() -> spec_fn((Seq<char>, JsonModel)) -> Seq<char> {
    |m: (Seq<char>, JsonModel)| m.0
}

/// A field whose descriptor lists `vector` anywhere in its `index` array
/// is a vector field candidate of the record: membership decides, not the
/// position in the list. A descriptor whose `index` holds no `vector` is
/// none.
pub proof fn lemma_vector_descriptor_anywhere(o: Members, fields: Members, k: int, d: Members, idx: Seq<JsonModel>, j: int)
    requires
        obj_get(o, "fields"@) == Some(JsonModel::Object(fields)),
        0 <= k < fields.len(),
        fields[k].1 == JsonModel::Object(d),
        obj_get(d, "index"@) == Some(JsonModel::Array(idx)),
        0 <= j < idx.len(),
    ensures
        idx[j] == JsonModel::Str("vector"@) ==> is_vector_descriptor(JsonModel::Object(d))
            && cand_descriptors(o).contains(fields[k].0),
        (forall|i: int| 0 <= i < idx.len() ==> idx[i] != JsonModel::Str("vector"@)) ==> !is_vector_descriptor(
            JsonModel::Object(d),
        ),
{
    if idx[j] == JsonModel::Str("vector"@) {
        assert(is_vector_descriptor(JsonModel::Object(d)));
        assert(vector_descriptor()(fields[k]));
        fields.lemma_filter_contains(vector_descriptor(), k);
        let fl = fields.filter(vector_descriptor());
        let p = choose|p: int| 0 <= p < fl.len() && fl[p] == fields[k];
        assert(fl.map_values(member_key())[p] == fields[k].0);
    }
}

/// The candidate named by `vector_field`.
pub open spec fn cand_field(o: Members) -> Result<Seq<Seq<char>>, ImportFault> {
    match obj_get(o, "vector_field"@) {
        None => Ok(Seq::empty()),
        Some(JsonModel::Str(s)) => Ok(seq![s]),
        Some(_) => Err(ImportFault::VectorFieldNotString),
    }
}

/// The candidates listed by `vector_fields`.
pub open spec fn cand_fields(o: Members) -> Result<Seq<Seq<char>>, ImportFault> {
    match obj_get(o, "vector_fields"@) {
        None => Ok(Seq::empty()),
        Some(JsonModel::Array(items)) => if forall|i: int| 0 <= i < items.len() ==> #[trigger] items[i] is Str {
            Ok(items.map_values(str_of()))
        } else {
            Err(ImportFault::VectorFieldsItemNotString)
        },
        Some(_) => Err(ImportFault::VectorFieldsNotArray),
    }
}

/// The fields whose descriptor is indexed as `vector`.
pub open spec fn cand_descriptors(o: Members) -> Seq<Seq<char>> {
    match obj_get(o, "fields"@) {
        Some(JsonModel::Object(m)) => m.filter(vector_descriptor()).map_values(member_key()),
        _ => Seq::empty(),
    }
}

/// The keys of `vectors`.
pub open spec fn cand_vectors(o: Members) -> Result<Seq<Seq<char>>, ImportFault> {
    match obj_get(o, "vectors"@) {
        None => Ok(Seq::empty()),
        Some(JsonModel::Object(m)) => Ok(m.map_values(member_key())),
        Some(_) => Err(ImportFault::VectorsNotObject),
    }
}

/// Vector field candidates the record declares: `vector_field`, the items of
/// `vector_fields`, descriptors indexed as `vector`, and the keys of `vectors`.
pub open spec fn declared_candidates(o: Members) -> Result<Seq<Seq<char>>, ImportFault> {
    match (cand_field(o), cand_fields(o), cand_vectors(o)) {
        (Err(e), _, _) => Err(e),
        (Ok(_), Err(e), _) => Err(e),
        (Ok(_), Ok(_), Err(e)) => Err(e),
        (Ok(a), Ok(b), Ok(d)) => Ok(a + b + cand_descriptors(o) + d),
    }
}

/// The candidate used when a record declares none: the fallback vector
/// field, else the fallback text field, else `text` or `content` when the
/// record has that field.
pub open spec fn fallback_candidates(fields: Members, fb_vf: Option<Seq<char>>, fb_tf: Option<Seq<char>>) -> Seq<Seq<char>> {
    match fb_vf {
        Some(f) => seq![f],
        None => match fb_tf {
            Some(f) => seq![f],
            None => if obj_has(fields, "text"@) {
                seq!["text"@]
            } else if obj_has(fields, "content"@) {
                seq!["content"@]
            } else {
                Seq::empty()
            },
        },
    }
}

pub open spec fn candidates_spec(o: Members, fields: Members, fb_vf: Option<Seq<char>>, fb_tf: Option<Seq<char>>) -> Result<Seq<Seq<char>>, ImportFault> {
    match declared_candidates(o) {
        Err(e) => Err(e),
        Ok(c) => if c.len() == 0 {
            Ok(fallback_candidates(fields, fb_vf, fb_tf))
        } else {
            Ok(c)
        },
    }
}

/// All candidates name the same field.
pub open spec fn single_candidate(c: Seq<Seq<char>>) -> bool {
    c.len() > 0 && forall|i: int| 0 <= i < c.len() ==> #[trigger] c[i] == c[0]
}

/// The one vector field of a record.
pub open spec fn vector_field_spec(o: Members, fields: Members, fb_vf: Option<Seq<char>>, fb_tf: Option<Seq<char>>) -> Result<Seq<char>, ImportFault> {
    match candidates_spec(o, fields, fb_vf, fb_tf) {
        Err(e) => Err(e),
        Ok(c) => if !single_candidate(c) {
            Err(ImportFault::VectorFieldCount(c.to_set()))
        } else {
            match field_check(c[0]) {
                Err(e) => Err(ImportFault::Field(e)),
                Ok(_) => if obj_has(fields, c[0]) {
                    Ok(c[0])
                } else {
                    Err(ImportFault::VectorFieldMissing(c[0]))
                },
            }
        },
    }
}

/// Largest binary64 bit pattern, sign cleared, of a value whose magnitude
/// is at most `f32::MAX`.
pub open spec fn f32_max_bits() -> u64 {
    0x47EF_FFFF_E000_0000
}

/// The number is finite and within the `f32` range. Integers always are;
/// a binary64 value is when its magnitude does not exceed `f32::MAX`.
pub open spec fn in_f32_range(n: NumberModel) -> bool {
    match n {
        NumberModel::Float(_, bits) => (bits & 0x7FFF_FFFF_FFFF_FFFFu64) <= f32_max_bits(),
        _ => true,
    }
}

/// Fault of a vector item at index `i`, if any.
pub open spec fn item_fault(x: JsonModel, i: nat) -> Option<VectorError> {
    match x {
        JsonModel::Number(n) => if in_f32_range(n) { None } else { Some(VectorError::ItemOutOfRange(i as usize)) },
        _ => Some(VectorError::ItemNotNumber(i as usize)),
    }
}

/// The numbers of vector items, or the fault of the first bad item.
pub open spec fn vector_items(items: Seq<JsonModel>) -> Result<Seq<NumberModel>, VectorError>
    decreases items.len(),
{
    if items.len() == 0 {
        Ok(Seq::empty())
    } else {
        match vector_items(items.drop_last()) {
            Err(e) => Err(e),
            Ok(ns) => match item_fault(items.last(), (items.len() - 1) as nat) {
                Some(e) => Err(e),
                None => Ok(ns.push(items.last()->Number_0)),
            },
        }
    }
}

/// A vector: a non-empty array of numbers within the finite `f32` range.
pub open spec fn vector_spec(v: JsonModel) -> Result<Seq<NumberModel>, VectorError> {
    match v {
        JsonModel::Array(items) => if items.len() == 0 {
            Err(VectorError::Empty)
        } else {
            vector_items(items)
        },
        _ => Err(VectorError::NotArray),
    }
}

/// The precomputed vector of a record: `vector`, or `vectors.<field>`.
pub open spec fn record_vector_spec(o: Members, f: Seq<char>) -> Result<Option<Seq<NumberModel>>, ImportFault> {
    let direct = obj_get(o, "vector"@);
    let keyed = match obj_get(o, "vectors"@) {
        Some(JsonModel::Object(m)) => obj_get(m, f),
        _ => None,
    };
    match (direct, keyed) {
        (Some(_), Some(_)) => Err(ImportFault::BothVectors(f)),
        (Some(v), None) => match vector_spec(v) {
            Ok(n) => Ok(Some(n)),
            Err(e) => Err(ImportFault::Vector(e)),
        },
        (None, Some(v)) => match vector_spec(v) {
            Ok(n) => Ok(Some(n)),
            Err(e) => Err(ImportFault::Vector(e)),
        },
        (None, None) => Ok(None),
    }
}

/// Metadata: `external_id` when there is one, then every field but the
/// vector field.
pub open spec fn meta_members(ext: Option<Seq<char>>, fields: Members, f: Seq<char>) -> Members
    decreases fields.len(),
{
    if fields.len() == 0 {
        match ext {
            Some(id) => seq![("external_id"@, JsonModel::Str(id))],
            None => Seq::empty(),
        }
    } else {
        let prev = meta_members(ext, fields.drop_last(), f);
        if fields.last().0 == f {
            prev
        } else {
            obj_insert(prev, fields.last().0, fields.last().1)
        }
    }
}

proof fn lemma_meta_members_keys(ext: Option<Seq<char>>, fields: Members, f: Seq<char>, x: Seq<char>)
    ensures
        obj_has(meta_members(ext, fields, f), x) == ((x == "external_id"@ && ext is Some) || (x != f && obj_has(fields, x))),
    decreases fields.len(),
{
    if fields.len() == 0 {
        match ext {
            Some(id) => {
                let m = seq![("external_id"@, JsonModel::Str(id))];
                if x == "external_id"@ {
                    assert(m[0].0 == x);
                }
            },
            None => {},
        }
    } else {
        let prev = fields.drop_last();
        lemma_meta_members_keys(ext, prev, f, x);
        if fields.last().0 != f {
            crate::json::lemma_obj_insert_has(meta_members(ext, prev, f), fields.last().0, fields.last().1, x);
        }
        if obj_has(fields, x) {
            let j = choose|j: int| 0 <= j < fields.len() && fields[j].0 == x;
            if j < prev.len() {
                assert(prev[j].0 == x);
            }
        }
        if obj_has(prev, x) {
            let j = choose|j: int| 0 <= j < prev.len() && prev[j].0 == x;
            assert(fields[j].0 == x);
        }
        if x == fields.last().0 {
            assert(fields[fields.len() - 1].0 == x);
        }
    }
}

/// The metadata of an accepted record holds the key `external_id` when the
/// record has an external id, and never the vector field, whose text is
/// kept apart (unless the vector field is itself named `external_id` and
/// the external id took that key).
pub proof fn lemma_record_meta(v: JsonModel, fb_vf: Option<Seq<char>>, fb_tf: Option<Seq<char>>)
    requires
        record_spec(v, fb_vf, fb_tf) is Ok,
    ensures
        ({
            let r = record_spec(v, fb_vf, fb_tf)->Ok_0;
            &&& r.meta is Object
            &&& r.external_id is Some ==> obj_has(r.meta->Object_0, "external_id"@)
            &&& obj_has(r.meta->Object_0, r.vector_field) ==> (r.vector_field == "external_id"@ && r.external_id is Some)
        }),
{
    let r = record_spec(v, fb_vf, fb_tf)->Ok_0;
    let o = v->Object_0;
    let ext = external_id_spec(o)->Ok_0;
    let fields = fields_spec(o)->Ok_0;
    let f = r.vector_field;
    lemma_meta_members_keys(ext, fields, f, "external_id"@);
    lemma_meta_members_keys(ext, fields, f, f);
}

/// The record a parsed JSON value stands for.
pub open spec fn record_spec(v: JsonModel, fb_vf: Option<Seq<char>>, fb_tf: Option<Seq<char>>) -> Result<RecordModel, ImportFault> {
    match v {
        JsonModel::Object(o) => match external_id_spec(o) {
            Err(e) => Err(e),
            Ok(ext) => match fields_spec(o) {
                Err(e) => Err(e),
                Ok(fields) => match vector_field_spec(o, fields, fb_vf, fb_tf) {
                    Err(e) => Err(e),
                    Ok(f) => match obj_get(fields, f) {
                        Some(JsonModel::Str(text)) => if trim(text).len() == 0 {
                            Err(ImportFault::VectorTextEmpty(f))
                        } else {
                            match record_vector_spec(o, f) {
                                Err(e) => Err(e),
                                Ok(vec) => Ok(RecordModel {
                                    external_id: ext,
                                    vector_field: f,
                                    vector_text: text,
                                    vector: vec,
                                    meta: JsonModel::Object(meta_members(ext, fields, f)),
                                }),
                            }
                        },
                        _ => Err(ImportFault::VectorTextNotString(f)),
                    },
                },
            },
        },
        _ => Err(ImportFault::NotObject),
    }
}

/// The record a JSONL line stands for.
pub open spec fn record_line_spec(line: Seq<char>, fb_vf: Option<Seq<char>>, fb_tf: Option<Seq<char>>) -> Result<RecordModel, ImportFault> {
    match serde_json_from_str(line) {
        Err(m) => Err(ImportFault::Json(m)),
        Ok(v) => record_spec(v, fb_vf, fb_tf),
    }
}

// ---------------------------------------------------------------------------
// Reading a record
// ---------------------------------------------------------------------------

pub open spec fn import_result(r: Result<ImportRecord, ImportError>) -> Result<RecordModel, ImportFault> {
    match r {
        Ok(x) => Ok(x@),
        Err(e) => Err(e@),
    }
}


/// Text of a string, number or boolean (`json_scalar_to_string`).
pub fn json_scalar_to_string(v: &JsonValue) -> (r: Option<String>)
    ensures
        opt_str(r) == scalar_text(v@),
{
    match v {
        JsonValue::Str(s) => Some(s.clone()),
        JsonValue::Number(n) => Some(number_to_string(n)),
        JsonValue::Bool(b) => Some(if *b { string_from("true") } else { string_from("false") }),
        _ => None,
    }
}

fn external_id_of(o: &Vec<(String, JsonValue)>) -> (r: Result<Option<String>, ImportError>)
    ensures
        r matches Err(e) ==> e is IdNotScalar,
        match r {
            Ok(x) => external_id_spec(members_model(o@)) == Ok::<Option<Seq<char>>, ImportFault>(opt_str(x)),
            Err(e) => external_id_spec(members_model(o@)) == Err::<Option<Seq<char>>, ImportFault>(e@),
        },
{
    let v = match object_get(o, "id") {
        Some(x) => Some(x),
        None => object_get(o, "pk"),
    };
    match v {
        None => Ok(None),
        Some(x) => match json_scalar_to_string(x) {
            Some(s) => Ok(Some(s)),
            None => Err(ImportError::IdNotScalar),
        },
    }
}

/// Whether a key is one of the record's own keys rather than a field.
pub fn is_reserved_record_key(k: &str) -> (r: bool)
    ensures
        r == reserved_key(k@),
{
    str_eq(k, "id") || str_eq(k, "pk") || str_eq(k, "fields") || str_eq(k, "vector_field") || str_eq(
        k,
        "vector_fields",
    ) || str_eq(k, "vector") || str_eq(k, "vectors")
}

/// A field's value, with a descriptor object replaced by its `value`.
fn field_value(v: &JsonValue) -> (r: Result<JsonValue, ImportError>)
    ensures
        r matches Err(e) ==> e is DescriptorWithoutValue,
        match r {
            Ok(x) => field_value_spec(v@) == Ok::<JsonModel, ImportFault>(x@),
            Err(e) => field_value_spec(v@) == Err::<JsonModel, ImportFault>(e@),
        },
{
    match v {
        JsonValue::Object(m) => {
            proof {
                lemma_model_of_object(*m);
            }
            let has_index = object_find(m, "index").is_some();
            let has_value = object_find(m, "value").is_some();
            proof {
                if obj_has(members_model(m@), "index"@) {
                    let i = choose|i: int| 0 <= i < members_model(m@).len() && members_model(m@)[i].0 == "index"@;
                }
            }
            if has_index || has_value {
                match object_get(m, "value") {
                    Some(x) => Ok(x.duplicate()),
                    None => Err(ImportError::DescriptorWithoutValue),
                }
            } else {
                Ok(v.duplicate())
            }
        },
        _ => Ok(v.duplicate()),
    }
}

proof fn lemma_key_index_has(e: Seq<(Seq<char>, JsonModel)>, k: Seq<char>)
    ensures
        key_index(e, k) is Some <==> obj_has(e, k),
{
}

proof fn lemma_normalize_prefix_err(raw: Members, i: int)
    requires
        0 <= i <= raw.len(),
        normalize(raw.take(i)) is Err,
    ensures
        normalize(raw) == normalize(raw.take(i)),
    decreases raw.len() - i,
{
    if i < raw.len() {
        assert(raw.take(i + 1).drop_last() =~= raw.take(i));
        lemma_normalize_prefix_err(raw, i + 1);
    } else {
        assert(raw.take(i) =~= raw);
    }
}

/// The members of `o` that are not reserved keys.
fn unreserved_members(o: &Vec<(String, JsonValue)>) -> (r: Vec<(String, JsonValue)>)
    ensures
        members_model(r@) == members_model(o@).filter(not_reserved()),
{
    let ghost mo = members_model(o@);
    let mut out: Vec<(String, JsonValue)> = Vec::new();
    let mut i: usize = 0;
    assert(mo.take(0).filter(not_reserved()) =~= Seq::<(Seq<char>, JsonModel)>::empty());
    assert(members_model(out@) =~= Seq::<(Seq<char>, JsonModel)>::empty());
    while i < o.len()
        invariant
            i <= o@.len(),
            mo == members_model(o@),
            members_model(out@) == mo.take(i as int).filter(not_reserved()),
        decreases o.len() - i,
    {
        assert(mo.take(i + 1).drop_last() =~= mo.take(i as int));
        assert(mo.take(i + 1).last() == mo[i as int]);
        let ghost before = out@;
        if !is_reserved_record_key(o[i].0.as_str()) {
            let k = o[i].0.clone();
            let v = o[i].1.duplicate();
            out.push((k, v));
            assert(members_model(out@) =~= members_model(before).push(mo[i as int]));
        }
        proof {
            crate::text::lemma_filter_take_step(mo, not_reserved(), i as int);
        }
        assert(members_model(out@) =~= mo.take(i + 1).filter(not_reserved()));
        i = i + 1;
    }
    assert(mo.take(i as int) =~= mo);
    out
}

/// The record's fields with checked names and unwrapped descriptors.
fn normalized_fields(o: &Vec<(String, JsonValue)>) -> (r: Result<Vec<(String, JsonValue)>, ImportError>)
    ensures
        r matches Err(e) ==> !(e is VectorFieldCount),
        match r {
            Ok(f) => fields_spec(members_model(o@)) == Ok::<Members, ImportFault>(members_model(f@)),
            Err(e) => fields_spec(members_model(o@)) == Err::<Members, ImportFault>(e@),
        },
{
    let raw = match object_get(o, "fields") {
        Some(JsonValue::Object(m)) => {
            proof {
                lemma_model_of_object(*m);
            }
            duplicate_members(m)
        },
        Some(_) => return Err(ImportError::FieldsNotObject),
        None => unreserved_members(o),
    };
    let ghost rm = members_model(raw@);
    assert(raw_fields(members_model(o@)) == Ok::<Members, ImportFault>(rm));
    let mut out: Vec<(String, JsonValue)> = Vec::new();
    let mut i: usize = 0;
    assert(rm.take(0) =~= Seq::<(Seq<char>, JsonModel)>::empty());
    assert(members_model(out@) =~= Seq::<(Seq<char>, JsonModel)>::empty());
    while i < raw.len()
        invariant
            i <= raw@.len(),
            rm == members_model(raw@),
            raw_fields(members_model(o@)) == Ok::<Members, ImportFault>(rm),
            normalize(rm.take(i as int)) == Ok::<Members, ImportFault>(members_model(out@)),
        decreases raw.len() - i,
    {
        assert(rm.take(i + 1).drop_last() =~= rm.take(i as int));
        assert(rm.take(i + 1).last() == rm[i as int]);
        match validate_meta_field_name(raw[i].0.as_str()) {
            Ok(()) => {},
            Err(e) => {
                proof {
                    lemma_normalize_prefix_err(rm, i + 1);
                }
                return Err(ImportError::Field(e));
            },
        }
        match field_value(&raw[i].1) {
            Ok(v) => {
                let k = raw[i].0.clone();
                object_insert(&mut out, k, v);
            },
            Err(e) => {
                proof {
                    lemma_normalize_prefix_err(rm, i + 1);
                }
                return Err(e);
            },
        }
        i = i + 1;
    }
    assert(rm.take(i as int) =~= rm);
    if out.len() == 0 {
        return Err(ImportError::NoFields);
    }
    Ok(out)
}

/// The vector field candidates a record declares.
fn declared_vector_fields(o: &Vec<(String, JsonValue)>) -> (r: Result<Vec<String>, ImportError>)
    ensures
        match r {
            Ok(c) => declared_candidates(members_model(o@)) == Ok::<Seq<Seq<char>>, ImportFault>(strs(c@)),
            Err(e) => declared_candidates(members_model(o@)) == Err::<Seq<Seq<char>>, ImportFault>(e@),
        },
{
    let ghost mo = members_model(o@);
    let mut out: Vec<String> = Vec::new();
    match object_get(o, "vector_field") {
        None => {
            assert(strs(out@) =~= Seq::<Seq<char>>::empty());
        },
        Some(v) => match v.as_str() {
            Some(s) => {
                out.push(s.clone());
                assert(strs(out@) =~= seq![s@]);
            },
            None => return Err(ImportError::VectorFieldNotString),
        },
    }
    let ghost a = strs(out@);
    assert(cand_field(mo) == Ok::<Seq<Seq<char>>, ImportFault>(a));
    match object_get(o, "vector_fields") {
        None => {},
        Some(JsonValue::Array(items)) => {
            proof {
                lemma_model_of_array(*items);
            }
            let ghost im = crate::json::items_model(items@);
            let mut i: usize = 0;
            assert(a + im.take(0).map_values(str_of()) =~= a);
            while i < items.len()
                invariant
                    i <= items@.len(),
                    mo == members_model(o@),
                    cand_field(mo) == Ok::<Seq<Seq<char>>, ImportFault>(a),
                    obj_get(mo, "vector_fields"@) == Some(JsonModel::Array(im)),
                    im == crate::json::items_model(items@),
                    forall|j: int| 0 <= j < i ==> #[trigger] im[j] is Str,
                    strs(out@) == a + im.take(i as int).map_values(str_of()),
                decreases items.len() - i,
            {
                match items[i].as_str() {
                    Some(s) => {
                        let ghost before = out@;
                        out.push(s.clone());
                        assert(im[i as int] == JsonModel::Str(s@));
                        assert(im.take(i + 1).map_values(str_of()) =~= im.take(i as int).map_values(str_of()).push(s@));
                        assert(strs(out@) =~= strs(before).push(s@));
                        assert(strs(out@) =~= a + im.take(i + 1).map_values(str_of()));
                    },
                    None => {
                        assert(!(im[i as int] is Str));
                        return Err(ImportError::VectorFieldsItemNotString);
                    },
                }
                i = i + 1;
            }
            assert(im.take(i as int) =~= im);
        },
        Some(_) => return Err(ImportError::VectorFieldsNotArray),
    }
    let ghost ab = strs(out@);
    assert(cand_fields(mo) is Ok && ab == a + cand_fields(mo)->Ok_0);
    let vectors = match object_get(o, "vectors") {
        None => None,
        Some(JsonValue::Object(m)) => {
            proof {
                lemma_model_of_object(*m);
            }
            Some(m)
        },
        Some(_) => return Err(ImportError::VectorsNotObject),
    };
    match object_get(o, "fields") {
        Some(JsonValue::Object(m)) => {
            proof {
                lemma_model_of_object(*m);
            }
            let ghost fm = members_model(m@);
            let mut i: usize = 0;
            assert(fm.take(0).filter(vector_descriptor()).map_values(member_key()) =~= Seq::<Seq<char>>::empty());
            assert(ab + Seq::<Seq<char>>::empty() =~= ab);
            while i < m.len()
                invariant
                    i <= m@.len(),
                    fm == members_model(m@),
                    strs(out@) == ab + fm.take(i as int).filter(vector_descriptor()).map_values(member_key()),
                decreases m.len() - i,
            {
                let ghost before = out@;
                let marked = is_vector_descriptor_value(&m[i].1);
                proof {
                    crate::text::lemma_filter_take_step(fm, vector_descriptor(), i as int);
                }
                if marked {
                    out.push(m[i].0.clone());
                    assert(strs(out@) =~= strs(before).push(fm[i as int].0));
                }
                assert(strs(out@) =~= ab + fm.take(i + 1).filter(vector_descriptor()).map_values(member_key()));
                i = i + 1;
            }
            assert(fm.take(i as int) =~= fm);
        },
        _ => {
            assert(strs(out@) =~= ab + cand_descriptors(mo));
        },
    }
    let ghost abc = strs(out@);
    assert(abc == ab + cand_descriptors(mo));
    match vectors {
        None => {
            assert(strs(out@) =~= abc + Seq::<Seq<char>>::empty());
        },
        Some(m) => {
            let ghost vm = members_model(m@);
            let mut i: usize = 0;
            assert(abc + vm.take(0).map_values(member_key()) =~= abc);
            while i < m.len()
                invariant
                    i <= m@.len(),
                    vm == members_model(m@),
                    strs(out@) == abc + vm.take(i as int).map_values(member_key()),
                decreases m.len() - i,
            {
                let ghost before = out@;
                out.push(m[i].0.clone());
                assert(vm.take(i + 1).map_values(member_key()) =~= vm.take(i as int).map_values(member_key()).push(vm[i as int].0));
                assert(strs(out@) =~= strs(before).push(vm[i as int].0));
                assert(strs(out@) =~= abc + vm.take(i + 1).map_values(member_key()));
                i = i + 1;
            }
            assert(vm.take(i as int) =~= vm);
        },
    }
    assert(strs(out@) =~= a + cand_fields(mo)->Ok_0 + cand_descriptors(mo) + cand_vectors(mo)->Ok_0);
    Ok(out)
}

/// Whether a field value is a descriptor whose `index` lists `"vector"`.
fn is_vector_descriptor_value(v: &JsonValue) -> (r: bool)
    ensures
        r == is_vector_descriptor(v@),
{
    proof {
        reveal_strlit("vector");
    }
    match v {
        JsonValue::Object(d) => {
            proof {
                lemma_model_of_object(*d);
            }
            match object_get(d, "index") {
                Some(JsonValue::Array(idx)) => {
                    proof {
                        lemma_model_of_array(*idx);
                    }
                    let ghost im = crate::json::items_model(idx@);
                    let mut j: usize = 0;
                    while j < idx.len()
                        invariant
                            j <= idx@.len(),
                            v@ == JsonModel::Object(members_model(d@)),
                            obj_get(members_model(d@), "index"@) == Some(JsonModel::Array(im)),
                            "vector"@ == seq!['v', 'e', 'c', 't', 'o', 'r'],
                            im == crate::json::items_model(idx@),
                            forall|k: int| 0 <= k < j ==> im[k] != JsonModel::Str("vector"@),
                        decreases idx.len() - j,
                    {
                        match idx[j].as_str() {
                            Some(s) => {
                                if str_eq(s.as_str(), "vector") {
                                    assert(im[j as int] == JsonModel::Str("vector"@));
                                    return true;
                                }
                            },
                            None => {},
                        }
                        j = j + 1;
                    }
                    false
                },
                _ => false,
            }
        },
        _ => false,
    }
}

fn has_member(e: &Vec<(String, JsonValue)>, k: &str) -> (b: bool)
    ensures
        b == obj_has(members_model(e@), k@),
{
    let r = object_find(e, k);
    proof {
        if obj_has(members_model(e@), k@) {
            let i = choose|i: int| 0 <= i < members_model(e@).len() && members_model(e@)[i].0 == k@;
        }
    }
    r.is_some()
}

/// The one vector field of a record.
fn resolve_vector_field(
    o: &Vec<(String, JsonValue)>,
    fields: &Vec<(String, JsonValue)>,
    fallback: Option<&str>,
    text_fallback: Option<&str>,
) -> (r: Result<String, ImportError>)
    ensures
        match r {
            Ok(f) => vector_field_spec(members_model(o@), members_model(fields@), opt_ref_str(fallback), opt_ref_str(text_fallback)) == Ok::<Seq<char>, ImportFault>(f@),
            Err(e) => vector_field_spec(members_model(o@), members_model(fields@), opt_ref_str(fallback), opt_ref_str(text_fallback)) == Err::<Seq<char>, ImportFault>(e@),
        },
        r matches Err(ImportError::VectorFieldCount(v)) ==> sorted_strict(strs(v@)),
{
    let mut candidates = match declared_vector_fields(o) {
        Ok(c) => c,
        Err(e) => return Err(e),
    };
    if candidates.len() == 0 {
        match fallback {
            Some(f) => {
                candidates.push(string_from(f));
            },
            None => match text_fallback {
                Some(f) => {
                    candidates.push(string_from(f));
                },
                None => {
                    if has_member(fields, "text") {
                        candidates.push(string_from("text"));
                    } else if has_member(fields, "content") {
                        candidates.push(string_from("content"));
                    }
                },
            },
        }
        assert(strs(candidates@) =~= fallback_candidates(members_model(fields@), opt_ref_str(fallback), opt_ref_str(text_fallback)));
    }
    let ghost c = strs(candidates@);
    assert(candidates_spec(members_model(o@), members_model(fields@), opt_ref_str(fallback), opt_ref_str(text_fallback)) == Ok::<Seq<Seq<char>>, ImportFault>(c));
    let mut single = candidates.len() > 0;
    if single {
        let mut i: usize = 0;
        while i < candidates.len()
            invariant
                i <= candidates@.len(),
                candidates@.len() > 0,
                c == strs(candidates@),
                single == (forall|j: int| 0 <= j < i ==> #[trigger] c[j] == c[0]),
            decreases candidates.len() - i,
        {
            if !str_eq(candidates[i].as_str(), candidates[0].as_str()) {
                assert(c[i as int] != c[0]);
                single = false;
            }
            i = i + 1;
        }
    }
    if !single {
        return Err(ImportError::VectorFieldCount(sorted_distinct(&candidates)));
    }
    let field = candidates[0].clone();
    match validate_meta_field_name(field.as_str()) {
        Ok(()) => {},
        Err(e) => return Err(ImportError::Field(e)),
    }
    if !has_member(fields, field.as_str()) {
        return Err(ImportError::VectorFieldMissing(field));
    }
    Ok(field)
}

/// Whether a number lies within the finite `f32` range.
pub fn number_in_f32_range(n: &JsonNumber) -> (b: bool)
    ensures
        b == in_f32_range(n@),
{
    match n {
        JsonNumber::Float { text, bits } => (*bits & 0x7FFF_FFFF_FFFF_FFFFu64) <= 0x47EF_FFFF_E000_0000u64,
        _ => true,
    }
}

pub open spec fn vector_result(r: Result<Vec<JsonNumber>, VectorError>) -> Result<Seq<NumberModel>, VectorError> {
    match r {
        Ok(v) => Ok(numbers(v@)),
        Err(e) => Err(e),
    }
}

proof fn lemma_vector_items_prefix_err(items: Seq<JsonModel>, i: int)
    requires
        0 <= i <= items.len(),
        vector_items(items.take(i)) is Err,
    ensures
        vector_items(items) == vector_items(items.take(i)),
    decreases items.len() - i,
{
    if i < items.len() {
        assert(items.take(i + 1).drop_last() =~= items.take(i));
        lemma_vector_items_prefix_err(items, i + 1);
    } else {
        assert(items.take(i) =~= items);
    }
}

/// A vector given as JSON: a non-empty array of numbers within the finite
/// `f32` range.
pub fn parse_vector_value(v: &JsonValue) -> (r: Result<Vec<JsonNumber>, VectorError>)
    ensures
        vector_result(r) == vector_spec(v@),
{
    match v {
        JsonValue::Array(items) => {
            proof {
                lemma_model_of_array(*items);
            }
            if items.len() == 0 {
                return Err(VectorError::Empty);
            }
            let ghost im = crate::json::items_model(items@);
            let mut out: Vec<JsonNumber> = Vec::new();
            let mut i: usize = 0;
            assert(im.take(0) =~= Seq::<JsonModel>::empty());
            assert(numbers(out@) =~= Seq::<NumberModel>::empty());
            while i < items.len()
                invariant
                    i <= items@.len(),
                    im == crate::json::items_model(items@),
                    v@ == JsonModel::Array(im),
                    im.len() > 0,
                    vector_items(im.take(i as int)) == Ok::<Seq<NumberModel>, VectorError>(numbers(out@)),
                decreases items.len() - i,
            {
                assert(im.take(i + 1).drop_last() =~= im.take(i as int));
                assert(im.take(i + 1).last() == im[i as int]);
                match &items[i] {
                    JsonValue::Number(n) => {
                        if !number_in_f32_range(n) {
                            proof {
                                lemma_vector_items_prefix_err(im, i + 1);
                            }
                            return Err(VectorError::ItemOutOfRange(i));
                        }
                        let ghost before = out@;
                        out.push(n.duplicate());
                        assert(numbers(out@) =~= numbers(before).push(n@));
                    },
                    _ => {
                        proof {
                            lemma_vector_items_prefix_err(im, i + 1);
                        }
                        return Err(VectorError::ItemNotNumber(i));
                    },
                }
                i = i + 1;
            }
            assert(im.take(i as int) =~= im);
            Ok(out)
        },
        _ => Err(VectorError::NotArray),
    }
}

/// The precomputed vector of a record, under `vector` or `vectors.<field>`.
fn resolve_record_vector(o: &Vec<(String, JsonValue)>, field: &str) -> (r: Result<Option<Vec<JsonNumber>>, ImportError>)
    ensures
        r matches Err(e) ==> !(e is VectorFieldCount),
        match r {
            Ok(Some(v)) => record_vector_spec(members_model(o@), field@) == Ok::<Option<Seq<NumberModel>>, ImportFault>(Some(numbers(v@))),
            Ok(None) => record_vector_spec(members_model(o@), field@) == Ok::<Option<Seq<NumberModel>>, ImportFault>(None),
            Err(e) => record_vector_spec(members_model(o@), field@) == Err::<Option<Seq<NumberModel>>, ImportFault>(e@),
        },
{
    let direct = object_get(o, "vector");
    let keyed = match object_get(o, "vectors") {
        Some(JsonValue::Object(m)) => {
            proof {
                lemma_model_of_object(*m);
            }
            object_get(m, field)
        },
        _ => None,
    };
    let chosen = match (direct, keyed) {
        (Some(_), Some(_)) => return Err(ImportError::BothVectors(string_from(field))),
        (Some(v), None) => v,
        (None, Some(v)) => v,
        (None, None) => return Ok(None),
    };
    match parse_vector_value(chosen) {
        Ok(v) => Ok(Some(v)),
        Err(e) => Err(ImportError::Vector(e)),
    }
}

/// Metadata of a record: `external_id` first, then every field but the
/// vector field.
fn build_meta(ext: &Option<String>, fields: &Vec<(String, JsonValue)>, field: &str) -> (r: Vec<(String, JsonValue)>)
    ensures
        members_model(r@) == meta_members(opt_str(*ext), members_model(fields@), field@),
{
    let ghost fm = members_model(fields@);
    let mut out: Vec<(String, JsonValue)> = Vec::new();
    match ext {
        Some(id) => {
            out.push((string_from("external_id"), JsonValue::Str(id.clone())));
        },
        None => {},
    }
    let mut i: usize = 0;
    assert(fm.take(0) =~= Seq::<(Seq<char>, JsonModel)>::empty());
    assert(members_model(out@) =~= meta_members(opt_str(*ext), fm.take(0), field@));
    while i < fields.len()
        invariant
            i <= fields@.len(),
            fm == members_model(fields@),
            members_model(out@) == meta_members(opt_str(*ext), fm.take(i as int), field@),
        decreases fields.len() - i,
    {
        assert(fm.take(i + 1).drop_last() =~= fm.take(i as int));
        assert(fm.take(i + 1).last() == fm[i as int]);
        if !str_eq(fields[i].0.as_str(), field) {
            let k = fields[i].0.clone();
            let v = fields[i].1.duplicate();
            object_insert(&mut out, k, v);
        }
        i = i + 1;
    }
    assert(fm.take(i as int) =~= fm);
    out
}

/// The record a parsed JSONL line stands for.
pub fn parse_import_value(
    value: &JsonValue,
    fallback_vector_field: Option<&str>,
    fallback_text_field: Option<&str>,
) -> (r: Result<ImportRecord, ImportError>)
    ensures
        import_result(r) == record_spec(value@, opt_ref_str(fallback_vector_field), opt_ref_str(fallback_text_field)),
        r matches Err(ImportError::VectorFieldCount(v)) ==> sorted_strict(strs(v@)),
{
    let o = match value {
        JsonValue::Object(o) => o,
        _ => return Err(ImportError::NotObject),
    };
    proof {
        lemma_model_of_object(*o);
    }
    let external_id = match external_id_of(o) {
        Ok(x) => x,
        Err(e) => return Err(e),
    };
    let fields = match normalized_fields(o) {
        Ok(f) => f,
        Err(e) => return Err(e),
    };
    let vector_field = match resolve_vector_field(o, &fields, fallback_vector_field, fallback_text_field) {
        Ok(f) => f,
        Err(e) => return Err(e),
    };
    let vector_text = match object_get(&fields, vector_field.as_str()) {
        Some(JsonValue::Str(t)) => t.clone(),
        Some(_) => return Err(ImportError::VectorTextNotString(vector_field)),
        None => {
            proof {
                let i = choose|i: int| 0 <= i < members_model(fields@).len() && members_model(fields@)[i].0 == vector_field@;
                lemma_key_index_has(members_model(fields@), vector_field@);
            }
            return Err(ImportError::VectorTextNotString(vector_field));
        },
    };
    let trimmed = crate::text::trim_string(vector_text.as_str());
    if trimmed.as_str().is_empty() {
        return Err(ImportError::VectorTextEmpty(vector_field));
    }
    let vector = match resolve_record_vector(o, vector_field.as_str()) {
        Ok(v) => v,
        Err(e) => return Err(e),
    };
    let meta = build_meta(&external_id, &fields, vector_field.as_str());
    proof {
        lemma_model_of_object(meta);
    }
    let rec = ImportRecord {
        external_id,
        vector_field,
        vector_text,
        vector,
        meta: JsonValue::Object(meta),
    };
    assert(rec@ =~= record_spec(value@, opt_ref_str(fallback_vector_field), opt_ref_str(fallback_text_field))->Ok_0);
    Ok(rec)
}

/// Parses one JSONL line into an import record.
pub fn parse_import_record(
    input: &str,
    fallback_vector_field: Option<&str>,
    fallback_text_field: Option<&str>,
) -> (r: Result<ImportRecord, ImportError>)
    ensures
        import_result(r) == record_line_spec(input@, opt_ref_str(fallback_vector_field), opt_ref_str(fallback_text_field)),
        r matches Err(ImportError::VectorFieldCount(v)) ==> sorted_strict(strs(v@)),
{
    match crate::json::parse_json(input) {
        Ok(v) => parse_import_value(&v, fallback_vector_field, fallback_text_field),
        Err(m) => Err(ImportError::Json(m)),
    }
}

// ---------------------------------------------------------------------------
// JSONL input
// ---------------------------------------------------------------------------

/// Why a JSONL input was refused.
#[derive(Debug)]
pub enum ImportLinesError {
    /// The record on this 1-based line was refused.
    Line(usize, ImportError),
    /// No line holds anything but whitespace.
    NoRecords,
}

pub enum LinesFault {
    Line(nat, ImportFault),
    NoRecords,
}

impl View for ImportLinesError {
    type V = LinesFault;

    open spec fn view(&self) -> LinesFault {
        match *self {
            ImportLinesError::Line(n, e) => LinesFault::Line(n as nat, e@),
            ImportLinesError::NoRecords => LinesFault::NoRecords,
        }
    }
}

/// Records of the lines so far; blank lines are skipped and a refused
/// record stops the reading with its line number.
pub open spec fn lines_fold(lines: Seq<Seq<char>>, fb_vf: Option<Seq<char>>, fb_tf: Option<Seq<char>>) -> Result<Seq<RecordModel>, LinesFault>
    decreases lines.len(),
{
    if lines.len() == 0 {
        Ok(Seq::empty())
    } else {
        match lines_fold(lines.drop_last(), fb_vf, fb_tf) {
            Err(e) => Err(e),
            Ok(rs) => {
                let t = trim(lines.last());
                if t.len() == 0 {
                    Ok(rs)
                } else {
                    match record_line_spec(t, fb_vf, fb_tf) {
                        Ok(r) => Ok(rs.push(r)),
                        Err(e) => Err(LinesFault::Line(lines.len(), e)),
                    }
                }
            },
        }
    }
}

/// The records of a JSONL text: one per non-blank line, at least one.
pub open spec fn import_lines_spec(content: Seq<char>, fb_vf: Option<Seq<char>>, fb_tf: Option<Seq<char>>) -> Result<Seq<RecordModel>, LinesFault> {
    match lines_fold(crate::text::split_on(content, '\n'), fb_vf, fb_tf) {
        Err(e) => Err(e),
        Ok(rs) => if rs.len() == 0 {
            Err(LinesFault::NoRecords)
        } else {
            Ok(rs)
        },
    }
}

pub open spec fn records_model(v: Seq<ImportRecord>) -> Seq<RecordModel> {
    v.map_values(|r: ImportRecord| r@)
}

proof fn lemma_lines_fold_prefix_err(lines: Seq<Seq<char>>, fb_vf: Option<Seq<char>>, fb_tf: Option<Seq<char>>, i: int)
    requires
        0 <= i <= lines.len(),
        lines_fold(lines.take(i), fb_vf, fb_tf) is Err,
    ensures
        lines_fold(lines, fb_vf, fb_tf) == lines_fold(lines.take(i), fb_vf, fb_tf),
    decreases lines.len() - i,
{
    if i < lines.len() {
        assert(lines.take(i + 1).drop_last() =~= lines.take(i));
        lemma_lines_fold_prefix_err(lines, fb_vf, fb_tf, i + 1);
    } else {
        assert(lines.take(i) =~= lines);
    }
}

/// Reads the records of a JSONL text.
pub fn parse_import_lines(
    content: &str,
    fallback_vector_field: Option<&str>,
    fallback_text_field: Option<&str>,
) -> (r: Result<Vec<ImportRecord>, ImportLinesError>)
    ensures
        match r {
            Ok(v) => import_lines_spec(content@, opt_ref_str(fallback_vector_field), opt_ref_str(fallback_text_field)) == Ok::<Seq<RecordModel>, LinesFault>(records_model(v@)),
            Err(e) => import_lines_spec(content@, opt_ref_str(fallback_vector_field), opt_ref_str(fallback_text_field)) == Err::<Seq<RecordModel>, LinesFault>(e@),
        },
        r matches Err(ImportLinesError::Line(_, ImportError::VectorFieldCount(v))) ==> sorted_strict(strs(v@)),
{
    let ghost fv = opt_ref_str(fallback_vector_field);
    let ghost ft = opt_ref_str(fallback_text_field);
    let chars = crate::text::chars_of(content);
    let lines = crate::text::split_chars(chars.as_slice(), '\n');
    let ghost ls = crate::text::split_on(content@, '\n');
    let mut out: Vec<ImportRecord> = Vec::new();
    let mut i: usize = 0;
    assert(ls.take(0) =~= Seq::<Seq<char>>::empty());
    assert(records_model(out@) =~= Seq::<RecordModel>::empty());
    while i < lines.len()
        invariant
            i <= lines@.len(),
            lines@.len() == ls.len(),
            fv == opt_ref_str(fallback_vector_field),
            ft == opt_ref_str(fallback_text_field),
            ls == crate::text::split_on(content@, '\n'),
            forall|j: int| 0 <= j < lines@.len() ==> #[trigger] lines@[j]@ == ls[j],
            lines_fold(ls.take(i as int), fv, ft) == Ok::<Seq<RecordModel>, LinesFault>(records_model(out@)),
        decreases lines.len() - i,
    {
        assert(ls.take(i + 1).drop_last() =~= ls.take(i as int));
        assert(ls.take(i + 1).last() == ls[i as int]);
        let (lo, hi) = crate::text::trim_bounds(lines[i].as_slice(), 0, lines[i].len());
        assert(lines@[i as int]@.subrange(0, lines@[i as int]@.len() as int) =~= lines@[i as int]@);
        if lo < hi {
            let line = crate::text::string_of_range(lines[i].as_slice(), lo, hi);
            match parse_import_record(line.as_str(), fallback_vector_field, fallback_text_field) {
                Ok(rec) => {
                    let ghost before = out@;
                    out.push(rec);
                    assert(records_model(out@) =~= records_model(before).push(rec@));
                },
                Err(e) => {
                    proof {
                        lemma_lines_fold_prefix_err(ls, fv, ft, i + 1);
                    }
                    return Err(ImportLinesError::Line(i + 1, e));
                },
            }
        }
        i = i + 1;
    }
    assert(ls.take(i as int) =~= ls);
    if out.len() == 0 {
        return Err(ImportLinesError::NoRecords);
    }
    Ok(out)
}

// ---------------------------------------------------------------------------
// Query vectors
// ---------------------------------------------------------------------------

/// Why a query vector argument was refused.
#[derive(Debug)]
pub enum VectorArgError {
    /// Both an inline vector and a vector file were given.
    BothGiven,
    /// The text is not JSON; whether it came from the file, and the
    /// parser's message.
    Json { from_file: bool, message: String },
    /// The JSON is not a vector.
    Vector(VectorError),
}

pub enum VectorArgFault {
    BothGiven,
    Json { from_file: bool, message: Seq<char> },
    Vector(VectorError),
}

impl View for VectorArgError {
    type V = VectorArgFault;

    open spec fn view(&self) -> VectorArgFault {
        match *self {
            VectorArgError::BothGiven => VectorArgFault::BothGiven,
            VectorArgError::Json { from_file, message } => VectorArgFault::Json { from_file, message: message@ },
            VectorArgError::Vector(e) => VectorArgFault::Vector(e),
        }
    }
}

/// The vector a JSON text holds.
pub open spec fn vector_text_spec(text: Seq<char>, from_file: bool) -> Result<Seq<NumberModel>, VectorArgFault> {
    match serde_json_from_str(text) {
        Err(m) => Err(VectorArgFault::Json { from_file, message: m }),
        Ok(v) => match vector_spec(v) {
            Ok(ns) => Ok(ns),
            Err(e) => Err(VectorArgFault::Vector(e)),
        },
    }
}

/// The query vector of a search: from the inline JSON or from the text of
/// the vector file, not both; none without either.
pub open spec fn vector_arg_spec(vector: Option<Seq<char>>, file_text: Option<Seq<char>>) -> Result<Option<Seq<NumberModel>>, VectorArgFault> {
    match (vector, file_text) {
        (Some(_), Some(_)) => Err(VectorArgFault::BothGiven),
        (Some(v), None) => match vector_text_spec(v, false) {
            Ok(ns) => Ok(Some(ns)),
            Err(e) => Err(e),
        },
        (None, Some(t)) => match vector_text_spec(t, true) {
            Ok(ns) => Ok(Some(ns)),
            Err(e) => Err(e),
        },
        (None, None) => Ok(None),
    }
}

fn parse_vector_text(text: &str, from_file: bool) -> (r: Result<Vec<JsonNumber>, VectorArgError>)
    ensures
        match r {
            Ok(v) => vector_text_spec(text@, from_file) == Ok::<Seq<NumberModel>, VectorArgFault>(numbers(v@)),
            Err(e) => vector_text_spec(text@, from_file) == Err::<Seq<NumberModel>, VectorArgFault>(e@),
        },
{
    match crate::json::parse_json(text) {
        Err(m) => Err(VectorArgError::Json { from_file, message: m }),
        Ok(v) => match parse_vector_value(&v) {
            Ok(ns) => Ok(ns),
            Err(e) => Err(VectorArgError::Vector(e)),
        },
    }
}

/// Reads the query vector of a search. `vector_file` holds the text of the
/// vector file (its contents do not matter when both are given).
pub fn load_vector_arg(vector: Option<&str>, vector_file: Option<&str>) -> (r: Result<Option<Vec<JsonNumber>>, VectorArgError>)
    ensures
        match r {
            Ok(Some(v)) => vector_arg_spec(opt_ref_str(vector), opt_ref_str(vector_file)) == Ok::<Option<Seq<NumberModel>>, VectorArgFault>(Some(numbers(v@))),
            Ok(None) => vector_arg_spec(opt_ref_str(vector), opt_ref_str(vector_file)) == Ok::<Option<Seq<NumberModel>>, VectorArgFault>(None),
            Err(e) => vector_arg_spec(opt_ref_str(vector), opt_ref_str(vector_file)) == Err::<Option<Seq<NumberModel>>, VectorArgFault>(e@),
        },
{
    match (vector, vector_file) {
        (Some(_), Some(_)) => Err(VectorArgError::BothGiven),
        (Some(v), None) => match parse_vector_text(v, false) {
            Ok(ns) => Ok(Some(ns)),
            Err(e) => Err(e),
        },
        (None, Some(t)) => match parse_vector_text(t, true) {
            Ok(ns) => Ok(Some(ns)),
            Err(e) => Err(e),
        },
        (None, None) => Ok(None),
    }
}

// ---------------------------------------------------------------------------
// Messages
// ---------------------------------------------------------------------------

pub open spec fn dec_usize(n: usize) -> Seq<char> {
    crate::text::decimal(n as nat)
}

/// The description of a vector error.
pub open spec fn vector_message(e: VectorError) -> Seq<char> {
    match e {
        VectorError::NotArray => "vector must be a JSON array"@,
        VectorError::Empty => "vector cannot be empty"@,
        VectorError::ItemNotNumber(i) => "vector item "@ + dec_usize(i) + " must be a number"@,
        VectorError::ItemOutOfRange(i) => "vector item "@ + dec_usize(i) + " is outside finite f32 range"@,
    }
}

impl VectorError {
    pub fn message(&self) -> (r: String)
        ensures
            r@ == vector_message(*self),
    {
        match self {
            VectorError::NotArray => string_from("vector must be a JSON array"),
            VectorError::Empty => string_from("vector cannot be empty"),
            VectorError::ItemNotNumber(i) => {
                let mut s = string_from("vector item ");
                crate::text::push_decimal(&mut s, *i as u64);
                push_str(&mut s, " must be a number");
                s
            },
            VectorError::ItemOutOfRange(i) => {
                let mut s = string_from("vector item ");
                crate::text::push_decimal(&mut s, *i as u64);
                push_str(&mut s, " is outside finite f32 range");
                s
            },
        }
    }
}

/// The description of a query vector error.
pub open spec fn vector_arg_message(e: VectorArgFault) -> Seq<char> {
    match e {
        VectorArgFault::BothGiven => "pass only one of --vector or --vector-file"@,
        VectorArgFault::Json { from_file, message } => if from_file {
            "parsing --vector-file JSON array"@
        } else {
            "parsing --vector JSON array"@
        },
        VectorArgFault::Vector(v) => vector_message(v),
    }
}

impl VectorArgError {
    pub fn message(&self) -> (r: String)
        ensures
            r@ == vector_arg_message(self@),
    {
        match self {
            VectorArgError::BothGiven => string_from("pass only one of --vector or --vector-file"),
            VectorArgError::Json { from_file, message } => if *from_file {
                string_from("parsing --vector-file JSON array")
            } else {
                string_from("parsing --vector JSON array")
            },
            VectorArgError::Vector(v) => v.message(),
        }
    }
}

/// What `format!("{:?}", v)` writes for a list of strings.
pub uninterp spec fn debug_string_list(v: Seq<Seq<char>>) -> Seq<char>;

/// The `Debug` text of a list of strings (std `format!` with `{:?}`).
///
/// Trusted: the result is what `format!("{:?}", v)` writes for `v`, which
/// depends on the strings alone.
#[verifier::external_body]
fn debug_list(v: &Vec<String>) -> (r: String)
    ensures
        r@ == debug_string_list(strs(v@)),
{
    format!("{:?}", v)
}

/// The description of a record error.
pub open spec fn import_message(e: ImportFault, candidates: Seq<Seq<char>>) -> Seq<char> {
    match e {
        ImportFault::Json(m) => m,
        ImportFault::NotObject => "JSONL record must be an object"@,
        ImportFault::IdNotScalar => "record `id`/`pk` must be a scalar value"@,
        ImportFault::FieldsNotObject => "record `fields` must be an object"@,
        ImportFault::Field(f) => crate::filter::filter_message(f),
        ImportFault::DescriptorWithoutValue => "field descriptor must include `value`"@,
        ImportFault::NoFields => "record has no fields to import"@,
        ImportFault::VectorFieldNotString => "record `vector_field` must be a string"@,
        ImportFault::VectorFieldsNotArray => "record `vector_fields` must be an array"@,
        ImportFault::VectorFieldsItemNotString => "record `vector_fields` items must be strings"@,
        ImportFault::VectorsNotObject => "record `vectors` must be an object keyed by vector field"@,
        ImportFault::VectorFieldCount(_) => "expected exactly one vector field, found "@ + crate::text::decimal(
            candidates.len(),
        ) + " ("@ + debug_string_list(candidates) + ")"@,
        ImportFault::VectorFieldMissing(f) => "vector field `"@ + f + "` is not present in fields"@,
        ImportFault::VectorTextNotString(f) => "vector field `"@ + f + "` must be a string"@,
        ImportFault::VectorTextEmpty(f) => "vector field `"@ + f + "` is empty"@,
        ImportFault::BothVectors(f) => "record cannot contain both `vector` and `vectors."@ + f + "`"@,
        ImportFault::Vector(v) => vector_message(v),
    }
}

/// The candidates listed by a vector field count error, in order.
pub open spec fn listed_candidates(e: ImportError) -> Seq<Seq<char>> {
    match e {
        ImportError::VectorFieldCount(v) => strs(v@),
        _ => Seq::empty(),
    }
}

fn quoted(prefix: &str, f: &str, suffix: &str) -> (r: String)
    ensures
        r@ == prefix@ + f@ + suffix@,
{
    let mut s = string_from(prefix);
    push_str(&mut s, f);
    push_str(&mut s, suffix);
    s
}

impl ImportError {
    pub fn message(&self) -> (r: String)
        ensures
            r@ == import_message(self@, listed_candidates(*self)),
    {
        match self {
            ImportError::Json(m) => m.clone(),
            ImportError::NotObject => string_from("JSONL record must be an object"),
            ImportError::IdNotScalar => string_from("record `id`/`pk` must be a scalar value"),
            ImportError::FieldsNotObject => string_from("record `fields` must be an object"),
            ImportError::Field(f) => f.message(),
            ImportError::DescriptorWithoutValue => string_from("field descriptor must include `value`"),
            ImportError::NoFields => string_from("record has no fields to import"),
            ImportError::VectorFieldNotString => string_from("record `vector_field` must be a string"),
            ImportError::VectorFieldsNotArray => string_from("record `vector_fields` must be an array"),
            ImportError::VectorFieldsItemNotString => string_from("record `vector_fields` items must be strings"),
            ImportError::VectorsNotObject => string_from("record `vectors` must be an object keyed by vector field"),
            ImportError::VectorFieldCount(v) => {
                let mut s = string_from("expected exactly one vector field, found ");
                crate::text::push_decimal(&mut s, v.len() as u64);
                push_str(&mut s, " (");
                let d = debug_list(v);
                push_str(&mut s, d.as_str());
                push_str(&mut s, ")");
                assert(strs(v@).len() == v@.len());
                s
            },
            ImportError::VectorFieldMissing(f) => quoted("vector field `", f.as_str(), "` is not present in fields"),
            ImportError::VectorTextNotString(f) => quoted("vector field `", f.as_str(), "` must be a string"),
            ImportError::VectorTextEmpty(f) => quoted("vector field `", f.as_str(), "` is empty"),
            ImportError::BothVectors(f) => quoted("record cannot contain both `vector` and `vectors.", f.as_str(), "`"),
            ImportError::Vector(v) => v.message(),
        }
    }
}

/// The description of a JSONL input error; `source` names the input.
pub open spec fn lines_message(e: LinesFault, source: Seq<char>) -> Seq<char> {
    match e {
        LinesFault::Line(n, _) => "parsing "@ + source + " line "@ + crate::text::decimal(n),
        LinesFault::NoRecords => "no JSONL records found in "@ + source,
    }
}

impl ImportLinesError {
    /// The description of the error; `source` names the input (a path, or
    /// `stdin`).
    pub fn message(&self, source: &str) -> (r: String)
        ensures
            r@ == lines_message(self@, source@),
    {
        match self {
            ImportLinesError::Line(n, _) => {
                let mut s = string_from("parsing ");
                push_str(&mut s, source);
                push_str(&mut s, " line ");
                crate::text::push_decimal(&mut s, *n as u64);
                s
            },
            ImportLinesError::NoRecords => {
                let mut s = string_from("no JSONL records found in ");
                push_str(&mut s, source);
                s
            },
        }
    }
}

} // verus!
