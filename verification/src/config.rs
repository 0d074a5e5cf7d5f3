//! Settings: where the configuration comes from, the embedding and schema
//! JSON arguments, and the order in which command-line values, embedding
//! settings, schema defaults and the configuration combine.
use vstd::prelude::*;
use crate::json::{JsonModel, JsonValue, items_model, lemma_model_of_array, parse_json, serde_json_from_str};
use crate::text::{chars_of, clone_opt, is_whitespace, is_ws, opt_ref_str, opt_str, push_str, str_eq, string_from, strs, trim, trim_bounds, string_of_range, trim_start};

verus! {

broadcast use vstd::string::group_string_axioms;

/// The embedding model used when nothing names one.
pub open spec fn default_model() -> Seq<char> {
    "bge-m3"@
}

/// The schema text field preferred when a schema declares several.
pub open spec fn default_text_field() -> Seq<char> {
    "text"@
}

/// The schema vector field preferred when a schema declares several.
pub open spec fn default_vector_field() -> Seq<char> {
    "embedding"@
}

/// The first of two optional values that is present.
pub open spec fn first_of<T>(a: Option<T>, b: Option<T>) -> Option<T> {
    match a {
        Some(x) => Some(x),
        None => b,
    }
}

// ---------------------------------------------------------------------------
// Errors
// ---------------------------------------------------------------------------

/// Why a setting could not be resolved.
#[derive(Debug)]
pub enum ConfigError {
    /// The configuration argument holds only whitespace.
    EmptyConfig,
    /// The embedding settings are not JSON; the parser's message.
    EmbeddingJson(String),
    /// The embedding settings are JSON but not an object.
    EmbeddingNotObject,
    /// The schema is not JSON; the parser's message.
    SchemaJson(String),
    /// The schema has no `fields` array.
    SchemaWithoutFields,
    /// No database path on the command line nor in the configuration.
    MissingDbPath,
    /// The model names a provider before `/` that differs from the given one.
    ModelConflict { model: String, provider: String, model_provider: String, model_name: String },
}

pub enum ConfigFault {
    EmptyConfig,
    EmbeddingJson(Seq<char>),
    EmbeddingNotObject,
    SchemaJson(Seq<char>),
    SchemaWithoutFields,
    MissingDbPath,
    ModelConflict { model: Seq<char>, provider: Seq<char>, model_provider: Seq<char>, model_name: Seq<char> },
}

impl View for ConfigError {
    type V = ConfigFault;

    open spec fn view(&self) -> ConfigFault {
        match *self {
            ConfigError::EmptyConfig => ConfigFault::EmptyConfig,
            ConfigError::EmbeddingJson(m) => ConfigFault::EmbeddingJson(m@),
            ConfigError::EmbeddingNotObject => ConfigFault::EmbeddingNotObject,
            ConfigError::SchemaJson(m) => ConfigFault::SchemaJson(m@),
            ConfigError::SchemaWithoutFields => ConfigFault::SchemaWithoutFields,
            ConfigError::MissingDbPath => ConfigFault::MissingDbPath,
            ConfigError::ModelConflict { model, provider, model_provider, model_name } => ConfigFault::ModelConflict {
                model: model@,
                provider: provider@,
                model_provider: model_provider@,
                model_name: model_name@,
            },
        }
    }
}

/// The one-line description of a configuration error.
pub open spec fn config_message(e: ConfigFault) -> Seq<char> {
    match e {
        ConfigFault::EmptyConfig => "config cannot be empty"@,
        ConfigFault::EmbeddingJson(_) => "parsing embedding JSON"@,
        ConfigFault::EmbeddingNotObject => "embedding config must be a JSON object"@,
        ConfigFault::SchemaJson(_) => "parsing schema JSON"@,
        ConfigFault::SchemaWithoutFields => "schema JSON must contain fields array"@,
        ConfigFault::MissingDbPath => "missing db path: pass --db or config data_path"@,
        ConfigFault::ModelConflict { model, provider, model_provider, model_name } => "model `"@ + model
            + "` conflicts with provider `"@ + provider + "`; use `"@ + model_name + "` or provider `"@
            + model_provider + "`"@,
    }
}

impl ConfigError {
    /// The one-line description of the error.
    pub fn message(&self) -> (r: String)
        ensures
            r@ == config_message(self@),
    {
        match self {
            ConfigError::EmptyConfig => string_from("config cannot be empty"),
            ConfigError::EmbeddingJson(_) => string_from("parsing embedding JSON"),
            ConfigError::EmbeddingNotObject => string_from("embedding config must be a JSON object"),
            ConfigError::SchemaJson(_) => string_from("parsing schema JSON"),
            ConfigError::SchemaWithoutFields => string_from("schema JSON must contain fields array"),
            ConfigError::MissingDbPath => string_from("missing db path: pass --db or config data_path"),
            ConfigError::ModelConflict { model, provider, model_provider, model_name } => {
                let mut s = string_from("model `");
                push_str(&mut s, model.as_str());
                push_str(&mut s, "` conflicts with provider `");
                push_str(&mut s, provider.as_str());
                push_str(&mut s, "`; use `");
                push_str(&mut s, model_name.as_str());
                push_str(&mut s, "` or provider `");
                push_str(&mut s, model_provider.as_str());
                push_str(&mut s, "`");
                s
            },
        }
    }
}

// ---------------------------------------------------------------------------
// The configuration
// ---------------------------------------------------------------------------

/// Settings read from the configuration. Paths are kept as text.
#[derive(Debug)]
pub struct AppConfig {
    pub data_path: Option<String>,
    pub default_vector_model: Option<String>,
    pub provider: Option<String>,
    pub base_url: Option<String>,
    /// Embedding settings, as JSON text.
    pub embedding: Option<String>,
}

#[verifier::ext_equal]
pub struct ConfigView {
    pub data_path: Option<Seq<char>>,
    pub default_vector_model: Option<Seq<char>>,
    pub provider: Option<Seq<char>>,
    pub base_url: Option<Seq<char>>,
    pub embedding: Option<Seq<char>>,
}

impl View for AppConfig {
    type V = ConfigView;

    open spec fn view(&self) -> ConfigView {
        ConfigView {
            data_path: opt_str(self.data_path),
            default_vector_model: opt_str(self.default_vector_model),
            provider: opt_str(self.provider),
            base_url: opt_str(self.base_url),
            embedding: opt_str(self.embedding),
        }
    }
}

impl Default for AppConfig {
    fn default() -> (r: AppConfig)
        ensures
            r.data_path is None,
            r.default_vector_model is None,
            r.provider is None,
            r.base_url is None,
            r.embedding is None,
    {
        AppConfig { data_path: None, default_vector_model: None, provider: None, base_url: None, embedding: None }
    }
}

/// Where the configuration is read from.
#[derive(Debug)]
pub enum ConfigSource {
    /// No configuration was given: every setting is absent.
    Defaults,
    /// The argument is the JSON text itself (trimmed).
    Inline(String),
    /// The argument names a file holding the JSON text (trimmed).
    File(String),
}

/// Decides where the configuration argument takes its JSON from: text that
/// starts with `{` once trimmed is the JSON itself, anything else a path.
pub fn config_source(config: Option<&str>) -> (r: Result<ConfigSource, ConfigError>)
    ensures
        match config {
            None => r matches Ok(ConfigSource::Defaults),
            Some(c) => {
                let t = trim(c@);
                if t.len() == 0 {
                    r matches Err(ConfigError::EmptyConfig)
                } else if t[0] == '{' {
                    r matches Ok(ConfigSource::Inline(s)) && s@ == t
                } else {
                    r matches Ok(ConfigSource::File(p)) && p@ == t
                }
            },
        },
{
    match config {
        None => Ok(ConfigSource::Defaults),
        Some(c) => {
            let v = chars_of(c);
            let (lo, hi) = trim_bounds(v.as_slice(), 0, v.len());
            assert(v@.subrange(0, v@.len() as int) =~= v@);
            let t = string_of_range(v.as_slice(), lo, hi);
            if lo == hi {
                Err(ConfigError::EmptyConfig)
            } else if v[lo] == '{' {
                Ok(ConfigSource::Inline(t))
            } else {
                Ok(ConfigSource::File(t))
            }
        },
    }
}

/// Where a JSON argument (embedding settings, schema) takes its text from.
#[derive(Debug)]
pub enum JsonArgSource {
    /// The argument is the JSON text itself.
    Inline(String),
    /// The argument names a file holding the JSON text.
    File(String),
}

/// Decides where a JSON argument takes its text from: `@path` names a
/// file; text that starts with `{` after leading whitespace is the JSON
/// itself; anything else is a path.
pub fn json_arg_source(input: &str) -> (r: JsonArgSource)
    ensures
        if input@.len() > 0 && input@[0] == '@' {
            r matches JsonArgSource::File(p) && p@ == input@.drop_first()
        } else if trim_start(input@).len() > 0 && trim_start(input@)[0] == '{' {
            r matches JsonArgSource::Inline(s) && s@ == input@
        } else {
            r matches JsonArgSource::File(p) && p@ == input@
        },
{
    let v = chars_of(input);
    if v.len() > 0 && v[0] == '@' {
        let p = string_of_range(v.as_slice(), 1, v.len());
        assert(v@.subrange(1, v@.len() as int) =~= v@.drop_first());
        return JsonArgSource::File(p);
    }
    let mut lo: usize = 0;
    assert(v@.subrange(0, v@.len() as int) =~= v@);
    while lo < v.len() && is_whitespace(v[lo])
        invariant
            lo <= v@.len(),
            v@ == input@,
            trim_start(v@.subrange(lo as int, v@.len() as int)) == trim_start(v@),
        decreases v.len() - lo,
    {
        assert(v@.subrange(lo as int, v@.len() as int).drop_first() =~= v@.subrange(lo + 1, v@.len() as int));
        lo = lo + 1;
    }
    assert(v@.subrange(0, v@.len() as int) =~= v@);
    assert(trim_start(v@.subrange(lo as int, v@.len() as int)) == v@.subrange(lo as int, v@.len() as int));
    if lo < v.len() && v[lo] == '{' {
        JsonArgSource::Inline(string_from(input))
    } else {
        JsonArgSource::File(string_from(input))
    }
}

// ---------------------------------------------------------------------------
// Precedence of settings
// ---------------------------------------------------------------------------

/// The database path: the command line's, else the configuration's.
pub fn resolve_db_path(db: Option<String>, config: &AppConfig) -> (r: Result<String, ConfigError>)
    ensures
        match first_of(opt_str(db), config@.data_path) {
            Some(p) => r matches Ok(s) && s@ == p,
            None => r matches Err(ConfigError::MissingDbPath),
        },
{
    match db {
        Some(d) => Ok(d),
        None => match &config.data_path {
            Some(p) => Ok(p.clone()),
            None => Err(ConfigError::MissingDbPath),
        },
    }
}

/// The embedding model: the command line's, else the configuration's,
/// else the default model.
pub fn resolve_model(model: Option<String>, config: &AppConfig) -> (r: String)
    ensures
        r@ == match first_of(opt_str(model), config@.default_vector_model) {
            Some(m) => m,
            None => default_model(),
        },
{
    match model {
        Some(m) => m,
        None => match &config.default_vector_model {
            Some(m) => m.clone(),
            None => string_from("bge-m3"),
        },
    }
}

/// The provider: the command line's, else the configuration's.
pub fn resolve_provider(provider: Option<String>, config: &AppConfig) -> (r: Option<String>)
    ensures
        opt_str(r) == first_of(opt_str(provider), config@.provider),
{
    match provider {
        Some(p) => Some(p),
        None => clone_opt(&config.provider),
    }
}

/// The base URL: the command line's, else the configuration's.
pub fn resolve_base_url(base_url: Option<String>, config: &AppConfig) -> (r: Option<String>)
    ensures
        opt_str(r) == first_of(opt_str(base_url), config@.base_url),
{
    match base_url {
        Some(u) => Some(u),
        None => clone_opt(&config.base_url),
    }
}

/// The embedding settings argument: the command line's, else the
/// configuration's.
pub fn merge_embedding_arg(cli: Option<String>, config: &AppConfig) -> (r: Option<String>)
    ensures
        opt_str(r) == first_of(opt_str(cli), config@.embedding),
{
    match cli {
        Some(e) => Some(e),
        None => clone_opt(&config.embedding),
    }
}

/// A path argument, where `-` stands for standard input or output.
pub fn path_arg_to_optional(path: Option<String>) -> (r: Option<String>)
    ensures
        opt_str(r) == match opt_str(path) {
            Some(p) => if p == seq!['-'] {
                None
            } else {
                Some(p)
            },
            None => None,
        },
{
    proof {
        reveal_strlit("-");
        assert("-"@ =~= seq!['-']);
    }
    match path {
        Some(p) => {
            if str_eq(p.as_str(), "-") {
                None
            } else {
                Some(p)
            }
        },
        None => None,
    }
}

/// Position of the first `c` in `s`.
pub open spec fn first_index_of(s: Seq<char>, c: char) -> Option<int>
    decreases s.len(),
{
    if s.len() == 0 {
        None
    } else {
        match first_index_of(s.drop_last(), c) {
            Some(i) => Some(i),
            None => if s.last() == c {
                Some(s.len() - 1)
            } else {
                None
            },
        }
    }
}

proof fn lemma_first_index_prefix(s: Seq<char>, c: char, i: int)
    requires
        0 <= i <= s.len(),
        first_index_of(s.take(i), c) is Some,
    ensures
        first_index_of(s, c) == first_index_of(s.take(i), c),
    decreases s.len() - i,
{
    if i < s.len() {
        assert(s.take(i + 1).drop_last() =~= s.take(i));
        lemma_first_index_prefix(s, c, i + 1);
    } else {
        assert(s.take(i) =~= s);
    }
}

/// `str::split_once` on one character: the text before the first `c`
/// and the text after it.
pub open spec fn split_once(s: Seq<char>, c: char) -> Option<(Seq<char>, Seq<char>)> {
    match first_index_of(s, c) {
        Some(i) => Some((s.take(i), s.skip(i + 1))),
        None => None,
    }
}

/// The model name and provider handed to the embedding client.
pub open spec fn normalize_spec(model: Seq<char>, provider: Option<Seq<char>>) -> Result<(Seq<char>, Option<Seq<char>>), ConfigFault> {
    match provider {
        None => Ok((model, None)),
        Some(p) => match split_once(model, '/') {
            Some((mp, mn)) => if mp != p {
                Err(ConfigFault::ModelConflict { model, provider: p, model_provider: mp, model_name: mn })
            } else {
                Ok((mn, Some(p)))
            },
            None => Ok((model, Some(p))),
        },
    }
}

/// With a provider given, a model written `provider/name` loses its prefix,
/// which must name that provider.
pub fn normalize_provider_model(model: &str, provider: Option<&str>) -> (r: Result<(String, Option<String>), ConfigError>)
    ensures
        match r {
            Ok((m, p)) => normalize_spec(model@, opt_ref_str(provider)) == Ok::<(Seq<char>, Option<Seq<char>>), ConfigFault>((m@, opt_str(p))),
            Err(e) => normalize_spec(model@, opt_ref_str(provider)) == Err::<(Seq<char>, Option<Seq<char>>), ConfigFault>(e@),
        },
{
    let p = match provider {
        None => return Ok((string_from(model), None)),
        Some(p) => p,
    };
    let v = chars_of(model);
    let mut i: usize = 0;
    while i < v.len()
        invariant
            i <= v@.len(),
            v@ == model@,
            provider == Some(p),
            first_index_of(v@.take(i as int), '/') is None,
        decreases v.len() - i,
    {
        assert(v@.take(i + 1).drop_last() =~= v@.take(i as int));
        assert(v@.take(i + 1).last() == v@[i as int]);
        if v[i] == '/' {
            assert(first_index_of(v@.take(i + 1), '/') == Some(i as int));
            proof {
                lemma_first_index_prefix(v@, '/', i + 1);
            }
            assert(first_index_of(model@, '/') == Some(i as int));
            let mp = string_of_range(v.as_slice(), 0, i);
            let mn = string_of_range(v.as_slice(), i + 1, v.len());
            assert(mp@ =~= v@.take(i as int));
            assert(mn@ =~= v@.skip(i + 1));
            assert(split_once(model@, '/') == Some((mp@, mn@)));
            if !str_eq(mp.as_str(), p) {
                let e = ConfigError::ModelConflict {
                    model: string_from(model),
                    provider: string_from(p),
                    model_provider: mp,
                    model_name: mn,
                };
                return Err(e);
            }
            return Ok((mn, Some(string_from(p))));
        }
        i = i + 1;
    }
    assert(v@.take(i as int) =~= v@);
    Ok((string_from(model), Some(string_from(p))))
}

// ---------------------------------------------------------------------------
// Embedding settings
// ---------------------------------------------------------------------------

/// The string value of member `k`, if it is a string.
pub open spec fn str_at(v: JsonModel, k: Seq<char>) -> Option<Seq<char>> {
    match v.get(k) {
        Some(x) => x.as_str(),
        None => None,
    }
}

/// The value of member `k`, if it is a non-negative integer.
pub open spec fn u64_at(v: JsonModel, k: Seq<char>) -> Option<u64> {
    match v.get(k) {
        Some(x) => x.as_u64(),
        None => None,
    }
}

fn string_member(v: &JsonValue, k: &str) -> (r: Option<String>)
    ensures
        opt_str(r) == str_at(v@, k@),
{
    match v.get(k) {
        Some(x) => match x.as_str() {
            Some(s) => Some(s.clone()),
            None => None,
        },
        None => None,
    }
}

fn u64_member(v: &JsonValue, k: &str) -> (r: Option<u64>)
    ensures
        r == u64_at(v@, k@),
{
    match v.get(k) {
        Some(x) => x.as_u64(),
        None => None,
    }
}

/// Embedding settings.
#[derive(Debug)]
pub struct EmbeddingConfig {
    pub model: Option<String>,
    pub provider: Option<String>,
    pub base_url: Option<String>,
    pub dimensions: Option<usize>,
    pub text_field: Option<String>,
    pub vector_field: Option<String>,
}

#[verifier::ext_equal]
pub struct EmbeddingView {
    pub model: Option<Seq<char>>,
    pub provider: Option<Seq<char>>,
    pub base_url: Option<Seq<char>>,
    pub dimensions: Option<usize>,
    pub text_field: Option<Seq<char>>,
    pub vector_field: Option<Seq<char>>,
}

impl View for EmbeddingConfig {
    type V = EmbeddingView;

    open spec fn view(&self) -> EmbeddingView {
        EmbeddingView {
            model: opt_str(self.model),
            provider: opt_str(self.provider),
            base_url: opt_str(self.base_url),
            dimensions: self.dimensions,
            text_field: opt_str(self.text_field),
            vector_field: opt_str(self.vector_field),
        }
    }
}

pub open spec fn no_embedding_settings() -> EmbeddingView {
    EmbeddingView { model: None, provider: None, base_url: None, dimensions: None, text_field: None, vector_field: None }
}

/// The embedding settings a JSON text holds: the string members `model`,
/// `provider`, `base_url`, `text_field`, `vector_field` and the integer
/// member `dimensions`, each absent when missing or of another type.
pub open spec fn embedding_spec(text: Seq<char>) -> Result<EmbeddingView, ConfigFault> {
    match serde_json_from_str(text) {
        Err(m) => Err(ConfigFault::EmbeddingJson(m)),
        Ok(v) => embedding_value_spec(v),
    }
}

/// The embedding settings a parsed JSON value holds.
pub open spec fn embedding_value_spec(v: JsonModel) -> Result<EmbeddingView, ConfigFault> {
    match v {
        JsonModel::Object(_) => Ok(EmbeddingView {
            model: str_at(v, "model"@),
            provider: str_at(v, "provider"@),
            base_url: str_at(v, "base_url"@),
            dimensions: match u64_at(v, "dimensions"@) {
                Some(d) => Some(d as usize),
                None => None,
            },
            text_field: str_at(v, "text_field"@),
            vector_field: str_at(v, "vector_field"@),
        }),
        _ => Err(ConfigFault::EmbeddingNotObject),
    }
}

/// Reads embedding settings from a parsed JSON value.
pub fn embedding_config_of(v: &JsonValue) -> (r: Result<EmbeddingConfig, ConfigError>)
    ensures
        match r {
            Ok(c) => embedding_value_spec(v@) == Ok::<EmbeddingView, ConfigFault>(c@),
            Err(e) => embedding_value_spec(v@) == Err::<EmbeddingView, ConfigFault>(e@),
        },
{
    match v {
        JsonValue::Object(_) => {},
        _ => return Err(ConfigError::EmbeddingNotObject),
    }
    let dimensions = match u64_member(v, "dimensions") {
        Some(d) => Some(d as usize),
        None => None,
    };
    let c = EmbeddingConfig {
        model: string_member(v, "model"),
        provider: string_member(v, "provider"),
        base_url: string_member(v, "base_url"),
        dimensions,
        text_field: string_member(v, "text_field"),
        vector_field: string_member(v, "vector_field"),
    };
    assert(c@ =~= embedding_value_spec(v@)->Ok_0);
    Ok(c)
}

/// The embedding settings of an optional JSON text; none without one.
pub open spec fn embedding_arg_spec(text: Option<Seq<char>>) -> Result<EmbeddingView, ConfigFault> {
    match text {
        None => Ok(no_embedding_settings()),
        Some(t) => embedding_spec(t),
    }
}

/// Reads embedding settings from their JSON text (already loaded, see
/// `json_arg_source`).
pub fn parse_embedding_config(input: Option<&str>) -> (r: Result<EmbeddingConfig, ConfigError>)
    ensures
        match r {
            Ok(c) => embedding_arg_spec(opt_ref_str(input)) == Ok::<EmbeddingView, ConfigFault>(c@),
            Err(e) => embedding_arg_spec(opt_ref_str(input)) == Err::<EmbeddingView, ConfigFault>(e@),
        },
{
    let text = match input {
        None => {
            let c = EmbeddingConfig { model: None, provider: None, base_url: None, dimensions: None, text_field: None, vector_field: None };
            assert(c@ =~= no_embedding_settings());
            return Ok(c);
        },
        Some(t) => t,
    };
    match parse_json(text) {
        Ok(v) => embedding_config_of(&v),
        Err(m) => Err(ConfigError::EmbeddingJson(m)),
    }
}

// ---------------------------------------------------------------------------
// Schema defaults
// ---------------------------------------------------------------------------

/// A schema entry that is an object with a string `name` and a string
/// `type`: its name, type and integer `dimension`, if any.
pub open spec fn schema_entry(f: JsonModel) -> Option<(Seq<char>, Seq<char>, Option<u64>)> {
    match f {
        JsonModel::Object(_) => match (str_at(f, "name"@), str_at(f, "type"@)) {
            (Some(n), Some(t)) => Some((n, t, u64_at(f, "dimension"@))),
            _ => None,
        },
        _ => None,
    }
}

/// Names of the entries of type `string`, in order.
pub open spec fn schema_text_fields(fs: Seq<JsonModel>) -> Seq<Seq<char>>
    decreases fs.len(),
{
    if fs.len() == 0 {
        Seq::empty()
    } else {
        let rest = schema_text_fields(fs.drop_last());
        match schema_entry(fs.last()) {
            Some((n, t, _)) => if t == "string"@ {
                rest.push(n)
            } else {
                rest
            },
            None => rest,
        }
    }
}

/// Names and dimensions of the entries of type `vector_fp32`, in order.
pub open spec fn schema_vector_fields(fs: Seq<JsonModel>) -> Seq<(Seq<char>, Option<u64>)>
    decreases fs.len(),
{
    if fs.len() == 0 {
        Seq::empty()
    } else {
        let rest = schema_vector_fields(fs.drop_last());
        match schema_entry(fs.last()) {
            Some((n, t, d)) => if t == "vector_fp32"@ {
                rest.push((n, d))
            } else {
                rest
            },
            None => rest,
        }
    }
}

/// The first vector field named `k`.
pub open spec fn first_named(vs: Seq<(Seq<char>, Option<u64>)>, k: Seq<char>) -> Option<(Seq<char>, Option<u64>)>
    decreases vs.len(),
{
    if vs.len() == 0 {
        None
    } else {
        match first_named(vs.drop_last(), k) {
            Some(p) => Some(p),
            None => if vs.last().0 == k {
                Some(vs.last())
            } else {
                None
            },
        }
    }
}

proof fn lemma_first_named_prefix(vs: Seq<(Seq<char>, Option<u64>)>, k: Seq<char>, i: int)
    requires
        0 <= i <= vs.len(),
        first_named(vs.take(i), k) is Some,
    ensures
        first_named(vs, k) == first_named(vs.take(i), k),
    decreases vs.len() - i,
{
    if i < vs.len() {
        assert(vs.take(i + 1).drop_last() =~= vs.take(i));
        lemma_first_named_prefix(vs, k, i + 1);
    } else {
        assert(vs.take(i) =~= vs);
    }
}

/// The text field a schema suggests: `text` when declared, else the only
/// text field, else none.
pub open spec fn pick_text_field(ts: Seq<Seq<char>>) -> Option<Seq<char>> {
    if ts.contains(default_text_field()) {
        Some(default_text_field())
    } else if ts.len() == 1 {
        Some(ts[0])
    } else {
        None
    }
}

/// The vector field a schema suggests: the first named `embedding`, else
/// the only vector field, else none.
pub open spec fn pick_vector_field(vs: Seq<(Seq<char>, Option<u64>)>) -> Option<(Seq<char>, Option<u64>)> {
    match first_named(vs, default_vector_field()) {
        Some(p) => Some(p),
        None => if vs.len() == 1 {
            Some(vs[0])
        } else {
            None
        },
    }
}

/// Defaults a schema suggests for an import.
#[derive(Debug)]
pub struct SchemaDefaults {
    pub text_field: Option<String>,
    pub vector_field: Option<String>,
    pub dim: Option<usize>,
}

#[verifier::ext_equal]
pub struct SchemaView {
    pub text_field: Option<Seq<char>>,
    pub vector_field: Option<Seq<char>>,
    pub dim: Option<usize>,
}

impl View for SchemaDefaults {
    type V = SchemaView;

    open spec fn view(&self) -> SchemaView {
        SchemaView { text_field: opt_str(self.text_field), vector_field: opt_str(self.vector_field), dim: self.dim }
    }
}

pub open spec fn no_schema_defaults() -> SchemaView {
    SchemaView { text_field: None, vector_field: None, dim: None }
}

/// The defaults a schema JSON text suggests, from its `fields` array.
pub open spec fn schema_spec(text: Seq<char>) -> Result<SchemaView, ConfigFault> {
    match serde_json_from_str(text) {
        Err(m) => Err(ConfigFault::SchemaJson(m)),
        Ok(v) => schema_value_spec(v),
    }
}

/// The defaults a parsed schema suggests, from its `fields` array.
pub open spec fn schema_value_spec(v: JsonModel) -> Result<SchemaView, ConfigFault> {
    match v.get("fields"@) {
        Some(JsonModel::Array(fs)) => {
            let vf = pick_vector_field(schema_vector_fields(fs));
            Ok(SchemaView {
                text_field: pick_text_field(schema_text_fields(fs)),
                vector_field: match vf {
                    Some(p) => Some(p.0),
                    None => None,
                },
                dim: match vf {
                    Some((_, Some(d))) => Some(d as usize),
                    _ => None,
                },
            })
        },
        _ => Err(ConfigFault::SchemaWithoutFields),
    }
}

/// The defaults of an optional schema text; none without one.
pub open spec fn schema_arg_spec(text: Option<Seq<char>>) -> Result<SchemaView, ConfigFault> {
    match text {
        None => Ok(no_schema_defaults()),
        Some(t) => schema_spec(t),
    }
}

pub open spec fn fields_model(v: Seq<(String, Option<u64>)>) -> Seq<(Seq<char>, Option<u64>)> {
    v.map_values(|p: (String, Option<u64>)| (p.0@, p.1))
}

fn schema_entry_of(f: &JsonValue) -> (r: Option<(String, String, Option<u64>)>)
    ensures
        match r {
            Some((n, t, d)) => schema_entry(f@) == Some((n@, t@, d)),
            None => schema_entry(f@) is None,
        },
{
    match f {
        JsonValue::Object(_) => {},
        _ => return None,
    }
    let n = match string_member(f, "name") {
        Some(n) => n,
        None => return None,
    };
    let t = match string_member(f, "type") {
        Some(t) => t,
        None => return None,
    };
    Some((n, t, u64_member(f, "dimension")))
}

fn contains_string(v: &Vec<String>, k: &str) -> (b: bool)
    ensures
        b == strs(v@).contains(k@),
{
    let mut i: usize = 0;
    while i < v.len()
        invariant
            i <= v@.len(),
            forall|j: int| 0 <= j < i ==> strs(v@)[j] != k@,
        decreases v.len() - i,
    {
        if str_eq(v[i].as_str(), k) {
            assert(strs(v@)[i as int] == k@);
            return true;
        }
        i = i + 1;
    }
    false
}

fn find_named(v: &Vec<(String, Option<u64>)>, k: &str) -> (r: Option<usize>)
    ensures
        match r {
            Some(j) => j < v@.len() && first_named(fields_model(v@), k@) == Some(fields_model(v@)[j as int]),
            None => first_named(fields_model(v@), k@) is None,
        },
{
    let ghost vs = fields_model(v@);
    let mut j: usize = 0;
    while j < v.len()
        invariant
            j <= v@.len(),
            vs == fields_model(v@),
            first_named(vs.take(j as int), k@) is None,
        decreases v.len() - j,
    {
        assert(vs.take(j + 1).drop_last() =~= vs.take(j as int));
        assert(vs.take(j + 1).last() == vs[j as int]);
        if str_eq(v[j].0.as_str(), k) {
            proof {
                lemma_first_named_prefix(vs, k@, j + 1);
            }
            return Some(j);
        }
        j = j + 1;
    }
    assert(vs.take(j as int) =~= vs);
    None
}

/// Reads the defaults a parsed schema suggests.
pub fn schema_defaults_of(v: &JsonValue) -> (r: Result<SchemaDefaults, ConfigError>)
    ensures
        match r {
            Ok(d) => schema_value_spec(v@) == Ok::<SchemaView, ConfigFault>(d@),
            Err(e) => schema_value_spec(v@) == Err::<SchemaView, ConfigFault>(e@),
        },
{
    let a = match v.get("fields") {
        Some(JsonValue::Array(a)) => a,
        _ => return Err(ConfigError::SchemaWithoutFields),
    };
    proof {
        lemma_model_of_array(*a);
    }
    let ghost fs = items_model(a@);
    let mut text_fields: Vec<String> = Vec::new();
    let mut vector_fields: Vec<(String, Option<u64>)> = Vec::new();
    let mut i: usize = 0;
    while i < a.len()
        invariant
            i <= a@.len(),
            fs == items_model(a@),
            strs(text_fields@) == schema_text_fields(fs.take(i as int)),
            fields_model(vector_fields@) == schema_vector_fields(fs.take(i as int)),
        decreases a.len() - i,
    {
        assert(fs.take(i + 1).drop_last() =~= fs.take(i as int));
        assert(fs.take(i + 1).last() == a@[i as int]@);
        proof {
            reveal_strlit("string");
            reveal_strlit("vector_fp32");
            assert("string"@.len() != "vector_fp32"@.len());
        }
        match schema_entry_of(&a[i]) {
            Some((n, t, d)) => {
                if str_eq(t.as_str(), "string") {
                    let ghost before = text_fields@;
                    text_fields.push(n);
                    assert(strs(text_fields@) =~= strs(before).push(n@));
                } else if str_eq(t.as_str(), "vector_fp32") {
                    let ghost before = vector_fields@;
                    let ghost nv = n@;
                    vector_fields.push((n, d));
                    assert(fields_model(vector_fields@) =~= fields_model(before).push((nv, d)));
                }
            },
            None => {},
        }
        i = i + 1;
    }
    assert(fs.take(i as int) =~= fs);
    let ghost ts = schema_text_fields(fs);
    let ghost vs = schema_vector_fields(fs);
    let text_field = if contains_string(&text_fields, "text") {
        Some(string_from("text"))
    } else if text_fields.len() == 1 {
        Some(text_fields[0].clone())
    } else {
        None
    };
    assert(opt_str(text_field) == pick_text_field(ts));
    let found = find_named(&vector_fields, "embedding");
    let pick: Option<usize> = match found {
        Some(k) => Some(k),
        None => if vector_fields.len() == 1 {
            Some(0)
        } else {
            None
        },
    };
    let (vector_field, dim) = match pick {
        Some(k) => {
            assert(pick_vector_field(vs) == Some(vs[k as int]));
            let dim = match vector_fields[k].1 {
                Some(d) => Some(d as usize),
                None => None,
            };
            (Some(vector_fields[k].0.clone()), dim)
        },
        None => (None, None),
    };
    let d = SchemaDefaults { text_field, vector_field, dim };
    assert(d@ =~= schema_value_spec(v@)->Ok_0);
    Ok(d)
}

/// Reads the defaults a schema suggests from its JSON text (already
/// loaded, see `json_arg_source`).
pub fn parse_schema_defaults(input: Option<&str>) -> (r: Result<SchemaDefaults, ConfigError>)
    ensures
        match r {
            Ok(d) => schema_arg_spec(opt_ref_str(input)) == Ok::<SchemaView, ConfigFault>(d@),
            Err(e) => schema_arg_spec(opt_ref_str(input)) == Err::<SchemaView, ConfigFault>(e@),
        },
{
    let text = match input {
        None => {
            let d = SchemaDefaults { text_field: None, vector_field: None, dim: None };
            assert(d@ =~= no_schema_defaults());
            return Ok(d);
        },
        Some(t) => t,
    };
    match parse_json(text) {
        Ok(v) => schema_defaults_of(&v),
        Err(m) => Err(ConfigError::SchemaJson(m)),
    }
}

// ---------------------------------------------------------------------------
// Import settings
// ---------------------------------------------------------------------------

/// The settings an import runs with, each taken from the first source that
/// has it.
#[derive(Debug)]
pub struct ImportOverrides {
    pub model: Option<String>,
    pub provider: Option<String>,
    pub base_url: Option<String>,
    pub vector_field: Option<String>,
    pub text_field: Option<String>,
    pub dim: Option<usize>,
}

#[verifier::ext_equal]
pub struct OverridesView {
    pub model: Option<Seq<char>>,
    pub provider: Option<Seq<char>>,
    pub base_url: Option<Seq<char>>,
    pub vector_field: Option<Seq<char>>,
    pub text_field: Option<Seq<char>>,
    pub dim: Option<usize>,
}

impl View for ImportOverrides {
    type V = OverridesView;

    open spec fn view(&self) -> OverridesView {
        OverridesView {
            model: opt_str(self.model),
            provider: opt_str(self.provider),
            base_url: opt_str(self.base_url),
            vector_field: opt_str(self.vector_field),
            text_field: opt_str(self.text_field),
            dim: self.dim,
        }
    }
}

/// The command-line values of an import.
pub struct ImportFlags {
    pub model: Option<Seq<char>>,
    pub provider: Option<Seq<char>>,
    pub base_url: Option<Seq<char>>,
    pub vector_field: Option<Seq<char>>,
    pub text_field: Option<Seq<char>>,
    pub dim: Option<usize>,
}

/// Import settings: the command line first, then the embedding settings
/// (the command line's, else the configuration's), then the schema for
/// the fields and the dimension, the configuration for the model, the
/// provider and the base URL. The embedding settings are read before the
/// schema, so their error comes first.
pub open spec fn import_overrides_spec(
    schema: Option<Seq<char>>,
    embedding: Option<Seq<char>>,
    flags: ImportFlags,
    config: ConfigView,
) -> Result<OverridesView, ConfigFault> {
    match embedding_arg_spec(first_of(embedding, config.embedding)) {
        Err(e) => Err(e),
        Ok(em) => match schema_arg_spec(schema) {
            Err(e) => Err(e),
            Ok(sc) => Ok(OverridesView {
                model: first_of(flags.model, first_of(em.model, config.default_vector_model)),
                provider: first_of(flags.provider, first_of(em.provider, config.provider)),
                base_url: first_of(flags.base_url, first_of(em.base_url, config.base_url)),
                vector_field: first_of(flags.vector_field, first_of(em.vector_field, sc.vector_field)),
                text_field: first_of(flags.text_field, first_of(em.text_field, sc.text_field)),
                dim: first_of(flags.dim, first_of(em.dimensions, sc.dim)),
            }),
        },
    }
}

fn or_string(a: Option<String>, b: Option<String>) -> (r: Option<String>)
    ensures
        opt_str(r) == first_of(opt_str(a), opt_str(b)),
{
    match a {
        Some(x) => Some(x),
        None => b,
    }
}

/// Resolves the settings of an import. `schema` and `embedding` hold JSON
/// text (already loaded, see `json_arg_source`), as does the
/// configuration's embedding setting.
pub fn resolve_import_overrides(
    schema: Option<String>,
    embedding: Option<String>,
    model: Option<String>,
    provider: Option<String>,
    base_url: Option<String>,
    vector_field: Option<String>,
    text_field: Option<String>,
    dim: Option<usize>,
    config: &AppConfig,
) -> (r: Result<ImportOverrides, ConfigError>)
    ensures
        ({
            let flags = ImportFlags {
                model: opt_str(model),
                provider: opt_str(provider),
                base_url: opt_str(base_url),
                vector_field: opt_str(vector_field),
                text_field: opt_str(text_field),
                dim,
            };
            match r {
                Ok(o) => import_overrides_spec(opt_str(schema), opt_str(embedding), flags, config@) == Ok::<OverridesView, ConfigFault>(o@),
                Err(e) => import_overrides_spec(opt_str(schema), opt_str(embedding), flags, config@) == Err::<OverridesView, ConfigFault>(e@),
            }
        }),
{
    let embedding_arg = merge_embedding_arg(embedding, config);
    let em = match &embedding_arg {
        Some(t) => parse_embedding_config(Some(t.as_str())),
        None => parse_embedding_config(None),
    };
    let em = match em {
        Ok(c) => c,
        Err(e) => return Err(e),
    };
    let sc = match &schema {
        Some(t) => parse_schema_defaults(Some(t.as_str())),
        None => parse_schema_defaults(None),
    };
    let sc = match sc {
        Ok(d) => d,
        Err(e) => return Err(e),
    };
    let o = ImportOverrides {
        model: or_string(model, or_string(em.model, clone_opt(&config.default_vector_model))),
        provider: or_string(provider, or_string(em.provider, clone_opt(&config.provider))),
        base_url: or_string(base_url, or_string(em.base_url, clone_opt(&config.base_url))),
        vector_field: or_string(vector_field, or_string(em.vector_field, sc.vector_field)),
        text_field: or_string(text_field, or_string(em.text_field, sc.text_field)),
        dim: match dim {
            Some(d) => Some(d),
            None => match em.dimensions {
                Some(d) => Some(d),
                None => sc.dim,
            },
        },
    };
    Ok(o)
}

} // verus!
