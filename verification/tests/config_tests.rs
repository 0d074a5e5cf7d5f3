use turbovec_rs::json::{JsonNumber, JsonValue};
use turbovec_rs::config::{
    config_source, embedding_config_of, schema_defaults_of, json_arg_source, merge_embedding_arg, normalize_provider_model, parse_embedding_config,
    parse_schema_defaults, path_arg_to_optional, resolve_base_url, resolve_db_path, resolve_import_overrides,
    resolve_model, resolve_provider, AppConfig, ConfigError, ConfigSource, JsonArgSource,
};

#[test]
fn resolves_index_and_model_with_cli_precedence() {
    let config = AppConfig {
        data_path: Some("/tmp/config.tvim".to_string()),
        default_vector_model: Some("ollama/bge-m3".to_string()),
        provider: Some("ollama".to_string()),
        base_url: Some("http://example.test".to_string()),
        embedding: None,
    };

    assert_eq!(
        resolve_db_path(Some("/tmp/cli.tvim".to_string()), &config).unwrap(),
        "/tmp/cli.tvim"
    );
    assert_eq!(resolve_db_path(None, &config).unwrap(), "/tmp/config.tvim");
    assert_eq!(resolve_model(Some("cli-model".to_string()), &config), "cli-model");
    assert_eq!(resolve_model(None, &config), "ollama/bge-m3");
    assert_eq!(
        resolve_provider(Some("yxt".to_string()), &config).as_deref(),
        Some("yxt")
    );
    assert_eq!(
        resolve_base_url(Some("http://cli.test".to_string()), &config).as_deref(),
        Some("http://cli.test")
    );
}

#[test]
fn normalizes_provider_prefixed_model_when_provider_is_explicit() {
    let (model, provider) = normalize_provider_model("ollama/bge-m3", Some("ollama")).unwrap();
    assert_eq!(model, "bge-m3");
    assert_eq!(provider.as_deref(), Some("ollama"));

    let err = normalize_provider_model("ollama/bge-m3", Some("yxt"))
        .unwrap_err()
        .message();
    assert!(err.contains("conflicts"));
}

#[test]
fn schema_none_returns_empty_defaults() {
    let defaults = parse_schema_defaults(None).unwrap();
    assert!(defaults.text_field.is_none());
    assert!(defaults.vector_field.is_none());
    assert!(defaults.dim.is_none());
}

#[test]
fn schema_requires_fields_array() {
    let err = parse_schema_defaults(Some(r#"{"foo":"bar"}"#))
        .unwrap_err()
        .message();
    assert!(err.contains("schema JSON must contain fields array"));
}

#[test]
fn schema_picks_default_text_field_when_present() {
    let defaults = parse_schema_defaults(Some(
        r#"{"fields":[{"name":"text","type":"string"},{"name":"title","type":"string"}]}"#,
    ))
    .unwrap();
    assert_eq!(defaults.text_field.as_deref(), Some("text"));
}

#[test]
fn schema_picks_lone_text_field() {
    let defaults =
        parse_schema_defaults(Some(r#"{"fields":[{"name":"title","type":"string"}]}"#)).unwrap();
    assert_eq!(defaults.text_field.as_deref(), Some("title"));
}

#[test]
fn schema_returns_none_text_field_when_multiple_ambiguous() {
    let defaults = parse_schema_defaults(Some(
        r#"{"fields":[{"name":"title","type":"string"},{"name":"abstract","type":"string"}]}"#,
    ))
    .unwrap();
    assert!(defaults.text_field.is_none(), "got {:?}", defaults.text_field);
}

#[test]
fn schema_picks_default_vector_field_with_dim() {
    let defaults = parse_schema_defaults(Some(
        r#"{"fields":[
            {"name":"embedding","type":"vector_fp32","dimension":1024},
            {"name":"content","type":"string"}
        ]}"#,
    ))
    .unwrap();
    assert_eq!(defaults.vector_field.as_deref(), Some("embedding"));
    assert_eq!(defaults.dim, Some(1024));
    assert_eq!(defaults.text_field.as_deref(), Some("content"));
}

#[test]
fn schema_picks_lone_vector_field_and_carries_dim() {
    let defaults = parse_schema_defaults(Some(
        r#"{"fields":[{"name":"vec","type":"vector_fp32","dimension":768}]}"#,
    ))
    .unwrap();
    assert_eq!(defaults.vector_field.as_deref(), Some("vec"));
    assert_eq!(defaults.dim, Some(768));
}

#[test]
fn schema_returns_none_vector_field_when_multiple_vector_fp32() {
    let defaults = parse_schema_defaults(Some(
        r#"{"fields":[
            {"name":"a","type":"vector_fp32","dimension":8},
            {"name":"b","type":"vector_fp32","dimension":16}
        ]}"#,
    ))
    .unwrap();
    assert!(defaults.vector_field.is_none());
    assert!(defaults.dim.is_none());
}

#[test]
fn schema_skips_fields_missing_name_or_type() {
    let defaults = parse_schema_defaults(Some(
        r#"{"fields":[
            {"name":"untyped"},
            {"type":"string"},
            {"name":"content","type":"string"}
        ]}"#,
    ))
    .unwrap();
    assert_eq!(defaults.text_field.as_deref(), Some("content"));
    assert!(defaults.vector_field.is_none());
}

fn empty_config() -> AppConfig {
    AppConfig::default()
}

#[test]
fn import_overrides_defaults_to_empty_when_nothing_provided() {
    let overrides =
        resolve_import_overrides(None, None, None, None, None, None, None, None, &empty_config()).unwrap();
    assert!(overrides.model.is_none());
    assert!(overrides.provider.is_none());
    assert!(overrides.base_url.is_none());
    assert!(overrides.vector_field.is_none());
    assert!(overrides.text_field.is_none());
    assert!(overrides.dim.is_none());
}

#[test]
fn import_overrides_cli_flag_beats_embedding_schema_and_config() {
    let config = AppConfig {
        default_vector_model: Some("cfg-model".to_string()),
        provider: Some("cfg-provider".to_string()),
        base_url: Some("http://cfg.test".to_string()),
        ..AppConfig::default()
    };
    let overrides = resolve_import_overrides(
        Some(r#"{"fields":[{"name":"content","type":"string"},{"name":"emb","type":"vector_fp32","dimension":768}]}"#.to_string()),
        Some(r#"{"model":"emb-model","provider":"emb-provider","base_url":"http://emb.test","vector_field":"emb-vf","text_field":"emb-tf","dimensions":512}"#.to_string()),
        Some("cli-model".to_string()),
        Some("cli-provider".to_string()),
        Some("http://cli.test".to_string()),
        Some("cli-vf".to_string()),
        Some("cli-tf".to_string()),
        Some(1024),
        &config,
    )
    .unwrap();
    assert_eq!(overrides.model.as_deref(), Some("cli-model"));
    assert_eq!(overrides.provider.as_deref(), Some("cli-provider"));
    assert_eq!(overrides.base_url.as_deref(), Some("http://cli.test"));
    assert_eq!(overrides.vector_field.as_deref(), Some("cli-vf"));
    assert_eq!(overrides.text_field.as_deref(), Some("cli-tf"));
    assert_eq!(overrides.dim, Some(1024));
}

#[test]
fn import_overrides_embedding_json_beats_schema_and_config() {
    let config = AppConfig {
        default_vector_model: Some("cfg-model".to_string()),
        provider: Some("cfg-provider".to_string()),
        base_url: Some("http://cfg.test".to_string()),
        ..AppConfig::default()
    };
    let overrides = resolve_import_overrides(
        Some(r#"{"fields":[{"name":"content","type":"string"},{"name":"emb","type":"vector_fp32","dimension":768}]}"#.to_string()),
        Some(r#"{"model":"emb-model","provider":"emb-provider","base_url":"http://emb.test","vector_field":"emb-vf","text_field":"emb-tf","dimensions":512}"#.to_string()),
        None,
        None,
        None,
        None,
        None,
        None,
        &config,
    )
    .unwrap();
    assert_eq!(overrides.model.as_deref(), Some("emb-model"));
    assert_eq!(overrides.provider.as_deref(), Some("emb-provider"));
    assert_eq!(overrides.base_url.as_deref(), Some("http://emb.test"));
    assert_eq!(overrides.vector_field.as_deref(), Some("emb-vf"));
    assert_eq!(overrides.text_field.as_deref(), Some("emb-tf"));
    assert_eq!(overrides.dim, Some(512));
}

#[test]
fn import_overrides_schema_supplies_vector_field_text_field_and_dim() {
    let config = AppConfig {
        default_vector_model: Some("cfg-model".to_string()),
        provider: Some("cfg-provider".to_string()),
        base_url: Some("http://cfg.test".to_string()),
        ..AppConfig::default()
    };
    let overrides = resolve_import_overrides(
        Some(r#"{"fields":[{"name":"title","type":"string"},{"name":"vec","type":"vector_fp32","dimension":256}]}"#.to_string()),
        None,
        None,
        None,
        None,
        None,
        None,
        None,
        &config,
    )
    .unwrap();
    assert_eq!(overrides.model.as_deref(), Some("cfg-model"));
    assert_eq!(overrides.provider.as_deref(), Some("cfg-provider"));
    assert_eq!(overrides.base_url.as_deref(), Some("http://cfg.test"));
    assert_eq!(overrides.vector_field.as_deref(), Some("vec"));
    assert_eq!(overrides.text_field.as_deref(), Some("title"));
    assert_eq!(overrides.dim, Some(256));
}

#[test]
fn import_overrides_config_embedding_string_is_merged_via_merge_embedding_arg() {
    let config = AppConfig {
        embedding: Some(r#"{"model":"from-config-emb"}"#.to_string()),
        ..AppConfig::default()
    };
    let overrides =
        resolve_import_overrides(None, None, None, None, None, None, None, None, &config).unwrap();
    assert_eq!(overrides.model.as_deref(), Some("from-config-emb"));
}

#[test]
fn import_overrides_propagates_invalid_embedding_json_error() {
    let err = resolve_import_overrides(
        None,
        Some("{not valid json".to_string()),
        None,
        None,
        None,
        None,
        None,
        None,
        &empty_config(),
    )
    .unwrap_err()
    .message();
    assert!(err.contains("parsing embedding JSON"));
}

#[test]
fn import_overrides_propagates_invalid_schema_json_error() {
    let err = resolve_import_overrides(
        Some(r#"{"no-fields":true}"#.to_string()),
        None,
        None,
        None,
        None,
        None,
        None,
        None,
        &empty_config(),
    )
    .unwrap_err()
    .message();
    assert!(err.contains("schema JSON must contain fields array"));
}

// ---- further cases ----

#[test]
fn config_source_distinguishes_inline_json_file_and_empty() {
    assert!(matches!(config_source(None), Ok(ConfigSource::Defaults)));
    match config_source(Some("  {\"data_path\":\"/x\"}  ")) {
        Ok(ConfigSource::Inline(s)) => assert_eq!(s, "{\"data_path\":\"/x\"}"),
        other => panic!("unexpected {:?}", other),
    }
    match config_source(Some(" /etc/tv.json ")) {
        Ok(ConfigSource::File(p)) => assert_eq!(p, "/etc/tv.json"),
        other => panic!("unexpected {:?}", other),
    }
    let err = config_source(Some("   ")).unwrap_err();
    assert!(matches!(err, ConfigError::EmptyConfig));
    assert_eq!(err.message(), "config cannot be empty");
}

#[test]
fn json_arg_source_reads_at_files_inline_objects_and_paths() {
    match json_arg_source("@schema.json") {
        JsonArgSource::File(p) => assert_eq!(p, "schema.json"),
        other => panic!("unexpected {:?}", other),
    }
    match json_arg_source("  {\"fields\":[]}") {
        JsonArgSource::Inline(s) => assert_eq!(s, "  {\"fields\":[]}"),
        other => panic!("unexpected {:?}", other),
    }
    match json_arg_source("schema.json") {
        JsonArgSource::File(p) => assert_eq!(p, "schema.json"),
        other => panic!("unexpected {:?}", other),
    }
}

#[test]
fn resolve_db_path_fails_without_any_path() {
    let err = resolve_db_path(None, &empty_config()).unwrap_err();
    assert!(matches!(err, ConfigError::MissingDbPath));
    assert_eq!(err.message(), "missing db path: pass --db or config data_path");
}

#[test]
fn resolve_model_falls_back_to_default_model() {
    assert_eq!(resolve_model(None, &empty_config()), "bge-m3");
}

#[test]
fn provider_and_base_url_fall_back_to_config() {
    let config = AppConfig {
        provider: Some("ollama".to_string()),
        base_url: Some("http://cfg.test".to_string()),
        ..AppConfig::default()
    };
    assert_eq!(resolve_provider(None, &config).as_deref(), Some("ollama"));
    assert_eq!(resolve_base_url(None, &config).as_deref(), Some("http://cfg.test"));
    assert!(resolve_provider(None, &empty_config()).is_none());
}

#[test]
fn normalize_keeps_model_without_provider_or_prefix() {
    let (model, provider) = normalize_provider_model("ollama/bge-m3", None).unwrap();
    assert_eq!(model, "ollama/bge-m3");
    assert!(provider.is_none());
    let (model, provider) = normalize_provider_model("bge-m3", Some("ollama")).unwrap();
    assert_eq!(model, "bge-m3");
    assert_eq!(provider.as_deref(), Some("ollama"));
    let (model, _) = normalize_provider_model("a/b/c", Some("a")).unwrap();
    assert_eq!(model, "b/c");
}

#[test]
fn normalize_conflict_message_names_both_choices() {
    let err = normalize_provider_model("ollama/bge-m3", Some("yxt")).unwrap_err();
    assert_eq!(
        err.message(),
        "model `ollama/bge-m3` conflicts with provider `yxt`; use `bge-m3` or provider `ollama`"
    );
}

#[test]
fn path_arg_dash_means_standard_stream() {
    assert!(path_arg_to_optional(Some("-".to_string())).is_none());
    assert_eq!(path_arg_to_optional(Some("out.jsonl".to_string())).as_deref(), Some("out.jsonl"));
    assert!(path_arg_to_optional(None).is_none());
}

#[test]
fn merge_embedding_arg_prefers_cli() {
    let config = AppConfig {
        embedding: Some("{\"model\":\"cfg\"}".to_string()),
        ..AppConfig::default()
    };
    assert_eq!(
        merge_embedding_arg(Some("{}".to_string()), &config).as_deref(),
        Some("{}")
    );
    assert_eq!(merge_embedding_arg(None, &config).as_deref(), Some("{\"model\":\"cfg\"}"));
}

#[test]
fn embedding_config_reads_typed_members_only() {
    let c = parse_embedding_config(Some(
        r#"{"model":"m","provider":5,"dimensions":384,"text_field":"t","vector_field":"v","base_url":"u"}"#,
    ))
    .unwrap();
    assert_eq!(c.model.as_deref(), Some("m"));
    assert!(c.provider.is_none());
    assert_eq!(c.dimensions, Some(384));
    assert_eq!(c.text_field.as_deref(), Some("t"));
    assert_eq!(c.vector_field.as_deref(), Some("v"));
    assert_eq!(c.base_url.as_deref(), Some("u"));
    let neg = parse_embedding_config(Some(r#"{"dimensions":-3}"#)).unwrap();
    assert!(neg.dimensions.is_none());
}

#[test]
fn embedding_config_must_be_an_object() {
    let err = parse_embedding_config(Some("[1,2]")).unwrap_err();
    assert!(matches!(err, ConfigError::EmbeddingNotObject));
    assert_eq!(err.message(), "embedding config must be a JSON object");
    assert!(parse_embedding_config(None).unwrap().model.is_none());
}

#[test]
fn schema_that_is_not_json_is_refused() {
    let err = parse_schema_defaults(Some("{oops")).unwrap_err();
    assert!(matches!(err, ConfigError::SchemaJson(_)));
    assert_eq!(err.message(), "parsing schema JSON");
}

#[test]
fn schema_embedding_field_wins_among_several_vectors() {
    let d = parse_schema_defaults(Some(
        r#"{"fields":[{"name":"a","type":"vector_fp32","dimension":8},{"name":"embedding","type":"vector_fp32"}]}"#,
    ))
    .unwrap();
    assert_eq!(d.vector_field.as_deref(), Some("embedding"));
    assert!(d.dim.is_none());
}

#[test]
fn import_overrides_embedding_error_comes_before_schema_error() {
    let err = resolve_import_overrides(
        Some("{\"nofields\":1}".to_string()),
        Some("[]".to_string()),
        None,
        None,
        None,
        None,
        None,
        None,
        &empty_config(),
    )
    .unwrap_err();
    assert!(matches!(err, ConfigError::EmbeddingNotObject));
}

#[test]
fn parsed_values_give_settings_and_defaults() {
    fn s(x: &str) -> JsonValue {
        JsonValue::Str(x.to_string())
    }
    fn obj(m: Vec<(&str, JsonValue)>) -> JsonValue {
        JsonValue::Object(m.into_iter().map(|(k, v)| (k.to_string(), v)).collect())
    }
    let emb = obj(vec![("model", s("m")), ("dimensions", JsonValue::Number(JsonNumber::PosInt(64)))]);
    let c = embedding_config_of(&emb).unwrap();
    assert_eq!(c.model.as_deref(), Some("m"));
    assert_eq!(c.dimensions, Some(64));
    assert!(matches!(embedding_config_of(&s("x")), Err(ConfigError::EmbeddingNotObject)));

    let schema = obj(vec![(
        "fields",
        JsonValue::Array(vec![
            obj(vec![("name", s("v")), ("type", s("vector_fp32")), ("dimension", JsonValue::Number(JsonNumber::PosInt(16)))]),
            obj(vec![("name", s("body")), ("type", s("string"))]),
        ]),
    )]);
    let d = schema_defaults_of(&schema).unwrap();
    assert_eq!(d.vector_field.as_deref(), Some("v"));
    assert_eq!(d.dim, Some(16));
    assert_eq!(d.text_field.as_deref(), Some("body"));
    assert!(matches!(schema_defaults_of(&obj(vec![])), Err(ConfigError::SchemaWithoutFields)));
}
