use prompt_codec::config::{
    config_candidates, load_error, resolve_config_with_candidates, sanitize, sanitize_yaml, source_name,
    superseded_message, warn_reserved, AppConfig, Candidate, ConfigSource, LlmScope, LoadFailure,
    RawConfig, RawKey, RawSection,
};

#[test]
fn defaults_are_sane() {
    let c = AppConfig::default();
    assert_eq!(c.local.model, "gemma4:12b-mlx");
    assert_eq!(c.encoder.llm_scope, LlmScope::LastUser);
    assert_eq!(c.proxy.port, 8787);
    assert!(!c.encoder.list_trim_enabled);
}

#[test]
fn defaults_are_complete() {
    let c = AppConfig::default();
    assert_eq!(c.local.base_url, "http://127.0.0.1:11434/v1");
    assert_eq!(c.local.reasoning_effort, "none");
    assert_eq!(c.local.max_tokens, 2048);
    assert_eq!(c.encoder.mode, "hybrid");
    assert_eq!(c.encoder.protect_system_under_chars, 800);
    assert_eq!(c.encoder.min_chars_to_compress, 400);
    assert!(c.encoder.rules_enabled);
    assert_eq!(c.cache.max_entries, 4096);
    assert_eq!(c.proxy.host, "127.0.0.1");
    assert_eq!(c.proxy.upstream_base_url, "https://api.x.ai/v1");
    assert_eq!(c.proxy.upstream_api_key_env, "X_API_KEY");
    assert!(c.proxy.pass_client_auth && !c.proxy.require_client_auth && c.proxy.log_stats);
    assert_eq!(LlmScope::default(), LlmScope::LastUser);
}

fn key(name: &str) -> RawKey {
    RawKey {
        text: name.to_string(),
        is_name: true,
    }
}

fn nameless(text: &str) -> RawKey {
    RawKey {
        text: text.to_string(),
        is_name: false,
    }
}

fn section(name: &str, keys: &[&str]) -> RawSection {
    RawSection {
        key: key(name),
        keys: Some(keys.iter().map(|k| key(k)).collect()),
    }
}

fn names(raw: &RawConfig) -> Vec<(String, Vec<String>)> {
    match raw {
        RawConfig::Mapping(v) => v
            .iter()
            .map(|s| {
                let keys = match &s.keys {
                    Some(keys) => keys.iter().map(|k| k.text.clone()).collect(),
                    None => vec!["-".to_string()],
                };
                (s.key.text.clone(), keys)
            })
            .collect(),
        _ => panic!("no mapping"),
    }
}

#[test]
fn unknown_keys_are_dropped_with_a_warning() {
    let raw = RawConfig::Mapping(vec![
        section("local", &["model", "timeout_s"]),
        section("decoder", &["enabled"]),
        section("encoder", &["roles", "nonsense"]),
        section("stats", &["encoding", "usd_per_mtok_input"]),
    ]);
    let mut warnings = vec!["before".to_string()];
    let kept = sanitize(&raw, &mut warnings);
    assert_eq!(
        names(&kept),
        vec![
            ("local".to_string(), vec!["model".to_string()]),
            ("encoder".to_string(), vec![]),
            ("stats".to_string(), vec!["usd_per_mtok_input".to_string()]),
        ]
    );
    assert_eq!(
        warnings,
        vec![
            "before",
            "local.timeout_s is ignored in v2; use encoder.llm_timeout_s",
            "unknown config section ignored: decoder",
            "encoder.roles is ignored; role policy is fixed in v2",
            "unknown config key ignored: encoder.nonsense",
            "stats.encoding is ignored in v2; tokenizer is fixed to cl100k_base",
        ]
    );
    // A second time there is nothing left to drop.
    let mut again = vec![];
    assert_eq!(names(&sanitize(&kept, &mut again)), names(&kept));
    assert!(again.is_empty());
}

#[test]
fn what_is_no_name_goes_with_a_warning() {
    let raw = RawConfig::Mapping(vec![
        RawSection { key: nameless("1\n"), keys: None },
        RawSection { key: nameless("proxy"), keys: None },
        RawSection { key: key("proxy"), keys: None },
        RawSection { key: key("local"), keys: Some(vec![nameless("timeout_s"), key("model")]) },
    ]);
    let mut warnings = vec![];
    let kept = sanitize(&raw, &mut warnings);
    assert_eq!(
        names(&kept),
        vec![
            ("proxy".to_string(), vec!["-".to_string()]),
            ("local".to_string(), vec!["model".to_string()]),
        ]
    );
    assert_eq!(
        warnings,
        vec![
            "unknown config section ignored: 1",
            "unknown config section ignored: proxy",
            "unknown config key ignored: local.timeout_s",
        ]
    );
    let mut none = vec![];
    assert!(matches!(sanitize(&RawConfig::Null, &mut none), RawConfig::Mapping(v) if v.is_empty()));
    assert!(matches!(sanitize(&RawConfig::Other, &mut none), RawConfig::Other));
    assert!(none.is_empty());
}

fn from_yaml(text: &str) -> (Vec<(String, Vec<String>)>, Vec<String>) {
    let mut warnings = vec![];
    let kept = sanitize_yaml(text, &mut warnings).unwrap();
    (names(&kept), warnings)
}

#[test]
fn yaml_is_sorted_out() {
    assert_eq!(
        from_yaml("1: 2"),
        (vec![], vec!["unknown config section ignored: 1".to_string()])
    );
    assert_eq!(
        from_yaml("proxy:\n  true: 1\n  port: 2\n  [a, b]: 3\n").0,
        vec![("proxy".to_string(), vec!["port".to_string()])]
    );
    assert_eq!(
        from_yaml("proxy: [1, 2]\n"),
        (vec![("proxy".to_string(), vec!["-".to_string()])], vec![])
    );
    assert_eq!(from_yaml(""), (vec![], vec![]));
    let mut warnings = vec![];
    assert!(matches!(sanitize_yaml("[1]", &mut warnings), Some(RawConfig::Other)));
    assert!(sanitize_yaml("a: [", &mut warnings).is_none());
    assert!(warnings.is_empty());
}

#[test]
fn loads_yaml_and_warns_on_unknown_keys() {
    let (kept, warnings) = from_yaml(
        "local:\n  model: qwen3:8b\n  timeout_s: 120\ndecoder:\n  enabled: true\nencoder:\n  roles: [user]\n",
    );
    assert_eq!(
        kept,
        vec![
            ("local".to_string(), vec!["model".to_string()]),
            ("encoder".to_string(), vec![]),
        ]
    );
    let joined = warnings.join("\n");
    assert!(joined.contains("decoder"));
    assert!(joined.contains("local.timeout_s"));
    assert!(joined.contains("encoder.roles"));
}

#[test]
fn superseded_stats_encoding_key_warns() {
    let (kept, warnings) = from_yaml("stats:\n  encoding: cl100k_base\n  usd_per_mtok_input: 5.0\n");
    assert_eq!(kept, vec![("stats".to_string(), vec!["usd_per_mtok_input".to_string()])]);
    assert!(warnings.join("\n").contains("stats.encoding"));
}

#[test]
fn known_sections_map_covers_every_struct_field() {
    let raw = RawConfig::Mapping(vec![
        section(
            "local",
            &[
                "base_url",
                "api_key",
                "model",
                "temperature",
                "max_tokens",
                "reasoning_effort",
                "keep_alive",
            ],
        ),
        section(
            "encoder",
            &[
                "mode",
                "target_ratio",
                "protect_system_under_chars",
                "min_chars_to_compress",
                "rules_enabled",
                "llm_scope",
                "llm_timeout_s",
                "list_trim_enabled",
            ],
        ),
        section("cache", &["max_entries", "persist", "path", "max_disk_entries"]),
        section(
            "proxy",
            &[
                "host",
                "port",
                "upstream_base_url",
                "upstream_api_key_env",
                "upstream_auth_style",
                "pass_client_auth",
                "require_client_auth",
                "log_stats",
            ],
        ),
        section("stats", &["usd_per_mtok_input"]),
    ]);
    let mut warnings = Vec::new();
    let sanitized = sanitize(&raw, &mut warnings);
    assert_eq!(warnings, Vec::<String>::new());
    assert_eq!(names(&sanitized), names(&raw));
}

#[test]
fn superseded_keys_have_their_messages() {
    assert!(superseded_message("local", "timeout_s").unwrap().contains("local.timeout_s"));
    assert!(superseded_message("encoder", "roles").unwrap().contains("encoder.roles"));
    assert!(superseded_message("stats", "encoding").unwrap().contains("stats.encoding"));
    assert!(superseded_message("encoder", "timeout_s").is_none());
}

fn candidate(path: &str, exists: bool) -> Candidate {
    Candidate {
        path: path.to_string(),
        exists,
    }
}

#[test]
fn explicit_missing_file_is_error_and_source_tracks_defaults() {
    let r = resolve_config_with_candidates(Some(candidate("/nonexistent/x.yaml", false)), &vec![]);
    assert!(r.is_err());
    assert_eq!(r.unwrap_err(), "config file not found: /nonexistent/x.yaml");
}

#[test]
fn empty_candidate_chain_falls_through_to_defaults() {
    let source = resolve_config_with_candidates(None, &vec![]).unwrap();
    assert!(matches!(source, ConfigSource::Defaults));
    assert_eq!(source_name(&source), "built-in defaults");
}

#[test]
fn first_candidate_that_is_there_is_taken() {
    let all = vec![candidate("a", false), candidate("b", true), candidate("c", true)];
    let source = resolve_config_with_candidates(None, &all).unwrap();
    assert_eq!(source_name(&source), "b");
    let source = resolve_config_with_candidates(Some(candidate("x", true)), &all).unwrap();
    assert_eq!(source_name(&source), "x");
    let none = vec![candidate("a", false)];
    assert_eq!(
        source_name(&resolve_config_with_candidates(None, &none).unwrap()),
        "built-in defaults"
    );
    assert_eq!(
        config_candidates(Some("e.yaml".to_string()), Some("/home/u".to_string())),
        vec!["e.yaml", "config.yaml", "/home/u/.config/prompt-codec/config.yaml"]
    );
    assert_eq!(config_candidates(None, None), vec!["config.yaml"]);
    assert_eq!(
        config_candidates(None, Some("/".to_string())),
        vec!["config.yaml", "/.config/prompt-codec/config.yaml"]
    );
    assert_eq!(
        config_candidates(None, Some("".to_string())),
        vec!["config.yaml", ".config/prompt-codec/config.yaml"]
    );
}

#[test]
fn load_errors_name_the_file() {
    assert_eq!(load_error(LoadFailure::Read, "c.yaml"), "failed to read config file: c.yaml");
    assert_eq!(load_error(LoadFailure::Parse, "c.yaml"), "failed to parse YAML config: c.yaml");
    assert_eq!(load_error(LoadFailure::Load, "c.yaml"), "failed to load config: c.yaml");
}

#[test]
fn reserved_knob_warns() {
    let mut warnings = vec![];
    warn_reserved(false, &mut warnings);
    assert!(warnings.is_empty());
    warn_reserved(true, &mut warnings);
    assert_eq!(
        warnings,
        vec!["encoder.list_trim_enabled is reserved and not implemented in v2; ignored"]
    );
}
