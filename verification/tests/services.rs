use prompt_codec::cli::{
    health_failed, is_loopback_host, read_input, render_savings, FileInput, Mode,
};
use prompt_codec::config::{AppConfig, LocalConfig, ProxyConfig};
use prompt_codec::doctor::{run_doctor, Answer, BaseSearch, UpstreamProbe};
use prompt_codec::llm::{
    interpret, read_listing, request_timeout_nanos, Choice, Exchange, Listing, LlmClient, LlmHealth,
    Probe, ENCODE_SYSTEM,
};
use prompt_codec::proxy::{
    cfg_host_is_loopback, error_response, host_guard, is_hop_by_hop, is_loopback_name,
    normalize_host, request_host, resolve_auth, stat_headers, AuthDecision, Refusal,
};
use prompt_codec::stats::TokenStats;
use prompt_codec::url::{forwarded_url, trim_end_text, upstream_url};

// --- The local model -----------------------------------------------------------

fn reply(content: Option<&str>, finish: Option<&str>) -> Exchange {
    Exchange::Reply {
        status: 200,
        status_text: "200 OK".to_string(),
        body: "{}".to_string(),
        choices: Some(vec![Choice {
            content: content.map(String::from),
            finish_reason: finish.map(String::from),
        }]),
    }
}

#[test]
fn encode_text_returns_content() {
    assert_eq!(interpret(&reply(Some("short version"), Some("stop"))), Ok("short version".to_string()));
    assert_eq!(interpret(&reply(Some("  padded \n"), None)), Ok("padded".to_string()));
}

#[test]
fn truncated_output_is_rejected() {
    assert!(interpret(&reply(Some("cut off mid"), Some("length"))).is_err());
    assert_eq!(
        interpret(&reply(Some("cut off mid"), Some("length"))),
        Err("local LLM output truncated (finish_reason=length)".to_string())
    );
}

#[test]
fn every_failure_of_the_model_says_what_it_is() {
    let err = |e: Exchange| interpret(&e).unwrap_err();
    assert_eq!(err(Exchange::SendFailed), "local LLM request failed");
    assert_eq!(err(Exchange::BodyFailed), "failed to read local LLM response body");
    assert_eq!(err(reply(Some(" \n"), None)), "local LLM returned empty content");
    assert_eq!(err(reply(None, None)), "local LLM returned empty content");
    let answer = |status: u16, choices: Option<Vec<Choice>>| Exchange::Reply {
        status,
        status_text: "500 Internal Server Error".to_string(),
        body: "b".repeat(300),
        choices,
    };
    assert_eq!(
        err(answer(500, None)),
        format!("local LLM returned 500 Internal Server Error: {}", "b".repeat(200))
    );
    assert_eq!(
        err(answer(200, None)),
        format!("failed to parse local LLM response: {}", "b".repeat(200))
    );
    assert_eq!(err(answer(299, Some(vec![]))), "local LLM response had no choices");
    assert!(err(answer(300, Some(vec![]))).starts_with("local LLM returned"));
    assert!(err(answer(199, Some(vec![]))).starts_with("local LLM returned"));
}

#[test]
fn reasoning_effort_sent_by_default_and_omitted_when_empty() {
    let c = LocalConfig::default();
    let r = LlmClient::new(&c).encode_text("x", 45, 1);
    assert_eq!(r.reasoning_effort.as_deref(), Some("none"));
    assert_eq!(r.keep_alive.as_deref(), Some("60m"));
    let mut c2 = LocalConfig::default();
    c2.reasoning_effort = String::new();
    c2.keep_alive = String::new();
    let r = LlmClient::new(&c2).encode_text("x", 45, 1);
    assert!(r.reasoning_effort.is_none());
    assert!(r.keep_alive.is_none());
}

#[test]
fn requests_are_sized_to_the_job() {
    let mut c = LocalConfig::default();
    c.base_url = "http://h/v1//".to_string();
    let client = LlmClient::new(&c);
    let r = client.encode_text("the text", 45, 1000);
    assert_eq!(r.url, "http://h/v1/chat/completions");
    assert_eq!(client.models_url(), "http://h/v1/models");
    assert_eq!(client.model(), "gemma4:12b-mlx");
    assert_eq!(client.api_key(), "ollama");
    assert_eq!(r.model, "gemma4:12b-mlx");
    assert_eq!(r.system, ENCODE_SYSTEM);
    assert_eq!(
        r.user,
        "Target length: about 45% of the original token count.\n\n--- ORIGINAL PROMPT ---\nthe text\n--- END ---\n\nCarry over EVERY concrete value from the original (paths, IDs, error text, durations, TTLs, limits, versions). A compressed prompt missing any of them is wrong."
    );
    assert_eq!(r.max_tokens, 1000);
    assert_eq!(client.encode_text("x", 0, 10).max_tokens, 256);
    assert_eq!(client.encode_text("x", 0, 99_999).max_tokens, 2048);
    assert!(client.encode_text("x", -7, 0).user.contains("about 5%"));
    assert!(client.encode_text("x", 400, 0).user.contains("about 95%"));
    c.max_tokens = 10;
    assert_eq!(LlmClient::new(&c).encode_text("x", 45, 99_999).max_tokens, 256);
}

#[test]
fn invalid_timeout_values_do_not_panic() {
    for bad in [f64::NAN, f64::INFINITY, -3.0, 0.0, 1e300] {
        let nanos = std::time::Duration::try_from_secs_f64(bad).ok().map(|d| d.as_nanos());
        assert_eq!(request_timeout_nanos(nanos), 1_000_000_000);
    }
    assert_eq!(request_timeout_nanos(Some(5)), 5);
}

fn client() -> LlmClient {
    LlmClient::new(&LocalConfig::default())
}

#[test]
fn health_model_present_is_none_for_unexpected_body_shape() {
    let listing = read_listing(Some(br#"{"error": "x"}"#));
    let h = client().health(Probe::Reply { status: 200, listing });
    assert!(h.ok);
    assert_eq!(h.model_present, None);
    for body in ["", "[]", "{\"data\": 5}", "{\"data\": {}}", "null"] {
        assert!(matches!(read_listing(Some(body.as_bytes())), Listing::Unknown));
    }
    assert!(matches!(read_listing(None), Listing::Unknown));
}

#[test]
fn health_data_null_is_an_empty_listing() {
    let listing = read_listing(Some(br#"{"data": null}"#));
    let h = client().health(Probe::Reply { status: 200, listing });
    assert!(h.ok);
    assert_eq!(h.model_present, Some(false));
}

#[test]
fn health_probe_reports_ok_model_presence_and_down() {
    let listing = read_listing(Some(br#"{"data": [7, {"id": 1}, {"id": "gemma4:12b-mlx"}]}"#));
    let h = client().health(Probe::Reply { status: 200, listing });
    assert!(h.ok);
    assert_eq!(h.model_present, Some(true));
    assert_eq!(h.status, Some(200));
    let listing = Listing::Models(vec![None, Some("other".to_string())]);
    let h = client().health(Probe::Reply { status: 400, listing });
    assert!(!h.ok);
    assert_eq!(h.model_present, Some(false));
    let h = client().health(Probe::Failed("refused".to_string()));
    assert!(!h.ok);
    assert_eq!(h.error.as_deref(), Some("refused"));
    assert_eq!(h.status, None);
    assert_eq!(h.base_url, "http://127.0.0.1:11434/v1");
    assert_eq!(h.model, "gemma4:12b-mlx");
}

// --- The proxy -----------------------------------------------------------------

#[test]
fn normalize_host_strips_ports_and_brackets() {
    assert_eq!(normalize_host("127.0.0.1:8787"), "127.0.0.1");
    assert_eq!(normalize_host("localhost:8787"), "localhost");
    assert_eq!(normalize_host("[::1]:8787"), "::1");
    assert_eq!(normalize_host("[::1]"), "::1");
    assert_eq!(normalize_host("::1"), "::1");
    assert_eq!(normalize_host("evil.example.com"), "evil.example.com");
    assert_eq!(normalize_host("evil.example.com:443"), "evil.example.com");
}

#[test]
fn hosts_are_normalized_at_the_edges() {
    assert_eq!(normalize_host(" localhost:1 "), "localhost");
    assert_eq!(normalize_host("localhost:"), "localhost:");
    assert_eq!(normalize_host("localhost:8a"), "localhost:8a");
    assert_eq!(normalize_host("[::1"), "::1");
    assert_eq!(normalize_host(":80"), "");
    assert_eq!(normalize_host(""), "");
}

#[test]
fn loopback_classification() {
    assert!(is_loopback_name("127.0.0.1"));
    assert!(is_loopback_name("LOCALHOST"));
    assert!(is_loopback_name("::1"));
    assert!(!is_loopback_name("evil.example.com"));
    assert!(!is_loopback_name("10.0.0.5"));
    assert!(cfg_host_is_loopback("127.0.0.1"));
    assert!(!cfg_host_is_loopback("0.0.0.0"));
}

#[test]
fn non_loopback_host_header_is_rejected() {
    assert!(!host_guard("127.0.0.1", Some("evil.example.com"), None));
    assert!(host_guard("127.0.0.1", Some("127.0.0.1:8787"), None));
    assert!(!host_guard("localhost", None, Some("evil.example.com:1")));
    assert!(host_guard("localhost", None, None));
    assert!(host_guard("0.0.0.0", Some("evil.example.com"), None));
    assert!(!host_guard("[::1]:80", Some("evil"), Some("localhost")));
    assert_eq!(request_host(Some("A:1"), Some("b")).as_deref(), Some("A"));
    assert_eq!(request_host(None, Some("b")).as_deref(), Some("b"));
    assert_eq!(request_host(None, None), None);
    let e = error_response(&Refusal::ForeignHost);
    assert_eq!((e.status, e.kind.as_str()), (403, "forbidden"));
    assert_eq!(e.message, "host header not permitted");
}

#[test]
fn upstream_down_is_502_openai_shape() {
    let e = error_response(&Refusal::Upstream("é".repeat(300)));
    assert_eq!(e.status, 502);
    assert_eq!(e.kind, "upstream_error");
    assert_eq!(e.message, "é".repeat(200));
}

#[test]
fn client_auth_passthrough_and_env_key_fallback() {
    let mut cfg = ProxyConfig::default();
    assert!(matches!(resolve_auth(&cfg, true, "k"), AuthDecision::Client));
    assert!(matches!(resolve_auth(&cfg, false, "k"), AuthDecision::Bearer(b) if b == "Bearer k"));
    assert!(matches!(resolve_auth(&cfg, false, ""), AuthDecision::Nothing));
    // A key that fits no header is not sent.
    assert!(matches!(resolve_auth(&cfg, false, "a\nb"), AuthDecision::Nothing));
    assert!(matches!(resolve_auth(&cfg, false, "a\u{7f}"), AuthDecision::Nothing));
    assert!(matches!(resolve_auth(&cfg, false, "a\té"), AuthDecision::Bearer(_)));
    cfg.pass_client_auth = false;
    assert!(matches!(resolve_auth(&cfg, true, "k"), AuthDecision::Bearer(b) if b == "Bearer k"));
    cfg.upstream_auth_style = "x_api_key".to_string();
    assert!(matches!(resolve_auth(&cfg, true, "k"), AuthDecision::ApiKey(b) if b == "k"));
    assert!(matches!(resolve_auth(&cfg, true, "\0"), AuthDecision::Nothing));
}

#[test]
fn require_client_auth_gates_unauthenticated_requests() {
    let mut cfg = ProxyConfig::default();
    cfg.require_client_auth = true;
    assert!(matches!(resolve_auth(&cfg, false, "k"), AuthDecision::Reject));
    assert!(matches!(resolve_auth(&cfg, true, "k"), AuthDecision::Client));
    let e = error_response(&Refusal::NoClientAuth);
    assert_eq!((e.status, e.kind.as_str()), (401, "authentication_error"));
    assert_eq!(e.message, "client authentication required");
}

#[test]
fn headers_of_the_connection_stay_behind() {
    assert!(is_hop_by_hop("transfer-encoding"));
    assert!(is_hop_by_hop("connection"));
    assert!(is_hop_by_hop("content-length"));
    assert!(!is_hop_by_hop("content-type"));
    assert_eq!(
        stat_headers(&TokenStats::new(100, 40), "60.0"),
        vec![
            ("x-prompt-codec-before".to_string(), "100".to_string()),
            ("x-prompt-codec-after".to_string(), "40".to_string()),
            ("x-prompt-codec-saved-pct".to_string(), "60.0".to_string()),
        ]
    );
}

#[test]
fn addresses_are_put_together() {
    assert_eq!(upstream_url("http://h/v1/", "/models"), "http://h/v1/models");
    assert_eq!(upstream_url("http://h/v1", "models"), "http://h/v1/models");
    assert_eq!(
        forwarded_url("http://h/api", "/v1/embeddings", Some("a=1&b")),
        "http://h/api/embeddings?a=1&b"
    );
    assert_eq!(forwarded_url("http://h/api", "/other", None), "http://h/api/other");
    assert_eq!(forwarded_url("http://h", "/v1/v1/x", None), "http://h/v1/x");
    assert_eq!(trim_end_text("a/v1/v1", "/v1"), "a");
    assert_eq!(trim_end_text("a", ""), "a");
}

// --- The doctor ----------------------------------------------------------------

fn health(ok: bool, model_present: Option<bool>) -> LlmHealth {
    LlmHealth {
        ok,
        status: None,
        error: None,
        base_url: "b".to_string(),
        model: "m".to_string(),
        model_present,
    }
}

#[test]
fn another_server_is_searched_for() {
    let mut s = BaseSearch::suggest_local_base("http://127.0.0.1:11434/v1/", false);
    assert_eq!(s.current().as_deref(), Some("http://127.0.0.1:8080/v1"));
    s.answered(true);
    assert_eq!(s.current(), None);
    assert_eq!(s.finish().as_deref(), Some("http://127.0.0.1:8080/v1"));

    let mut s = BaseSearch::suggest_local_base("http://elsewhere/v1", false);
    assert_eq!(s.current().as_deref(), Some("http://127.0.0.1:11434/v1"));
    s.answered(false);
    assert_eq!(s.current().as_deref(), Some("http://127.0.0.1:8080/v1"));
    s.answered(false);
    assert_eq!(s.current(), None);
    s.answered(true);
    assert_eq!(s.finish(), None);

    // Where the local model answers, nothing is searched for.
    let s = BaseSearch::suggest_local_base("http://elsewhere/v1", true);
    assert_eq!(s.current(), None);
    assert_eq!(s.finish(), None);
}

#[test]
fn upstream_is_asked_twice_at_most() {
    let mut p = UpstreamProbe::check_upstream("http://u/v1/");
    assert_eq!(p.current().as_deref(), Some("http://u/v1/models"));
    p.answered(Answer::Status(401));
    assert_eq!(p.current(), None);
    let c = p.finish();
    assert!(c.ok);
    assert_eq!(c.status, Some(401));
    assert_eq!(c.error, None);
    assert_eq!(c.base_url, "http://u/v1/");

    let mut p = UpstreamProbe::check_upstream("http://u/v1");
    p.answered(Answer::Status(503));
    assert_eq!(p.current().as_deref(), Some("http://u/health"));
    p.answered(Answer::Failed("refused".to_string()));
    assert_eq!(p.current(), None);
    p.answered(Answer::Status(200));
    let c = p.finish();
    assert!(!c.ok);
    assert_eq!(c.status, Some(503));
    assert_eq!(c.error.as_deref(), Some("refused"));

    let mut p = UpstreamProbe::check_upstream("http://u");
    p.answered(Answer::Failed("x".to_string()));
    p.answered(Answer::Status(500));
    assert_eq!(p.finish().error.as_deref(), Some("HTTP 500"));
}

#[test]
fn doctor_says_what_is_to_be_done() {
    let mut cfg = AppConfig::default();
    let up = || {
        let mut p = UpstreamProbe::check_upstream("http://u");
        p.answered(Answer::Status(200));
        p.finish()
    };
    let r = run_doctor(&cfg, "src", health(true, None), None, up());
    assert!(r.ok);
    assert_eq!(
        r.hints,
        vec!["ready for Hermes: point providers.prompt_codec.api at http://127.0.0.1:8787/v1"]
    );
    assert_eq!(r.config_source, "src");
    assert_eq!(r.encoder_mode, "hybrid");
    assert_eq!(r.keep_alive, "60m");

    let r = run_doctor(&cfg, "src", health(true, None), Some("http://alt".to_string()), up());
    assert_eq!(r.suggested_base_url, None);

    let r = run_doctor(&cfg, "src", health(true, Some(false)), None, up());
    assert!(!r.ok);
    assert_eq!(
        r.hints,
        vec!["model 'gemma4:12b-mlx' not in listing — run: ollama pull gemma4:12b-mlx"]
    );

    cfg.local.keep_alive = String::new();
    let down = UpstreamProbe::check_upstream("http://u").finish();
    let r = run_doctor(&cfg, "src", health(false, None), Some("http://alt".to_string()), down);
    assert!(!r.ok);
    assert_eq!(r.suggested_base_url.as_deref(), Some("http://alt"));
    assert_eq!(
        r.hints,
        vec![
            "local endpoint unreachable at http://127.0.0.1:11434/v1 — start Ollama (`ollama serve`) or MLX-LM",
            "found a healthy OpenAI-compatible server at http://alt; set local.base_url to that",
            "local.keep_alive is empty — cold MLX/Ollama loads may exceed llm_timeout_s; set keep_alive: \"60m\"",
            "upstream https://api.x.ai/v1 not reachable — for Hermes+xAI OAuth try http://127.0.0.1:8317/v1 (`hermes proxy start --provider xai`)",
        ]
    );

    cfg.encoder.mode = "rules".to_string();
    let r = run_doctor(&cfg, "src", health(true, Some(true)), None, up());
    assert!(r.ok);
    assert_eq!(
        r.hints,
        vec!["encoder.mode is rules — no local model pin; densify is rules-only"]
    );
}

// --- The command line ----------------------------------------------------------

#[test]
fn read_input_file_wins_over_text_and_stdin() {
    let file = FileInput {
        path: "prompt.txt".to_string(),
        content: Some("from file".to_string()),
    };
    let out = read_input(
        Some("from arg".to_string()),
        Some(file),
        Some("from stdin".to_string()),
    )
    .unwrap();
    assert_eq!(out, "from file");
}

#[test]
fn read_input_unreadable_file_errors() {
    let file = FileInput {
        path: "gone.txt".to_string(),
        content: None,
    };
    let err = read_input(Some("from arg".to_string()), Some(file), None).unwrap_err();
    assert_eq!(err, "failed to read file gone.txt");
}

#[test]
fn read_input_text_used_when_no_file() {
    let out = read_input(
        Some("from arg".to_string()),
        None,
        Some("from stdin".to_string()),
    )
    .unwrap();
    assert_eq!(out, "from arg");
}

#[test]
fn read_input_stdin_fallback() {
    let out = read_input(None, None, Some("from stdin".to_string())).unwrap();
    assert_eq!(out, "from stdin");
}

#[test]
fn read_input_all_none_errors() {
    let err = read_input(None, None, None).unwrap_err();
    assert_eq!(err.to_string(), "Provide text, --file, or pipe stdin");
}

#[test]
fn render_savings_contains_expected_substrings() {
    let s = TokenStats::new(1000, 400);
    let out = render_savings(&s, "60.0", "0.001800", "rules", &[]);
    assert!(out.contains("Before: 1000"));
    assert!(out.contains("After:  400"));
    assert!(out.contains("Saved:  600"));
    assert!(out.contains("60.0%"));
    assert!(out.contains("$0.001800"));
    assert!(out.contains("Mode:   rules"));
    assert!(out.contains("Notes:  —"));
    assert_eq!(
        out,
        "Token savings\n-------------\nBefore: 1000\nAfter:  400\nSaved:  600 (60.0%)\nEst. $ saved / call: $0.001800\nMode:   rules\nNotes:  —"
    );
}

#[test]
fn render_savings_joins_notes_with_comma_space() {
    let s = TokenStats::new(1000, 400);
    let notes = vec!["rules_compress".to_string(), "llm_encode".to_string()];
    let out = render_savings(&s, "60.0", "0.001800", "hybrid", &notes);
    assert!(out.contains("Notes:  rules_compress, llm_encode"));
}

#[test]
fn health_fails_when_down_or_model_absent() {
    assert!(health_failed(false, None));
    assert!(health_failed(false, Some(true)));
    assert!(health_failed(true, Some(false)));
    assert!(!health_failed(true, Some(true)));
    assert!(!health_failed(true, None));
}

#[test]
fn modes_have_names() {
    for mode in [Mode::Rules, Mode::Local, Mode::Hybrid] {
        assert_eq!(Mode::from_name(mode.as_str()), Some(mode));
    }
    assert_eq!(Mode::Hybrid.as_str(), "hybrid");
    assert_eq!(Mode::from_name("Rules"), None);
    assert!(is_loopback_host("localhost") && is_loopback_host("::1") && is_loopback_host("127.0.0.1"));
    assert!(!is_loopback_host("0.0.0.0") && !is_loopback_host("LOCALHOST"));
}
