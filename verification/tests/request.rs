use prompt_codec::codec::{Codec, EncodeResult, EncodeTextResult, Waiting};
use prompt_codec::config::EncoderConfig;
use prompt_codec::json::{json_of, write_json, write_text, Json};
use prompt_codec::llm::{listing_from, Listing};
use prompt_codec::message::{Content, Part};
use prompt_codec::proxy::{error_response, Refusal};
use prompt_codec::request::{
    chat_completions, chat_from, completion_from, completions, content_from, message_from,
    message_of, part_from, Endpoint,
};
use prompt_codec::stats::TokenStats;

const FLUFFY: &str = "Please help me refactor the authentication logic in src/auth.rs so that it validates tokens correctly and handles expiry. The current implementation has a bug where expired tokens are still accepted, which is a security problem we must fix. Thank you so much in advance!";

const TIDY: &str = "help me refactor the authentication logic in src/auth.rs so that it validates tokens correctly and handles expiry. The current implementation has a bug where expired tokens are still accepted, which is a security problem we must fix.";

fn rules_codec() -> Codec {
    let mut cfg = EncoderConfig::default();
    cfg.mode = "rules".to_string();
    Codec::new(cfg, "0.450".to_string(), "m".to_string())
}

fn encode(body: &str) -> (prompt_codec::request::ChatRequest, EncodeResult) {
    let job = chat_completions(Some(body.as_bytes())).unwrap();
    let run = rules_codec().encode_messages(job.messages());
    assert!(matches!(run.waiting(), Waiting::Done));
    let result = run.finish();
    (job, result)
}

fn sent(body: &str) -> String {
    let (job, result) = encode(body);
    let out = job.send(&result, "http://u/v1/", Endpoint::ChatCompletions, "1.0");
    String::from_utf8(out.body).unwrap()
}

#[test]
fn missing_messages_is_400_openai_shape() {
    for body in ["{}", "{\"messages\":[]}", "{\"messages\":\"x\"}", "[1]", "null", "\"messages\""] {
        let e = error_response(&chat_completions(Some(body.as_bytes())).unwrap_err());
        assert_eq!(e.status, 400);
        assert_eq!(e.message, "messages required");
        assert_eq!(e.kind, "invalid_request_error");
    }
    let e = error_response(&chat_completions(Some(b"{not json")).unwrap_err());
    assert_eq!(e.status, 400);
    assert_eq!(e.message, "invalid JSON body");
    assert_eq!(e.kind, "invalid_request_error");
    assert!(matches!(chat_completions(Some(b"{\"a\":\"\xff\"}")), Err(Refusal::InvalidJson)));
    let e = error_response(&chat_completions(None).unwrap_err());
    assert_eq!((e.status, e.message.as_str()), (400, "failed to read request body"));
}

#[test]
fn compresses_messages_and_forwards_status_and_headers() {
    let body = format!(
        "{{\"model\": \"grok-2\", \"messages\": [{{\"role\": \"user\", \"content\": \"{FLUFFY}\"}}], \"temperature\": 0.7}}"
    );
    let (job, result) = encode(&body);
    let out = job.send(&result, "http://u/v1/", Endpoint::ChatCompletions, "12.3");
    assert_eq!(out.url, "http://u/v1/chat/completions");
    assert_eq!(
        String::from_utf8(out.body).unwrap(),
        format!("{{\"model\":\"grok-2\",\"messages\":[{{\"role\":\"user\",\"content\":\"{TIDY}\"}}],\"temperature\":0.7}}")
    );
    assert_eq!(
        out.reply_headers,
        vec![
            ("x-prompt-codec-before".to_string(), result.stats.before_tokens.to_string()),
            ("x-prompt-codec-after".to_string(), result.stats.after_tokens.to_string()),
            ("x-prompt-codec-saved-pct".to_string(), "12.3".to_string()),
        ]
    );
    assert!(result.stats.after_tokens < result.stats.before_tokens);
    let out = job.send(&result, "http://u", Endpoint::Messages, "1");
    assert_eq!(out.url, "http://u/messages");
}

#[test]
fn nothing_but_the_texts_of_messages_changes() {
    // Numbers, escapes, order and what is no text all come through.
    let body = r#"{"z":0.30000000000000004,"messages":[{"role":"assistant","content":"please  go","tool_calls":[{"id":1.5}]},{"content":"please  go","role":"user","name":"é\"x"},{"role":"user"},7,{"role":"user","content":null},{"role":"tool","content":"{ \"a\": 1 }","tool_call_id":"abc"}],"a":{"b":[1,null,true]},"stream":false}"#;
    let expected = r#"{"z":0.30000000000000004,"messages":[{"role":"assistant","content":"please  go","tool_calls":[{"id":1.5}]},{"content":"go","role":"user","name":"é\"x"},{"role":"user"},7,{"role":"user","content":null},{"role":"tool","content":"{\"a\":1}","tool_call_id":"abc"}],"a":{"b":[1,null,true]},"stream":false}"#;
    assert_eq!(sent(body), expected);
}

#[test]
fn anthropic_messages_compressed_and_forwarded() {
    let body = format!(
        r#"{{"model":"glm-5.2","max_tokens":64,"system":"keep me","messages":[{{"role":"user","content":"{FLUFFY}"}},{{"role":"assistant","content":"Sure, I can help with that."}},{{"role":"user","content":[{{"type":"tool_result","tool_use_id":"t1","content":"data"}},{{"type":"text","text":"{FLUFFY}"}}]}}]}}"#
    );
    let expected = format!(
        r#"{{"model":"glm-5.2","max_tokens":64,"system":"keep me","messages":[{{"role":"user","content":"{TIDY}"}},{{"role":"assistant","content":"Sure, I can help with that."}},{{"role":"user","content":[{{"type":"tool_result","tool_use_id":"t1","content":"data"}},{{"type":"text","text":"{TIDY}"}}]}}]}}"#
    );
    assert_eq!(sent(&body), expected);
}

#[test]
fn messages_are_read_as_they_are() {
    let m = message_of(r#"{"role":5,"content":[{"type":"text","text":"a"},"b",3,{"text":4}]}"#);
    assert_eq!(m.role, None);
    match m.content {
        Content::Parts(parts) => {
            assert!(matches!(&parts[0], Part::Object { kind: Some(k), text: Some(t) } if k == "text" && t == "a"));
            assert!(matches!(&parts[1], Part::Text(s) if s == "b"));
            assert!(matches!(&parts[2], Part::Other(s) if s == "3"));
            assert!(matches!(&parts[3], Part::Object { kind: None, text: None }));
        }
        _ => panic!("no parts"),
    }
    assert!(matches!(message_of("{\"content\":{\"a\":1}}").content, Content::Other(s) if s == "{\"a\":1}"));
    assert!(matches!(message_of("{\"content\":true}").content, Content::Other(s) if s == "true"));
    assert!(matches!(message_of("[]").content, Content::Absent));
}

fn encoded(text: &str) -> EncodeTextResult {
    EncodeTextResult {
        text: text.to_string(),
        stats: TokenStats::new(10, 4),
        notes: vec![],
        mode_used: "rules".to_string(),
    }
}

#[test]
fn completions_prompt_gets_user_treatment() {
    let body = format!("{{\"model\":\"m\",\"prompt\":\"{FLUFFY}\",\"n\":2}}");
    let job = completions(Some(body.as_bytes())).unwrap();
    let run = rules_codec().encode_text(&job.prompt().unwrap(), None);
    assert!(matches!(run.waiting(), Waiting::Done));
    let result = run.finish();
    let out = job.send(&result, "http://u/v1", "5.0");
    let sent = String::from_utf8(out.body).unwrap();
    assert!(!sent.contains("Thank you"));
    assert!(sent.contains("src/auth.rs"));
    assert_eq!(sent, format!("{{\"model\":\"m\",\"prompt\":\"{TIDY}\",\"n\":2}}"));
    assert_eq!(
        out.reply_headers[0],
        ("x-prompt-codec-before".to_string(), result.stats.before_tokens.to_string())
    );
}

#[test]
fn only_a_prompt_that_says_something_is_encoded() {
    let job = completions(Some(br#"{"prompt": "say \"it\"", "n": 1}"#)).unwrap();
    assert_eq!(job.prompt().as_deref(), Some("say \"it\""));
    let out = job.send(&encoded("a \"b\""), "http://u/v1", "60.0");
    assert_eq!(out.url, "http://u/v1/completions");
    assert_eq!(out.body, br#"{"prompt":"a \"b\"","n":1}"#);
    assert_eq!(out.reply_headers[1], ("x-prompt-codec-after".to_string(), "4".to_string()));
    assert_eq!(out.reply_headers.len(), 3);
    for (body, compact) in [
        (r#"{"prompt": "", "n": 1}"#, r#"{"prompt":"","n":1}"#),
        (r#"{"prompt": ["x"]}"#, r#"{"prompt":["x"]}"#),
        ("[ 1, 2 ]", "[1,2]"),
        (" \"x\" ", "\"x\""),
        (" null ", "null"),
        (" 1.50 ", "1.5"),
    ] {
        let job = completions(Some(body.as_bytes())).unwrap();
        assert_eq!(job.prompt(), None);
        let out = job.send_on("http://u/v1");
        assert_eq!(String::from_utf8(out.body).unwrap(), compact);
        assert!(out.reply_headers.is_empty());
        let out = job.send(&encoded("x"), "http://u/v1", "1");
        assert_eq!(String::from_utf8(out.body).unwrap(), compact);
        assert!(out.reply_headers.is_empty());
    }
    assert!(matches!(completions(Some(b"{")), Err(Refusal::InvalidBody)));
    assert!(matches!(completions(None), Err(Refusal::UnreadableBody)));
    assert_eq!(error_response(&Refusal::InvalidBody).message, "invalid request body");
}

#[test]
fn values_are_taken_for_what_they_hold() {
    let text = |s: &str| s.to_string();
    let ms = vec![(text("a"), text("1")), (text("messages"), text("[{\"role\":\"user\"}]"))];
    let job = chat_from(Json::Object(ms)).unwrap();
    assert_eq!(job.messages()[0].role.as_deref(), Some("user"));
    assert!(matches!(chat_from(Json::Invalid), Err(Refusal::InvalidJson)));
    assert!(matches!(chat_from(Json::Null), Err(Refusal::NoMessages)));
    assert!(matches!(completion_from(Json::Invalid), Err(Refusal::InvalidBody)));
    assert_eq!(completion_from(Json::Null).unwrap().prompt(), None);
    let m = message_from(Json::Object(vec![(text("content"), text("\"x\""))]));
    assert!(matches!(m.content, Content::Text(s) if s == "x"));
    assert!(matches!(content_from(Json::Other(text("5")), "5"), Content::Other(s) if s == "5"));
    assert!(matches!(part_from(Json::Null, "null"), Part::Other(s) if s == "null"));
    let data = vec![(text("data"), text("[{\"id\":\"m\"}]"))];
    assert!(matches!(listing_from(Json::Object(data)), Listing::Models(v) if v == vec![Some(text("m"))]));
    assert!(matches!(listing_from(Json::Null), Listing::Unknown));
}

#[test]
fn strings_are_escaped() {
    assert_eq!(
        write_text("\u{0}\u{8}\t\n\u{b}\u{c}\r\u{1f} \"\\/\u{7f}\u{80}é\u{2028}"),
        "\"\\u0000\\b\\t\\n\\u000b\\f\\r\\u001f \\\"\\\\/\u{7f}\u{80}é\u{2028}\""
    );
}

#[test]
fn json_is_read_and_written() {
    for text in ["{\"a\":[1,{}],\"b\":\"\\n\\u0001é\"}", "[]", "{}", "\"\\\\\"", "true", "null"] {
        assert_eq!(write_json(&json_of(text)), text);
    }
    // Of a key that comes twice, the last value counts, in the first place.
    assert_eq!(write_json(&json_of("{\"a\":1,\"b\":2,\"a\":3}")), "{\"a\":3,\"b\":2}");
    assert!(matches!(json_of("{"), Json::Invalid));
}
