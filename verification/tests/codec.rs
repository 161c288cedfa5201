use prompt_codec::cache::RewriteCache;
use prompt_codec::codec::{
    accept_given, accept_rewrite, minified_or_collapsed, role_gets_rules, rules_guarded,
    rules_stage, rules_transform, tool_minify_or_collapse, truncate_chars, Codec, EncodeResult,
    EncodeTextResult, Waiting,
};
use prompt_codec::config::{EncoderConfig, LlmScope};
use prompt_codec::message::{Content, Message, Part};

const BASELINE: &str =
    "this is a much longer baseline sentence with many additional words to compress down";

#[test]
fn accept_rewrite_accepts_smaller_nontrivial_rewrite() {
    assert!(accept_rewrite("tiny compressed version", BASELINE));
}

#[test]
fn accept_rewrite_rejects_empty() {
    assert!(!accept_rewrite("", BASELINE));
    assert!(!accept_rewrite("   \n\t ", BASELINE));
}

#[test]
fn accept_rewrite_rejects_trivially_short() {
    assert!(!accept_rewrite("short output", BASELINE));
}

#[test]
fn accept_rewrite_rejects_not_strictly_smaller() {
    assert!(!accept_rewrite(BASELINE, BASELINE));
    let expansion = format!("{BASELINE} plus even more words tacked on the end");
    assert!(!accept_rewrite(&expansion, BASELINE));
}

#[test]
fn acceptance_counts_bytes_and_tokens() {
    assert!(!accept_given("12345678901234567890", 1, 2));
    assert!(accept_given("123456789012345678901", 1, 2));
    assert!(!accept_given("123456789012345678901", 2, 2));
    // Eleven characters, but twenty-two bytes.
    assert!(accept_given("ééééééééééé", 1, 2));
    assert!(!accept_given("                         ", 1, 2));
}

#[test]
fn texts_are_cut_by_characters() {
    assert_eq!(truncate_chars("éàü", 2), "éà");
    assert_eq!(truncate_chars("abc", 3), "abc");
    assert_eq!(truncate_chars("abc", 9), "abc");
    assert_eq!(truncate_chars("abc", 0), "");
}

#[test]
fn roles_have_their_rules() {
    assert!(role_gets_rules("user") && role_gets_rules("system") && role_gets_rules("tool"));
    assert!(!role_gets_rules("assistant") && !role_gets_rules("") && !role_gets_rules("User"));
    assert_eq!(rules_transform("user", "please go  on", 800), "go on");
    assert_eq!(rules_transform("system", "please go  on", 800), "please go  on");
    assert_eq!(rules_transform("system", "please go  on", 13), "go on");
    assert_eq!(rules_transform("tool", "please go  on", 0), "please go on");
    assert_eq!(rules_transform("assistant", "please go  on", 0), "please go  on");
    assert_eq!(rules_guarded("user", "Thanks!", 0), ("Thanks!".to_string(), true));
    assert_eq!(rules_guarded("user", " \n", 0), (" \n".to_string(), false));
}

#[test]
fn tool_output_is_minified_or_collapsed() {
    assert_eq!(tool_minify_or_collapse("{ \"b\" : 1, \"a\" : [ ] }"), "{\"b\":1,\"a\":[]}");
    assert_eq!(tool_minify_or_collapse("not   json"), "not json");
    assert_eq!(minified_or_collapsed("a   b", Some("x".to_string())), "x");
    assert_eq!(minified_or_collapsed("a   b", None), "a b");
}

// --- Whole runs ----------------------------------------------------------------

fn codec(mode: &str, scope: LlmScope) -> Codec {
    let mut cfg = EncoderConfig::default();
    cfg.mode = mode.to_string();
    cfg.min_chars_to_compress = 10;
    cfg.llm_scope = scope;
    Codec::new(cfg, "0.450".to_string(), "gemma3:4b".to_string())
}

fn text(role: &str, content: &str) -> Message {
    Message {
        role: Some(role.to_string()),
        content: Content::Text(content.to_string()),
    }
}

fn content(m: &Message) -> &str {
    match &m.content {
        Content::Text(s) => s,
        _ => panic!("no text"),
    }
}

/// Runs an encoding to its end; `model` stands for the local model.
fn run(
    codec: &Codec,
    cache: &mut RewriteCache,
    messages: Vec<Message>,
    model: &mut dyn FnMut(&str) -> Result<String, String>,
) -> EncodeResult {
    let mut run = codec.encode_messages(messages);
    loop {
        let (key, asked) = match run.waiting() {
            Waiting::Done => break,
            Waiting::Lookup { key } => (key.clone(), None),
            Waiting::Reply { text, key } => (key.clone(), Some(text.clone())),
        };
        match asked {
            None => {
                let found = cache.get(&key);
                codec.looked_up(&mut run, found);
            }
            Some(text) => {
                if let Some((k, v)) = codec.replied(&mut run, model(&text)) {
                    assert_eq!(k, key);
                    cache.put(k, v);
                }
            }
        }
    }
    run.finish()
}

fn run_text(
    codec: &Codec,
    cache: &mut RewriteCache,
    text: &str,
    mode: Option<&str>,
    model: &mut dyn FnMut(&str) -> Result<String, String>,
) -> EncodeTextResult {
    let mut run = codec.encode_text(text, mode.map(String::from));
    loop {
        let (key, asked) = match run.waiting() {
            Waiting::Done => break,
            Waiting::Lookup { key } => (key.clone(), None),
            Waiting::Reply { text, key } => (key.clone(), Some(text.clone())),
        };
        match asked {
            None => {
                let found = cache.get(&key);
                run.looked_up(found);
            }
            Some(text) => {
                if let Some((k, v)) = run.replied(model(&text)) {
                    cache.put(k, v);
                }
            }
        }
    }
    run.finish()
}

fn unreachable_model(_: &str) -> Result<String, String> {
    panic!("the model must not be asked")
}

const FIRST: &str =
    "first long message needing compression right here with plenty of words to shrink";
const SECOND: &str =
    "second long message also needing compression here with plenty of words to shrink";

#[test]
fn only_last_user_message_hits_llm_and_cache_persists() {
    let codec = codec("hybrid", LlmScope::LastUser);
    let mut cache = RewriteCache::new(16);
    let mut calls = Vec::new();
    let mut model = |t: &str| {
        calls.push(t.to_string());
        Ok("tiny compressed version".to_string())
    };
    let r1 = run(&codec, &mut cache, vec![text("user", FIRST)], &mut model);
    let a_compressed = content(&r1.messages[0]).to_string();
    assert_eq!(a_compressed, "tiny compressed version");
    assert_eq!(r1.notes, vec!["llm_encode_msg_0"]);

    let turn2 = vec![text("user", FIRST), text("assistant", "reply"), text("user", SECOND)];
    let r2 = run(&codec, &mut cache, turn2, &mut model);
    assert_eq!(content(&r2.messages[0]), a_compressed);
    assert_eq!(content(&r2.messages[1]), "reply");
    assert_eq!(content(&r2.messages[2]), "tiny compressed version");
    assert_eq!(r2.notes, vec!["cache_hit_msg_0", "llm_encode_msg_2"]);
    assert!(r2.stats.after_tokens < r2.stats.before_tokens);
    assert_eq!(calls, vec![FIRST, SECOND]);
}

#[test]
fn history_out_of_scope_is_looked_up_but_not_asked_about() {
    let codec = codec("hybrid", LlmScope::LastUser);
    let mut cache = RewriteCache::new(16);
    let ms = vec![text("user", FIRST), text("user", SECOND)];
    let r = run(&codec, &mut cache, ms, &mut |t| {
        assert_eq!(t, SECOND);
        Err("x".repeat(300))
    });
    assert_eq!(content(&r.messages[0]), FIRST);
    assert_eq!(r.notes, vec![format!("llm_failed_msg_1:{}", "x".repeat(200))]);
}

#[test]
fn every_message_is_in_scope_of_all() {
    let codec = codec("local", LlmScope::All);
    let mut cache = RewriteCache::new(16);
    let mut n = 0;
    let ms = vec![text("user", FIRST), text("user", FIRST), text("user", "tiny")];
    let r = run(&codec, &mut cache, ms, &mut |_| {
        n += 1;
        Ok("a shorter version of it".to_string())
    });
    // The second message has the same text: the cache has it by then.
    assert_eq!(n, 1);
    assert_eq!(r.notes, vec!["llm_encode_msg_0", "cache_hit_msg_1"]);
    assert_eq!(content(&r.messages[1]), "a shorter version of it");
    assert_eq!(content(&r.messages[2]), "tiny");
}

#[test]
fn rejects_rewrite_not_smaller_than_rules_output() {
    let codec = codec("hybrid", LlmScope::LastUser);
    let mut cache = RewriteCache::new(16);
    let ms = vec![text("user", "short-ish content for the guard test")];
    let r = run(&codec, &mut cache, ms, &mut |_| {
        Ok("this rewrite is much much much longer than the rules output was, so it must be rejected by the token guard".to_string())
    });
    assert!(content(&r.messages[0]).contains("guard test"));
    assert_eq!(r.notes, vec!["llm_rejected_msg_0"]);
    cache.sync();
    assert_eq!(cache.entry_count(), 0);
}

#[test]
fn tool_json_is_minified_and_never_llm_rewritten() {
    let codec = codec("hybrid", LlmScope::All);
    let mut cache = RewriteCache::new(16);
    let ms = vec![text("tool", "{\n  \"a\": 1,\n  \"b\": [1, 2]\n}")];
    let r = run(&codec, &mut cache, ms, &mut unreachable_model);
    assert_eq!(content(&r.messages[0]), r#"{"a":1,"b":[1,2]}"#);
}

#[test]
fn llm_failure_degrades_to_rules() {
    let codec = codec("hybrid", LlmScope::LastUser);
    let mut cache = RewriteCache::new(16);
    let ms = vec![text("user", "please compress this content anyway thanks")];
    let r = run(&codec, &mut cache, ms, &mut |_| Err("down".to_string()));
    assert!(content(&r.messages[0]).contains("compress this content"));
    assert_eq!(r.notes, vec!["llm_failed_msg_0:down"]);
}

#[test]
fn assistant_and_short_system_untouched() {
    let codec = codec("hybrid", LlmScope::All);
    let mut cache = RewriteCache::new(16);
    let ms = vec![
        text("system", "short system prompt"),
        text("assistant", "Assistant   spaced   reply"),
    ];
    let r = run(&codec, &mut cache, ms, &mut unreachable_model);
    assert_eq!(content(&r.messages[0]), "short system prompt");
    assert_eq!(content(&r.messages[1]), "Assistant   spaced   reply");
    assert!(r.notes.is_empty());
}

#[test]
fn long_system_messages_are_candidates() {
    let codec = codec("hybrid", LlmScope::All);
    let mut cache = RewriteCache::new(16);
    let long = "word ".repeat(200);
    let r = run(&codec, &mut cache, vec![text("system", &long)], &mut |_| {
        Ok("two hundred times the word".to_string())
    });
    assert_eq!(content(&r.messages[0]), "two hundred times the word");
}

#[test]
fn pure_fluff_message_keeps_original() {
    let codec = codec("rules", LlmScope::LastUser);
    let mut cache = RewriteCache::new(16);
    let ms = vec![text("user", "Thank you so much!")];
    let r = run(&codec, &mut cache, ms, &mut unreachable_model);
    assert_eq!(content(&r.messages[0]), "Thank you so much!");
    assert!(r.notes.iter().any(|n| n.contains("rules_emptied")));
    assert_eq!(r.notes, vec!["rules_emptied_msg_0"]);
}

#[test]
fn parts_array_text_compressed_other_fields_kept() {
    let codec = codec("rules", LlmScope::LastUser);
    let mut cache = RewriteCache::new(16);
    let ms = vec![Message {
        role: Some("user".to_string()),
        content: Content::Parts(vec![
            Part::Object {
                kind: Some("text".to_string()),
                text: Some("Please please fix the authentication bug in src/main.rs. Thank you so much!".to_string()),
            },
            Part::Object {
                kind: Some("image_url".to_string()),
                text: None,
            },
        ]),
    }];
    let r = run(&codec, &mut cache, ms, &mut unreachable_model);
    match &r.messages[0].content {
        Content::Parts(parts) => {
            match &parts[0] {
                Part::Object { kind, text: Some(t) } => {
                    assert_eq!(kind.as_deref(), Some("text"));
                    assert!(t.contains("src/main.rs"));
                    assert!(!t.to_lowercase().contains("thank you"));
                    assert!(!t.to_lowercase().contains("please please"));
                }
                _ => panic!("the text is gone"),
            }
            assert!(matches!(
                &parts[1],
                Part::Object { kind: Some(k), text: None } if k == "image_url"
            ));
        }
        _ => panic!("the parts are gone"),
    }
}

#[test]
fn long_parts_are_noted_down() {
    let codec = codec("hybrid", LlmScope::All);
    let mut cache = RewriteCache::new(16);
    let parts = |s: &str| Message {
        role: Some("user".to_string()),
        content: Content::Parts(vec![
            Part::Text(s.to_string()),
            Part::Object {
                kind: Some("text".to_string()),
                text: Some("Thanks!".to_string()),
            },
        ]),
    };
    let r = run(&codec, &mut cache, vec![parts("a"), parts("abc")], &mut unreachable_model);
    assert_eq!(
        r.notes,
        vec!["rules_emptied_msg_0", "rules_emptied_msg_1", "llm_skipped_parts_msg_1"]
    );
}

#[test]
fn modes_and_scopes_switch_stages() {
    let mut cache = RewriteCache::new(16);
    let fluffy = "please look   at this long message with many words in it";
    let one = |mode: &str, scope: LlmScope, cache: &mut RewriteCache| {
        let r = run(&codec(mode, scope), cache, vec![text("user", fluffy)], &mut |_| {
            Err("no".to_string())
        });
        (content(&r.messages[0]).to_string(), r.notes)
    };
    let tidy = "look at this long message with many words in it".to_string();
    assert_eq!(one("rules", LlmScope::All, &mut cache), (tidy.clone(), vec![]));
    assert_eq!(one("hybrid", LlmScope::Never, &mut cache), (tidy.clone(), vec![]));
    assert_eq!(
        one("hybrid", LlmScope::All, &mut cache),
        (tidy, vec!["llm_failed_msg_0:no".to_string()])
    );
    assert_eq!(
        one("local", LlmScope::All, &mut cache),
        (fluffy.to_string(), vec!["llm_failed_msg_0:no".to_string()])
    );
    assert_eq!(one("off", LlmScope::All, &mut cache), (fluffy.to_string(), vec![]));
}

#[test]
fn answers_that_nobody_waits_for_change_nothing() {
    let codec = codec("hybrid", LlmScope::All);
    let mut run = codec.encode_messages(vec![text("user", FIRST)]);
    assert!(codec.replied(&mut run, Ok("tiny compressed version".to_string())).is_none());
    assert!(matches!(run.waiting(), Waiting::Lookup { .. }));
    codec.looked_up(&mut run, Some("from the cache".to_string()));
    assert!(matches!(run.waiting(), Waiting::Done));
    codec.looked_up(&mut run, Some("again".to_string()));
    assert_eq!(content(&run.finish().messages[0]), "from the cache");
}

#[test]
fn rules_stage_notes_what_it_spares() {
    let ms = vec![
        text("assistant", "Thanks!"),
        text("user", "Thanks!"),
        Message {
            role: None,
            content: Content::Absent,
        },
    ];
    let (out, notes) = rules_stage(&ms, 0);
    assert_eq!(out.len(), 3);
    assert_eq!(content(&out[1]), "Thanks!");
    assert_eq!(notes, vec!["rules_emptied_msg_1"]);
}

// --- A single text -------------------------------------------------------------

const BLOB: &str =
    "a long and fluffy prompt blob with plenty of words that the local model can shrink";

#[test]
fn encode_text_blob_accepts_smaller_rewrite() {
    let codec = codec("hybrid", LlmScope::LastUser);
    let mut cache = RewriteCache::new(16);
    let result = run_text(&codec, &mut cache, BLOB, None, &mut |_| {
        Ok("tiny compressed version".to_string())
    });
    assert_eq!(result.text, "tiny compressed version");
    assert!(result.notes.iter().any(|n| n == "llm_encode"));
    assert!(result.stats.after_tokens < result.stats.before_tokens);
    assert_eq!(result.mode_used, "hybrid");
    // The next time, the cache has it.
    let again = run_text(&codec, &mut cache, BLOB, Some("local"), &mut unreachable_model);
    assert_eq!(again.text, "tiny compressed version");
    assert_eq!(again.notes, vec!["cache_hit"]);
    assert_eq!(again.mode_used, "local");
}

#[test]
fn encode_text_blob_rejects_rewrite_not_smaller_than_rules_output() {
    let codec = codec("hybrid", LlmScope::LastUser);
    let mut cache = RewriteCache::new(16);
    let result = run_text(
        &codec,
        &mut cache,
        "short-ish blob content for the guard test",
        None,
        &mut |_| Ok("this rewrite is much much much longer than the rules output was, so it must be rejected by the token guard".to_string()),
    );
    assert!(result.text.contains("guard test"));
    assert!(result.notes.iter().any(|n| n == "llm_rejected"));
}

#[test]
fn single_texts_degrade_and_are_never_emptied() {
    let codec = codec("hybrid", LlmScope::LastUser);
    let mut cache = RewriteCache::new(16);
    let r = run_text(&codec, &mut cache, BLOB, None, &mut |_| Err("y".repeat(201)));
    assert_eq!(r.text, BLOB);
    assert_eq!(r.notes, vec!["rules_compress".to_string(), format!("llm_failed:{}", "y".repeat(200))]);
    let r = run_text(&codec, &mut cache, "Thanks!", Some("rules"), &mut unreachable_model);
    assert_eq!(r.text, "Thanks!");
    assert_eq!(r.notes, vec!["rules_emptied", "rules_compress"]);
    assert_eq!(r.mode_used, "rules");
    let r = run_text(&codec, &mut cache, "short", None, &mut unreachable_model);
    assert_eq!(r.notes, vec!["rules_compress"]);
}
