//! What is counted, searched and reported, said of what goes in and what comes out.

use crate::cache::{cache_key, cache_path, key_bytes, tiers_answer, PRUNE_EVERY};
use crate::cli::{input_of, is_quiet_host, listed_notes, mode_name, savings_report, Mode};
use crate::config::AppConfig;
use crate::decimal::decimal;
use crate::doctor::{
    after_answer, after_url, all_hints, findings, keep_alive_hints, local_hints, mode_hints, other_bases,
    to_ask, upstream_hints, upstream_urls, url_to_ask, Answer, Asking, Findings, Search,
    UpstreamCheck,
};
use crate::llm::LlmHealth;
use crate::message::{
    messages_tokens, piece_text, pieces_chars, role_of, spaced, text_of, Body, Msg, Piece,
};
use crate::order::{are_picked, lemma_pick_more, lemma_pick_nothing};
use crate::outside::{cl100k_len, hex_text, sha256_digest};
use crate::rules_clean::is_part;
use crate::stats::saved;
use crate::telemetry::{
    clock_seconds, last_count, last_ones, tail_of, with_cache_info, with_request, zero_counters,
    Counters, Passed, FLUSH_EVERY, RECENT_CAP, TAIL_CAP,
};
use crate::text::{opt_text, path_in};
use crate::tokenizer::{token_count, tokens_given};
use crate::url::{ends_with, without_endings, without_trailing};
use crate::url_laws::{all_are, law_endings_go, law_trailing_characters_go};
use vstd::prelude::*;
use vstd::utf8::encode_utf8;

verus! {

broadcast use vstd::string::group_string_axioms;

// --- Tokens --------------------------------------------------------------------

/// What a text counts for: what the encoder says, whatever that is; without its word, a
/// quarter of the bytes, rounded down, but at least one. Nothing counts for nothing.
pub proof fn law_what_a_text_counts_for(text: Seq<char>, n: usize)
    ensures
        tokens_given(Seq::empty(), Some(n)) == 0,
        tokens_given(Seq::empty(), None) == 0,
        text.len() > 0 ==> tokens_given(text, Some(n)) == n,
        text.len() > 0 ==> tokens_given(text, None) >= 1,
        text.len() > 0 && encode_utf8(text).len() >= 4 ==> 4 * tokens_given(text, None) <= encode_utf8(
            text,
        ).len() < 4 * (tokens_given(text, None) + 1),
        text.len() > 0 && encode_utf8(text).len() < 4 ==> tokens_given(text, None) == 1,
        token_count(text) == tokens_given(text, cl100k_len(text)),
{
}

/// A list of messages counts for its messages: each for its text and four more, whatever
/// stands before or behind it, and the list for two.
pub proof fn law_messages_count_one_by_one(a: Seq<Msg>, b: Seq<Msg>, m: Msg)
    ensures
        messages_tokens(Seq::empty()) == 2,
        messages_tokens(seq![m]) == token_count(text_of(m)) + 6,
        messages_tokens(a + b) + 2 == messages_tokens(a) + messages_tokens(b),
    decreases b.len(),
{
    assert(seq![m].drop_last() =~= Seq::<Msg>::empty());
    assert(seq![m].last() == m);
    if b.len() == 0 {
        assert(a + b =~= a);
    } else {
        law_messages_count_one_by_one(a, b.drop_last(), m);
        assert((a + b).drop_last() =~= a + b.drop_last());
        assert((a + b).last() == b.last());
    }
}

/// The text of parts is their texts, each whole, with a space between each two.
pub proof fn law_parts_are_read_in_turn(a: Seq<Piece>, b: Seq<Piece>, p: Piece)
    ensures
        spaced(Seq::empty()) == Seq::<char>::empty(),
        spaced(seq![p]) == piece_text(p),
        a.len() > 0 && b.len() > 0 ==> spaced(a + b) == spaced(a) + seq![' '] + spaced(b),
        pieces_chars(Seq::empty()) == 0,
        pieces_chars(seq![p]) == piece_text(p).len(),
        pieces_chars(a + b) == pieces_chars(a) + pieces_chars(b),
    decreases b.len(),
{
    assert(seq![p].drop_last() =~= Seq::<Piece>::empty());
    assert(seq![p].last() == p);
    assert(seq![p][0] == p);
    if b.len() == 0 {
        assert(a + b =~= a);
    } else {
        let c = b.drop_last();
        law_parts_are_read_in_turn(a, c, p);
        assert((a + b).drop_last() =~= a + c);
        assert((a + b).last() == b.last());
        if a.len() > 0 {
            if c.len() == 0 {
                assert(a + c =~= a);
                assert(b[0] == b.last());
            } else {
                assert(spaced(a) + seq![' '] + spaced(c) + seq![' '] + piece_text(b.last()) =~= spaced(a)
                    + seq![' '] + (spaced(c) + seq![' '] + piece_text(b.last())));
            }
        }
    }
}

/// The text of a message is all of its content.
pub proof fn law_message_text_is_its_content(m: Msg)
    ensures
        match m.content {
            Body::Text(s) => text_of(m) == s,
            Body::Other(s) => text_of(m) == s,
            Body::Parts(parts) => text_of(m) == spaced(parts),
            Body::Absent => text_of(m).len() == 0,
        },
        m.role is Some ==> role_of(m) == m.role->0,
        m.role is None ==> role_of(m).len() == 0,
        forall|s: Seq<char>| #[trigger] piece_text(Piece::Text(s)) == s,
        forall|s: Seq<char>| #[trigger] piece_text(Piece::Other(s)) == s,
        forall|kind: Option<Seq<char>>, s: Seq<char>| #[trigger]
            piece_text(Piece::Object { kind, text: Some(s) }) == s,
        forall|kind: Option<Seq<char>>| (#[trigger] piece_text(
            Piece::Object { kind, text: None },
        )).len() == 0,
{
}

/// What was saved, and what is left, make up what there was; an expansion saves nothing.
pub proof fn law_saved_and_left_make_up_the_whole(before: int, after: int)
    requires
        0 <= before,
        0 <= after,
    ensures
        after <= before ==> saved(before, after) + after == before,
        after >= before ==> saved(before, after) == 0,
{
}

// --- Totals --------------------------------------------------------------------

/// A request adds one to the requests and its tokens to the tokens, and nothing to anything
/// else; the counters go round at the end of their range.
pub proof fn law_what_a_request_adds(c: Counters, before: u64, after: u64)
    ensures
        with_request(c, before, after).requests == (c.requests + 1) % 0x1_0000_0000_0000_0000,
        with_request(c, before, after).before_tokens == (c.before_tokens + before)
            % 0x1_0000_0000_0000_0000,
        with_request(c, before, after).after_tokens == (c.after_tokens + after)
            % 0x1_0000_0000_0000_0000,
        with_request(c, before, after).upstream_cached_tokens == c.upstream_cached_tokens,
        with_request(c, before, after).responses_with_cache_info == c.responses_with_cache_info,
        with_request(c, before, after).since == c.since,
{
}

/// A response that tells of cached tokens adds one to such responses and its tokens to the
/// cached ones, and nothing to anything else.
pub proof fn law_what_cache_information_adds(c: Counters, cached: u64)
    ensures
        with_cache_info(c, cached).upstream_cached_tokens == (c.upstream_cached_tokens + cached)
            % 0x1_0000_0000_0000_0000,
        with_cache_info(c, cached).responses_with_cache_info == (c.responses_with_cache_info + 1)
            % 0x1_0000_0000_0000_0000,
        with_cache_info(c, cached).requests == c.requests,
        with_cache_info(c, cached).before_tokens == c.before_tokens,
        with_cache_info(c, cached).after_tokens == c.after_tokens,
        with_cache_info(c, cached).since == c.since,
{
}

/// Totals start with nothing in any counter.
pub proof fn law_totals_start_from_nothing(since: Seq<char>)
    ensures
        zero_counters(since).requests == 0,
        zero_counters(since).before_tokens == 0,
        zero_counters(since).after_tokens == 0,
        zero_counters(since).upstream_cached_tokens == 0,
        zero_counters(since).responses_with_cache_info == 0,
        zero_counters(since).since == since,
{
}

/// `part` is the end of `whole`.
pub open spec fn is_end_of<A>(part: Seq<A>, whole: Seq<A>) -> bool {
    part.len() <= whole.len() && whole.skip(whole.len() - part.len()) == part
}

/// What is kept of a body is its end, and as much of it as may be kept.
pub proof fn law_tails_are_ends(s: Seq<u8>)
    ensures
        is_end_of(tail_of(s), s),
        tail_of(s).len() == if s.len() <= 16384 {
            s.len()
        } else {
            16384
        },
{
    assert(s.skip(0) =~= s);
}

/// What is remembered of the requests is the last ones, and as many as may be remembered.
pub proof fn law_the_last_requests_are_remembered(s: Seq<Passed>)
    ensures
        is_end_of(last_ones(s), s),
        last_ones(s).len() == if s.len() <= 50 {
            s.len()
        } else {
            50
        },
{
    assert(s.skip(0) =~= s);
}

/// Remembering one by one comes to the same as remembering the last of them all.
pub proof fn law_remembering_goes_on(s: Seq<Passed>, r: Passed)
    ensures
        last_ones(last_ones(s).push(r)) == last_ones(s.push(r)),
{
    if s.len() > 50 {
        let cut = s.len() - 50;
        assert(last_ones(s).push(r).skip(1) =~= s.push(r).skip(cut + 1));
    } else {
        assert(last_ones(s) == s);
    }
}

/// The last count is what counts, whatever came before it.
pub proof fn law_the_last_count_counts(counts: Seq<Seq<char>>, last: Seq<char>)
    ensures
        last_count(counts.push(last)) == crate::decimal::read_u64(last),
        last_count(Seq::empty()) is None,
{
    assert(counts.push(last).last() == last);
}

/// What a clock says is what it counts as, and a clock behind the epoch counts as the epoch.
pub proof fn law_what_a_clock_counts_as(reading: u64)
    ensures
        clock_seconds(None) == 0,
        reading <= i64::MAX ==> clock_seconds(Some(reading)) == reading,
        i64::MIN <= clock_seconds(Some(reading)) <= i64::MAX,
        (clock_seconds(Some(reading)) - reading) % 0x1_0000_0000_0000_0000 == 0,
{
}

/// How often the totals are written and the durable tier pruned, and how much is kept.
pub proof fn law_how_often_and_how_much()
    ensures
        FLUSH_EVERY == 32,
        PRUNE_EVERY == 1024,
        TAIL_CAP == 16384,
        RECENT_CAP == 50,
{
}

// --- The durable tier ----------------------------------------------------------

/// The durable tier is where it was told to be, exactly; else in the cache directory; else
/// in the working directory.
pub proof fn law_where_the_durable_tier_is(explicit: Seq<char>, dir: Seq<char>)
    ensures
        cache_path(Some(explicit), None) == explicit,
        cache_path(Some(explicit), Some(dir)) == explicit,
        cache_path(None, Some(dir)) == path_in(dir, "prompt-codec/rewrites.sqlite3"@),
        cache_path(None, None) == "./prompt-codec-cache.sqlite3"@,
{
}

/// Memory is asked before the durable tier, and what either has is answered as it is.
pub proof fn law_memory_answers_first(memory: Option<Seq<char>>, disk: Option<Seq<char>>)
    ensures
        memory is Some ==> tiers_answer(memory, disk) == memory,
        memory is None ==> tiers_answer(memory, disk) == disk,
{
}

/// A path in a directory is the directory, a slash and the rest: the slash that the
/// directory ends in, if it does.
pub proof fn law_paths_in_directories(dir: Seq<char>, rest: Seq<char>)
    ensures
        path_in(dir + seq!['/'], rest) == dir + seq!['/'] + rest,
        dir.len() > 0 && dir.last() != '/' ==> path_in(dir, rest) == dir + seq!['/'] + rest,
        path_in(Seq::empty(), rest) == rest,
{
    reveal_strlit("/");
    assert("/"@ =~= seq!['/']);
    assert((dir + seq!['/']).last() == '/');
    assert(Seq::<char>::empty() + rest =~= rest);
}

// --- Other servers -------------------------------------------------------------

/// The bases that are asked are exactly those that are not the configured one, in order.
pub proof fn law_other_bases_are_asked_in_order(bases: Seq<Seq<char>>, configured: Seq<char>)
    ensures
        are_picked(
            other_bases(bases, configured),
            bases,
            |b: Seq<char>| b != without_trailing(configured, '/'),
            |b: Seq<char>| b,
        ),
    decreases bases.len(),
{
    let picked = |b: Seq<char>| b != without_trailing(configured, '/');
    let f = |b: Seq<char>| b;
    if bases.len() == 0 {
        lemma_pick_nothing(picked, f);
        assert(bases =~= Seq::<Seq<char>>::empty());
        assert(other_bases(bases, configured) =~= Seq::<Seq<char>>::empty());
    } else {
        let init = bases.drop_last();
        law_other_bases_are_asked_in_order(init, configured);
        assert(bases =~= init.push(bases.last()));
        lemma_pick_more(other_bases(init, configured), init, bases.last(), picked, f);
    }
}

/// A search asks one base after the other, until one is healthy, and remembers that one.
pub proof fn law_searches_stop_at_the_first_healthy(s: Search, healthy: bool)
    ensures
        s.found is Some || s.next >= s.bases.len() ==> to_ask(s) is None && after_answer(s, healthy) == s,
        s.found is None && s.next < s.bases.len() ==> to_ask(s) == Some(s.bases[s.next as int]) && (if healthy {
            after_answer(s, healthy).found == to_ask(s) && to_ask(after_answer(s, healthy)) is None
        } else {
            after_answer(s, healthy).found is None && after_answer(s, healthy).next == s.next + 1
        }) && after_answer(s, healthy).bases == s.bases,
{
}

/// Upstream is asked one address after the other until one answers with anything but a
/// failure of the server's; then it is well, with that status, and nothing more is asked.
/// Otherwise it is not, and what was last heard of it is kept.
pub proof fn law_how_upstream_is_asked(s: Asking, a: Answer)
    ensures
        url_to_ask(s) is Some <==> !s.ok && s.next < s.urls.len(),
        url_to_ask(s) is Some ==> url_to_ask(s) == Some(s.urls[s.next as int]),
        url_to_ask(s) is None ==> after_url(s, a) == s,
        url_to_ask(s) is Some ==> (match a {
            Answer::Status(status) => after_url(s, a).status == Some(status) && if status <= 499 {
                after_url(s, a).ok && after_url(s, a).error is None && url_to_ask(after_url(s, a)) is None
            } else {
                !after_url(s, a).ok && after_url(s, a).next == s.next + 1 && after_url(s, a).error == Some(
                    "HTTP "@ + decimal(status as nat),
                )
            },
            Answer::Failed(e) => !after_url(s, a).ok && after_url(s, a).next == s.next + 1 && after_url(
                s,
                a,
            ).error == Some(e@) && after_url(s, a).status == s.status,
        }),
        after_url(s, a).base_url == s.base_url,
        after_url(s, a).urls == s.urls,
{
}

/// Where upstream is asked: below its base for the models, and below its root, which is the
/// base without the version at its end, for its health.
pub proof fn law_where_upstream_is_asked(root: Seq<char>, slashes: Seq<char>, base: Seq<char>)
    requires
        all_are(slashes, '/'),
        base.len() > 0 ==> base.last() != '/',
        !ends_with(root, "/v1"@),
        root.len() > 0 ==> root.last() != '/',
    ensures
        upstream_urls(root + "/v1"@ + slashes) == seq![
            root + "/v1"@ + "/models"@,
            root + "/health"@,
        ],
        upstream_urls(root + slashes) == seq![root + "/models"@, root + "/health"@],
        upstream_urls(base + slashes) == seq![
            base + "/models"@,
            without_endings(base, "/v1"@) + "/health"@,
        ],
{
    reveal_strlit("/v1");
    assert("/v1"@ =~= seq!['/', 'v', '1']);
    let versioned = root + "/v1"@;
    assert(versioned.last() == '1');
    law_trailing_characters_go(versioned, '/', slashes);
    law_trailing_characters_go(base, '/', slashes);
    law_trailing_characters_go(root, '/', slashes);
    law_endings_go(root, "/v1"@);
}

/// What the doctor says names what is wrong: the local address that does not answer and the
/// one that does, the model that is not there, the upstream that does not answer. Nothing is
/// said of what is well.
pub proof fn law_hints_name_what_is_wrong(f: Findings)
    ensures
        local_hints(f).len() == if !f.local_ok {
            if f.suggested is Some {
                2nat
            } else {
                1
            }
        } else if f.model_present == Some(false) {
            1
        } else {
            0
        },
        !f.local_ok ==> is_part(f.base_url, local_hints(f)[0]),
        !f.local_ok && f.suggested is Some ==> is_part(f.suggested->0, local_hints(f)[1]),
        f.local_ok && f.model_present == Some(false) ==> is_part(f.model, local_hints(f)[0]),
        upstream_hints(f).len() == if f.upstream_ok {
            0nat
        } else {
            1
        },
        !f.upstream_ok ==> is_part(f.upstream_url, upstream_hints(f)[0]),
        keep_alive_hints(f).len() == if f.keep_alive.len() == 0 && (f.mode == "local"@ || f.mode
            == "hybrid"@) {
            1nat
        } else {
            0
        },
        mode_hints(f).len() == if f.mode == "rules"@ {
            1nat
        } else {
            0
        },
        (local_hints(f) + keep_alive_hints(f) + upstream_hints(f) + mode_hints(f)).len() > 0
            ==> all_hints(f) == local_hints(f) + keep_alive_hints(f) + upstream_hints(f) + mode_hints(f),
{
    if !f.local_ok {
        let before = "local endpoint unreachable at "@;
        let after = " — start Ollama (`ollama serve`) or MLX-LM"@;
        assert(local_hints(f)[0] == before + f.base_url + after);
        if let Some(alt) = f.suggested {
            assert(local_hints(f)[1] == "found a healthy OpenAI-compatible server at "@ + alt
                + "; set local.base_url to that"@);
        }
    } else if f.model_present == Some(false) {
        let rest = "' not in listing — run: ollama pull "@ + f.model;
        assert(local_hints(f)[0] =~= "model '"@ + f.model + rest);
    }
    if !f.upstream_ok {
        assert(upstream_hints(f)[0] == "upstream "@ + f.upstream_url
            + " not reachable — for Hermes+xAI OAuth try http://127.0.0.1:8317/v1 (`hermes proxy start --provider xai`)"@);
    }
}

// --- The command line ----------------------------------------------------------

/// Where the input comes from: a file that was named counts before a text, and a text before
/// what is piped in; what counts is taken whole, and a file that cannot be read is an error
/// even if there is a text.
pub proof fn law_where_input_comes_from(
    text: Option<Seq<char>>,
    path: Seq<char>,
    content: Option<Seq<char>>,
    piped: Option<Seq<char>>,
)
    ensures
        match content {
            Some(c) => input_of(text, Some((path, content)), piped) == Ok::<Seq<char>, Seq<char>>(c),
            None => input_of(text, Some((path, content)), piped) == Err::<Seq<char>, Seq<char>>(
                "failed to read file "@ + path,
            ),
        },
        text is Some ==> input_of(text, None, piped) == Ok::<Seq<char>, Seq<char>>(text->0),
        text is None && piped is Some ==> input_of(text, None, piped) == Ok::<Seq<char>, Seq<char>>(
            piped->0,
        ),
        text is None && piped is None ==> input_of(text, None, piped) is Err,
{
}

/// Notes are listed whole, in order, with a comma and a space between each two.
pub proof fn law_notes_are_listed_in_turn(a: Seq<Seq<char>>, b: Seq<Seq<char>>, n: Seq<char>)
    ensures
        listed_notes(seq![n]) == n,
        a.len() > 0 && b.len() > 0 ==> listed_notes(a + b) == listed_notes(a) + seq![',', ' ']
            + listed_notes(b),
    decreases b.len(),
{
    reveal_strlit(", ");
    assert(", "@ =~= seq![',', ' ']);
    assert(seq![n][0] == n);
    if a.len() > 0 && b.len() > 0 {
        let c = b.drop_last();
        assert((a + b).drop_last() =~= a + c);
        assert((a + b).last() == b.last());
        if c.len() == 0 {
            assert(a + c =~= a);
            assert(b[0] == b.last());
        } else {
            law_notes_are_listed_in_turn(a, c, n);
            assert(listed_notes(a) + seq![',', ' '] + listed_notes(c) + seq![',', ' '] + b.last()
                =~= listed_notes(a) + seq![',', ' '] + (listed_notes(c) + seq![',', ' '] + b.last()));
        }
    }
}

/// Every report is made of these seven texts, with the numbers, the mode and the notes
/// between them.
pub open spec fn is_form_of_reports(
    a: Seq<char>,
    b: Seq<char>,
    c: Seq<char>,
    d: Seq<char>,
    e: Seq<char>,
    f: Seq<char>,
    g: Seq<char>,
) -> bool {
    forall|
        before: nat,
        after: nat,
        pct: Seq<char>,
        usd: Seq<char>,
        mode: Seq<char>,
        notes: Seq<Seq<char>>,
    |
        notes.len() > 0 ==> #[trigger] savings_report(before, after, pct, usd, mode, notes) == a
            + decimal(before) + b + decimal(after) + c + decimal(
            saved(before as int, after as int) as nat,
        ) + d + pct + e + usd + f + mode + g + listed_notes(notes)
}

/// A report tells both counts, what was saved, the percentage, the dollars, the mode and the
/// notes, each whole and in this order, and all else in it is the same in every report.
pub proof fn law_reports_have_one_form()
    ensures
        exists|
            a: Seq<char>,
            b: Seq<char>,
            c: Seq<char>,
            d: Seq<char>,
            e: Seq<char>,
            f: Seq<char>,
            g: Seq<char>,
        | #[trigger] is_form_of_reports(a, b, c, d, e, f, g),
{
    assert(is_form_of_reports(
        "Token savings\n-------------\nBefore: "@,
        "\nAfter:  "@,
        "\nSaved:  "@,
        " ("@,
        "%)\nEst. $ saved / call: $"@,
        "\nMode:   "@,
        "\nNotes:  "@,
    ));
}

/// The modes have three names, and no two of them the same.
pub proof fn law_modes_have_their_own_names(a: Mode, b: Mode)
    ensures
        mode_name(a) == mode_name(b) <==> a == b,
        mode_name(Mode::Rules) == "rules"@,
        mode_name(Mode::Local) == "local"@,
        mode_name(Mode::Hybrid) == "hybrid"@,
{
    reveal_strlit("rules");
    reveal_strlit("local");
    reveal_strlit("hybrid");
    assert("rules"@[0] == 'r' && "local"@[0] == 'l' && "hybrid"@[0] == 'h');
}

/// The proxy warns of every host but three.
pub proof fn law_which_hosts_are_quiet(host: Seq<char>)
    ensures
        is_quiet_host(host) <==> seq!["127.0.0.1"@, "localhost"@, "::1"@].contains(host),
{
    let all = seq!["127.0.0.1"@, "localhost"@, "::1"@];
    assert(all[0] == "127.0.0.1"@ && all[1] == "localhost"@ && all[2] == "::1"@);
}

/// The doctor goes by what was found, and by the settings that it is about.
pub proof fn law_what_the_doctor_goes_by(
    cfg: AppConfig,
    local: LlmHealth,
    suggested: Option<String>,
    upstream: UpstreamCheck,
)
    ensures
        findings(cfg, local, suggested, upstream).base_url == cfg.local.base_url@,
        findings(cfg, local, suggested, upstream).model == cfg.local.model@,
        findings(cfg, local, suggested, upstream).keep_alive == cfg.local.keep_alive@,
        findings(cfg, local, suggested, upstream).mode == cfg.encoder.mode@,
        findings(cfg, local, suggested, upstream).upstream_url == cfg.proxy.upstream_base_url@,
        findings(cfg, local, suggested, upstream).local_ok == local.ok,
        findings(cfg, local, suggested, upstream).model_present == local.model_present,
        findings(cfg, local, suggested, upstream).suggested == opt_text(suggested),
        findings(cfg, local, suggested, upstream).upstream_ok == upstream.ok,
{
}

/// The key of a rewrite is the digest of the model, the ratio and the content, each whole,
/// with a zero byte between each two.
pub proof fn law_keys_are_digests(content: Seq<char>, ratio: Seq<char>, model: Seq<char>)
    ensures
        cache_key(content, ratio, model) == hex_text(
            sha256_digest(
                encode_utf8(model).push(0u8) + encode_utf8(ratio).push(0u8) + encode_utf8(content),
            ),
        ),
{
    assert(key_bytes(content, ratio, model) =~= encode_utf8(model).push(0u8) + encode_utf8(ratio).push(
        0u8,
    ) + encode_utf8(content));
}

/// A report without notes has a dash in their place.
pub proof fn law_a_dash_stands_for_no_notes(
    before: nat,
    after: nat,
    pct: Seq<char>,
    usd: Seq<char>,
    mode: Seq<char>,
)
    ensures
        savings_report(before, after, pct, usd, mode, Seq::empty()) == savings_report(
            before,
            after,
            pct,
            usd,
            mode,
            seq!["—"@],
        ),
{
    assert(seq!["—"@][0] == "—"@);
}

} // verus!
