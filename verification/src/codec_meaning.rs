//! What the compression policy means: what comes of each message and of each answer, said
//! of the texts that go in and those that come out.

use crate::cache::cache_key;
use crate::codec::{
    accepted, accepted_given, after_lookup, after_reply, capped_count, eligibility, emptied,
    emptied_body, front, gets_rules, guarded, is_sound, last_user, note, policy_of, rule_text,
    ruled, ruled_msg, ruled_msgs, ruled_piece, rules_apply, rules_notes, scan, started,
    text_after_lookup, text_after_reply, text_started, text_to_store, to_store, tool_text_given,
    with_note, with_text, Eligibility, Policy, State, TextState, Wait,
};
use crate::codec_laws::{answers_left, finished, law_runs_end, law_runs_start_within_policy};
use crate::config::{EncoderConfig, LlmScope};
use crate::decimal::decimal;
use crate::message::{pieces_chars, role_of, Body, Msg, Piece};
use crate::outside::json_compact;
use crate::rules::{collapsed, compressed, segments};
use crate::rules_clean::{is_clean, law_clean_text_comes_back};
use crate::rules_meaning::{all_white, law_trim_takes_white_space_off_the_ends};
use crate::tokenizer::token_count;
use vstd::prelude::*;
use vstd::utf8::encode_utf8;

verus! {

broadcast use vstd::string::group_string_axioms;

proof fn lemma_roles_differ()
    ensures
        "user"@ != "system"@,
        "user"@ != "tool"@,
        "system"@ != "tool"@,
        "user"@.len() == 4,
        "system"@.len() == 6,
        "tool"@.len() == 4,
{
    reveal_strlit("user");
    reveal_strlit("system");
    reveal_strlit("tool");
    assert("tool"@[0] == 't' && "user"@[0] == 'u' && "system"@[0] == 's');
}

// --- The rules stage -----------------------------------------------------------

/// What a text becomes: the new text, unless that is blank and the text is not.
pub open spec fn unless_emptied(was: Seq<char>, now: Seq<char>, out: Seq<char>) -> bool {
    out == if all_white(now) && !all_white(was) {
        was
    } else {
        now
    }
}

/// What the rules stage does to a text goes by the role alone: what a user says is
/// compressed, and what the system says is where it is long enough; what a tool says is
/// written as compact JSON or else has its white space collapsed; what anyone else says
/// stays. The length of a text decides nothing but whether a system text is compressed.
pub proof fn law_rules_go_by_role(role: Seq<char>, s: Seq<char>, protect: nat)
    ensures
        role == "user"@ ==> unless_emptied(s, compressed(s), guarded(role, s, protect)),
        role == "system"@ && s.len() >= protect ==> unless_emptied(
            s,
            compressed(s),
            guarded(role, s, protect),
        ),
        role == "system"@ && s.len() < protect ==> guarded(role, s, protect) == s,
        role == "tool"@ ==> unless_emptied(
            s,
            match json_compact(s) {
                Some(j) => j,
                None => collapsed(s),
            },
            guarded(role, s, protect),
        ),
        role != "user"@ && role != "system"@ && role != "tool"@ ==> guarded(role, s, protect) == s,
        gets_rules(role) <==> role == "user"@ || role == "system"@ || role == "tool"@,
{
    lemma_roles_differ();
    law_trim_takes_white_space_off_the_ends(s);
    law_trim_takes_white_space_off_the_ends(ruled(role, s, protect));
}

/// A text that compression leaves as it is comes through the rules stage unchanged,
/// whatever its length and the threshold, unless a tool said it.
pub proof fn law_what_compression_leaves_stays(role: Seq<char>, s: Seq<char>, protect: nat)
    requires
        role != "tool"@,
        compressed(s) == s || is_clean(segments(s)),
    ensures
        ruled(role, s, protect) == s,
        guarded(role, s, protect) == s,
{
    if is_clean(segments(s)) {
        law_clean_text_comes_back(s);
    }
}

/// The threshold that protects system texts is nothing to anyone else, and above it
/// nothing to system texts either.
pub proof fn law_threshold_is_for_short_system_texts(role: Seq<char>, s: Seq<char>, a: nat, b: nat)
    requires
        role != "system"@ || (s.len() >= a && s.len() >= b),
    ensures
        guarded(role, s, a) == guarded(role, s, b),
        role == "system"@ ==> guarded(role, s, a) == guarded("user"@, s, b),
{
    lemma_roles_differ();
}

/// What the rules stage does to a message: its role and the kind of its content stay; a
/// text becomes what the rules make of it; of parts there are as many, each in its place,
/// and only the text of a part of the kind `text` is anything to the rules.
pub proof fn law_rules_stage_on_a_message(m: Msg, protect: nat)
    ensures
        ruled_msg(m, protect).role == m.role,
        match m.content {
            Body::Text(s) => ruled_msg(m, protect).content == Body::Text(
                guarded(role_of(m), s, protect),
            ),
            Body::Parts(parts) => match ruled_msg(m, protect).content {
                Body::Parts(out) => out.len() == parts.len() && forall|k: int|
                    0 <= k < parts.len() ==> (match #[trigger] parts[k] {
                        Piece::Object { kind: Some(kind), text: Some(t) } => out[k] == (Piece::Object {
                            kind: Some(kind),
                            text: Some(
                                if kind == "text"@ {
                                    guarded(role_of(m), t, protect)
                                } else {
                                    t
                                },
                            ),
                        }),
                        _ => out[k] == parts[k],
                    }),
                _ => false,
            },
            _ => ruled_msg(m, protect) == m,
        },
{
    let role = role_of(m);
    match m.content {
        Body::Text(s) => {
            law_rules_go_by_role(role, s, protect);
        },
        Body::Parts(parts) => {
            let now = ruled_msg(m, protect).content;
            assert(now is Parts);
            let out = now->Parts_0;
            assert forall|k: int| 0 <= k < parts.len() implies (match #[trigger] parts[k] {
                Piece::Object { kind: Some(kind), text: Some(t) } => out[k] == (Piece::Object {
                    kind: Some(kind),
                    text: Some(
                        if kind == "text"@ {
                            guarded(role, t, protect)
                        } else {
                            t
                        },
                    ),
                }),
                _ => out[k] == parts[k],
            }) by {
                match parts[k] {
                    Piece::Object { kind: Some(kind), text: Some(t) } => {
                        law_rules_go_by_role(role, t, protect);
                    },
                    _ => {},
                }
                if gets_rules(role) {
                    assert(out[k] == ruled_piece(role, parts[k], protect));
                } else {
                    assert(out[k] == parts[k]);
                }
            }
        },
        _ => {},
    }
}

/// The rules stage does to each message what it does to it alone: there are as many as
/// before, each in its place.
pub proof fn law_rules_stage_goes_message_by_message(ms: Seq<Msg>, protect: nat)
    ensures
        ruled_msgs(ms, protect).len() == ms.len(),
        forall|i: int|
            0 <= i < ms.len() ==> #[trigger] ruled_msgs(ms, protect)[i] == ruled_msg(ms[i], protect),
{
}

/// The rules would leave nothing of a text of this message that says something.
pub open spec fn would_be_emptied(m: Msg, protect: nat) -> bool {
    &&& role_of(m) == "user"@ || role_of(m) == "system"@ || role_of(m) == "tool"@
    &&& match m.content {
        Body::Text(s) => !all_white(s) && all_white(ruled(role_of(m), s, protect)),
        Body::Parts(parts) => exists|k: int|
            0 <= k < parts.len() && (match #[trigger] parts[k] {
                Piece::Object { kind: Some(kind), text: Some(t) } => kind == "text"@ && !all_white(t)
                    && all_white(ruled(role_of(m), t, protect)),
                _ => false,
            }),
        _ => false,
    }
}

/// `lines` are the notes `what`, each with one of the numbers `at` behind it: exactly the
/// numbers from `from` to `to` that `is_noted`, in order.
pub open spec fn are_notes_of(
    lines: Seq<Seq<char>>,
    what: Seq<char>,
    at: Seq<int>,
    from: int,
    to: int,
    is_noted: spec_fn(int) -> bool,
) -> bool {
    &&& at.len() == lines.len()
    &&& forall|a: int, b: int| 0 <= a < b < at.len() ==> #[trigger] at[a] < #[trigger] at[b]
    &&& forall|a: int|
        0 <= a < at.len() ==> from <= #[trigger] at[a] < to && is_noted(at[a]) && lines[a] == what
            + decimal(at[a] as nat)
    &&& forall|i: int| from <= i < to && #[trigger] is_noted(i) ==> at.contains(i)
}

/// `lines` are the notes about exactly the numbers from `from` to `to` that `is_noted`, in
/// order.
pub open spec fn note_down(
    lines: Seq<Seq<char>>,
    what: Seq<char>,
    from: int,
    to: int,
    is_noted: spec_fn(int) -> bool,
) -> bool {
    exists|at: Seq<int>| #[trigger] are_notes_of(lines, what, at, from, to, is_noted)
}

proof fn lemma_note_nothing(what: Seq<char>, from: int, is_noted: spec_fn(int) -> bool)
    ensures
        note_down(Seq::empty(), what, from, from, is_noted),
{
    assert(are_notes_of(Seq::empty(), what, Seq::empty(), from, from, is_noted));
}

proof fn lemma_note_more(
    lines: Seq<Seq<char>>,
    what: Seq<char>,
    from: int,
    to: int,
    is_noted: spec_fn(int) -> bool,
)
    requires
        note_down(lines, what, from, to, is_noted),
        0 <= from <= to,
    ensures
        is_noted(to) ==> note_down(
            lines.push(what + decimal(to as nat)),
            what,
            from,
            to + 1,
            is_noted,
        ),
        !is_noted(to) ==> note_down(lines, what, from, to + 1, is_noted),
{
    let at = choose|at: Seq<int>| #[trigger] are_notes_of(lines, what, at, from, to, is_noted);
    if is_noted(to) {
        let more = at.push(to);
        let all = lines.push(what + decimal(to as nat));
        assert forall|a: int, b: int| 0 <= a < b < more.len() implies #[trigger] more[a] < #[trigger] more[b] by {
            assert(more[a] == at[a]);
            if b < at.len() {
                assert(more[b] == at[b]);
            }
        }
        assert forall|i: int| from <= i < to + 1 && #[trigger] is_noted(i) implies more.contains(i) by {
            if i < to {
                let a = choose|a: int| 0 <= a < at.len() && at[a] == i;
                assert(more[a] == i);
            } else {
                assert(more[at.len() as int] == to);
            }
        }
        assert forall|a: int| 0 <= a < more.len() implies from <= #[trigger] more[a] < to + 1 && is_noted(
            more[a],
        ) && all[a] == what + decimal(more[a] as nat) by {
            if a < at.len() {
                assert(more[a] == at[a]);
            }
        }
        assert(are_notes_of(all, what, more, from, to + 1, is_noted));
    } else {
        assert(are_notes_of(lines, what, at, from, to + 1, is_noted));
    }
}

proof fn lemma_emptied_bodies(m: Msg, protect: nat)
    ensures
        gets_rules(role_of(m)) && emptied_body(role_of(m), m.content, protect) <==> would_be_emptied(
            m,
            protect,
        ),
{
    let role = role_of(m);
    match m.content {
        Body::Text(s) => {
            law_trim_takes_white_space_off_the_ends(s);
            law_trim_takes_white_space_off_the_ends(ruled(role, s, protect));
        },
        Body::Parts(parts) => {
            assert forall|k: int| 0 <= k < parts.len() implies (crate::codec::emptied_piece(
                role,
                #[trigger] parts[k],
                protect,
            ) <==> (match parts[k] {
                Piece::Object { kind: Some(kind), text: Some(t) } => kind == "text"@ && !all_white(t)
                    && all_white(ruled(role, t, protect)),
                _ => false,
            })) by {
                if let Some(t) = rule_text(parts[k]) {
                    law_trim_takes_white_space_off_the_ends(t);
                    law_trim_takes_white_space_off_the_ends(ruled(role, t, protect));
                }
            }
            if emptied_body(role, m.content, protect) {
                let k = choose|k: int|
                    0 <= k < parts.len() && crate::codec::emptied_piece(role, #[trigger] parts[k], protect);
                assert(crate::codec::emptied_piece(role, parts[k], protect));
            }
            if would_be_emptied(m, protect) {
                let k = choose|k: int|
                    0 <= k < parts.len() && (match #[trigger] parts[k] {
                        Piece::Object { kind: Some(kind), text: Some(t) } => kind == "text"@ && !all_white(
                            t,
                        ) && all_white(ruled(role, t, protect)),
                        _ => false,
                    });
                assert(crate::codec::emptied_piece(role, parts[k], protect));
            }
        },
        _ => {},
    }
}

/// The rules stage notes down exactly the messages of which the rules would have emptied
/// something, in order, each by its number.
pub proof fn law_rules_stage_notes_what_it_spared(ms: Seq<Msg>, protect: nat)
    ensures
        note_down(
            rules_notes(ms, protect),
            "rules_emptied_msg_"@,
            0,
            ms.len() as int,
            |i: int| would_be_emptied(ms[i], protect),
        ),
{
    lemma_rules_notes(ms, protect, ms.len() as int);
    assert(ms.take(ms.len() as int) =~= ms);
}

proof fn lemma_rules_notes(ms: Seq<Msg>, protect: nat, n: int)
    requires
        0 <= n <= ms.len(),
    ensures
        note_down(
            rules_notes(ms.take(n), protect),
            "rules_emptied_msg_"@,
            0,
            n,
            |i: int| would_be_emptied(ms[i], protect),
        ),
    decreases n,
{
    let is_noted = |i: int| would_be_emptied(ms[i], protect);
    let what = "rules_emptied_msg_"@;
    if n == 0 {
        lemma_note_nothing(what, 0, is_noted);
        assert(rules_notes(ms.take(0), protect) =~= Seq::<Seq<char>>::empty());
    } else {
        lemma_rules_notes(ms, protect, n - 1);
        let before = rules_notes(ms.take(n - 1), protect);
        assert(ms.take(n).drop_last() =~= ms.take(n - 1));
        assert(ms.take(n).last() == ms[n - 1]);
        lemma_emptied_bodies(ms[n - 1], protect);
        lemma_note_more(before, what, 0, n - 1, is_noted);
    }
}

// --- Which rewrites are worth having -------------------------------------------

/// A rewrite is taken exactly if it says something, has more than twenty bytes, and counts
/// for fewer tokens than the text.
pub proof fn law_what_is_accepted(rewrite: Seq<char>, text: Seq<char>)
    ensures
        accepted(rewrite, text) <==> !all_white(rewrite) && encode_utf8(rewrite).len() > 20
            && token_count(rewrite) < token_count(text),
        !accepted(text, text),
{
    law_trim_takes_white_space_off_the_ends(rewrite);
    law_trim_takes_white_space_off_the_ends(text);
}

/// The front of a text is a prefix of it: all of it where that is not too long, and as many
/// characters as may be where it is.
pub proof fn law_front_is_a_prefix(s: Seq<char>, max: nat)
    ensures
        front(s, max).is_prefix_of(s),
        front(s, max).len() == if s.len() <= max {
            s.len()
        } else {
            max
        },
        s.len() <= max ==> front(s, max) == s,
{
}

// --- The model stage -----------------------------------------------------------

/// A message whose text the model stage looks up: a user's or the system's, a text that is
/// long enough, and not a system text short enough to be protected.
pub open spec fn is_candidate(p: Policy, m: Msg, text: Seq<char>) -> bool {
    &&& m.role == Some("user"@) || m.role == Some("system"@)
    &&& m.content == Body::Text(text)
    &&& text.len() >= p.min_chars
    &&& m.role == Some("system"@) ==> text.len() >= p.protect
}

/// A message that the model stage passes over with a note: a user's or the system's, in
/// parts that are long enough between them.
pub open spec fn is_long_in_parts(p: Policy, m: Msg) -> bool {
    &&& m.role == Some("user"@) || m.role == Some("system"@)
    &&& match m.content {
        Body::Parts(parts) => pieces_chars(parts) >= p.min_chars,
        _ => false,
    }
}

/// How the model stage looks at a message: as a candidate exactly if it is one, as parts
/// exactly if it is long in parts, and else not at all.
pub proof fn law_which_messages_are_candidates(p: Policy, m: Msg)
    ensures
        match eligibility(p, m) {
            Eligibility::Candidate(text) => is_candidate(p, m, text),
            Eligibility::Parts => is_long_in_parts(p, m),
            Eligibility::Pass => !is_long_in_parts(p, m) && forall|text: Seq<char>|
                !#[trigger] is_candidate(p, m, text),
        },
        is_long_in_parts(p, m) <==> eligibility(p, m) is Parts,
{
    lemma_roles_differ();
}

/// From `s` the model stage has gone on to `t`: the messages and the notes so far are the
/// same; every message in between was passed over; it asks the cache for the text of the
/// message it is at, or has come to the end and asks for nothing; and it has noted down,
/// in order, the messages in between that are long, but in parts.
pub open spec fn goes_on(p: Policy, s: State, t: State) -> bool {
    &&& t.messages == s.messages
    &&& t.last == s.last
    &&& s.at <= t.at <= s.messages.len()
    &&& forall|i: int, text: Seq<char>|
        s.at <= i < t.at ==> !#[trigger] is_candidate(p, s.messages[i], text)
    &&& if t.at < s.messages.len() {
        exists|text: Seq<char>| #[trigger]
            is_candidate(p, s.messages[t.at as int], text) && t.wait == Wait::Lookup(
                cache_key(text, p.ratio, p.model),
            )
    } else {
        t.wait == Wait::Done
    }
    &&& s.notes.is_prefix_of(t.notes)
    &&& note_down(
        t.notes.skip(s.notes.len() as int),
        "llm_skipped_parts_msg_"@,
        s.at as int,
        t.at as int,
        |i: int| is_long_in_parts(p, s.messages[i]),
    )
}

/// The model stage goes on to the first message that it may look up, and passes over none.
pub proof fn law_scan_finds_the_next_candidate(p: Policy, s: State)
    requires
        s.at <= s.messages.len(),
    ensures
        goes_on(p, s, scan(p, s)),
{
    let is_noted = |i: int| is_long_in_parts(p, s.messages[i]);
    lemma_note_nothing("llm_skipped_parts_msg_"@, s.at as int, is_noted);
    assert(s.notes.skip(s.notes.len() as int) =~= Seq::<Seq<char>>::empty());
    lemma_scan(p, s, s);
}

proof fn lemma_scan(p: Policy, s: State, u: State)
    requires
        u.messages == s.messages,
        u.last == s.last,
        s.at <= u.at <= s.messages.len(),
        forall|i: int, text: Seq<char>|
            s.at <= i < u.at ==> !#[trigger] is_candidate(p, s.messages[i], text),
        s.notes.is_prefix_of(u.notes),
        note_down(
            u.notes.skip(s.notes.len() as int),
            "llm_skipped_parts_msg_"@,
            s.at as int,
            u.at as int,
            |i: int| is_long_in_parts(p, s.messages[i]),
        ),
    ensures
        goes_on(p, s, scan(p, u)),
    decreases s.messages.len() - u.at,
{
    if u.at < s.messages.len() {
        let is_noted = |i: int| is_long_in_parts(p, s.messages[i]);
        let what = "llm_skipped_parts_msg_"@;
        let k = s.notes.len() as int;
        let m = s.messages[u.at as int];
        law_which_messages_are_candidates(p, m);
        lemma_note_more(u.notes.skip(k), what, s.at as int, u.at as int, is_noted);
        match eligibility(p, m) {
            Eligibility::Pass => {
                let v = State { at: u.at + 1, ..u };
                lemma_scan(p, s, v);
            },
            Eligibility::Parts => {
                let line = note(what, u.at);
                let v = State { at: u.at + 1, notes: u.notes.push(line), ..u };
                assert(v.notes.skip(k) =~= u.notes.skip(k).push(line));
                assert(s.notes.is_prefix_of(v.notes));
                assert forall|i: int, text: Seq<char>| s.at <= i < v.at implies !#[trigger] is_candidate(
                    p,
                    s.messages[i],
                    text,
                ) by {}
                lemma_scan(p, s, v);
            },
            Eligibility::Candidate(text) => {
                assert(is_candidate(p, s.messages[u.at as int], text));
            },
        }
    }
}

/// `ms` with a new text for message `i`; its role, and all the others, are as they were.
pub open spec fn with_text_at(ms: Seq<Msg>, i: int, text: Seq<char>) -> Seq<Msg> {
    ms.update(i, Msg { role: ms[i].role, content: Body::Text(text) })
}

/// What the cache answers: a hit is the text of the message, exactly, and that is noted
/// down; on a miss nothing is changed and nothing noted, and the model is asked about the
/// text that the message has if every message is in scope, or the last one of a user is and
/// this is it.
pub proof fn law_what_the_cache_answers(
    p: Policy,
    s: State,
    key: Seq<char>,
    found: Option<Seq<char>>,
    text: Seq<char>,
)
    requires
        s.wait == Wait::Lookup(key),
        s.at < s.messages.len(),
        s.messages[s.at as int].content == Body::Text(text),
    ensures
        match found {
            Some(hit) => goes_on(
                p,
                State {
                    messages: with_text_at(s.messages, s.at as int, hit),
                    notes: s.notes.push("cache_hit_msg_"@ + decimal(s.at)),
                    at: s.at + 1,
                    ..s
                },
                after_lookup(p, s, found),
            ),
            None => if p.scope == LlmScope::All || (p.scope == LlmScope::LastUser && s.last == Some(s.at)) {
                after_lookup(p, s, found) == (State { wait: Wait::Reply(text, key), ..s })
            } else {
                goes_on(p, State { at: s.at + 1, ..s }, after_lookup(p, s, found))
            },
        },
{
    match found {
        Some(hit) => {
            let u = with_note(with_text(s, hit), note("cache_hit_msg_"@, s.at));
            law_scan_finds_the_next_candidate(p, State { at: s.at + 1, ..u });
        },
        None => {
            law_scan_finds_the_next_candidate(p, State { at: s.at + 1, ..s });
        },
    }
}

/// What the model answers: a rewrite that is worth having is the text of the message,
/// exactly, and is what goes into the cache under the key; any other answer leaves every
/// message exactly as it was, and nothing goes into the cache. What happened is noted down,
/// of an error its first two hundred characters.
pub proof fn law_what_the_model_answers(
    p: Policy,
    s: State,
    text: Seq<char>,
    key: Seq<char>,
    reply: Result<Seq<char>, Seq<char>>,
)
    requires
        s.wait == Wait::Reply(text, key),
        s.at < s.messages.len(),
    ensures
        match reply {
            Ok(rewrite) => if accepted(rewrite, text) {
                &&& goes_on(
                    p,
                    State {
                        messages: with_text_at(s.messages, s.at as int, rewrite),
                        notes: s.notes.push("llm_encode_msg_"@ + decimal(s.at)),
                        at: s.at + 1,
                        ..s
                    },
                    after_reply(p, s, reply),
                )
                &&& to_store(s, reply) == Some((key, rewrite))
            } else {
                &&& goes_on(
                    p,
                    State {
                        notes: s.notes.push("llm_rejected_msg_"@ + decimal(s.at)),
                        at: s.at + 1,
                        ..s
                    },
                    after_reply(p, s, reply),
                )
                &&& after_reply(p, s, reply).messages == s.messages
                &&& to_store(s, reply) is None
            },
            Err(e) => {
                &&& goes_on(
                    p,
                    State {
                        notes: s.notes.push(
                            "llm_failed_msg_"@ + decimal(s.at) + ":"@ + front(e, 200),
                        ),
                        at: s.at + 1,
                        ..s
                    },
                    after_reply(p, s, reply),
                )
                &&& after_reply(p, s, reply).messages == s.messages
                &&& to_store(s, reply) is None
            },
        },
{
    match reply {
        Ok(rewrite) => {
            let yes = with_note(with_text(s, rewrite), note("llm_encode_msg_"@, s.at));
            let no = with_note(s, note("llm_rejected_msg_"@, s.at));
            law_scan_finds_the_next_candidate(p, State { at: s.at + 1, ..yes });
            law_scan_finds_the_next_candidate(p, State { at: s.at + 1, ..no });
        },
        Err(e) => {
            let line = note("llm_failed_msg_"@, s.at) + ":"@ + front(e, 200);
            law_scan_finds_the_next_candidate(p, State { at: s.at + 1, ..with_note(s, line) });
        },
    }
}

/// An answer that nobody waits for changes nothing and stores nothing.
pub proof fn law_unasked_answers_change_nothing(
    p: Policy,
    s: State,
    found: Option<Seq<char>>,
    reply: Result<Seq<char>, Seq<char>>,
)
    ensures
        !(s.wait is Lookup) ==> after_lookup(p, s, found) == s,
        !(s.wait is Reply) ==> after_reply(p, s, reply) == s && to_store(s, reply) is None,
{
}

proof fn lemma_modes_differ()
    ensures
        "rules"@ != "local"@,
        "rules"@ != "hybrid"@,
        "local"@ != "hybrid"@,
        "off"@ != "rules"@,
        "off"@ != "local"@,
        "off"@ != "hybrid"@,
{
    reveal_strlit("rules");
    reveal_strlit("local");
    reveal_strlit("hybrid");
    reveal_strlit("off");
    assert("rules"@[0] == 'r' && "local"@[0] == 'l' && "hybrid"@[0] == 'h' && "off"@[0] == 'o');
}

/// What each mode does: `rules` runs the rules stage alone, `local` the model stage alone,
/// `hybrid` both; any other mode leaves every message as it is. The rules stage needs to be
/// enabled, the model stage a scope.
pub proof fn law_what_the_modes_do(p: Policy, ms: Seq<Msg>)
    ensures
        p.mode != "rules"@ && p.mode != "hybrid"@ ==> started(p, ms).messages == ms,
        !p.rules_enabled ==> started(p, ms).messages == ms,
        (p.mode == "rules"@ || p.mode == "hybrid"@) && p.rules_enabled ==> started(p, ms).messages
            == ruled_msgs(ms, p.protect) && rules_notes(ms, p.protect).is_prefix_of(
            started(p, ms).notes,
        ),
        p.mode != "local"@ && p.mode != "hybrid"@ ==> started(p, ms).wait == Wait::Done,
        p.scope == LlmScope::Never ==> started(p, ms).wait == Wait::Done,
        (p.mode == "local"@ || p.mode == "hybrid"@) && p.scope != LlmScope::Never ==> goes_on(
            p,
            State {
                messages: if p.mode == "hybrid"@ && p.rules_enabled {
                    ruled_msgs(ms, p.protect)
                } else {
                    ms
                },
                notes: if p.mode == "hybrid"@ && p.rules_enabled {
                    rules_notes(ms, p.protect)
                } else {
                    seq![]
                },
                last: last_user(ms),
                at: 0,
                wait: Wait::Done,
            },
            started(p, ms),
        ),
        p.mode == "off"@ ==> started(p, ms).messages == ms && started(p, ms).notes.len() == 0,
{
    lemma_modes_differ();
    let s = State {
        messages: if rules_apply(p, p.mode) {
            ruled_msgs(ms, p.protect)
        } else {
            ms
        },
        notes: if rules_apply(p, p.mode) {
            rules_notes(ms, p.protect)
        } else {
            seq![]
        },
        last: last_user(ms),
        at: 0,
        wait: Wait::Done,
    };
    law_scan_finds_the_next_candidate(p, s);
}

/// Nothing that the cache or the model answers about message `i` replaces its text.
pub open spec fn nothing_replaces(
    i: int,
    looks: spec_fn(State) -> Option<Seq<char>>,
    replies: spec_fn(State) -> Result<Seq<char>, Seq<char>>,
) -> bool {
    &&& forall|s: State| s.at == i ==> #[trigger] looks(s) is None
    &&& forall|s: State|
        s.at == i ==> (match (s.wait, #[trigger] replies(s)) {
            (Wait::Reply(text, _), Ok(rewrite)) => !accepted(rewrite, text),
            _ => true,
        })
}

proof fn lemma_nothing_replaces(
    p: Policy,
    s: State,
    looks: spec_fn(State) -> Option<Seq<char>>,
    replies: spec_fn(State) -> Result<Seq<char>, Seq<char>>,
    i: int,
)
    requires
        is_sound(s),
        nothing_replaces(i, looks, replies),
        0 <= i < s.messages.len(),
    ensures
        finished(p, s, looks, replies).messages.len() == s.messages.len(),
        finished(p, s, looks, replies).messages[i] == s.messages[i],
    decreases answers_left(s),
{
    law_runs_end(p, s, looks(s), replies(s));
    match s.wait {
        Wait::Done => {},
        Wait::Lookup(_) => {
            let t = after_lookup(p, s, looks(s));
            law_scan_finds_the_next_candidate(p, State { at: s.at + 1, ..s });
            if let Some(hit) = looks(s) {
                let u = with_note(with_text(s, hit), note("cache_hit_msg_"@, s.at));
                law_scan_finds_the_next_candidate(p, State { at: s.at + 1, ..u });
            }
            assert(t.messages[i] == s.messages[i]);
            lemma_nothing_replaces(p, t, looks, replies, i);
        },
        Wait::Reply(text, key) => {
            let t = after_reply(p, s, replies(s));
            law_what_the_model_answers(p, s, text, key, replies(s));
            assert(t.messages[i] == s.messages[i]);
            lemma_nothing_replaces(p, t, looks, replies, i);
        },
    }
}

/// Over a whole run, a message about which the cache has nothing and the model has nothing
/// worth having ends up exactly as the rules stage left it, whatever is answered about the
/// others.
pub proof fn law_unanswered_messages_stay(
    p: Policy,
    ms: Seq<Msg>,
    looks: spec_fn(State) -> Option<Seq<char>>,
    replies: spec_fn(State) -> Result<Seq<char>, Seq<char>>,
    i: int,
)
    requires
        0 <= i < ms.len(),
        nothing_replaces(i, looks, replies),
    ensures
        finished(p, started(p, ms), looks, replies).messages[i] == if (p.mode == "rules"@ || p.mode
            == "hybrid"@) && p.rules_enabled {
            ruled_msg(ms[i], p.protect)
        } else {
            ms[i]
        },
{
    law_what_the_modes_do(p, ms);
    law_runs_start_within_policy(p, ms);
    lemma_nothing_replaces(p, started(p, ms), looks, replies, i);
}

/// What a run has come past does not change any more.
proof fn lemma_past_messages_stay(
    p: Policy,
    s: State,
    looks: spec_fn(State) -> Option<Seq<char>>,
    replies: spec_fn(State) -> Result<Seq<char>, Seq<char>>,
    i: int,
)
    requires
        is_sound(s),
        0 <= i < s.messages.len(),
        s.at > i || s.wait is Done,
    ensures
        finished(p, s, looks, replies).messages[i] == s.messages[i],
    decreases answers_left(s),
{
    law_runs_end(p, s, looks(s), replies(s));
    match s.wait {
        Wait::Done => {},
        Wait::Lookup(_) => {
            let t = after_lookup(p, s, looks(s));
            law_scan_finds_the_next_candidate(p, State { at: s.at + 1, ..s });
            if let Some(hit) = looks(s) {
                let u = with_note(with_text(s, hit), note("cache_hit_msg_"@, s.at));
                law_scan_finds_the_next_candidate(p, State { at: s.at + 1, ..u });
            }
            assert(t.messages[i] == s.messages[i]);
            lemma_past_messages_stay(p, t, looks, replies, i);
        },
        Wait::Reply(text, key) => {
            let t = after_reply(p, s, replies(s));
            law_what_the_model_answers(p, s, text, key, replies(s));
            assert(t.messages[i] == s.messages[i]);
            lemma_past_messages_stay(p, t, looks, replies, i);
        },
    }
}

/// The cache has nothing about message `i`, and the model answers this.
pub open spec fn model_rewrites(
    i: int,
    rewrite: Seq<char>,
    looks: spec_fn(State) -> Option<Seq<char>>,
    replies: spec_fn(State) -> Result<Seq<char>, Seq<char>>,
) -> bool {
    &&& forall|s: State| s.at == i ==> #[trigger] looks(s) is None
    &&& forall|s: State| s.at == i ==> #[trigger] replies(s) == Ok::<Seq<char>, Seq<char>>(rewrite)
}

proof fn lemma_model_rewrites(
    p: Policy,
    s: State,
    looks: spec_fn(State) -> Option<Seq<char>>,
    replies: spec_fn(State) -> Result<Seq<char>, Seq<char>>,
    i: int,
    text: Seq<char>,
    rewrite: Seq<char>,
)
    requires
        is_sound(s),
        !(s.wait is Done),
        s.at <= i < s.messages.len(),
        is_candidate(p, s.messages[i], text),
        p.scope == LlmScope::All || (p.scope == LlmScope::LastUser && s.last == Some(i as nat)),
        s.at == i ==> (match s.wait {
            Wait::Reply(asked, _) => asked == text,
            _ => true,
        }),
        model_rewrites(i, rewrite, looks, replies),
        accepted(rewrite, text),
    ensures
        finished(p, s, looks, replies).messages[i] == (Msg {
            role: s.messages[i].role,
            content: Body::Text(rewrite),
        }),
    decreases answers_left(s),
{
    law_runs_end(p, s, looks(s), replies(s));
    match s.wait {
        Wait::Done => {},
        Wait::Lookup(key) => {
            let t = after_lookup(p, s, looks(s));
            if s.at == i {
                assert(looks(s) is None);
                lemma_model_rewrites(p, t, looks, replies, i, text, rewrite);
            } else {
                law_scan_finds_the_next_candidate(p, State { at: s.at + 1, ..s });
                if let Some(hit) = looks(s) {
                    let u = with_note(with_text(s, hit), note("cache_hit_msg_"@, s.at));
                    law_scan_finds_the_next_candidate(p, State { at: s.at + 1, ..u });
                }
                assert(t.messages[i] == s.messages[i]);
                assert(is_candidate(p, t.messages[i], text));
                lemma_model_rewrites(p, t, looks, replies, i, text, rewrite);
            }
        },
        Wait::Reply(asked, key) => {
            let t = after_reply(p, s, replies(s));
            law_what_the_model_answers(p, s, asked, key, replies(s));
            if s.at == i {
                assert(replies(s) == Ok::<Seq<char>, Seq<char>>(rewrite));
                lemma_past_messages_stay(p, t, looks, replies, i);
            } else {
                assert(t.messages[i] == s.messages[i]);
                assert(is_candidate(p, t.messages[i], text));
                lemma_model_rewrites(p, t, looks, replies, i, text, rewrite);
            }
        },
    }
}

/// Over a whole run, a candidate in scope about which the cache has nothing and for which the
/// model has a rewrite worth having ends up as that rewrite, exactly, with its own role,
/// whatever is answered about the others.
pub proof fn law_good_rewrites_replace_messages(
    p: Policy,
    ms: Seq<Msg>,
    looks: spec_fn(State) -> Option<Seq<char>>,
    replies: spec_fn(State) -> Result<Seq<char>, Seq<char>>,
    i: int,
    text: Seq<char>,
    rewrite: Seq<char>,
)
    requires
        0 <= i < ms.len(),
        p.mode == "local"@ || p.mode == "hybrid"@,
        p.scope == LlmScope::All || (p.scope == LlmScope::LastUser && last_user(ms) == Some(i as nat)),
        is_candidate(p, started(p, ms).messages[i], text),
        model_rewrites(i, rewrite, looks, replies),
        accepted(rewrite, text),
    ensures
        finished(p, started(p, ms), looks, replies).messages[i] == (Msg {
            role: ms[i].role,
            content: Body::Text(rewrite),
        }),
{
    law_what_the_modes_do(p, ms);
    law_runs_start_within_policy(p, ms);
    lemma_modes_differ();
    let s = started(p, ms);
    assert(s.messages[i].role == ms[i].role) by {
        law_rules_stage_on_a_message(ms[i], p.protect);
    }
    assert(s.at <= i);
    lemma_model_rewrites(p, s, looks, replies, i, text, rewrite);
}

/// The policy is what the configuration says.
pub proof fn law_policy_is_the_configuration(encoder: EncoderConfig, ratio: Seq<char>, model: Seq<char>)
    ensures
        policy_of(encoder, ratio, model).mode == encoder.mode@,
        policy_of(encoder, ratio, model).rules_enabled == encoder.rules_enabled,
        policy_of(encoder, ratio, model).scope == encoder.llm_scope,
        policy_of(encoder, ratio, model).min_chars == encoder.min_chars_to_compress,
        policy_of(encoder, ratio, model).protect == encoder.protect_system_under_chars,
        policy_of(encoder, ratio, model).ratio == ratio,
        policy_of(encoder, ratio, model).model == model,
{
}

/// A count that fits is the count itself.
pub proof fn law_counts_that_fit_are_exact(n: nat)
    ensures
        n <= usize::MAX ==> capped_count(n) == n,
        capped_count(n) <= usize::MAX,
        n >= usize::MAX ==> capped_count(n) == usize::MAX,
{
}

// --- A single text -------------------------------------------------------------

/// How the encoding of a single text starts. The rules stage compresses it, unless that
/// leaves nothing of a text that says something, and notes down that it ran; a mode without
/// the rules stage leaves the text exactly as it is. Then the cache is asked for that text
/// if the mode has the model stage and the text is long enough.
pub proof fn law_how_single_texts_start(p: Policy, text: Seq<char>, mode: Seq<char>)
    ensures
        (mode == "rules"@ || mode == "hybrid"@) && p.rules_enabled ==> unless_emptied(
            text,
            compressed(text),
            text_started(p, text, mode).text,
        ) && text_started(p, text, mode).notes == if all_white(compressed(text)) && !all_white(text) {
            seq!["rules_emptied"@, "rules_compress"@]
        } else {
            seq!["rules_compress"@]
        },
        !((mode == "rules"@ || mode == "hybrid"@) && p.rules_enabled) ==> text_started(p, text, mode).text
            == text && text_started(p, text, mode).notes.len() == 0,
        compressed(text) == text ==> text_started(p, text, mode).text == text,
        (mode == "local"@ || mode == "hybrid"@) && p.scope != LlmScope::Never && text_started(
            p,
            text,
            mode,
        ).text.len() >= p.min_chars ==> text_started(p, text, mode).wait == Wait::Lookup(
            cache_key(text_started(p, text, mode).text, p.ratio, p.model),
        ),
        !((mode == "local"@ || mode == "hybrid"@) && p.scope != LlmScope::Never && text_started(
            p,
            text,
            mode,
        ).text.len() >= p.min_chars) ==> text_started(p, text, mode).wait == Wait::Done,
{
    law_trim_takes_white_space_off_the_ends(text);
    law_trim_takes_white_space_off_the_ends(compressed(text));
}

/// What the cache answers about a single text: a hit is the text, exactly, and it is done;
/// on a miss the text stays as it was and the model is asked about it.
pub proof fn law_what_the_cache_answers_about_a_text(
    s: TextState,
    key: Seq<char>,
    found: Option<Seq<char>>,
)
    requires
        s.wait == Wait::Lookup(key),
    ensures
        match found {
            Some(hit) => text_after_lookup(s, found).text == hit && text_after_lookup(s, found).notes
                == s.notes.push("cache_hit"@) && text_after_lookup(s, found).wait == Wait::Done,
            None => text_after_lookup(s, found).text == s.text && text_after_lookup(s, found).notes
                == s.notes && text_after_lookup(s, found).wait == Wait::Reply(s.text, key),
        },
{
}

/// Whatever comes of a single text: only a rewrite that was asked for and is worth having
/// ever replaces it, and then it is that rewrite, exactly. An error, a rewrite that is not
/// worth having and an answer that nobody waits for leave the text exactly as it was, and
/// nothing goes into the cache.
pub proof fn law_only_a_good_rewrite_replaces_a_text(
    s: TextState,
    reply: Result<Seq<char>, Seq<char>>,
)
    ensures
        reply is Err ==> text_after_reply(s, reply).text == s.text && text_to_store(s, reply) is None,
        !(s.wait is Reply) ==> text_after_reply(s, reply) == s && text_to_store(s, reply) is None,
        match (s.wait, reply) {
            (Wait::Reply(text, key), Ok(rewrite)) => if accepted(rewrite, text) {
                text_after_reply(s, reply).text == rewrite && text_to_store(s, reply) == Some((key, rewrite))
            } else {
                text_after_reply(s, reply).text == s.text && text_to_store(s, reply) is None
            },
            _ => text_after_reply(s, reply).text == s.text && text_to_store(s, reply) is None,
        },
{
}

/// A single text is done once the model has answered, and what happened is noted down
/// behind what was noted before, of an error its first two hundred characters.
pub proof fn law_answers_about_a_text_are_noted(
    s: TextState,
    text: Seq<char>,
    key: Seq<char>,
    reply: Result<Seq<char>, Seq<char>>,
)
    requires
        s.wait == Wait::Reply(text, key),
    ensures
        text_after_reply(s, reply).wait == Wait::Done,
        text_after_reply(s, reply).notes == s.notes.push(
            match reply {
                Ok(rewrite) => if accepted(rewrite, text) {
                    "llm_encode"@
                } else {
                    "llm_rejected"@
                },
                Err(e) => "llm_failed:"@ + front(e, 200),
            },
        ),
{
}

/// From start to finish, whatever the cache has: if the model fails, or its rewrite is not
/// worth having, a single text is what the rules stage made of it.
pub proof fn law_a_failing_model_leaves_what_the_rules_made(
    p: Policy,
    text: Seq<char>,
    mode: Seq<char>,
    reply: Result<Seq<char>, Seq<char>>,
)
    requires
        match reply {
            Ok(rewrite) => !accepted(rewrite, text_started(p, text, mode).text),
            Err(_) => true,
        },
    ensures
        text_after_reply(text_after_lookup(text_started(p, text, mode), None), reply).text
            == text_started(p, text, mode).text,
{
}

// --- Given what came from outside ----------------------------------------------

/// What the rules make of a text, blank or not.
pub proof fn law_what_the_rules_make(role: Seq<char>, s: Seq<char>, protect: nat)
    ensures
        role == "user"@ ==> ruled(role, s, protect) == compressed(s),
        role == "system"@ ==> ruled(role, s, protect) == if s.len() >= protect {
            compressed(s)
        } else {
            s
        },
        role == "tool"@ ==> ruled(role, s, protect) == match json_compact(s) {
            Some(j) => j,
            None => collapsed(s),
        },
        role != "user"@ && role != "system"@ && role != "tool"@ ==> ruled(role, s, protect) == s,
{
    lemma_roles_differ();
}

/// A tool's output is its compact JSON, all of it, where it is JSON, and else all of it with
/// its white space collapsed.
pub proof fn law_what_tools_say_is_kept(s: Seq<char>, json: Seq<char>)
    ensures
        tool_text_given(s, Some(json)) == json,
        tool_text_given(s, None) == collapsed(s),
{
}

/// The same rewrites are taken, given the two token counts.
pub proof fn law_what_is_accepted_given_counts(rewrite: Seq<char>, now: nat, before: nat)
    ensures
        accepted_given(rewrite, now, before) <==> !all_white(rewrite) && encode_utf8(rewrite).len() > 20
            && now < before,
{
    law_trim_takes_white_space_off_the_ends(rewrite);
}

} // verus!
