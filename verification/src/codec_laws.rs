//! What holds of the compression policy as a whole.

use crate::cache::cache_key;
use crate::codec::{
    accepted, after_lookup, after_reply, eligibility, front, gets_rules, go_on, guarded,
    in_scope, is_sound, last_user, model_applies, note, rule_text, ruled_msg, ruled_msgs, ruled_piece, ruled_pieces, rules_apply, rules_notes, scan, started,
    text_after_lookup, text_after_reply, text_started, to_store, with_note, with_text, Eligibility,
    Policy, State, TextState, Wait, ERROR_NOTE_CHARS,
};
use crate::config::LlmScope;
use crate::message::{role_of, Body, Msg, Piece};
use crate::text::is_blank;
use vstd::prelude::*;

verus! {

// --- What every run keeps ------------------------------------------------------

/// The messages that the model stage starts on.
pub open spec fn after_rules(p: Policy, ms: Seq<Msg>) -> Seq<Msg> {
    if rules_apply(p, p.mode) {
        ruled_msgs(ms, p.protect)
    } else {
        ms
    }
}

/// A message is as the rules stage left it, or it was a candidate and has a new text.
pub open spec fn kept_or_rewritten(p: Policy, was: Msg, now: Msg) -> bool {
    now == was || (eligibility(p, was) is Candidate && now.role == was.role && now.content is Text)
}

/// What every run keeps: no message comes or goes, only candidates that were
/// already looked at are rewritten, and the rest is as the rules stage left it.
pub open spec fn keeps_to_policy(p: Policy, base: Seq<Msg>, s: State) -> bool {
    &&& s.messages.len() == base.len()
    &&& forall|i: int|
        0 <= i < base.len() ==> kept_or_rewritten(p, base[i], #[trigger] s.messages[i])
    &&& forall|i: int| s.at <= i < base.len() ==> #[trigger] s.messages[i] == base[i]
    &&& is_sound(s)
    &&& (!(s.wait is Done) ==> eligibility(p, base[s.at as int]) is Candidate)
}

proof fn lemma_scan_keeps(p: Policy, base: Seq<Msg>, s: State)
    requires
        s.messages.len() == base.len(),
        forall|i: int|
            0 <= i < base.len() ==> kept_or_rewritten(p, base[i], #[trigger] s.messages[i]),
        forall|i: int| s.at <= i < base.len() ==> #[trigger] s.messages[i] == base[i],
    ensures
        keeps_to_policy(p, base, scan(p, s)),
        scan(p, s).messages == s.messages,
        scan(p, s).last == s.last,
        scan(p, s).at >= s.at,
        scan(p, s).wait is Done || scan(p, s).wait is Lookup,
    decreases s.messages.len() - s.at,
{
    if s.at < s.messages.len() {
        match eligibility(p, s.messages[s.at as int]) {
            Eligibility::Pass => {
                lemma_scan_keeps(p, base, State { at: s.at + 1, ..s });
            },
            Eligibility::Parts => {
                lemma_scan_keeps(
                    p,
                    base,
                    State {
                        at: s.at + 1,
                        notes: s.notes.push(note("llm_skipped_parts_msg_"@, s.at)),
                        ..s
                    },
                );
            },
            Eligibility::Candidate(_) => {
                assert(s.messages[s.at as int] == base[s.at as int]);
            },
        }
    }
}

proof fn lemma_go_on_keeps(p: Policy, base: Seq<Msg>, s: State, t: State)
    requires
        keeps_to_policy(p, base, s),
        !(s.wait is Done),
        t.messages == s.messages || exists|text: Seq<char>|
            t.messages == #[trigger] with_text(s, text).messages,
        t.at == s.at,
    ensures
        keeps_to_policy(p, base, go_on(p, t)),
{
    let u = State { at: t.at + 1, ..t };
    assert forall|i: int| 0 <= i < base.len() implies kept_or_rewritten(
        p,
        base[i],
        #[trigger] u.messages[i],
    ) by {
        assert(kept_or_rewritten(p, base[i], s.messages[i]));
        if i == s.at {
            assert(s.messages[i] == base[i]);
        }
    }
    assert forall|i: int| u.at <= i < base.len() implies #[trigger] u.messages[i] == base[i] by {
        assert(s.messages[i] == base[i]);
    }
    lemma_scan_keeps(p, base, u);
}

/// The state in which the scan for candidates starts.
spec fn before_scan(p: Policy, ms: Seq<Msg>) -> State {
    State {
        messages: after_rules(p, ms),
        notes: if rules_apply(p, p.mode) {
            rules_notes(ms, p.protect)
        } else {
            seq![]
        },
        last: last_user(ms),
        at: 0,
        wait: Wait::Done,
    }
}

/// Every run starts within the policy: on the messages as the rules stage left them,
/// asking for nothing but the key of a candidate's own text.
pub proof fn law_runs_start_within_policy(p: Policy, ms: Seq<Msg>)
    ensures
        keeps_to_policy(p, after_rules(p, ms), started(p, ms)),
        asks_for_its_text(p, started(p, ms)),
        started(p, ms).messages == after_rules(p, ms),
        started(p, ms).last == last_user(ms),
{
    lemma_scan_keeps(p, after_rules(p, ms), before_scan(p, ms));
    lemma_scan_asks(p, before_scan(p, ms));
}

/// Every run keeps to the policy, whatever the cache and the model answer: no message
/// comes or goes, no role changes, and only candidates are rewritten.
pub proof fn law_runs_keep_to_policy(
    p: Policy,
    base: Seq<Msg>,
    s: State,
    found: Option<Seq<char>>,
    reply: Result<Seq<char>, Seq<char>>,
)
    requires
        keeps_to_policy(p, base, s),
    ensures
        keeps_to_policy(p, base, after_lookup(p, s, found)),
        keeps_to_policy(p, base, after_reply(p, s, reply)),
{
    match s.wait {
        Wait::Lookup(key) => {
            match found {
                Some(text) => {
                    lemma_go_on_keeps(
                        p,
                        base,
                        s,
                        with_note(with_text(s, text), note("cache_hit_msg_"@, s.at)),
                    );
                },
                None => {
                    lemma_go_on_keeps(p, base, s, s);
                },
            }
        },
        Wait::Reply(text, key) => {
            match reply {
                Ok(rewrite) => {
                    lemma_go_on_keeps(
                        p,
                        base,
                        s,
                        with_note(with_text(s, rewrite), note("llm_encode_msg_"@, s.at)),
                    );
                    lemma_go_on_keeps(p, base, s, with_note(s, note("llm_rejected_msg_"@, s.at)));
                },
                Err(e) => {
                    lemma_go_on_keeps(
                        p,
                        base,
                        s,
                        with_note(
                            s,
                            note("llm_failed_msg_"@, s.at) + ":"@ + front(
                                e,
                                ERROR_NOTE_CHARS as nat,
                            ),
                        ),
                    );
                },
            }
        },
        Wait::Done => {},
    }
}

/// Only messages of users and of the system are ever candidates: what an assistant,
/// a tool or anyone else said is the same before and after the model stage.
pub proof fn law_only_users_and_system_are_rewritten(p: Policy, base: Seq<Msg>, s: State, i: int)
    requires
        keeps_to_policy(p, base, s),
        0 <= i < base.len(),
        role_of(base[i]) != "user"@,
        role_of(base[i]) != "system"@,
    ensures
        s.messages[i] == base[i],
{
    assert(kept_or_rewritten(p, base[i], s.messages[i]));
}

/// Messages that the rules may not touch come through the rules stage unchanged,
/// and no message changes its role in it.
pub proof fn law_rules_stage_keeps_roles(m: Msg, protect: nat)
    ensures
        ruled_msg(m, protect).role == m.role,
        !gets_rules(role_of(m)) ==> ruled_msg(m, protect) == m,
{
}

/// Each answer brings a run nearer to its end: a run over `n` messages asks for at
/// most `n` lookups and `n` replies.
pub open spec fn answers_left(s: State) -> int {
    match s.wait {
        Wait::Done => 0,
        Wait::Lookup(_) => 2 * (s.messages.len() - s.at),
        Wait::Reply(_, _) => 2 * (s.messages.len() - s.at) - 1,
    }
}

/// Every answer that a run waits for leaves it with fewer to wait for, and it is
/// done only when none is left.
pub proof fn law_runs_end(
    p: Policy,
    s: State,
    found: Option<Seq<char>>,
    reply: Result<Seq<char>, Seq<char>>,
)
    requires
        is_sound(s),
    ensures
        is_sound(after_lookup(p, s, found)),
        is_sound(after_reply(p, s, reply)),
        s.wait is Lookup ==> answers_left(after_lookup(p, s, found)) < answers_left(s),
        s.wait is Reply ==> answers_left(after_reply(p, s, reply)) < answers_left(s),
        answers_left(s) >= 0,
        answers_left(s) == 0 <==> s.wait is Done,
{
    match s.wait {
        Wait::Lookup(key) => {
            match found {
                Some(text) => {
                    lemma_go_on_left(p, s, with_note(with_text(s, text), note("cache_hit_msg_"@, s.at)));
                },
                None => {
                    lemma_go_on_left(p, s, s);
                },
            }
        },
        Wait::Reply(text, key) => {
            match reply {
                Ok(rewrite) => {
                    lemma_go_on_left(
                        p,
                        s,
                        with_note(with_text(s, rewrite), note("llm_encode_msg_"@, s.at)),
                    );
                    lemma_go_on_left(p, s, with_note(s, note("llm_rejected_msg_"@, s.at)));
                },
                Err(e) => {
                    lemma_go_on_left(
                        p,
                        s,
                        with_note(
                            s,
                            note("llm_failed_msg_"@, s.at) + ":"@ + front(
                                e,
                                ERROR_NOTE_CHARS as nat,
                            ),
                        ),
                    );
                },
            }
        },
        Wait::Done => {},
    }
}

proof fn lemma_scan_moves(p: Policy, s: State)
    ensures
        scan(p, s).messages == s.messages,
        scan(p, s).last == s.last,
        scan(p, s).at >= s.at,
        scan(p, s).wait is Done || (scan(p, s).wait is Lookup && scan(p, s).at < s.messages.len()),
    decreases s.messages.len() - s.at,
{
    if s.at < s.messages.len() {
        match eligibility(p, s.messages[s.at as int]) {
            Eligibility::Pass => {
                lemma_scan_moves(p, State { at: s.at + 1, ..s });
            },
            Eligibility::Parts => {
                lemma_scan_moves(
                    p,
                    State {
                        at: s.at + 1,
                        notes: s.notes.push(note("llm_skipped_parts_msg_"@, s.at)),
                        ..s
                    },
                );
            },
            Eligibility::Candidate(_) => {},
        }
    }
}

proof fn lemma_go_on_left(p: Policy, s: State, t: State)
    requires
        s.at < s.messages.len(),
        t.messages.len() == s.messages.len(),
        t.at == s.at,
    ensures
        answers_left(go_on(p, t)) <= 2 * (s.messages.len() - s.at) - 2,
        answers_left(go_on(p, t)) >= 0,
        is_sound(go_on(p, t)),
{
    lemma_scan_moves(p, State { at: t.at + 1, ..t });
}

/// Where a run ends up, if the cache and the model answer it like this.
pub open spec fn finished(
    p: Policy,
    s: State,
    looks: spec_fn(State) -> Option<Seq<char>>,
    replies: spec_fn(State) -> Result<Seq<char>, Seq<char>>,
) -> State
    decreases answers_left(s),
    when is_sound(s)
    via finished_decreases
{
    match s.wait {
        Wait::Done => s,
        Wait::Lookup(_) => finished(p, after_lookup(p, s, looks(s)), looks, replies),
        Wait::Reply(_, _) => finished(p, after_reply(p, s, replies(s)), looks, replies),
    }
}

#[via_fn]
proof fn finished_decreases(
    p: Policy,
    s: State,
    looks: spec_fn(State) -> Option<Seq<char>>,
    replies: spec_fn(State) -> Result<Seq<char>, Seq<char>>,
) {
    law_runs_end(p, s, looks(s), replies(s));
}

proof fn lemma_finished(
    p: Policy,
    base: Seq<Msg>,
    s: State,
    looks: spec_fn(State) -> Option<Seq<char>>,
    replies: spec_fn(State) -> Result<Seq<char>, Seq<char>>,
)
    requires
        keeps_to_policy(p, base, s),
    ensures
        keeps_to_policy(p, base, finished(p, s, looks, replies)),
        finished(p, s, looks, replies).wait is Done,
    decreases answers_left(s),
{
    law_runs_end(p, s, looks(s), replies(s));
    law_runs_keep_to_policy(p, base, s, looks(s), replies(s));
    match s.wait {
        Wait::Done => {},
        Wait::Lookup(_) => {
            lemma_finished(p, base, after_lookup(p, s, looks(s)), looks, replies);
        },
        Wait::Reply(_, _) => {
            lemma_finished(p, base, after_reply(p, s, replies(s)), looks, replies);
        },
    }
}

/// Whatever the cache and the model answer, every run comes to an end, with as many
/// messages as it began with, each in its place and with its role. What an assistant
/// or anyone unknown said is as it came in; what a tool said is as the rules stage left
/// it.
pub proof fn law_every_run_ends_well(
    p: Policy,
    ms: Seq<Msg>,
    looks: spec_fn(State) -> Option<Seq<char>>,
    replies: spec_fn(State) -> Result<Seq<char>, Seq<char>>,
    i: int,
)
    requires
        0 <= i < ms.len(),
    ensures
        finished(p, started(p, ms), looks, replies).wait is Done,
        finished(p, started(p, ms), looks, replies).messages.len() == ms.len(),
        finished(p, started(p, ms), looks, replies).messages[i].role == ms[i].role,
        !gets_rules(role_of(ms[i])) ==> finished(p, started(p, ms), looks, replies).messages[i]
            == ms[i],
        role_of(ms[i]) == "tool"@ ==> finished(p, started(p, ms), looks, replies).messages[i]
            == after_rules(p, ms)[i],
{
    let base = after_rules(p, ms);
    let end = finished(p, started(p, ms), looks, replies);
    law_runs_start_within_policy(p, ms);
    lemma_finished(p, base, started(p, ms), looks, replies);
    law_rules_stage_keeps_roles(ms[i], p.protect);
    assert(base[i] == if rules_apply(p, p.mode) {
        ruled_msg(ms[i], p.protect)
    } else {
        ms[i]
    });
    assert(kept_or_rewritten(p, base[i], end.messages[i]));
    assert("tool"@ != "user"@ && "tool"@ != "system"@) by {
        reveal_strlit("tool");
        reveal_strlit("user");
        reveal_strlit("system");
        assert("tool"@[0] == 't' && "user"@[0] == 'u' && "system"@[0] == 's');
    }
}

// --- Byte-stable history -------------------------------------------------------

/// The message that a run looked at when it got an answer does not change after
/// that.
proof fn lemma_go_on_leaves(p: Policy, t: State)
    requires
        t.at < t.messages.len(),
    ensures
        go_on(p, t).messages == t.messages,
{
    lemma_scan_moves(p, State { at: t.at + 1, ..t });
}

/// History stays byte-stable. A rewrite that was accepted for a text goes into the
/// cache, under the text's key, exactly as it goes into the message. Whenever a run
/// with the same ratio and model comes to a message of that text, the key it asks
/// for is that same key; and if the cache has the rewrite, the message becomes that
/// same rewrite, byte for byte, without the model being asked.
pub proof fn law_history_is_byte_stable(
    p: Policy,
    s1: State,
    rewrite: Seq<char>,
    s2: State,
)
    requires
        s1.wait matches Wait::Reply(text, key) && s1.at < s1.messages.len() && accepted(rewrite, text)
            && s1.messages[s1.at as int].content == Body::Text(text) && key == cache_key(
            text,
            p.ratio,
            p.model,
        ) && s2.at < s2.messages.len() && s2.messages[s2.at as int].content == Body::Text(text)
            && eligibility(p, s2.messages[s2.at as int]) is Candidate,
    ensures
        to_store(s1, Ok(rewrite)) == Some((scan(p, s2).wait->Lookup_0, rewrite)),
        after_reply(p, s1, Ok(rewrite)).messages[s1.at as int].content == Body::Text(rewrite),
        scan(p, s2).at == s2.at,
        scan(p, s2).wait is Lookup,
        after_lookup(p, scan(p, s2), Some(rewrite)).messages[s2.at as int].content == Body::Text(
            rewrite,
        ),
        !(after_lookup(p, scan(p, s2), Some(rewrite)).wait is Reply),
{
    let t1 = with_note(with_text(s1, rewrite), note("llm_encode_msg_"@, s1.at));
    lemma_go_on_leaves(p, t1);
    let found = scan(p, s2);
    let t2 = with_note(with_text(found, rewrite), note("cache_hit_msg_"@, found.at));
    lemma_go_on_leaves(p, t2);
    lemma_scan_moves(p, State { at: t2.at + 1, ..t2 });
}

/// A run that waits for a lookup asks for the key of the text of the message it
/// looks at.
pub open spec fn asks_for_its_text(p: Policy, s: State) -> bool {
    match s.wait {
        Wait::Lookup(key) => s.at < s.messages.len() && match s.messages[s.at as int].content {
            Body::Text(text) => key == cache_key(text, p.ratio, p.model),
            _ => false,
        },
        Wait::Reply(text, key) => s.at < s.messages.len() && s.messages[s.at as int].content
            == Body::Text(text) && key == cache_key(text, p.ratio, p.model) && in_scope(
            p,
            s.at,
            s.last,
        ),
        Wait::Done => true,
    }
}

proof fn lemma_scan_asks(p: Policy, s: State)
    ensures
        asks_for_its_text(p, scan(p, s)),
        scan(p, s).last == s.last,
    decreases s.messages.len() - s.at,
{
    if s.at < s.messages.len() {
        match eligibility(p, s.messages[s.at as int]) {
            Eligibility::Pass => {
                lemma_scan_asks(p, State { at: s.at + 1, ..s });
            },
            Eligibility::Parts => {
                lemma_scan_asks(
                    p,
                    State {
                        at: s.at + 1,
                        notes: s.notes.push(note("llm_skipped_parts_msg_"@, s.at)),
                        ..s
                    },
                );
            },
            Eligibility::Candidate(_) => {},
        }
    }
}

/// Whatever the answers, a run asks the cache only for the key of the text it looks
/// at, and the model only about a message in scope whose text it is; and it does not
/// forget which message is the last user's.
pub proof fn law_runs_ask_for_their_text(
    p: Policy,
    s: State,
    found: Option<Seq<char>>,
    reply: Result<Seq<char>, Seq<char>>,
)
    requires
        asks_for_its_text(p, s),
    ensures
        asks_for_its_text(p, after_lookup(p, s, found)),
        asks_for_its_text(p, after_reply(p, s, reply)),
        after_lookup(p, s, found).last == s.last,
        after_reply(p, s, reply).last == s.last,
{
    match s.wait {
        Wait::Lookup(key) => {
            match found {
                Some(text) => {
                    let t = with_note(with_text(s, text), note("cache_hit_msg_"@, s.at));
                    lemma_scan_asks(p, State { at: t.at + 1, ..t });
                },
                None => {
                    lemma_scan_asks(p, State { at: s.at + 1, ..s });
                },
            }
        },
        Wait::Reply(text, key) => {
            match reply {
                Ok(rewrite) => {
                    let t = with_note(with_text(s, rewrite), note("llm_encode_msg_"@, s.at));
                    lemma_scan_asks(p, State { at: t.at + 1, ..t });
                    let u = with_note(s, note("llm_rejected_msg_"@, s.at));
                    lemma_scan_asks(p, State { at: u.at + 1, ..u });
                },
                Err(e) => {
                    let t = with_note(
                        s,
                        note("llm_failed_msg_"@, s.at) + ":"@ + front(e, ERROR_NOTE_CHARS as nat),
                    );
                    lemma_scan_asks(p, State { at: t.at + 1, ..t });
                },
            }
        },
        Wait::Done => {},
    }
}

/// The last user's message is a user's, and no user's message comes after it; there is
/// none only where no message is a user's.
pub proof fn law_last_user_is_the_last(ms: Seq<Msg>)
    ensures
        match last_user(ms) {
            Some(i) => i < ms.len() && ms[i as int].role == Some("user"@) && forall|j: int|
                i < j < ms.len() ==> (#[trigger] ms[j]).role != Some("user"@),
            None => forall|j: int| 0 <= j < ms.len() ==> (#[trigger] ms[j]).role != Some("user"@),
        },
    decreases ms.len(),
{
    if ms.len() > 0 && ms.last().role != Some("user"@) {
        let init = ms.drop_last();
        law_last_user_is_the_last(init);
        match last_user(init) {
            Some(i) => {
                assert(ms[i as int] == init[i as int]);
                assert forall|j: int| i < j < ms.len() implies (#[trigger] ms[j]).role != Some(
                    "user"@,
                ) by {
                    if j < init.len() {
                        assert(ms[j] == init[j]);
                    }
                }
            },
            None => {
                assert forall|j: int| 0 <= j < ms.len() implies (#[trigger] ms[j]).role != Some(
                    "user"@,
                ) by {
                    if j < init.len() {
                        assert(ms[j] == init[j]);
                    }
                }
            },
        }
    }
}

/// With the last user's message in scope, the model is asked about that one alone.
pub proof fn law_only_the_last_user_is_asked_about(p: Policy, ms: Seq<Msg>, s: State)
    requires
        p.scope == LlmScope::LastUser,
        asks_for_its_text(p, s),
        s.last == last_user(ms),
        s.wait is Reply,
    ensures
        last_user(ms) == Some(s.at),
{
}

// --- Nothing is lost -----------------------------------------------------------

/// The rules stage never leaves nothing of a text that says something.
pub proof fn law_rules_never_empty_a_text(role: Seq<char>, s: Seq<char>, protect: nat)
    requires
        !is_blank(s),
    ensures
        !is_blank(guarded(role, s, protect)),
{
}

/// A message's text says something.
pub open spec fn says_something(m: Msg) -> bool {
    match m.content {
        Body::Text(t) => !is_blank(t),
        _ => false,
    }
}

/// No run ever empties a text that says something, as long as what the cache holds says
/// something; and what goes into the cache does.
pub proof fn law_runs_never_empty_a_text(
    p: Policy,
    s: State,
    found: Option<Seq<char>>,
    reply: Result<Seq<char>, Seq<char>>,
    i: int,
)
    requires
        is_sound(s),
        0 <= i < s.messages.len(),
        says_something(s.messages[i]),
        match found {
            Some(text) => !is_blank(text),
            None => true,
        },
    ensures
        says_something(after_lookup(p, s, found).messages[i]),
        says_something(after_reply(p, s, reply).messages[i]),
        match to_store(s, reply) {
            Some((key, rewrite)) => !is_blank(rewrite),
            None => true,
        },
{
    match s.wait {
        Wait::Lookup(key) => {
            match found {
                Some(text) => {
                    lemma_go_on_leaves(
                        p,
                        with_note(with_text(s, text), note("cache_hit_msg_"@, s.at)),
                    );
                },
                None => {
                    lemma_go_on_leaves(p, s);
                },
            }
        },
        Wait::Reply(text, key) => {
            match reply {
                Ok(rewrite) => {
                    lemma_go_on_leaves(
                        p,
                        with_note(with_text(s, rewrite), note("llm_encode_msg_"@, s.at)),
                    );
                    lemma_go_on_leaves(p, with_note(s, note("llm_rejected_msg_"@, s.at)));
                },
                Err(e) => {
                    law_failures_degrade_to_rules(p, s, e);
                },
            }
        },
        Wait::Done => {},
    }
}

/// A single text that says something is never emptied either, as long as what the cache
/// holds says something.
pub proof fn law_single_texts_are_never_emptied(
    p: Policy,
    text: Seq<char>,
    mode: Seq<char>,
    s: TextState,
    found: Option<Seq<char>>,
    reply: Result<Seq<char>, Seq<char>>,
)
    requires
        !is_blank(text),
        !is_blank(s.text),
        match found {
            Some(t) => !is_blank(t),
            None => true,
        },
    ensures
        !is_blank(text_started(p, text, mode).text),
        !is_blank(text_after_lookup(s, found).text),
        !is_blank(text_after_reply(s, reply).text),
{
}

/// What the cache has, the model is not asked about: after a hit, a run never waits for
/// the model on behalf of the same message.
pub proof fn law_hits_spare_the_model(p: Policy, s: State, text: Seq<char>)
    requires
        s.wait is Lookup,
        s.at < s.messages.len(),
    ensures
        !(after_lookup(p, s, Some(text)).wait is Reply),
        after_lookup(p, s, Some(text)).at > s.at,
{
    let t = with_note(with_text(s, text), note("cache_hit_msg_"@, s.at));
    lemma_scan_moves(p, State { at: t.at + 1, ..t });
}

/// When the model fails, the messages stay as the rules stage left them.
pub proof fn law_failures_degrade_to_rules(p: Policy, s: State, error: Seq<char>)
    requires
        s.wait is Reply,
        s.at < s.messages.len(),
    ensures
        after_reply(p, s, Err(error)).messages == s.messages,
        to_store(s, Err(error)) is None,
{
    let t = with_note(
        s,
        note("llm_failed_msg_"@, s.at) + ":"@ + front(error, ERROR_NOTE_CHARS as nat),
    );
    lemma_go_on_leaves(p, t);
}

/// With the rules alone, or with nothing in scope, nothing outside is asked.
pub proof fn law_rules_mode_asks_nothing(p: Policy, ms: Seq<Msg>)
    requires
        p.mode == "rules"@ || p.scope == LlmScope::Never,
    ensures
        started(p, ms).wait is Done,
        started(p, ms).messages == after_rules(p, ms),
{
    reveal_strlit("rules");
    reveal_strlit("local");
    reveal_strlit("hybrid");
    assert("rules"@.len() == 5 && "local"@.len() == 5 && "hybrid"@.len() == 6);
    assert("rules"@[0] == 'r' && "local"@[0] == 'l');
}

// --- Whole runs ----------------------------------------------------------------

/// Whatever the cache holds says something.
pub open spec fn never_blank(looks: spec_fn(State) -> Option<Seq<char>>) -> bool {
    forall|s: State| match #[trigger] looks(s) {
        Some(text) => !is_blank(text),
        None => true,
    }
}

proof fn lemma_finished_says_something(
    p: Policy,
    s: State,
    looks: spec_fn(State) -> Option<Seq<char>>,
    replies: spec_fn(State) -> Result<Seq<char>, Seq<char>>,
    i: int,
)
    requires
        is_sound(s),
        0 <= i < s.messages.len(),
        says_something(s.messages[i]),
        never_blank(looks),
    ensures
        says_something(finished(p, s, looks, replies).messages[i]),
    decreases answers_left(s),
{
    law_runs_end(p, s, looks(s), replies(s));
    law_runs_never_empty_a_text(p, s, looks(s), replies(s), i);
    lemma_steps_keep_len(p, s, looks(s), replies(s));
    match s.wait {
        Wait::Done => {},
        Wait::Lookup(_) => {
            lemma_finished_says_something(p, after_lookup(p, s, looks(s)), looks, replies, i);
        },
        Wait::Reply(_, _) => {
            lemma_finished_says_something(p, after_reply(p, s, replies(s)), looks, replies, i);
        },
    }
}

proof fn lemma_steps_keep_len(
    p: Policy,
    s: State,
    found: Option<Seq<char>>,
    reply: Result<Seq<char>, Seq<char>>,
)
    requires
        is_sound(s),
    ensures
        after_lookup(p, s, found).messages.len() == s.messages.len(),
        after_reply(p, s, reply).messages.len() == s.messages.len(),
{
    match s.wait {
        Wait::Lookup(_) => {
            match found {
                Some(text) => {
                    lemma_go_on_leaves(
                        p,
                        with_note(with_text(s, text), note("cache_hit_msg_"@, s.at)),
                    );
                },
                None => {
                    lemma_go_on_leaves(p, s);
                },
            }
        },
        Wait::Reply(_, _) => {
            match reply {
                Ok(rewrite) => {
                    lemma_go_on_leaves(
                        p,
                        with_note(with_text(s, rewrite), note("llm_encode_msg_"@, s.at)),
                    );
                    lemma_go_on_leaves(p, with_note(s, note("llm_rejected_msg_"@, s.at)));
                },
                Err(e) => {
                    law_failures_degrade_to_rules(p, s, e);
                },
            }
        },
        Wait::Done => {},
    }
}

/// A message whose text says something when it comes in still does when the run is over,
/// whatever the model answers, as long as what the cache holds says something.
pub proof fn law_no_message_is_emptied(
    p: Policy,
    ms: Seq<Msg>,
    looks: spec_fn(State) -> Option<Seq<char>>,
    replies: spec_fn(State) -> Result<Seq<char>, Seq<char>>,
    i: int,
)
    requires
        0 <= i < ms.len(),
        says_something(ms[i]),
        never_blank(looks),
    ensures
        says_something(finished(p, started(p, ms), looks, replies).messages[i]),
{
    law_runs_start_within_policy(p, ms);
    assert(after_rules(p, ms)[i] == if rules_apply(p, p.mode) {
        ruled_msg(ms[i], p.protect)
    } else {
        ms[i]
    });
    lemma_finished_says_something(p, started(p, ms), looks, replies, i);
}

/// A part that the rules look at says something.
pub open spec fn part_says_something(p: Piece) -> bool {
    match rule_text(p) {
        Some(t) => !is_blank(t),
        None => false,
    }
}

/// A part of a message whose text says something when it comes in still does when the run
/// is over, in its place among the parts, whatever the cache and the model answer.
pub proof fn law_no_part_is_emptied(
    p: Policy,
    ms: Seq<Msg>,
    looks: spec_fn(State) -> Option<Seq<char>>,
    replies: spec_fn(State) -> Result<Seq<char>, Seq<char>>,
    i: int,
    parts: Seq<Piece>,
    j: int,
)
    requires
        0 <= i < ms.len(),
        ms[i].content == Body::Parts(parts),
        0 <= j < parts.len(),
        part_says_something(parts[j]),
    ensures
        match finished(p, started(p, ms), looks, replies).messages[i].content {
            Body::Parts(now) => now.len() == parts.len() && part_says_something(now[j]),
            _ => false,
        },
{
    let base = after_rules(p, ms);
    let end = finished(p, started(p, ms), looks, replies);
    law_runs_start_within_policy(p, ms);
    lemma_finished(p, base, started(p, ms), looks, replies);
    assert(kept_or_rewritten(p, base[i], end.messages[i]));
    let now = ruled_msg(ms[i], p.protect);
    assert(base[i] == if rules_apply(p, p.mode) {
        now
    } else {
        ms[i]
    });
    assert(end.messages[i] == base[i]);
    if rules_apply(p, p.mode) && gets_rules(role_of(ms[i])) {
        let ruled = ruled_pieces(role_of(ms[i]), parts, p.protect);
        assert(ruled[j] == ruled_piece(role_of(ms[i]), parts[j], p.protect));
    }
}

/// What the cache answers for a text, if it is asked.
pub open spec fn cache_has(
    p: Policy,
    looks: spec_fn(State) -> Option<Seq<char>>,
    text: Seq<char>,
    rewrite: Seq<char>,
) -> bool {
    forall|s: State|
        s.wait == Wait::Lookup(cache_key(text, p.ratio, p.model)) ==> #[trigger] looks(s) == Some(
            rewrite,
        )
}

proof fn lemma_scan_stops(p: Policy, s: State, i: int)
    requires
        s.at <= i < s.messages.len(),
        eligibility(p, s.messages[i]) is Candidate,
    ensures
        scan(p, s).at <= i,
        scan(p, s).wait is Lookup,
        scan(p, s).messages == s.messages,
    decreases i - s.at,
{
    if s.at < i {
        match eligibility(p, s.messages[s.at as int]) {
            Eligibility::Pass => {
                lemma_scan_stops(p, State { at: s.at + 1, ..s }, i);
            },
            Eligibility::Parts => {
                lemma_scan_stops(
                    p,
                    State {
                        at: s.at + 1,
                        notes: s.notes.push(note("llm_skipped_parts_msg_"@, s.at)),
                        ..s
                    },
                    i,
                );
            },
            Eligibility::Candidate(_) => {},
        }
    }
}

/// A run that has passed message `i`, or is over, leaves it as it is.
proof fn lemma_finished_leaves(
    p: Policy,
    s: State,
    looks: spec_fn(State) -> Option<Seq<char>>,
    replies: spec_fn(State) -> Result<Seq<char>, Seq<char>>,
    i: int,
)
    requires
        is_sound(s),
        0 <= i < s.messages.len(),
        s.wait is Done || s.at > i,
    ensures
        finished(p, s, looks, replies).messages[i] == s.messages[i],
    decreases answers_left(s),
{
    law_runs_end(p, s, looks(s), replies(s));
    lemma_steps_keep_len(p, s, looks(s), replies(s));
    lemma_steps_move_on(p, s, looks(s), replies(s), i);
    match s.wait {
        Wait::Done => {},
        Wait::Lookup(_) => {
            lemma_finished_leaves(p, after_lookup(p, s, looks(s)), looks, replies, i);
        },
        Wait::Reply(_, _) => {
            lemma_finished_leaves(p, after_reply(p, s, replies(s)), looks, replies, i);
        },
    }
}

proof fn lemma_go_on_moves(p: Policy, t: State)
    requires
        t.at < t.messages.len(),
    ensures
        go_on(p, t).messages == t.messages,
        go_on(p, t).wait is Done || go_on(p, t).at > t.at,
{
    lemma_scan_moves(p, State { at: t.at + 1, ..t });
}

/// An answer changes no message but the one the run looks at, and the run never goes
/// back.
proof fn lemma_steps_move_on(
    p: Policy,
    s: State,
    found: Option<Seq<char>>,
    reply: Result<Seq<char>, Seq<char>>,
    i: int,
)
    requires
        is_sound(s),
        0 <= i < s.messages.len(),
    ensures
        i != s.at ==> after_lookup(p, s, found).messages[i] == s.messages[i],
        i != s.at ==> after_reply(p, s, reply).messages[i] == s.messages[i],
        after_lookup(p, s, found).wait is Done || after_lookup(p, s, found).at >= s.at,
        after_reply(p, s, reply).wait is Done || after_reply(p, s, reply).at >= s.at,
        s.wait is Lookup && found is Some ==> after_lookup(p, s, found).wait is Done || after_lookup(
            p,
            s,
            found,
        ).at > s.at,
        s.wait is Reply ==> after_reply(p, s, reply).wait is Done || after_reply(p, s, reply).at > s.at,
{
    match s.wait {
        Wait::Lookup(_) => {
            match found {
                Some(text) => {
                    lemma_go_on_moves(
                        p,
                        with_note(with_text(s, text), note("cache_hit_msg_"@, s.at)),
                    );
                },
                None => {
                    lemma_go_on_moves(p, s);
                },
            }
        },
        Wait::Reply(_, _) => {
            match reply {
                Ok(rewrite) => {
                    lemma_go_on_moves(
                        p,
                        with_note(with_text(s, rewrite), note("llm_encode_msg_"@, s.at)),
                    );
                    lemma_go_on_moves(p, with_note(s, note("llm_rejected_msg_"@, s.at)));
                },
                Err(e) => {
                    lemma_go_on_moves(
                        p,
                        with_note(
                            s,
                            note("llm_failed_msg_"@, s.at) + ":"@ + front(
                                e,
                                ERROR_NOTE_CHARS as nat,
                            ),
                        ),
                    );
                },
            }
        },
        Wait::Done => {},
    }
}

/// A line that is noted down stays.
proof fn lemma_scan_notes(p: Policy, s: State, line: Seq<char>)
    requires
        s.notes.contains(line),
    ensures
        scan(p, s).notes.contains(line),
    decreases s.messages.len() - s.at,
{
    if s.at < s.messages.len() {
        match eligibility(p, s.messages[s.at as int]) {
            Eligibility::Pass => {
                lemma_scan_notes(p, State { at: s.at + 1, ..s }, line);
            },
            Eligibility::Parts => {
                let more = s.notes.push(note("llm_skipped_parts_msg_"@, s.at));
                lemma_note_stays(s.notes, note("llm_skipped_parts_msg_"@, s.at), line);
                lemma_scan_notes(p, State { at: s.at + 1, notes: more, ..s }, line);
            },
            Eligibility::Candidate(_) => {},
        }
    }
}

proof fn lemma_note_stays(notes: Seq<Seq<char>>, new: Seq<char>, line: Seq<char>)
    requires
        notes.contains(line),
    ensures
        notes.push(new).contains(line),
{
    let j = choose|j: int| 0 <= j < notes.len() && notes[j] == line;
    assert(notes.push(new)[j] == line);
}

proof fn lemma_steps_keep_notes(
    p: Policy,
    s: State,
    found: Option<Seq<char>>,
    reply: Result<Seq<char>, Seq<char>>,
    line: Seq<char>,
)
    requires
        s.notes.contains(line),
    ensures
        after_lookup(p, s, found).notes.contains(line),
        after_reply(p, s, reply).notes.contains(line),
{
    match s.wait {
        Wait::Lookup(_) => {
            match found {
                Some(text) => {
                    let t = with_note(with_text(s, text), note("cache_hit_msg_"@, s.at));
                    lemma_note_stays(s.notes, note("cache_hit_msg_"@, s.at), line);
                    lemma_scan_notes(p, State { at: t.at + 1, ..t }, line);
                },
                None => {
                    lemma_scan_notes(p, State { at: s.at + 1, ..s }, line);
                },
            }
        },
        Wait::Reply(_, _) => {
            match reply {
                Ok(rewrite) => {
                    let t = with_note(with_text(s, rewrite), note("llm_encode_msg_"@, s.at));
                    lemma_note_stays(s.notes, note("llm_encode_msg_"@, s.at), line);
                    lemma_scan_notes(p, State { at: t.at + 1, ..t }, line);
                    let u = with_note(s, note("llm_rejected_msg_"@, s.at));
                    lemma_note_stays(s.notes, note("llm_rejected_msg_"@, s.at), line);
                    lemma_scan_notes(p, State { at: u.at + 1, ..u }, line);
                },
                Err(e) => {
                    let new = note("llm_failed_msg_"@, s.at) + ":"@ + front(
                        e,
                        ERROR_NOTE_CHARS as nat,
                    );
                    let t = with_note(s, new);
                    lemma_note_stays(s.notes, new, line);
                    lemma_scan_notes(p, State { at: t.at + 1, ..t }, line);
                },
            }
        },
        Wait::Done => {},
    }
}

proof fn lemma_finished_notes(
    p: Policy,
    s: State,
    looks: spec_fn(State) -> Option<Seq<char>>,
    replies: spec_fn(State) -> Result<Seq<char>, Seq<char>>,
    line: Seq<char>,
)
    requires
        is_sound(s),
        s.notes.contains(line),
    ensures
        finished(p, s, looks, replies).notes.contains(line),
    decreases answers_left(s),
{
    law_runs_end(p, s, looks(s), replies(s));
    lemma_steps_keep_notes(p, s, looks(s), replies(s), line);
    match s.wait {
        Wait::Done => {},
        Wait::Lookup(_) => {
            lemma_finished_notes(p, after_lookup(p, s, looks(s)), looks, replies, line);
        },
        Wait::Reply(_, _) => {
            lemma_finished_notes(p, after_reply(p, s, replies(s)), looks, replies, line);
        },
    }
}

/// A run asks the model about message `i`.
pub open spec fn asks_model_about(
    p: Policy,
    s: State,
    looks: spec_fn(State) -> Option<Seq<char>>,
    replies: spec_fn(State) -> Result<Seq<char>, Seq<char>>,
    i: int,
) -> bool
    decreases answers_left(s),
    when is_sound(s)
    via asks_model_about_decreases
{
    match s.wait {
        Wait::Done => false,
        Wait::Lookup(_) => asks_model_about(p, after_lookup(p, s, looks(s)), looks, replies, i),
        Wait::Reply(_, _) => s.at == i || asks_model_about(
            p,
            after_reply(p, s, replies(s)),
            looks,
            replies,
            i,
        ),
    }
}

#[via_fn]
proof fn asks_model_about_decreases(
    p: Policy,
    s: State,
    looks: spec_fn(State) -> Option<Seq<char>>,
    replies: spec_fn(State) -> Result<Seq<char>, Seq<char>>,
    i: int,
) {
    law_runs_end(p, s, looks(s), replies(s));
}

/// A run that has passed message `i`, or is over, does not ask the model about it.
proof fn lemma_passed_is_not_asked_about(
    p: Policy,
    s: State,
    looks: spec_fn(State) -> Option<Seq<char>>,
    replies: spec_fn(State) -> Result<Seq<char>, Seq<char>>,
    i: int,
)
    requires
        is_sound(s),
        0 <= i < s.messages.len(),
        s.wait is Done || s.at > i,
    ensures
        !asks_model_about(p, s, looks, replies, i),
    decreases answers_left(s),
{
    law_runs_end(p, s, looks(s), replies(s));
    lemma_steps_keep_len(p, s, looks(s), replies(s));
    lemma_steps_move_on(p, s, looks(s), replies(s), i);
    match s.wait {
        Wait::Done => {},
        Wait::Lookup(_) => {
            lemma_passed_is_not_asked_about(p, after_lookup(p, s, looks(s)), looks, replies, i);
        },
        Wait::Reply(_, _) => {
            lemma_passed_is_not_asked_about(p, after_reply(p, s, replies(s)), looks, replies, i);
        },
    }
}

/// A run before message `i`, or at it and asking the cache.
spec fn comes_to(p: Policy, base: Seq<Msg>, s: State, i: int) -> bool {
    &&& keeps_to_policy(p, base, s)
    &&& asks_for_its_text(p, s)
    &&& !(s.wait is Done)
    &&& s.at <= i
    &&& s.at == i ==> s.wait is Lookup
}

proof fn lemma_comes_to(p: Policy, base: Seq<Msg>, s: State, t: State, i: int)
    requires
        keeps_to_policy(p, base, s),
        !(s.wait is Done),
        s.at < i < base.len(),
        eligibility(p, base[i]) is Candidate,
        t.messages == s.messages || exists|text: Seq<char>|
            t.messages == #[trigger] with_text(s, text).messages,
        t.at == s.at,
    ensures
        comes_to(p, base, go_on(p, t), i),
{
    lemma_go_on_keeps(p, base, s, t);
    let u = State { at: t.at + 1, ..t };
    assert(s.messages[i] == base[i]);
    assert(u.messages[i] == base[i]);
    lemma_scan_stops(p, u, i);
    lemma_scan_asks(p, u);
}

proof fn lemma_finished_rewrites(
    p: Policy,
    base: Seq<Msg>,
    s: State,
    looks: spec_fn(State) -> Option<Seq<char>>,
    replies: spec_fn(State) -> Result<Seq<char>, Seq<char>>,
    i: int,
    text: Seq<char>,
    rewrite: Seq<char>,
)
    requires
        comes_to(p, base, s, i),
        0 <= i < base.len(),
        eligibility(p, base[i]) == Eligibility::Candidate(text),
        cache_has(p, looks, text, rewrite),
    ensures
        finished(p, s, looks, replies).messages[i].content == Body::Text(rewrite),
        finished(p, s, looks, replies).notes.contains(note("cache_hit_msg_"@, i as nat)),
        !asks_model_about(p, s, looks, replies, i),
    decreases answers_left(s),
{
    law_runs_end(p, s, looks(s), replies(s));
    lemma_steps_keep_len(p, s, looks(s), replies(s));
    lemma_steps_move_on(p, s, looks(s), replies(s), i);
    if s.at == i {
        assert(s.messages[i] == base[i]);
        assert(looks(s) == Some(rewrite));
        let t = with_note(with_text(s, rewrite), note("cache_hit_msg_"@, s.at));
        let next = after_lookup(p, s, looks(s));
        lemma_go_on_leaves(p, t);
        lemma_finished_leaves(p, next, looks, replies, i);
        lemma_passed_is_not_asked_about(p, next, looks, replies, i);
        assert(t.notes[t.notes.len() - 1] == note("cache_hit_msg_"@, i as nat));
        assert(t.notes.contains(note("cache_hit_msg_"@, i as nat)));
        lemma_scan_notes(p, State { at: t.at + 1, ..t }, note("cache_hit_msg_"@, i as nat));
        lemma_finished_notes(p, next, looks, replies, note("cache_hit_msg_"@, i as nat));
    } else {
        match s.wait {
            Wait::Lookup(key) => {
                let next = after_lookup(p, s, looks(s));
                match looks(s) {
                    Some(found) => {
                        lemma_comes_to(
                            p,
                            base,
                            s,
                            with_note(with_text(s, found), note("cache_hit_msg_"@, s.at)),
                            i,
                        );
                    },
                    None => {
                        lemma_comes_to(p, base, s, s, i);
                        law_runs_keep_to_policy(p, base, s, None, replies(s));
                        law_runs_ask_for_their_text(p, s, None, replies(s));
                    },
                }
                lemma_finished_rewrites(p, base, next, looks, replies, i, text, rewrite);
            },
            Wait::Reply(_, _) => {
                let next = after_reply(p, s, replies(s));
                match replies(s) {
                    Ok(new) => {
                        lemma_comes_to(
                            p,
                            base,
                            s,
                            with_note(with_text(s, new), note("llm_encode_msg_"@, s.at)),
                            i,
                        );
                        lemma_comes_to(
                            p,
                            base,
                            s,
                            with_note(s, note("llm_rejected_msg_"@, s.at)),
                            i,
                        );
                    },
                    Err(e) => {
                        lemma_comes_to(
                            p,
                            base,
                            s,
                            with_note(
                                s,
                                note("llm_failed_msg_"@, s.at) + ":"@ + front(
                                    e,
                                    ERROR_NOTE_CHARS as nat,
                                ),
                            ),
                            i,
                        );
                    },
                }
                lemma_finished_rewrites(p, base, next, looks, replies, i, text, rewrite);
            },
            Wait::Done => {},
        }
    }
}

/// Resent history is byte-stable over whole runs: wherever a message comes to the model
/// stage with a text for which the cache has a rewrite, the message is that rewrite, byte
/// for byte, when the run is over, whatever else the cache and the model answer. The run
/// notes the hit, and does not ask the model about the message.
pub proof fn law_resent_history_is_byte_stable(
    p: Policy,
    ms: Seq<Msg>,
    looks: spec_fn(State) -> Option<Seq<char>>,
    replies: spec_fn(State) -> Result<Seq<char>, Seq<char>>,
    i: int,
    text: Seq<char>,
    rewrite: Seq<char>,
)
    requires
        0 <= i < ms.len(),
        model_applies(p, p.mode),
        eligibility(p, after_rules(p, ms)[i]) == Eligibility::Candidate(text),
        cache_has(p, looks, text, rewrite),
    ensures
        finished(p, started(p, ms), looks, replies).messages[i].content == Body::Text(rewrite),
        finished(p, started(p, ms), looks, replies).notes.contains(
            note("cache_hit_msg_"@, i as nat),
        ),
        !asks_model_about(p, started(p, ms), looks, replies, i),
{
    let base = after_rules(p, ms);
    law_runs_start_within_policy(p, ms);
    lemma_scan_stops(p, before_scan(p, ms), i);
    lemma_finished_rewrites(p, base, started(p, ms), looks, replies, i, text, rewrite);
}

/// How often a run asks the model.
pub open spec fn questions(
    p: Policy,
    s: State,
    looks: spec_fn(State) -> Option<Seq<char>>,
    replies: spec_fn(State) -> Result<Seq<char>, Seq<char>>,
) -> nat
    decreases answers_left(s),
    when is_sound(s)
    via questions_decreases
{
    match s.wait {
        Wait::Done => 0,
        Wait::Lookup(_) => questions(p, after_lookup(p, s, looks(s)), looks, replies),
        Wait::Reply(_, _) => 1 + questions(p, after_reply(p, s, replies(s)), looks, replies),
    }
}

#[via_fn]
proof fn questions_decreases(
    p: Policy,
    s: State,
    looks: spec_fn(State) -> Option<Seq<char>>,
    replies: spec_fn(State) -> Result<Seq<char>, Seq<char>>,
) {
    law_runs_end(p, s, looks(s), replies(s));
}

proof fn lemma_questions(
    p: Policy,
    s: State,
    looks: spec_fn(State) -> Option<Seq<char>>,
    replies: spec_fn(State) -> Result<Seq<char>, Seq<char>>,
)
    requires
        is_sound(s),
        asks_for_its_text(p, s),
        p.scope == LlmScope::LastUser,
    ensures
        questions(p, s, looks, replies) <= 1,
        s.last is None || s.at > s.last->Some_0 ==> questions(p, s, looks, replies) == 0,
    decreases answers_left(s),
{
    law_runs_end(p, s, looks(s), replies(s));
    law_runs_ask_for_their_text(p, s, looks(s), replies(s));
    match s.wait {
        Wait::Done => {},
        Wait::Lookup(_) => {
            lemma_steps_move_on(p, s, looks(s), replies(s), s.at as int);
            lemma_questions(p, after_lookup(p, s, looks(s)), looks, replies);
        },
        Wait::Reply(_, _) => {
            lemma_steps_move_on(p, s, looks(s), replies(s), s.at as int);
            lemma_questions(p, after_reply(p, s, replies(s)), looks, replies);
        },
    }
}

/// With the last user's message in scope, a run asks the model once at most.
pub proof fn law_model_is_asked_once_at_most(
    p: Policy,
    ms: Seq<Msg>,
    looks: spec_fn(State) -> Option<Seq<char>>,
    replies: spec_fn(State) -> Result<Seq<char>, Seq<char>>,
)
    requires
        p.scope == LlmScope::LastUser,
    ensures
        questions(p, started(p, ms), looks, replies) <= 1,
{
    law_runs_start_within_policy(p, ms);
    lemma_questions(p, started(p, ms), looks, replies);
}

proof fn lemma_no_questions(
    p: Policy,
    s: State,
    looks: spec_fn(State) -> Option<Seq<char>>,
    replies: spec_fn(State) -> Result<Seq<char>, Seq<char>>,
)
    requires
        is_sound(s),
        !(s.wait is Reply),
        forall|t: State| t.wait is Lookup ==> #[trigger] looks(t) is Some,
    ensures
        questions(p, s, looks, replies) == 0,
    decreases answers_left(s),
{
    law_runs_end(p, s, looks(s), replies(s));
    if s.wait is Lookup {
        law_hits_spare_the_model(p, s, looks(s)->Some_0);
        lemma_no_questions(p, after_lookup(p, s, looks(s)), looks, replies);
    }
}

/// A conversation of which the cache has everything is sent again without the model being
/// asked at all.
pub proof fn law_cached_conversations_spare_the_model(
    p: Policy,
    ms: Seq<Msg>,
    looks: spec_fn(State) -> Option<Seq<char>>,
    replies: spec_fn(State) -> Result<Seq<char>, Seq<char>>,
)
    requires
        forall|t: State| t.wait is Lookup ==> #[trigger] looks(t) is Some,
    ensures
        questions(p, started(p, ms), looks, replies) == 0,
{
    law_runs_start_within_policy(p, ms);
    lemma_scan_moves(p, before_scan(p, ms));
    lemma_no_questions(p, started(p, ms), looks, replies);
}

} // verus!
