//! The compression policy: what happens to each message of a request, and to a
//! single text.
//!
//! The rules stage is a function of the messages. The model stage needs answers
//! from outside, from the cache and from the local model: it is a machine that
//! says what it waits for and goes on with the answer.

use crate::cache::{cache_key, RewriteCache};
use crate::config::{EncoderConfig, LlmScope};
use crate::decimal::{decimal, decimal_text};
use crate::message::{
    count_messages_tokens, messages_tokens, msgs, parts_chars, pieces_chars, pieces_of, role_of,
    Body, Content, Message, Msg, Part, Piece,
};
use crate::outside::{compact_json, json_compact, texts};
use crate::rules::{collapse_whitespace, collapsed, compressed, rules_compress};
use crate::stats::TokenStats;
use crate::text::{blank, chars_of, is_blank, join2, join3, opt_text, same_text, string_of};
use crate::tokenizer::{count_tokens, token_count};
use vstd::prelude::*;
use vstd::slice::slice_subrange;
use vstd::utf8::encode_utf8;

verus! {

broadcast use vstd::string::group_string_axioms;

// --- The rules stage -----------------------------------------------------------

/// The roles whose content the rules may touch.
pub open spec fn gets_rules(role: Seq<char>) -> bool {
    role == "user"@ || role == "system"@ || role == "tool"@
}

/// What a tool's output becomes, given what it is as compact JSON.
pub open spec fn tool_text_given(s: Seq<char>, json: Option<Seq<char>>) -> Seq<char> {
    match json {
        Some(j) => j,
        None => collapsed(s),
    }
}

/// What the rules make of a text in a message of this role.
pub open spec fn ruled(role: Seq<char>, s: Seq<char>, protect: nat) -> Seq<char> {
    if role == "user"@ {
        compressed(s)
    } else if role == "system"@ {
        if s.len() < protect {
            s
        } else {
            compressed(s)
        }
    } else if role == "tool"@ {
        tool_text_given(s, json_compact(s))
    } else {
        s
    }
}

/// The rules would leave nothing of a text that says something.
pub open spec fn emptied(role: Seq<char>, s: Seq<char>, protect: nat) -> bool {
    !is_blank(s) && is_blank(ruled(role, s, protect))
}

/// What the rules make of a text, unless they would leave nothing of it.
pub open spec fn guarded(role: Seq<char>, s: Seq<char>, protect: nat) -> Seq<char> {
    if emptied(role, s, protect) {
        s
    } else {
        ruled(role, s, protect)
    }
}

/// The text of a part that the rules look at.
pub open spec fn rule_text(p: Piece) -> Option<Seq<char>> {
    match p {
        Piece::Object { kind, text } => if kind == Some("text"@) {
            text
        } else {
            None
        },
        _ => None,
    }
}

/// What the rules stage makes of a part.
pub open spec fn ruled_piece(role: Seq<char>, p: Piece, protect: nat) -> Piece {
    match rule_text(p) {
        Some(t) => Piece::Object { kind: Some("text"@), text: Some(guarded(role, t, protect)) },
        None => p,
    }
}

/// The rules would empty this part.
pub open spec fn emptied_piece(role: Seq<char>, p: Piece, protect: nat) -> bool {
    match rule_text(p) {
        Some(t) => emptied(role, t, protect),
        None => false,
    }
}

/// What the rules stage makes of the parts of a message.
pub open spec fn ruled_pieces(role: Seq<char>, parts: Seq<Piece>, protect: nat) -> Seq<Piece> {
    parts.map_values(|p: Piece| ruled_piece(role, p, protect))
}

/// The rules would empty one of the parts.
pub open spec fn emptied_any(role: Seq<char>, parts: Seq<Piece>, protect: nat) -> bool {
    exists|i: int| 0 <= i < parts.len() && emptied_piece(role, #[trigger] parts[i], protect)
}

/// What the rules stage makes of a content.
pub open spec fn ruled_body(role: Seq<char>, body: Body, protect: nat) -> Body {
    match body {
        Body::Text(s) => Body::Text(guarded(role, s, protect)),
        Body::Parts(parts) => Body::Parts(ruled_pieces(role, parts, protect)),
        _ => body,
    }
}

/// The rules would empty something of a content.
pub open spec fn emptied_body(role: Seq<char>, body: Body, protect: nat) -> bool {
    match body {
        Body::Text(s) => emptied(role, s, protect),
        Body::Parts(parts) => emptied_any(role, parts, protect),
        _ => false,
    }
}

/// What the rules stage makes of a message.
pub open spec fn ruled_msg(m: Msg, protect: nat) -> Msg {
    if gets_rules(role_of(m)) {
        Msg { role: m.role, content: ruled_body(role_of(m), m.content, protect) }
    } else {
        m
    }
}

/// What the rules stage makes of all messages.
pub open spec fn ruled_msgs(ms: Seq<Msg>, protect: nat) -> Seq<Msg> {
    ms.map_values(|m: Msg| ruled_msg(m, protect))
}

/// A note about message `i`.
pub open spec fn note(what: Seq<char>, i: nat) -> Seq<char> {
    what + decimal(i)
}

/// What the rules stage notes down: each message of which it would have emptied
/// something.
pub open spec fn rules_notes(ms: Seq<Msg>, protect: nat) -> Seq<Seq<char>>
    decreases ms.len(),
{
    if ms.len() == 0 {
        seq![]
    } else {
        let m = ms.last();
        let before = rules_notes(ms.drop_last(), protect);
        if gets_rules(role_of(m)) && emptied_body(role_of(m), m.content, protect) {
            before.push(note("rules_emptied_msg_"@, (ms.len() - 1) as nat))
        } else {
            before
        }
    }
}

/// Whether the rules may touch a message of this role.
pub fn role_gets_rules(role: &str) -> (r: bool)
    ensures
        r == gets_rules(role@),
{
    same_text(role, "user") || same_text(role, "system") || same_text(role, "tool")
}

/// A tool's output, given what it is as compact JSON: that, or the output with its
/// white space collapsed.
pub fn minified_or_collapsed(s: &str, json: Option<String>) -> (r: String)
    ensures
        r@ == tool_text_given(s@, opt_text(json)),
{
    match json {
        Some(j) => j,
        None => collapse_whitespace(s),
    }
}

/// A tool's output, structure-safe: minified where it is JSON, with its white space
/// collapsed where it is not.
pub fn tool_minify_or_collapse(s: &str) -> (r: String)
    ensures
        r@ == tool_text_given(s@, json_compact(s@)),
{
    minified_or_collapsed(s, compact_json(s))
}

/// What the rules make of a text in a message of this role.
pub fn rules_transform(role: &str, s: &str, protect_system_under_chars: usize) -> (r: String)
    ensures
        r@ == ruled(role@, s@, protect_system_under_chars as nat),
{
    if same_text(role, "user") {
        rules_compress(s)
    } else if same_text(role, "system") {
        if chars_of(s).len() < protect_system_under_chars {
            s.to_owned()
        } else {
            rules_compress(s)
        }
    } else if same_text(role, "tool") {
        tool_minify_or_collapse(s)
    } else {
        s.to_owned()
    }
}

/// What the rules make of a text, unless they would leave nothing of it; and
/// whether they would have.
pub fn rules_guarded(role: &str, s: &str, protect: usize) -> (r: (String, bool))
    ensures
        r.0@ == guarded(role@, s@, protect as nat),
        r.1 == emptied(role@, s@, protect as nat),
{
    let t: String = rules_transform(role, s, protect);
    if !blank(s) && blank(t.as_str()) {
        (s.to_owned(), true)
    } else {
        (t, false)
    }
}

/// A copy of a part.
fn copy_part(p: &Part) -> (r: Part)
    ensures
        r@ == p@,
{
    match p {
        Part::Object { kind, text } => Part::Object { kind: copy_opt(kind), text: copy_opt(text) },
        Part::Text(s) => Part::Text(s.as_str().to_owned()),
        Part::Other(s) => Part::Other(s.as_str().to_owned()),
    }
}

fn copy_opt(s: &Option<String>) -> (r: Option<String>)
    ensures
        opt_text(r) == opt_text(*s),
{
    match s {
        Some(t) => Some(t.as_str().to_owned()),
        None => None,
    }
}

/// The rules stage on one part; and whether it would have been emptied.
fn rules_part(role: &str, p: &Part, protect: usize) -> (r: (Part, bool))
    ensures
        r.0@ == ruled_piece(role@, p@, protect as nat),
        r.1 == emptied_piece(role@, p@, protect as nat),
{
    if let Part::Object { kind: Some(k), text: Some(t) } = p {
        if same_text(k.as_str(), "text") {
            let (s, gone) = rules_guarded(role, t.as_str(), protect);
            return (Part::Object { kind: Some("text".to_owned()), text: Some(s) }, gone);
        }
    }
    (copy_part(p), false)
}

/// The rules stage on the parts of a message; and whether one would have been
/// emptied.
fn rules_parts(role: &str, parts: &Vec<Part>, protect: usize) -> (r: (Vec<Part>, bool))
    ensures
        pieces_of(r.0@) == ruled_pieces(role@, pieces_of(parts@), protect as nat),
        r.1 == emptied_any(role@, pieces_of(parts@), protect as nat),
{
    let ghost all = pieces_of(parts@);
    let mut out: Vec<Part> = Vec::new();
    let mut any: bool = false;
    let mut i: usize = 0;
    while i < parts.len()
        invariant
            i <= parts@.len(),
            all == pieces_of(parts@),
            out@.len() == i,
            forall|k: int|
                0 <= k < i ==> (#[trigger] out@[k])@ == ruled_piece(role@, all[k], protect as nat),
            any == exists|k: int|
                0 <= k < i && emptied_piece(role@, #[trigger] all[k], protect as nat),
        decreases parts@.len() - i,
    {
        let (p, gone) = rules_part(role, &parts[i], protect);
        proof {
            assert(all[i as int] == parts@[i as int]@);
            if gone {
                assert(emptied_piece(role@, all[i as int], protect as nat));
            }
        }
        out.push(p);
        any = any || gone;
        i = i + 1;
    }
    assert(pieces_of(out@) == ruled_pieces(role@, all, protect as nat));
    (out, any)
}

/// A copy of a message.
fn copy_message(m: &Message) -> (r: Message)
    ensures
        r@ == m@,
{
    let content: Content = match &m.content {
        Content::Absent => Content::Absent,
        Content::Text(s) => Content::Text(s.as_str().to_owned()),
        Content::Parts(parts) => Content::Parts(copy_parts(parts)),
        Content::Other(s) => Content::Other(s.as_str().to_owned()),
    };
    Message { role: copy_opt(&m.role), content }
}

fn copy_parts(parts: &Vec<Part>) -> (r: Vec<Part>)
    ensures
        pieces_of(r@) == pieces_of(parts@),
{
    let mut out: Vec<Part> = Vec::new();
    let mut i: usize = 0;
    while i < parts.len()
        invariant
            i <= parts@.len(),
            out@.len() == i,
            forall|k: int| 0 <= k < i ==> (#[trigger] out@[k])@ == parts@[k]@,
        decreases parts@.len() - i,
    {
        out.push(copy_part(&parts[i]));
        i = i + 1;
    }
    assert(pieces_of(out@) == pieces_of(parts@));
    out
}

/// The rules stage on one message; and whether something of it would have been
/// emptied.
fn rules_message(m: &Message, protect: usize) -> (r: (Message, bool))
    ensures
        r.0@ == ruled_msg(m@, protect as nat),
        r.1 == (gets_rules(role_of(m@)) && emptied_body(role_of(m@), m@.content, protect as nat)),
{
    let role: &str = m.role_text();
    if !role_gets_rules(role) {
        return (copy_message(m), false);
    }
    match &m.content {
        Content::Text(s) => {
            let (t, gone) = rules_guarded(role, s.as_str(), protect);
            (Message { role: copy_opt(&m.role), content: Content::Text(t) }, gone)
        },
        Content::Parts(parts) => {
            let (ps, gone) = rules_parts(role, parts, protect);
            (Message { role: copy_opt(&m.role), content: Content::Parts(ps) }, gone)
        },
        _ => (copy_message(m), false),
    }
}

/// A note about message `i`.
fn note_about(what: &str, i: usize) -> (r: String)
    ensures
        r@ == note(what@, i as nat),
{
    let n: String = decimal_text(i);
    join2(what, n.as_str())
}

/// The rules stage; and what it notes down.
pub fn rules_stage(messages: &Vec<Message>, protect: usize) -> (r: (Vec<Message>, Vec<String>))
    ensures
        msgs(r.0@) == ruled_msgs(msgs(messages@), protect as nat),
        texts(r.1@) == rules_notes(msgs(messages@), protect as nat),
{
    let ghost all = msgs(messages@);
    let mut out: Vec<Message> = Vec::new();
    let mut notes: Vec<String> = Vec::new();
    let mut i: usize = 0;
    assert(texts(notes@) == Seq::<Seq<char>>::empty());
    while i < messages.len()
        invariant
            i <= messages@.len(),
            all == msgs(messages@),
            out@.len() == i,
            forall|k: int| 0 <= k < i ==> (#[trigger] out@[k])@ == ruled_msg(all[k], protect as nat),
            texts(notes@) == rules_notes(all.take(i as int), protect as nat),
        decreases messages@.len() - i,
    {
        let ghost before = texts(notes@);
        proof {
            assert(all.take(i + 1).drop_last() == all.take(i as int));
            assert(all.take(i + 1).last() == messages@[i as int]@);
        }
        let (m, gone) = rules_message(&messages[i], protect);
        out.push(m);
        if gone {
            let line: String = note_about("rules_emptied_msg_", i);
            let ghost lv = line@;
            notes.push(line);
            assert(texts(notes@) == before.push(lv));
        }
        i = i + 1;
    }
    proof {
        assert(all.take(all.len() as int) == all);
        assert(msgs(out@) == ruled_msgs(all, protect as nat));
    }
    (out, notes)
}

// --- The model stage -----------------------------------------------------------

/// How many characters of an error go into a note.
pub const ERROR_NOTE_CHARS: usize = 200;

/// The shortest rewrite, in bytes, that is no longer trivial is one more than this.
pub const TRIVIAL_BYTES: usize = 20;

/// A rewrite is worth having: it says something, is not trivially short, and is
/// strictly fewer tokens than what it replaces.
pub open spec fn accepted(rewrite: Seq<char>, baseline: Seq<char>) -> bool {
    !is_blank(rewrite) && encode_utf8(rewrite).len() > TRIVIAL_BYTES && token_count(rewrite)
        < token_count(baseline)
}

/// The same, given the two token counts.
pub open spec fn accepted_given(rewrite: Seq<char>, rewrite_tokens: nat, baseline_tokens: nat) -> bool {
    !is_blank(rewrite) && encode_utf8(rewrite).len() > TRIVIAL_BYTES && rewrite_tokens
        < baseline_tokens
}

/// Whether a rewrite is worth having, given the two token counts.
pub fn accept_given(rewrite: &str, rewrite_tokens: usize, baseline_tokens: usize) -> (r: bool)
    ensures
        r == accepted_given(rewrite@, rewrite_tokens as nat, baseline_tokens as nat),
{
    !blank(rewrite) && rewrite.as_bytes().len() > TRIVIAL_BYTES && rewrite_tokens < baseline_tokens
}

/// Whether a rewrite is worth having.
pub fn accept_rewrite(rewrite: &str, baseline: &str) -> (r: bool)
    ensures
        r == accepted(rewrite@, baseline@),
{
    accept_given(rewrite, count_tokens(rewrite), count_tokens(baseline))
}

/// At most `max` characters of a text, from its front.
pub open spec fn front(s: Seq<char>, max: nat) -> Seq<char> {
    if s.len() <= max {
        s
    } else {
        s.take(max as int)
    }
}

/// At most `max` characters of a text, from its front.
pub fn truncate_chars(s: &str, max: usize) -> (r: String)
    ensures
        r@ == front(s@, max as nat),
{
    let v: Vec<char> = chars_of(s);
    if v.len() <= max {
        return s.to_owned();
    }
    let part: &[char] = slice_subrange(v.as_slice(), 0, max);
    assert(part@ == s@.take(max as int));
    string_of(part)
}

/// What decides about compression.
pub struct Policy {
    pub mode: Seq<char>,
    pub rules_enabled: bool,
    pub scope: LlmScope,
    pub min_chars: nat,
    pub protect: nat,
    pub ratio: Seq<char>,
    pub model: Seq<char>,
}

/// The rules stage runs in this mode.
pub open spec fn rules_apply(p: Policy, mode: Seq<char>) -> bool {
    (mode == "rules"@ || mode == "hybrid"@) && p.rules_enabled
}

/// The model stage runs in this mode.
pub open spec fn model_applies(p: Policy, mode: Seq<char>) -> bool {
    (mode == "local"@ || mode == "hybrid"@) && p.scope != LlmScope::Never
}

/// The last message with the role `user`.
pub open spec fn last_user(ms: Seq<Msg>) -> Option<nat>
    decreases ms.len(),
{
    if ms.len() == 0 {
        None
    } else if ms.last().role == Some("user"@) {
        Some((ms.len() - 1) as nat)
    } else {
        last_user(ms.drop_last())
    }
}

/// How the model stage looks at a message.
pub enum Eligibility {
    /// Not at all.
    Pass,
    /// Its content is in parts that would be long enough, which is noted down.
    Parts,
    /// Its text is looked up in the cache.
    Candidate(Seq<char>),
}

/// How the model stage looks at a message.
pub open spec fn eligibility(p: Policy, m: Msg) -> Eligibility {
    let role = role_of(m);
    if role != "user"@ && role != "system"@ {
        Eligibility::Pass
    } else {
        match m.content {
            Body::Text(s) => if s.len() < p.min_chars || (role == "system"@ && s.len() < p.protect) {
                Eligibility::Pass
            } else {
                Eligibility::Candidate(s)
            },
            Body::Parts(parts) => if pieces_chars(parts) >= p.min_chars {
                Eligibility::Parts
            } else {
                Eligibility::Pass
            },
            _ => Eligibility::Pass,
        }
    }
}

/// Message `i` may be handed to the model.
pub open spec fn in_scope(p: Policy, i: nat, last: Option<nat>) -> bool {
    match p.scope {
        LlmScope::All => true,
        LlmScope::LastUser => last == Some(i),
        LlmScope::Never => false,
    }
}

/// What the model stage waits for.
pub enum Wait {
    /// What the cache has under the key.
    Lookup(Seq<char>),
    /// What the model makes of the text; a rewrite goes under the key.
    Reply(Seq<char>, Seq<char>),
    /// Nothing: it is done.
    Done,
}

/// Where the model stage is.
pub struct State {
    pub messages: Seq<Msg>,
    pub notes: Seq<Seq<char>>,
    pub last: Option<nat>,
    /// The message that is looked at.
    pub at: nat,
    pub wait: Wait,
}

/// On to the first candidate from message `at` on.
pub open spec fn scan(p: Policy, s: State) -> State
    decreases s.messages.len() - s.at,
{
    if s.at >= s.messages.len() {
        State { wait: Wait::Done, ..s }
    } else {
        match eligibility(p, s.messages[s.at as int]) {
            Eligibility::Pass => scan(p, State { at: s.at + 1, ..s }),
            Eligibility::Parts => scan(
                p,
                State {
                    at: s.at + 1,
                    notes: s.notes.push(note("llm_skipped_parts_msg_"@, s.at)),
                    ..s
                },
            ),
            Eligibility::Candidate(text) => State {
                wait: Wait::Lookup(cache_key(text, p.ratio, p.model)),
                ..s
            },
        }
    }
}

/// The message that is looked at gets a new text.
pub open spec fn with_text(s: State, text: Seq<char>) -> State {
    State {
        messages: s.messages.update(
            s.at as int,
            Msg { role: s.messages[s.at as int].role, content: Body::Text(text) },
        ),
        ..s
    }
}

/// One more note.
pub open spec fn with_note(s: State, line: Seq<char>) -> State {
    State { notes: s.notes.push(line), ..s }
}

/// On from the message after this one.
pub open spec fn go_on(p: Policy, s: State) -> State {
    scan(p, State { at: s.at + 1, ..s })
}

/// The cache has answered. A hit becomes the text of the message; on a miss the
/// model is asked, if the message is in scope.
pub open spec fn after_lookup(p: Policy, s: State, found: Option<Seq<char>>) -> State {
    match s.wait {
        Wait::Lookup(key) => match found {
            Some(text) => go_on(p, with_note(with_text(s, text), note("cache_hit_msg_"@, s.at))),
            None => match s.messages[s.at as int].content {
                Body::Text(text) if in_scope(p, s.at, s.last) => State {
                    wait: Wait::Reply(text, key),
                    ..s
                },
                _ => go_on(p, s),
            },
        },
        _ => s,
    }
}

/// The model has answered. A rewrite that is worth having becomes the text of the
/// message; anything else is noted down.
pub open spec fn after_reply(p: Policy, s: State, reply: Result<Seq<char>, Seq<char>>) -> State {
    match s.wait {
        Wait::Reply(text, _) => match reply {
            Ok(rewrite) => if accepted(rewrite, text) {
                go_on(p, with_note(with_text(s, rewrite), note("llm_encode_msg_"@, s.at)))
            } else {
                go_on(p, with_note(s, note("llm_rejected_msg_"@, s.at)))
            },
            Err(e) => go_on(
                p,
                with_note(
                    s,
                    note("llm_failed_msg_"@, s.at) + ":"@ + front(e, ERROR_NOTE_CHARS as nat),
                ),
            ),
        },
        _ => s,
    }
}

/// What goes into the cache when the model has answered: a rewrite worth having.
pub open spec fn to_store(s: State, reply: Result<Seq<char>, Seq<char>>) -> Option<
    (Seq<char>, Seq<char>),
> {
    match (s.wait, reply) {
        (Wait::Reply(text, key), Ok(rewrite)) => if accepted(rewrite, text) {
            Some((key, rewrite))
        } else {
            None
        },
        _ => None,
    }
}

/// Where the model stage starts, on the messages as they came in.
pub open spec fn started(p: Policy, ms: Seq<Msg>) -> State {
    let s = State {
        messages: if rules_apply(p, p.mode) {
            ruled_msgs(ms, p.protect)
        } else {
            ms
        },
        notes: if rules_apply(p, p.mode) {
            rules_notes(ms, p.protect)
        } else {
            seq![]
        },
        last: last_user(ms),
        at: 0,
        wait: Wait::Done,
    };
    if model_applies(p, p.mode) {
        scan(p, s)
    } else {
        s
    }
}

/// A state that asks for something asks on behalf of a message that is there.
pub open spec fn is_sound(s: State) -> bool {
    s.wait is Done || s.at < s.messages.len()
}

/// What the model stage waits for.
#[derive(Debug)]
pub enum Waiting {
    /// What the cache has under the key.
    Lookup { key: String },
    /// What the model makes of the text; a rewrite goes under the key.
    Reply { text: String, key: String },
    /// Nothing: it is done.
    Done,
}

impl View for Waiting {
    type V = Wait;

    open spec fn view(&self) -> Wait {
        match self {
            Waiting::Lookup { key } => Wait::Lookup(key@),
            Waiting::Reply { text, key } => Wait::Reply(text@, key@),
            Waiting::Done => Wait::Done,
        }
    }
}

/// The encoding of a list of messages, while it is under way.
pub struct Run {
    messages: Vec<Message>,
    notes: Vec<String>,
    last: Option<usize>,
    at: usize,
    waiting: Waiting,
    before: usize,
}

/// What an encoded list of messages comes to.
pub struct EncodeResult {
    pub messages: Vec<Message>,
    pub stats: TokenStats,
    pub notes: Vec<String>,
}

/// An index as a natural number.
pub open spec fn opt_nat(i: Option<usize>) -> Option<nat> {
    match i {
        Some(n) => Some(n as nat),
        None => None,
    }
}

/// `n`, or the largest `usize` where `n` is beyond it.
pub open spec fn capped_count(n: nat) -> nat {
    if n <= usize::MAX {
        n
    } else {
        usize::MAX as nat
    }
}

impl View for Run {
    type V = State;

    closed spec fn view(&self) -> State {
        State {
            messages: msgs(self.messages@),
            notes: texts(self.notes@),
            last: opt_nat(self.last),
            at: self.at as nat,
            wait: self.waiting@,
        }
    }
}

impl Run {
    /// The tokens of the messages as they came in.
    pub closed spec fn before(&self) -> usize {
        self.before
    }

    /// What the run waits for.
    pub fn waiting(&self) -> (r: &Waiting)
        ensures
            r@ == self@.wait,
    {
        &self.waiting
    }

    /// What the run has come to so far: all there is, once it is done.
    pub fn finish(self) -> (r: EncodeResult)
        ensures
            msgs(r.messages@) == self@.messages,
            texts(r.notes@) == self@.notes,
            r.stats.before_tokens == self.before(),
            r.stats.after_tokens == capped_count(messages_tokens(self@.messages)),
    {
        let after: usize = count_messages_tokens(&self.messages);
        EncodeResult {
            messages: self.messages,
            stats: TokenStats::new(self.before, after),
            notes: self.notes,
        }
    }

    /// The index of the next message.
    fn next(&self) -> (r: usize)
        requires
            self.at < self.messages@.len(),
        ensures
            r == self.at + 1,
    {
        let count: usize = self.messages.len();
        assert(self.at < count);
        self.at + 1
    }

    fn add_note(&mut self, line: String)
        ensures
            final(self)@ == with_note(old(self)@, line@),
            final(self).before() == old(self).before(),
            final(self).at == old(self).at,
            final(self).messages == old(self).messages,
    {
        let ghost was = texts(self.notes@);
        let ghost lv = line@;
        self.notes.push(line);
        assert(texts(self.notes@) == was.push(lv));
    }

    fn set_text(&mut self, text: String)
        requires
            old(self).at < old(self).messages@.len(),
        ensures
            final(self)@ == with_text(old(self)@, text@),
            final(self).before() == old(self).before(),
            final(self).at == old(self).at,
            final(self).messages@.len() == old(self).messages@.len(),
    {
        let ghost was = msgs(self.messages@);
        let ghost tv = text@;
        let role: Option<String> = copy_opt(&self.messages[self.at].role);
        let m: Message = Message { role, content: Content::Text(text) };
        let ghost mv = m@;
        self.messages.set(self.at, m);
        assert(was[self.at as int] == old(self).messages@[self.at as int]@);
        assert(msgs(self.messages@) == was.update(self.at as int, mv));
    }
}

/// The compression policy of a process.
pub struct Codec {
    encoder: EncoderConfig,
    ratio: String,
    model: String,
}

impl View for Codec {
    type V = Policy;

    closed spec fn view(&self) -> Policy {
        policy_of(self.encoder, self.ratio@, self.model@)
    }
}

/// The policy that a configuration makes.
pub open spec fn policy_of(encoder: EncoderConfig, ratio: Seq<char>, model: Seq<char>) -> Policy {
    Policy {
        mode: encoder.mode@,
        rules_enabled: encoder.rules_enabled,
        scope: encoder.llm_scope,
        min_chars: encoder.min_chars_to_compress as nat,
        protect: encoder.protect_system_under_chars as nat,
        ratio,
        model,
    }
}

/// The last message with the role `user`.
fn last_user_of(messages: &Vec<Message>) -> (r: Option<usize>)
    ensures
        opt_nat(r) == last_user(msgs(messages@)),
{
    let ghost all = msgs(messages@);
    let mut i: usize = messages.len();
    assert(all.take(i as int) == all);
    while i > 0
        invariant
            i <= messages@.len(),
            all == msgs(messages@),
            last_user(all.take(i as int)) == last_user(all),
        decreases i,
    {
        proof {
            assert(all.take(i as int).last() == messages@[i - 1]@);
            assert(all.take(i as int).drop_last() == all.take(i - 1));
        }
        if let Some(role) = &messages[i - 1].role {
            if same_text(role.as_str(), "user") {
                return Some(i - 1);
            }
        }
        i = i - 1;
    }
    assert(all.take(0) == Seq::<Msg>::empty());
    None
}

/// How the model stage looks at a message: `None` for not at all, `Some(false)` for
/// parts that are noted down, `Some(true)` for a candidate.
fn looked_at(m: &Message, min_chars: usize, protect: usize, p: Ghost<Policy>) -> (r: Option<bool>)
    requires
        p@.min_chars == min_chars,
        p@.protect == protect,
    ensures
        match eligibility(p@, m@) {
            Eligibility::Pass => r is None,
            Eligibility::Parts => r == Some(false),
            Eligibility::Candidate(_) => r == Some(true),
        },
{
    let role: &str = m.role_text();
    let system: bool = same_text(role, "system");
    if !same_text(role, "user") && !system {
        return None;
    }
    match &m.content {
        Content::Text(s) => {
            let n: usize = chars_of(s.as_str()).len();
            if n < min_chars || (system && n < protect) {
                None
            } else {
                Some(true)
            }
        },
        Content::Parts(parts) => {
            if parts_chars(parts) >= min_chars {
                Some(false)
            } else {
                None
            }
        },
        _ => None,
    }
}

impl Codec {
    /// A codec for this configuration; `ratio` is the target ratio with three
    /// decimals, `model` the local model's name.
    pub fn new(encoder: EncoderConfig, ratio: String, model: String) -> (r: Self)
        ensures
            r@ == policy_of(encoder, ratio@, model@),
    {
        Codec { encoder, ratio, model }
    }

    /// On to the first candidate.
    fn scan_on(&self, run: &mut Run)
        ensures
            final(run)@ == scan(self@, old(run)@),
            final(run).before() == old(run).before(),
            is_sound(final(run)@),
    {
        let ghost whole = scan(self@, run@);
        while run.at < run.messages.len()
            invariant_except_break
                scan(self@, run@) == whole,
            invariant
                run.before() == old(run).before(),
            ensures
                run@ == whole || (run.at >= run.messages@.len() && scan(self@, run@) == whole),
                run@ == whole ==> is_sound(whole),
            decreases run.messages@.len() - run.at,
        {
            let ghost here = run@;
            assert(here.messages[here.at as int] == run.messages@[run.at as int]@);
            match looked_at(
                &run.messages[run.at],
                self.encoder.min_chars_to_compress,
                self.encoder.protect_system_under_chars,
                Ghost(self@),
            ) {
                None => {
                    run.at = run.at + 1;
                    assert(run@ == (State { at: here.at + 1, ..here }));
                },
                Some(false) => {
                    let line: String = note_about("llm_skipped_parts_msg_", run.at);
                    run.add_note(line);
                    run.at = run.at + 1;
                    assert(run@ == (State {
                        at: here.at + 1,
                        notes: here.notes.push(note("llm_skipped_parts_msg_"@, here.at)),
                        ..here
                    }));
                },
                Some(true) => {
                    if let Content::Text(s) = &run.messages[run.at].content {
                        let key: String = RewriteCache::key(
                            s.as_str(),
                            self.ratio.as_str(),
                            self.model.as_str(),
                        );
                        run.waiting = Waiting::Lookup { key };
                        assert(run@ == whole);
                    }
                    break;
                },
            }
        }
        if run.at >= run.messages.len() {
            run.waiting = Waiting::Done;
            assert(run@ == scan(self@, run@));
        }
    }

    /// Starts on a list of messages: counts it, runs the rules stage where the mode
    /// asks for it, and goes on to the first message of the model stage that needs
    /// an answer from outside.
    pub fn encode_messages(&self, messages: Vec<Message>) -> (r: Run)
        ensures
            r@ == started(self@, msgs(messages@)),
            is_sound(r@),
            r.before() == capped_count(messages_tokens(msgs(messages@))),
    {
        let mode: &str = self.encoder.mode.as_str();
        let before: usize = count_messages_tokens(&messages);
        let last: Option<usize> = last_user_of(&messages);
        let rules: bool = (same_text(mode, "rules") || same_text(mode, "hybrid"))
            && self.encoder.rules_enabled;
        let model: bool = (same_text(mode, "local") || same_text(mode, "hybrid"))
            && self.encoder.llm_scope != LlmScope::Never;
        let (messages, notes) = if rules {
            rules_stage(&messages, self.encoder.protect_system_under_chars)
        } else {
            let none: Vec<String> = Vec::new();
            assert(texts(none@) == Seq::<Seq<char>>::empty());
            (messages, none)
        };
        let mut run: Run = Run { messages, notes, last, at: 0, waiting: Waiting::Done, before };
        if model {
            self.scan_on(&mut run);
        }
        run
    }

    /// Goes on with what the cache has under the key that was asked for.
    pub fn looked_up(&self, run: &mut Run, found: Option<String>)
        requires
            is_sound(old(run)@),
        ensures
            final(run)@ == after_lookup(self@, old(run)@, opt_text(found)),
            is_sound(final(run)@),
            final(run).before() == old(run).before(),
    {
        let ghost s0 = run@;
        let key: String = match &run.waiting {
            Waiting::Lookup { key } => key.as_str().to_owned(),
            _ => {
                return;
            },
        };
        let next: usize = run.next();
        assert(s0.messages[s0.at as int] == run.messages@[run.at as int]@);
        match found {
            Some(text) => {
                run.set_text(text);
                let line: String = note_about("cache_hit_msg_", run.at);
                run.add_note(line);
                run.at = next;
                self.scan_on(run);
            },
            None => {
                let may_ask: bool = match self.encoder.llm_scope {
                    LlmScope::All => true,
                    LlmScope::LastUser => match run.last {
                        Some(l) => l == run.at,
                        None => false,
                    },
                    LlmScope::Never => false,
                };
                if may_ask {
                    if let Content::Text(s) = &run.messages[run.at].content {
                        let text: String = s.as_str().to_owned();
                        run.waiting = Waiting::Reply { text, key };
                        return;
                    }
                }
                run.at = next;
                self.scan_on(run);
            },
        }
    }

    /// Goes on with what the model said. What is handed back goes into the cache: a
    /// key and the rewrite.
    pub fn replied(&self, run: &mut Run, reply: Result<String, String>) -> (r: Option<(String, String)>)
        requires
            is_sound(old(run)@),
        ensures
            final(run)@ == after_reply(self@, old(run)@, reply_view(reply)),
            store_view(r) == to_store(old(run)@, reply_view(reply)),
            is_sound(final(run)@),
            final(run).before() == old(run).before(),
    {
        let ghost s0 = run@;
        let (text, key) = match &run.waiting {
            Waiting::Reply { text, key } => (text.as_str().to_owned(), key.as_str().to_owned()),
            _ => {
                return None;
            },
        };
        let next: usize = run.next();
        let stored: Option<(String, String)> = match reply {
            Ok(rewrite) => {
                if accept_rewrite(rewrite.as_str(), text.as_str()) {
                    let copy: String = rewrite.as_str().to_owned();
                    run.set_text(rewrite);
                    let line: String = note_about("llm_encode_msg_", run.at);
                    run.add_note(line);
                    Some((key, copy))
                } else {
                    let line: String = note_about("llm_rejected_msg_", run.at);
                    run.add_note(line);
                    None
                }
            },
            Err(e) => {
                let about: String = note_about("llm_failed_msg_", run.at);
                let why: String = truncate_chars(e.as_str(), ERROR_NOTE_CHARS);
                run.add_note(join3(about.as_str(), ":", why.as_str()));
                None
            },
        };
        run.at = next;
        self.scan_on(run);
        stored
    }
}

/// What the model said.
pub open spec fn reply_view(reply: Result<String, String>) -> Result<Seq<char>, Seq<char>> {
    match reply {
        Ok(s) => Ok(s@),
        Err(e) => Err(e@),
    }
}

/// A key and a rewrite.
pub open spec fn store_view(stored: Option<(String, String)>) -> Option<(Seq<char>, Seq<char>)> {
    match stored {
        Some((key, value)) => Some((key@, value@)),
        None => None,
    }
}

// --- A single text -------------------------------------------------------------

/// Where the encoding of a single text is.
pub struct TextState {
    pub text: Seq<char>,
    pub notes: Seq<Seq<char>>,
    pub wait: Wait,
}

/// What the rules stage makes of a single text, and what it notes down.
pub open spec fn ruled_text(text: Seq<char>) -> (Seq<char>, Seq<Seq<char>>) {
    if !is_blank(text) && is_blank(compressed(text)) {
        (text, seq!["rules_emptied"@, "rules_compress"@])
    } else {
        (compressed(text), seq!["rules_compress"@])
    }
}

/// Where the encoding of a single text starts.
pub open spec fn text_started(p: Policy, text: Seq<char>, mode: Seq<char>) -> TextState {
    let (after_rules, notes) = if rules_apply(p, mode) {
        ruled_text(text)
    } else {
        (text, seq![])
    };
    TextState {
        text: after_rules,
        notes,
        wait: if model_applies(p, mode) && after_rules.len() >= p.min_chars {
            Wait::Lookup(cache_key(after_rules, p.ratio, p.model))
        } else {
            Wait::Done
        },
    }
}

/// The cache has answered.
pub open spec fn text_after_lookup(s: TextState, found: Option<Seq<char>>) -> TextState {
    match s.wait {
        Wait::Lookup(key) => match found {
            Some(text) => TextState {
                text,
                notes: s.notes.push("cache_hit"@),
                wait: Wait::Done,
            },
            None => TextState { wait: Wait::Reply(s.text, key), ..s },
        },
        _ => s,
    }
}

/// The model has answered.
pub open spec fn text_after_reply(s: TextState, reply: Result<Seq<char>, Seq<char>>) -> TextState {
    match s.wait {
        Wait::Reply(text, _) => match reply {
            Ok(rewrite) => if accepted(rewrite, text) {
                TextState {
                    text: rewrite,
                    notes: s.notes.push("llm_encode"@),
                    wait: Wait::Done,
                }
            } else {
                TextState { notes: s.notes.push("llm_rejected"@), wait: Wait::Done, ..s }
            },
            Err(e) => TextState {
                notes: s.notes.push("llm_failed:"@ + front(e, ERROR_NOTE_CHARS as nat)),
                wait: Wait::Done,
                ..s
            },
        },
        _ => s,
    }
}

/// What goes into the cache when the model has answered: a rewrite worth having.
pub open spec fn text_to_store(s: TextState, reply: Result<Seq<char>, Seq<char>>) -> Option<
    (Seq<char>, Seq<char>),
> {
    match (s.wait, reply) {
        (Wait::Reply(text, key), Ok(rewrite)) => if accepted(rewrite, text) {
            Some((key, rewrite))
        } else {
            None
        },
        _ => None,
    }
}

/// The encoding of a single text, while it is under way.
pub struct TextRun {
    text: String,
    notes: Vec<String>,
    waiting: Waiting,
    before: usize,
    mode: String,
}

/// What an encoded text comes to; `mode_used` is the mode that was applied.
pub struct EncodeTextResult {
    pub text: String,
    pub stats: TokenStats,
    pub notes: Vec<String>,
    pub mode_used: String,
}

impl View for TextRun {
    type V = TextState;

    closed spec fn view(&self) -> TextState {
        TextState { text: self.text@, notes: texts(self.notes@), wait: self.waiting@ }
    }
}

impl TextRun {
    /// The tokens of the text as it came in.
    pub closed spec fn before(&self) -> usize {
        self.before
    }

    /// The mode that is applied.
    pub closed spec fn mode(&self) -> Seq<char> {
        self.mode@
    }

    /// What the run waits for.
    pub fn waiting(&self) -> (r: &Waiting)
        ensures
            r@ == self@.wait,
    {
        &self.waiting
    }

    fn add_note(&mut self, line: String)
        ensures
            final(self)@ == (TextState { notes: old(self)@.notes.push(line@), ..old(self)@ }),
            final(self).before() == old(self).before(),
            final(self).mode() == old(self).mode(),
    {
        let ghost was = texts(self.notes@);
        let ghost lv = line@;
        self.notes.push(line);
        assert(texts(self.notes@) == was.push(lv));
    }

    /// Goes on with what the cache has under the key that was asked for.
    pub fn looked_up(&mut self, found: Option<String>)
        ensures
            final(self)@ == text_after_lookup(old(self)@, opt_text(found)),
            final(self).before() == old(self).before(),
            final(self).mode() == old(self).mode(),
    {
        let key: String = match &self.waiting {
            Waiting::Lookup { key } => key.as_str().to_owned(),
            _ => {
                return;
            },
        };
        match found {
            Some(text) => {
                self.text = text;
                self.waiting = Waiting::Done;
                self.add_note("cache_hit".to_owned());
            },
            None => {
                let text: String = self.text.as_str().to_owned();
                self.waiting = Waiting::Reply { text, key };
            },
        }
    }

    /// Goes on with what the model said. What is handed back goes into the cache: a
    /// key and the rewrite.
    pub fn replied(&mut self, reply: Result<String, String>) -> (r: Option<(String, String)>)
        ensures
            final(self)@ == text_after_reply(old(self)@, reply_view(reply)),
            store_view(r) == text_to_store(old(self)@, reply_view(reply)),
            final(self).before() == old(self).before(),
            final(self).mode() == old(self).mode(),
    {
        let (text, key) = match &self.waiting {
            Waiting::Reply { text, key } => (text.as_str().to_owned(), key.as_str().to_owned()),
            _ => {
                return None;
            },
        };
        self.waiting = Waiting::Done;
        match reply {
            Ok(rewrite) => {
                if accept_rewrite(rewrite.as_str(), text.as_str()) {
                    let copy: String = rewrite.as_str().to_owned();
                    self.text = rewrite;
                    self.add_note("llm_encode".to_owned());
                    Some((key, copy))
                } else {
                    self.add_note("llm_rejected".to_owned());
                    None
                }
            },
            Err(e) => {
                let why: String = truncate_chars(e.as_str(), ERROR_NOTE_CHARS);
                self.add_note(join2("llm_failed:", why.as_str()));
                None
            },
        }
    }

    /// What the run has come to so far: all there is, once it is done.
    pub fn finish(self) -> (r: EncodeTextResult)
        ensures
            r.text@ == self@.text,
            texts(r.notes@) == self@.notes,
            r.stats.before_tokens == self.before(),
            r.stats.after_tokens == token_count(self@.text),
            r.mode_used@ == self.mode(),
    {
        let after: usize = count_tokens(self.text.as_str());
        EncodeTextResult {
            text: self.text,
            stats: TokenStats::new(self.before, after),
            notes: self.notes,
            mode_used: self.mode,
        }
    }
}

impl Codec {
    /// Starts on a single text, in the mode that is asked for or else in the
    /// configured one: counts it and runs the rules stage. The text counts as in
    /// scope, so the model may be asked about it.
    pub fn encode_text(&self, text: &str, mode_override: Option<String>) -> (r: TextRun)
        ensures
            r.mode() == match mode_override {
                Some(m) => m@,
                None => self@.mode,
            },
            r@ == text_started(self@, text@, r.mode()),
            r.before() == token_count(text@),
    {
        let mode: String = match mode_override {
            Some(m) => m,
            None => self.encoder.mode.as_str().to_owned(),
        };
        let before: usize = count_tokens(text);
        let mut out: String = text.to_owned();
        let mut notes: Vec<String> = Vec::new();
        let hybrid: bool = same_text(mode.as_str(), "hybrid");
        assert(texts(notes@) == Seq::<Seq<char>>::empty());
        if (same_text(mode.as_str(), "rules") || hybrid) && self.encoder.rules_enabled {
            let shorter: String = rules_compress(out.as_str());
            if !blank(out.as_str()) && blank(shorter.as_str()) {
                notes.push("rules_emptied".to_owned());
            } else {
                out = shorter;
            }
            notes.push("rules_compress".to_owned());
            assert(texts(notes@) == ruled_text(text@).1);
        }
        let ask: bool = (same_text(mode.as_str(), "local") || hybrid) && self.encoder.llm_scope
            != LlmScope::Never;
        let waiting: Waiting = if ask && chars_of(out.as_str()).len()
            >= self.encoder.min_chars_to_compress {
            let key: String = RewriteCache::key(
                out.as_str(),
                self.ratio.as_str(),
                self.model.as_str(),
            );
            Waiting::Lookup { key }
        } else {
            Waiting::Done
        };
        TextRun { text: out, notes, waiting, before, mode }
    }
}

} // verus!
