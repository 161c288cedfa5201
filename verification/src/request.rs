//! Requests that are compressed on their way: what is read out of a body, and what is
//! sent on in its place.

use crate::codec::{gets_rules, started, EncodeResult, EncodeTextResult, Policy, State};
use crate::codec_laws::{finished, law_every_run_ends_well};
use crate::decimal::decimal;
use crate::json::{
    array_text, compact, find_member, find_string, json_of, law_other_members_stay, member, members,
    object_text, replace_member, shape_of, string_member, with_member, write_array, write_json,
    write_object, write_text, Json, Shape,
};
use crate::message::{msgs, pieces_of, role_of, Body, Content, Message, Msg, Part, Piece};
use crate::outside::{json_quoted, json_read, read_json, texts};
use crate::proxy::{header_texts, stat_headers, Refusal};
use crate::stats::TokenStats;
use crate::text::{opt_text, push_bytes, same_text};
use crate::url::{joined, upstream_url};
use vstd::prelude::*;
use vstd::utf8::encode_utf8;

verus! {

broadcast use vstd::string::group_string_axioms;

// --- Reading messages ----------------------------------------------------------

/// The part that a JSON value is, given what it holds.
pub open spec fn piece_given(shape: Shape, text: Seq<char>) -> Piece {
    match shape {
        Shape::Object(ms) => Piece::Object {
            kind: string_member(ms, "type"@),
            text: string_member(ms, "text"@),
        },
        Shape::Text(s) => Piece::Text(s),
        _ => Piece::Other(text),
    }
}

/// The part that a JSON value is.
pub open spec fn read_piece(text: Seq<char>) -> Piece {
    piece_given(shape_of(text), text)
}

/// The parts that JSON values are.
pub open spec fn read_pieces(items: Seq<Seq<char>>) -> Seq<Piece> {
    items.map_values(|t: Seq<char>| read_piece(t))
}

/// The content that a JSON value is, given what it holds.
pub open spec fn body_given(shape: Shape, text: Seq<char>) -> Body {
    match shape {
        Shape::Null => Body::Absent,
        Shape::Text(s) => Body::Text(s),
        Shape::Array(items) => Body::Parts(read_pieces(items)),
        _ => Body::Other(text),
    }
}

/// The content that a JSON value is.
pub open spec fn read_body(text: Seq<char>) -> Body {
    body_given(shape_of(text), text)
}

/// The message that a JSON value is, given what it holds. What is no object has neither
/// role nor content.
pub open spec fn msg_given(shape: Shape) -> Msg {
    match shape {
        Shape::Object(ms) => Msg {
            role: string_member(ms, "role"@),
            content: match member(ms, "content"@) {
                Some(c) => read_body(c),
                None => Body::Absent,
            },
        },
        _ => Msg { role: None, content: Body::Absent },
    }
}

/// The message that a JSON value is.
pub open spec fn read_msg(text: Seq<char>) -> Msg {
    msg_given(shape_of(text))
}

/// The messages that JSON values are.
pub open spec fn read_msgs(items: Seq<Seq<char>>) -> Seq<Msg> {
    items.map_values(|t: Seq<char>| read_msg(t))
}

/// The part that a JSON value is, given what it holds.
pub fn part_from(json: Json, text: &str) -> (r: Part)
    ensures
        r@ == piece_given(json@, text@),
{
    match json {
        Json::Object(ms) => Part::Object {
            kind: find_string(&ms, "type"),
            text: find_string(&ms, "text"),
        },
        Json::Text(s) => Part::Text(s),
        _ => Part::Other(text.to_owned()),
    }
}

fn part_of(text: &str) -> (r: Part)
    ensures
        r@ == read_piece(text@),
{
    part_from(json_of(text), text)
}

/// The content that a JSON value is, given what it holds.
pub fn content_from(json: Json, text: &str) -> (r: Content)
    ensures
        r@ == body_given(json@, text@),
{
    match json {
        Json::Null => Content::Absent,
        Json::Text(s) => Content::Text(s),
        Json::Array(items) => {
            let mut parts: Vec<Part> = Vec::new();
            let mut i: usize = 0;
            while i < items.len()
                invariant
                    i <= items@.len(),
                    parts@.len() == i,
                    forall|k: int| 0 <= k < i ==> (#[trigger] parts@[k])@ == read_piece(items@[k]@),
                decreases items@.len() - i,
            {
                parts.push(part_of(items[i].as_str()));
                i = i + 1;
            }
            assert(pieces_of(parts@) =~= read_pieces(texts(items@)));
            Content::Parts(parts)
        },
        _ => Content::Other(text.to_owned()),
    }
}

fn content_of(text: &str) -> (r: Content)
    ensures
        r@ == read_body(text@),
{
    content_from(json_of(text), text)
}

/// The message that a JSON value is, given what it holds.
pub fn message_from(json: Json) -> (r: Message)
    ensures
        r@ == msg_given(json@),
{
    match json {
        Json::Object(ms) => Message {
            role: find_string(&ms, "role"),
            content: match find_member(&ms, "content") {
                Some(c) => content_of(c),
                None => Content::Absent,
            },
        },
        _ => Message { role: None, content: Content::Absent },
    }
}

/// The message that a JSON value is.
pub fn message_of(text: &str) -> (r: Message)
    ensures
        r@ == read_msg(text@),
{
    message_from(json_of(text))
}

// --- Writing messages ----------------------------------------------------------

/// A part with a new text, if it has a text and the text is new.
pub open spec fn write_piece(text: Seq<char>, p: Piece) -> Seq<char> {
    match (shape_of(text), p) {
        (Shape::Object(ms), Piece::Object { kind: _, text: Some(t) }) => if string_member(ms, "text"@)
            is Some && string_member(ms, "text"@) != Some(t) {
            object_text(with_member(ms, "text"@, json_quoted(t)))
        } else {
            text
        },
        _ => text,
    }
}

/// The parts with their new texts.
pub open spec fn write_pieces(items: Seq<Seq<char>>, ps: Seq<Piece>) -> Seq<Seq<char>> {
    Seq::new(
        items.len(),
        |i: int|
            if i < ps.len() {
                write_piece(items[i], ps[i])
            } else {
                items[i]
            },
    )
}

/// What is written for a content, if it is new: a string in the place of a string, parts
/// with new texts in the place of parts.
pub open spec fn new_content(text: Seq<char>, body: Body) -> Option<Seq<char>> {
    match (shape_of(text), body) {
        (Shape::Text(old), Body::Text(t)) => if t == old {
            None
        } else {
            Some(json_quoted(t))
        },
        (Shape::Array(items), Body::Parts(ps)) => if write_pieces(items, ps) == items {
            None
        } else {
            Some(array_text(write_pieces(items, ps)))
        },
        _ => None,
    }
}

/// A message with a new content, if that is new. Nothing else of it changes.
pub open spec fn write_msg(text: Seq<char>, m: Msg) -> Seq<char> {
    match shape_of(text) {
        Shape::Object(ms) => match member(ms, "content"@) {
            Some(c) => match new_content(c, m.content) {
                Some(new) => object_text(with_member(ms, "content"@, new)),
                None => text,
            },
            None => text,
        },
        _ => text,
    }
}

/// The messages with their new contents.
pub open spec fn write_msgs(items: Seq<Seq<char>>, ms: Seq<Msg>) -> Seq<Seq<char>> {
    Seq::new(
        items.len(),
        |i: int|
            if i < ms.len() {
                write_msg(items[i], ms[i])
            } else {
                items[i]
            },
    )
}

fn part_with(text: &str, part: &Part) -> (r: String)
    ensures
        r@ == write_piece(text@, part@),
{
    if let Json::Object(ms) = json_of(text) {
        if let Part::Object { kind: _, text: Some(t) } = part {
            if let Some(old) = find_string(&ms, "text") {
                if !same_text(old.as_str(), t.as_str()) {
                    let quoted: String = write_text(t.as_str());
                    let new: Vec<(String, String)> = replace_member(&ms, "text", quoted.as_str());
                    return write_object(&new);
                }
            }
        }
    }
    text.to_owned()
}

fn parts_with(items: &Vec<String>, parts: &Vec<Part>) -> (r: Vec<String>)
    ensures
        texts(r@) == write_pieces(texts(items@), pieces_of(parts@)),
{
    let mut out: Vec<String> = Vec::new();
    let mut i: usize = 0;
    while i < items.len()
        invariant
            i <= items@.len(),
            out@.len() == i,
            forall|k: int|
                0 <= k < i ==> (#[trigger] out@[k])@ == if k < parts@.len() {
                    write_piece(items@[k]@, parts@[k]@)
                } else {
                    items@[k]@
                },
        decreases items@.len() - i,
    {
        if i < parts.len() {
            out.push(part_with(items[i].as_str(), &parts[i]));
        } else {
            out.push(items[i].as_str().to_owned());
        }
        i = i + 1;
    }
    assert(texts(out@) =~= write_pieces(texts(items@), pieces_of(parts@)));
    out
}

fn same_list(a: &Vec<String>, b: &Vec<String>) -> (r: bool)
    ensures
        r == (texts(a@) == texts(b@)),
{
    if a.len() != b.len() {
        assert(texts(a@).len() != texts(b@).len());
        return false;
    }
    let mut i: usize = 0;
    while i < a.len()
        invariant
            i <= a@.len(),
            a@.len() == b@.len(),
            forall|k: int| 0 <= k < i ==> (#[trigger] a@[k])@ == b@[k]@,
        decreases a@.len() - i,
    {
        if !same_text(a[i].as_str(), b[i].as_str()) {
            assert(texts(a@)[i as int] != texts(b@)[i as int]);
            return false;
        }
        i = i + 1;
    }
    assert(texts(a@) =~= texts(b@));
    true
}

fn content_with(text: &str, content: &Content) -> (r: Option<String>)
    ensures
        opt_text(r) == new_content(text@, content@),
{
    match json_of(text) {
        Json::Text(old) => {
            if let Content::Text(t) = content {
                if !same_text(t.as_str(), old.as_str()) {
                    return Some(write_text(t.as_str()));
                }
            }
            None
        },
        Json::Array(items) => {
            if let Content::Parts(parts) = content {
                let new: Vec<String> = parts_with(&items, parts);
                if !same_list(&new, &items) {
                    return Some(write_array(&new));
                }
            }
            None
        },
        _ => None,
    }
}

fn message_with(text: &str, m: &Message) -> (r: String)
    ensures
        r@ == write_msg(text@, m@),
{
    if let Json::Object(ms) = json_of(text) {
        if let Some(c) = find_member(&ms, "content") {
            if let Some(new) = content_with(c, &m.content) {
                let new_ms: Vec<(String, String)> = replace_member(&ms, "content", new.as_str());
                return write_object(&new_ms);
            }
        }
    }
    text.to_owned()
}

fn messages_with(items: &Vec<String>, messages: &Vec<Message>) -> (r: Vec<String>)
    ensures
        texts(r@) == write_msgs(texts(items@), msgs(messages@)),
{
    let mut out: Vec<String> = Vec::new();
    let mut i: usize = 0;
    while i < items.len()
        invariant
            i <= items@.len(),
            out@.len() == i,
            forall|k: int|
                0 <= k < i ==> (#[trigger] out@[k])@ == if k < messages@.len() {
                    write_msg(items@[k]@, messages@[k]@)
                } else {
                    items@[k]@
                },
        decreases items@.len() - i,
    {
        if i < messages.len() {
            out.push(message_with(items[i].as_str(), &messages[i]));
        } else {
            out.push(items[i].as_str().to_owned());
        }
        i = i + 1;
    }
    assert(texts(out@) =~= write_msgs(texts(items@), msgs(messages@)));
    out
}

// --- Chat ----------------------------------------------------------------------

/// What is sent upstream, and what the reply gets on its way back.
#[derive(Debug)]
pub struct Outgoing {
    pub url: String,
    pub body: Vec<u8>,
    /// Names and values of headers that the reply gets.
    pub reply_headers: Vec<(String, String)>,
}

/// The headers that tell a client what compression did.
pub open spec fn stats_told(stats: TokenStats, saved_pct: Seq<char>) -> Seq<(Seq<char>, Seq<char>)> {
    seq![
        ("x-prompt-codec-before"@, decimal(stats.before_tokens as nat)),
        ("x-prompt-codec-after"@, decimal(stats.after_tokens as nat)),
        ("x-prompt-codec-saved-pct"@, saved_pct),
    ]
}

/// Where chat requests go.
#[derive(Debug, Clone, Copy, PartialEq, Eq, Structural)]
pub enum Endpoint {
    ChatCompletions,
    Messages,
}

/// The path of an endpoint.
pub open spec fn endpoint_path(e: Endpoint) -> Seq<char> {
    match e {
        Endpoint::ChatCompletions => "chat/completions"@,
        Endpoint::Messages => "messages"@,
    }
}

impl Endpoint {
    /// The path of the endpoint.
    pub fn path(self) -> (r: &'static str)
        ensures
            r@ == endpoint_path(self),
    {
        match self {
            Endpoint::ChatCompletions => "chat/completions",
            Endpoint::Messages => "messages",
        }
    }
}

/// The members of a chat request, and its messages.
pub struct Chat {
    pub members: Seq<(Seq<char>, Seq<char>)>,
    pub items: Seq<Seq<char>>,
}

/// What JSON is as a chat request, or why it is refused: it is none, or there is no list of
/// messages in it, or an empty one.
pub open spec fn chat_given(shape: Shape) -> Result<Chat, Refusal> {
    match shape {
        Shape::Invalid => Err(Refusal::InvalidJson),
        Shape::Object(ms) => match member(ms, "messages"@) {
            Some(t) => match shape_of(t) {
                Shape::Array(items) => if items.len() > 0 {
                    Ok(Chat { members: ms, items })
                } else {
                    Err(Refusal::NoMessages)
                },
                _ => Err(Refusal::NoMessages),
            },
            None => Err(Refusal::NoMessages),
        },
        _ => Err(Refusal::NoMessages),
    }
}

/// What a body is as a chat request, or why it is refused: it cannot be read, or for what
/// it holds.
pub open spec fn read_chat(body: Option<Seq<u8>>) -> Result<Chat, Refusal> {
    match body {
        None => Err(Refusal::UnreadableBody),
        Some(bytes) => chat_given(json_read(bytes)),
    }
}

/// A chat request.
#[derive(Debug)]
pub struct ChatRequest {
    members: Vec<(String, String)>,
    items: Vec<String>,
}

impl View for ChatRequest {
    type V = Chat;

    closed spec fn view(&self) -> Chat {
        Chat { members: members(self.members@), items: texts(self.items@) }
    }
}

/// A body that was read, or was not.
pub open spec fn opt_bytes(body: Option<&[u8]>) -> Option<Seq<u8>> {
    match body {
        Some(b) => Some(b@),
        None => None,
    }
}

/// A chat request, or a refusal, as it is.
pub open spec fn chat_view(r: Result<ChatRequest, Refusal>) -> Result<Chat, Refusal> {
    match r {
        Ok(c) => Ok(c@),
        Err(e) => Err(e),
    }
}

/// The chat request that JSON is, or why it is refused.
pub fn chat_from(json: Json) -> (r: Result<ChatRequest, Refusal>)
    ensures
        chat_view(r) == chat_given(json@),
{
    match json {
        Json::Invalid => Err(Refusal::InvalidJson),
        Json::Object(ms) => {
            if let Some(t) = find_member(&ms, "messages") {
                if let Json::Array(items) = json_of(t) {
                    if items.len() > 0 {
                        return Ok(ChatRequest { members: ms, items });
                    }
                }
            }
            Err(Refusal::NoMessages)
        },
        _ => Err(Refusal::NoMessages),
    }
}

/// The chat request in a body, or why it is refused before anything is sent.
pub fn chat_completions(body: Option<&[u8]>) -> (r: Result<ChatRequest, Refusal>)
    ensures
        chat_view(r) == read_chat(opt_bytes(body)),
{
    match body {
        Some(bytes) => chat_from(read_json(bytes)),
        None => Err(Refusal::UnreadableBody),
    }
}

/// The body of a chat request with other messages: they stand where the messages stood,
/// and every other member stands where it stood, as it was.
pub open spec fn chat_body(c: Chat, ms: Seq<Msg>) -> Seq<char> {
    object_text(with_member(c.members, "messages"@, array_text(write_msgs(c.items, ms))))
}

/// The bytes of a text.
fn bytes_of(text: &str) -> (r: Vec<u8>)
    ensures
        r@ == encode_utf8(text@),
{
    let mut out: Vec<u8> = Vec::new();
    push_bytes(&mut out, text.as_bytes());
    out
}

impl ChatRequest {
    /// The messages of the request.
    pub fn messages(&self) -> (r: Vec<Message>)
        ensures
            msgs(r@) == read_msgs(self@.items),
    {
        let mut out: Vec<Message> = Vec::new();
        let mut i: usize = 0;
        while i < self.items.len()
            invariant
                i <= self.items@.len(),
                out@.len() == i,
                forall|k: int| 0 <= k < i ==> (#[trigger] out@[k])@ == read_msg(self.items@[k]@),
            decreases self.items@.len() - i,
        {
            out.push(message_of(self.items[i].as_str()));
            i = i + 1;
        }
        assert(msgs(out@) =~= read_msgs(texts(self.items@)));
        out
    }

    /// What is sent upstream, now that the messages are encoded: to the endpoint below the
    /// base, with the encoded messages in the body and nothing else of it changed. The
    /// reply tells of this encoding; `saved_pct` is its saving in percent.
    pub fn send(&self, result: &EncodeResult, base: &str, endpoint: Endpoint, saved_pct: &str) -> (r:
        Outgoing)
        ensures
            r.url@ == joined(base@, endpoint_path(endpoint)),
            r.body@ == encode_utf8(chat_body(self@, msgs(result.messages@))),
            header_texts(r.reply_headers@) == stats_told(result.stats, saved_pct@),
    {
        let items: Vec<String> = messages_with(&self.items, &result.messages);
        let array: String = write_array(&items);
        let ms: Vec<(String, String)> = replace_member(&self.members, "messages", array.as_str());
        let text: String = write_object(&ms);
        Outgoing {
            url: upstream_url(base, endpoint.path()),
            body: bytes_of(text.as_str()),
            reply_headers: stat_headers(&result.stats, saved_pct),
        }
    }
}

// --- Completions ---------------------------------------------------------------

/// The prompt of a completion request, if it has one that says something.
pub open spec fn prompt_of(shape: Shape) -> Option<Seq<char>> {
    match shape {
        Shape::Object(ms) => match string_member(ms, "prompt"@) {
            Some(p) => if p.len() > 0 {
                Some(p)
            } else {
                None
            },
            None => None,
        },
        _ => None,
    }
}

/// What JSON is as a completion request, or why it is refused: it is none.
pub open spec fn completion_given(shape: Shape) -> Result<Shape, Refusal> {
    match shape {
        Shape::Invalid => Err(Refusal::InvalidBody),
        _ => Ok(shape),
    }
}

/// What a body is as a completion request, or why it is refused: it cannot be read, or it
/// is no JSON.
pub open spec fn read_completion(body: Option<Seq<u8>>) -> Result<Shape, Refusal> {
    match body {
        None => Err(Refusal::UnreadableBody),
        Some(bytes) => completion_given(json_read(bytes)),
    }
}

/// A completion request.
#[derive(Debug)]
pub struct CompletionRequest {
    json: Json,
}

impl View for CompletionRequest {
    type V = Shape;

    closed spec fn view(&self) -> Shape {
        self.json@
    }
}

/// A completion request, or a refusal, as it is.
pub open spec fn completion_view(r: Result<CompletionRequest, Refusal>) -> Result<Shape, Refusal> {
    match r {
        Ok(c) => Ok(c@),
        Err(e) => Err(e),
    }
}

/// The completion request that JSON is, or why it is refused.
pub fn completion_from(json: Json) -> (r: Result<CompletionRequest, Refusal>)
    ensures
        completion_view(r) == completion_given(json@),
{
    match json {
        Json::Invalid => Err(Refusal::InvalidBody),
        json => Ok(CompletionRequest { json }),
    }
}

/// The completion request in a body, or why it is refused before anything is sent.
pub fn completions(body: Option<&[u8]>) -> (r: Result<CompletionRequest, Refusal>)
    ensures
        completion_view(r) == read_completion(opt_bytes(body)),
{
    match body {
        Some(bytes) => completion_from(read_json(bytes)),
        None => Err(Refusal::UnreadableBody),
    }
}

/// The body of a completion request with another prompt: it stands where the prompt
/// stood, and every other member stands where it stood, as it was.
pub open spec fn completion_body(shape: Shape, prompt: Option<Seq<char>>) -> Seq<char> {
    match (shape, prompt) {
        (Shape::Object(ms), Some(p)) => object_text(with_member(ms, "prompt"@, json_quoted(p))),
        _ => compact(shape),
    }
}

impl CompletionRequest {
    /// The prompt, if there is one that says something: it is encoded before the request
    /// is sent on.
    pub fn prompt(&self) -> (r: Option<String>)
        ensures
            opt_text(r) == prompt_of(self@),
    {
        if let Json::Object(ms) = &self.json {
            if let Some(p) = find_string(ms, "prompt") {
                if !p.as_str().is_empty() {
                    return Some(p);
                }
            }
        }
        None
    }

    /// What is sent upstream as it came in, where there is no prompt to encode: the reply
    /// tells of no encoding.
    pub fn send_on(&self, base: &str) -> (r: Outgoing)
        ensures
            r.url@ == joined(base@, "completions"@),
            r.body@ == encode_utf8(completion_body(self@, None)),
            header_texts(r.reply_headers@) == Seq::<(Seq<char>, Seq<char>)>::empty(),
    {
        let text: String = write_json(&self.json);
        let none: Vec<(String, String)> = Vec::new();
        assert(header_texts(none@) =~= Seq::<(Seq<char>, Seq<char>)>::empty());
        Outgoing {
            url: upstream_url(base, "completions"),
            body: bytes_of(text.as_str()),
            reply_headers: none,
        }
    }

    /// What is sent upstream, now that the prompt is encoded: nothing else of the body is
    /// changed. The reply tells of this encoding; `saved_pct` is its saving in percent.
    /// Where there was no prompt to encode, the request is sent on as it came in.
    pub fn send(&self, result: &EncodeTextResult, base: &str, saved_pct: &str) -> (r: Outgoing)
        ensures
            r.url@ == joined(base@, "completions"@),
            prompt_of(self@) is Some ==> r.body@ == encode_utf8(
                completion_body(self@, Some(result.text@)),
            ) && header_texts(r.reply_headers@) == stats_told(result.stats, saved_pct@),
            prompt_of(self@) is None ==> r.body@ == encode_utf8(completion_body(self@, None))
                && header_texts(r.reply_headers@) == Seq::<(Seq<char>, Seq<char>)>::empty(),
    {
        if self.prompt().is_some() {
            if let Json::Object(ms) = &self.json {
                let quoted: String = write_text(result.text.as_str());
                let new: Vec<(String, String)> = replace_member(ms, "prompt", quoted.as_str());
                let text: String = write_object(&new);
                return Outgoing {
                    url: upstream_url(base, "completions"),
                    body: bytes_of(text.as_str()),
                    reply_headers: stat_headers(&result.stats, saved_pct),
                };
            }
        }
        self.send_on(base)
    }
}

// --- Laws ----------------------------------------------------------------------

/// A message whose content did not change is sent exactly as it came.
pub proof fn law_unchanged_messages_are_sent_as_they_came(text: Seq<char>, m: Msg)
    requires
        read_msg(text).content == m.content,
    ensures
        write_msg(text, m) == text,
{
    match shape_of(text) {
        Shape::Object(ms) => {
            match member(ms, "content"@) {
                Some(c) => {
                    match (shape_of(c), m.content) {
                        (Shape::Array(items), Body::Parts(ps)) => {
                            assert(ps == read_pieces(items));
                            assert forall|i: int| 0 <= i < items.len() implies #[trigger] write_pieces(
                                items,
                                ps,
                            )[i] == items[i] by {
                                assert(ps[i] == read_piece(items[i]));
                            }
                            assert(write_pieces(items, ps) =~= items);
                        },
                        _ => {},
                    }
                },
                None => {},
            }
        },
        _ => {},
    }
}

/// Nothing of a chat request but its messages is changed: every other member is sent as
/// it came, in its place. And of the messages, whatever the cache and the model answer,
/// those of assistants and of unknown roles are sent exactly as they came.
pub proof fn law_only_messages_are_changed(
    c: Chat,
    p: Policy,
    looks: spec_fn(State) -> Option<Seq<char>>,
    replies: spec_fn(State) -> Result<Seq<char>, Seq<char>>,
    k: int,
    i: int,
)
    requires
        0 <= k < c.members.len(),
        0 <= i < c.items.len(),
    ensures
        ({
            let sent = finished(p, started(p, read_msgs(c.items)), looks, replies).messages;
            let items = write_msgs(c.items, sent);
            let ms = with_member(c.members, "messages"@, array_text(items));
            &&& chat_body(c, sent) == object_text(ms)
            &&& ms.len() == c.members.len()
            &&& ms[k].0 == c.members[k].0
            &&& (c.members[k].0 != "messages"@ ==> ms[k] == c.members[k])
            &&& items.len() == c.items.len()
            &&& (!gets_rules(role_of(read_msg(c.items[i]))) ==> items[i] == c.items[i])
        }),
{
    let ms = read_msgs(c.items);
    let sent = finished(p, started(p, ms), looks, replies).messages;
    law_every_run_ends_well(p, ms, looks, replies, i);
    law_other_members_stay(
        c.members,
        "messages"@,
        array_text(write_msgs(c.items, sent)),
        k,
    );
    if !gets_rules(role_of(ms[i])) {
        law_unchanged_messages_are_sent_as_they_came(c.items[i], sent[i]);
    }
}

/// Nothing of a completion request but its prompt is changed.
pub proof fn law_only_the_prompt_is_changed(
    ms: Seq<(Seq<char>, Seq<char>)>,
    prompt: Seq<char>,
    k: int,
)
    requires
        0 <= k < ms.len(),
    ensures
        completion_body(Shape::Object(ms), Some(prompt)) == object_text(
            with_member(ms, "prompt"@, json_quoted(prompt)),
        ),
        with_member(ms, "prompt"@, json_quoted(prompt)).len() == ms.len(),
        ms[k].0 != "prompt"@ ==> with_member(ms, "prompt"@, json_quoted(prompt))[k] == ms[k],
{
    law_other_members_stay(ms, "prompt"@, json_quoted(prompt), k);
}

} // verus!
