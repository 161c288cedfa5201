//! What is read out of a request and what is sent on in its place, said of the members and
//! parts that the request holds.

use crate::decimal::{law_decimal_reads_back, read_u64};
use crate::json::{
    array_text, compact, is_first_under, law_first_member_counts, law_one_value_is_replaced, member,
    object_text, shape_of, string_member, with_member, Shape,
};
use crate::message::{Body, Msg, Piece};
use crate::outside::{json_quoted, json_read};
use crate::proxy::Refusal;
use crate::request::{
    chat_body, completion_body, endpoint_path, new_content, prompt_of, read_body, read_chat,
    read_completion, read_msg, read_msgs, read_piece, read_pieces, stats_told, write_msg,
    write_msgs, write_piece, write_pieces, Chat, Endpoint,
};
use crate::stats::TokenStats;
use vstd::prelude::*;

verus! {

broadcast use vstd::string::group_string_axioms;

// --- What is sent --------------------------------------------------------------

/// `new` are the members `ms` with another value under a key: as many, under the same keys,
/// in the same order, each other value as it was.
pub open spec fn differ_under(
    ms: Seq<(Seq<char>, Seq<char>)>,
    new: Seq<(Seq<char>, Seq<char>)>,
    key: Seq<char>,
    value: Seq<char>,
) -> bool {
    &&& new.len() == ms.len()
    &&& forall|j: int|
        0 <= j < ms.len() ==> (#[trigger] new[j]).0 == ms[j].0 && new[j].1 == if ms[j].0 == key {
            value
        } else {
            ms[j].1
        }
}

/// `out` is an object like `ms`, but for the value under a key.
pub open spec fn is_object_but_for(
    out: Seq<char>,
    ms: Seq<(Seq<char>, Seq<char>)>,
    key: Seq<char>,
    value: Seq<char>,
) -> bool {
    exists|new: Seq<(Seq<char>, Seq<char>)>| #[trigger]
        differ_under(ms, new, key, value) && out == object_text(new)
}

proof fn lemma_but_for(ms: Seq<(Seq<char>, Seq<char>)>, key: Seq<char>, value: Seq<char>)
    ensures
        is_object_but_for(object_text(with_member(ms, key, value)), ms, key, value),
{
    law_one_value_is_replaced(ms, key, value);
    assert(differ_under(ms, with_member(ms, key, value), key, value));
}

/// The new text of a part, if it is an object with a text and the text has changed.
pub open spec fn changed_text(item: Seq<char>, p: Piece) -> Option<Seq<char>> {
    match (shape_of(item), p) {
        (Shape::Object(ms), Piece::Object { kind: _, text: Some(t) }) => match string_member(
            ms,
            "text"@,
        ) {
            Some(was) => if was != t {
                Some(t)
            } else {
                None
            },
            None => None,
        },
        _ => None,
    }
}

/// How a part is sent: exactly as it came, unless its text has changed, and then with its
/// text member changed and no other.
pub open spec fn is_part_sent(item: Seq<char>, p: Piece, out: Seq<char>) -> bool {
    match changed_text(item, p) {
        Some(t) => is_object_but_for(out, shape_of(item)->Object_0, "text"@, json_quoted(t)),
        None => out == item,
    }
}

/// A part is sent exactly as it came, unless it is an object whose text has changed, and
/// then only that member differs.
pub proof fn law_only_the_text_of_a_part_is_changed(item: Seq<char>, p: Piece)
    ensures
        is_part_sent(item, p, write_piece(item, p)),
        p == read_piece(item) ==> write_piece(item, p) == item,
{
    match (shape_of(item), p) {
        (Shape::Object(ms), Piece::Object { kind: _, text: Some(t) }) => {
            lemma_but_for(ms, "text"@, json_quoted(t));
        },
        _ => {},
    }
}

/// How the parts of a message are sent: as many as came, each in its place, and those about
/// which nothing is said as they came.
pub open spec fn are_parts_sent(items: Seq<Seq<char>>, ps: Seq<Piece>, out: Seq<Seq<char>>) -> bool {
    &&& out.len() == items.len()
    &&& forall|k: int|
        0 <= k < items.len() ==> if k < ps.len() {
            is_part_sent(items[k], ps[k], #[trigger] out[k])
        } else {
            out[k] == items[k]
        }
}

/// Content that is a list of parts is sent as a list of as many parts, each in its place:
/// exactly as it came unless it is a part whose text has changed, and then with that text
/// and nothing else changed. Nothing is written for it only if no part has changed.
pub proof fn law_every_part_is_sent(text: Seq<char>, items: Seq<Seq<char>>, ps: Seq<Piece>)
    requires
        shape_of(text) == Shape::Array(items),
    ensures
        exists|out: Seq<Seq<char>>| #[trigger]
            are_parts_sent(items, ps, out) && new_content(text, Body::Parts(ps)) == if out == items {
                None
            } else {
                Some(array_text(out))
            },
        new_content(text, Body::Parts(ps)) is None <== forall|k: int|
            0 <= k < items.len() && k < ps.len() ==> changed_text(#[trigger] items[k], ps[k]) is None,
{
    let out = write_pieces(items, ps);
    assert forall|k: int| 0 <= k < items.len() implies if k < ps.len() {
        is_part_sent(items[k], ps[k], #[trigger] out[k])
    } else {
        out[k] == items[k]
    } by {
        law_only_the_text_of_a_part_is_changed(items[k], ps[k]);
    }
    assert(are_parts_sent(items, ps, out));
    if forall|k: int|
        0 <= k < items.len() && k < ps.len() ==> changed_text(#[trigger] items[k], ps[k]) is None {
        assert forall|k: int| 0 <= k < items.len() implies #[trigger] out[k] == items[k] by {
            if k < ps.len() {
                assert(changed_text(items[k], ps[k]) is None);
            }
        }
        assert(out =~= items);
    }
}

/// Content that is a string is sent as the new string, all of it, and nothing is written for
/// it only if it is the same. Content of any other kind stays as it came.
pub proof fn law_a_text_is_sent_whole(text: Seq<char>, body: Body)
    ensures
        match (shape_of(text), body) {
            (Shape::Text(was), Body::Text(t)) => (was != t ==> new_content(text, body) == Some(
                json_quoted(t),
            )) && (was == t ==> new_content(text, body) is None),
            (Shape::Array(_), Body::Parts(_)) => true,
            _ => new_content(text, body) is None,
        },
{
}

/// A message is sent exactly as it came, unless its content has changed, and then only its
/// content differs: every other member of it is as it came, in its place.
pub proof fn law_only_the_content_is_changed(text: Seq<char>, m: Msg)
    ensures
        match shape_of(text) {
            Shape::Object(ms) => match member(ms, "content"@) {
                Some(c) => match new_content(c, m.content) {
                    Some(new) => is_object_but_for(write_msg(text, m), ms, "content"@, new),
                    None => write_msg(text, m) == text,
                },
                None => write_msg(text, m) == text,
            },
            _ => write_msg(text, m) == text,
        },
{
    match shape_of(text) {
        Shape::Object(ms) => {
            match member(ms, "content"@) {
                Some(c) => {
                    match new_content(c, m.content) {
                        Some(new) => {
                            lemma_but_for(ms, "content"@, new);
                        },
                        None => {},
                    }
                },
                None => {},
            }
        },
        _ => {},
    }
}

/// Of a chat request, only the messages are changed: they are as many as came, each in its
/// place and written as it is written alone, and every other member is as it came.
pub proof fn law_chat_is_sent_message_by_message(c: Chat, ms: Seq<Msg>)
    ensures
        exists|out: Seq<Seq<char>>|
            #![trigger array_text(out)]
            out.len() == c.items.len() && (forall|i: int|
                0 <= i < c.items.len() ==> #[trigger] out[i] == if i < ms.len() {
                    write_msg(c.items[i], ms[i])
                } else {
                    c.items[i]
                })
                && is_object_but_for(chat_body(c, ms), c.members, "messages"@, array_text(out)),
{
    let out = write_msgs(c.items, ms);
    lemma_but_for(c.members, "messages"@, array_text(out));
    assert(chat_body(c, ms) == object_text(with_member(c.members, "messages"@, array_text(out))));
}

/// Of a completion request, only the prompt is changed, to all of the new one; where there
/// is none to change, the request is sent as it came.
pub proof fn law_completion_is_sent_with_its_prompt(shape: Shape, prompt: Seq<char>)
    ensures
        completion_body(shape, None) == compact(shape),
        match shape {
            Shape::Object(ms) => is_object_but_for(
                completion_body(shape, Some(prompt)),
                ms,
                "prompt"@,
                json_quoted(prompt),
            ),
            _ => completion_body(shape, Some(prompt)) == compact(shape),
        },
{
    match shape {
        Shape::Object(ms) => {
            lemma_but_for(ms, "prompt"@, json_quoted(prompt));
        },
        _ => {},
    }
}

/// The reply is told both token counts, exactly, and the saving.
pub proof fn law_reply_is_told_the_counts(stats: TokenStats, saved_pct: Seq<char>)
    ensures
        stats_told(stats, saved_pct).len() == 3,
        stats_told(stats, saved_pct)[0].0 == "x-prompt-codec-before"@,
        read_u64(stats_told(stats, saved_pct)[0].1) == Some(stats.before_tokens as u64),
        stats_told(stats, saved_pct)[1].0 == "x-prompt-codec-after"@,
        read_u64(stats_told(stats, saved_pct)[1].1) == Some(stats.after_tokens as u64),
        stats_told(stats, saved_pct)[2] == ("x-prompt-codec-saved-pct"@, saved_pct),
{
    law_decimal_reads_back(stats.before_tokens as u64);
    law_decimal_reads_back(stats.after_tokens as u64);
}

/// The two endpoints of chat requests are two.
pub proof fn law_endpoints_differ()
    ensures
        endpoint_path(Endpoint::ChatCompletions) == "chat/completions"@,
        endpoint_path(Endpoint::Messages) == "messages"@,
{
}

// --- What is read --------------------------------------------------------------

/// A list of parts is read part by part: as many as there are, each in its place, an object
/// by its kind and its text, a string as all of it, and anything else as it stands.
pub proof fn law_parts_are_read_one_by_one(text: Seq<char>, items: Seq<Seq<char>>, k: int)
    requires
        shape_of(text) == Shape::Array(items),
        0 <= k < items.len(),
    ensures
        match read_body(text) {
            Body::Parts(ps) => ps.len() == items.len() && match shape_of(items[k]) {
                Shape::Object(ms) => ps[k] == (Piece::Object {
                    kind: string_member(ms, "type"@),
                    text: string_member(ms, "text"@),
                }),
                Shape::Text(s) => ps[k] == Piece::Text(s),
                _ => ps[k] == Piece::Other(items[k]),
            },
            _ => false,
        },
{
    assert(read_pieces(items)[k] == read_piece(items[k]));
}

/// Content that is a string is read as all of it; none or `null` as none; anything but a
/// list as it stands.
pub proof fn law_contents_are_read_whole(text: Seq<char>)
    ensures
        match shape_of(text) {
            Shape::Text(s) => read_body(text) == Body::Text(s),
            Shape::Null => read_body(text) == Body::Absent,
            Shape::Array(items) => read_body(text) is Parts,
            _ => read_body(text) == Body::Other(text),
        },
{
}

/// A message is read by its role, if that is a string, and its content, each the first
/// member of its name; what is no object has neither.
pub proof fn law_messages_are_read_by_role_and_content(text: Seq<char>, i: int)
    ensures
        match shape_of(text) {
            Shape::Object(ms) => {
                &&& is_first_under(ms, "content"@, i) ==> read_msg(text).content == read_body(ms[i].1)
                &&& is_first_under(ms, "role"@, i) ==> (match shape_of(ms[i].1) {
                    Shape::Text(role) => read_msg(text).role == Some(role),
                    _ => read_msg(text).role is None,
                })
                &&& (forall|j: int| 0 <= j < ms.len() ==> (#[trigger] ms[j]).0 != "content"@)
                    ==> read_msg(text).content == Body::Absent
                &&& (forall|j: int| 0 <= j < ms.len() ==> (#[trigger] ms[j]).0 != "role"@)
                    ==> read_msg(text).role is None
            },
            _ => read_msg(text).role is None && read_msg(text).content == Body::Absent,
        },
{
    match shape_of(text) {
        Shape::Object(ms) => {
            law_first_member_counts(ms, "content"@);
            law_first_member_counts(ms, "role"@);
            if member(ms, "content"@) is Some {
                let j = choose|j: int| #[trigger] is_first_under(ms, "content"@, j);
                assert(ms[j].0 == "content"@);
            }
            if member(ms, "role"@) is Some {
                let j = choose|j: int| #[trigger] is_first_under(ms, "role"@, j);
                assert(ms[j].0 == "role"@);
            }
        },
        _ => {},
    }
}

/// The messages are read one by one: as many as there are, each in its place.
pub proof fn law_messages_are_read_one_by_one(items: Seq<Seq<char>>)
    ensures
        read_msgs(items).len() == items.len(),
        forall|i: int| 0 <= i < items.len() ==> #[trigger] read_msgs(items)[i] == read_msg(items[i]),
{
}

/// A body is a chat request exactly if it is an object whose member `messages` is a list
/// with something in it; then it is read with all its members and all its messages. Any
/// other body is refused: for being unreadable, for being no JSON, or for having no
/// messages.
pub proof fn law_which_chats_are_read(body: Option<Seq<u8>>)
    ensures
        match read_chat(body) {
            Ok(c) => body is Some && json_read(body->0) == Shape::Object(c.members) && c.items.len() > 0
                && match member(c.members, "messages"@) {
                Some(t) => shape_of(t) == Shape::Array(c.items),
                None => false,
            },
            Err(Refusal::UnreadableBody) => body is None,
            Err(Refusal::InvalidJson) => body is Some && json_read(body->0) == Shape::Invalid,
            Err(Refusal::NoMessages) => body is Some && match json_read(body->0) {
                Shape::Invalid => false,
                Shape::Object(ms) => match member(ms, "messages"@) {
                    Some(t) => match shape_of(t) {
                        Shape::Array(items) => items.len() == 0,
                        _ => true,
                    },
                    None => true,
                },
                _ => true,
            },
            Err(_) => false,
        },
{
}

/// A body is a completion request exactly if it is JSON, whatever it holds; then it is read
/// as it is.
pub proof fn law_which_completions_are_read(body: Option<Seq<u8>>)
    ensures
        match read_completion(body) {
            Ok(shape) => body is Some && shape == json_read(body->0) && !(shape is Invalid),
            Err(Refusal::UnreadableBody) => body is None,
            Err(Refusal::InvalidBody) => body is Some && json_read(body->0) is Invalid,
            Err(_) => false,
        },
{
}

/// The prompt of a completion request is the string under `prompt`, all of it, unless that
/// is empty.
pub proof fn law_prompts_are_read_whole(shape: Shape, p: Seq<char>)
    ensures
        prompt_of(shape) == Some(p) <==> p.len() > 0 && match shape {
            Shape::Object(ms) => string_member(ms, "prompt"@) == Some(p),
            _ => false,
        },
{
}

} // verus!
