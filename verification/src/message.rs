//! Chat messages, as far as compression looks into them.

use crate::text::{chars_of, opt_text, push_all, string_of};
use crate::tokenizer::{count_tokens, token_count};
use vstd::prelude::*;

verus! {

broadcast use vstd::string::group_string_axioms;

/// One part of a message's content.
#[derive(Debug)]
pub enum Part {
    /// An object, with its `type` and its `text` where they are strings.
    Object { kind: Option<String>, text: Option<String> },
    /// A bare string.
    Text(String),
    /// Any other value, as compact JSON.
    Other(String),
}

/// The content of a message.
#[derive(Debug)]
pub enum Content {
    /// Missing, or `null`.
    Absent,
    Text(String),
    Parts(Vec<Part>),
    /// Any other value, as compact JSON.
    Other(String),
}

/// A chat message. What else it holds does not matter here and stays as it is.
#[derive(Debug)]
pub struct Message {
    /// The role, where it is a string.
    pub role: Option<String>,
    pub content: Content,
}

/// What a [`Part`] stands for.
pub enum Piece {
    Object { kind: Option<Seq<char>>, text: Option<Seq<char>> },
    Text(Seq<char>),
    Other(Seq<char>),
}

/// What a [`Content`] stands for.
pub enum Body {
    Absent,
    Text(Seq<char>),
    Parts(Seq<Piece>),
    Other(Seq<char>),
}

/// What a [`Message`] stands for.
pub struct Msg {
    pub role: Option<Seq<char>>,
    pub content: Body,
}

impl View for Part {
    type V = Piece;

    open spec fn view(&self) -> Piece {
        match self {
            Part::Object { kind, text } => Piece::Object {
                kind: opt_text(*kind),
                text: opt_text(*text),
            },
            Part::Text(s) => Piece::Text(s@),
            Part::Other(s) => Piece::Other(s@),
        }
    }
}

/// What a list of parts stands for.
pub open spec fn pieces_of(parts: Seq<Part>) -> Seq<Piece> {
    parts.map_values(|p: Part| p@)
}

impl View for Content {
    type V = Body;

    open spec fn view(&self) -> Body {
        match self {
            Content::Absent => Body::Absent,
            Content::Text(s) => Body::Text(s@),
            Content::Parts(parts) => Body::Parts(pieces_of(parts@)),
            Content::Other(s) => Body::Other(s@),
        }
    }
}

impl View for Message {
    type V = Msg;

    open spec fn view(&self) -> Msg {
        Msg { role: opt_text(self.role), content: self.content@ }
    }
}

/// What a list of messages stands for.
pub open spec fn msgs(v: Seq<Message>) -> Seq<Msg> {
    v.map_values(|m: Message| m@)
}

/// The role, or nothing.
pub open spec fn role_of(m: Msg) -> Seq<char> {
    match m.role {
        Some(r) => r,
        None => seq![],
    }
}

/// The text of a part, for counting.
pub open spec fn piece_text(p: Piece) -> Seq<char> {
    match p {
        Piece::Object { kind: _, text } => match text {
            Some(t) => t,
            None => seq![],
        },
        Piece::Text(s) => s,
        Piece::Other(s) => s,
    }
}

/// The texts of the parts, with a space between each two.
pub open spec fn spaced(parts: Seq<Piece>) -> Seq<char>
    decreases parts.len(),
{
    if parts.len() == 0 {
        seq![]
    } else if parts.len() == 1 {
        piece_text(parts[0])
    } else {
        spaced(parts.drop_last()) + seq![' '] + piece_text(parts.last())
    }
}

/// The text of a message, for counting.
pub open spec fn text_of(m: Msg) -> Seq<char> {
    match m.content {
        Body::Absent => seq![],
        Body::Text(s) => s,
        Body::Parts(parts) => spaced(parts),
        Body::Other(s) => s,
    }
}

/// The tokens of a list of messages: those of each text and four more for its
/// frame, and two for the list.
pub open spec fn messages_tokens(ms: Seq<Msg>) -> nat
    decreases ms.len(),
{
    if ms.len() == 0 {
        2
    } else {
        messages_tokens(ms.drop_last()) + token_count(text_of(ms.last())) + 4
    }
}

/// How many characters the parts have between them.
pub open spec fn pieces_chars(parts: Seq<Piece>) -> nat
    decreases parts.len(),
{
    if parts.len() == 0 {
        0
    } else {
        pieces_chars(parts.drop_last()) + piece_text(parts.last()).len()
    }
}

impl Message {
    /// The role, or nothing.
    pub fn role_text(&self) -> (r: &str)
        ensures
            r@ == role_of(self@),
    {
        match &self.role {
            Some(s) => s.as_str(),
            None => {
                proof {
                    reveal_strlit("");
                    assert(""@ == Seq::<char>::empty());
                }
                ""
            },
        }
    }
}

/// The text of a part, for counting.
pub fn part_text(p: &Part) -> (r: &str)
    ensures
        r@ == piece_text(p@),
{
    match p {
        Part::Object { kind: _, text } => match text {
            Some(t) => t.as_str(),
            None => {
                proof {
                    reveal_strlit("");
                    assert(""@ == Seq::<char>::empty());
                }
                ""
            },
        },
        Part::Text(s) => s.as_str(),
        Part::Other(s) => s.as_str(),
    }
}

/// How many characters the parts have between them, as far as a `usize` can tell.
pub fn parts_chars(parts: &Vec<Part>) -> (n: usize)
    ensures
        n == if pieces_chars(pieces_of(parts@)) <= usize::MAX {
            pieces_chars(pieces_of(parts@))
        } else {
            usize::MAX as nat
        },
{
    let ghost all = pieces_of(parts@);
    let mut n: usize = 0;
    let mut i: usize = 0;
    while i < parts.len()
        invariant
            i <= parts@.len(),
            all == pieces_of(parts@),
            n == if pieces_chars(all.take(i as int)) <= usize::MAX {
                pieces_chars(all.take(i as int))
            } else {
                usize::MAX as nat
            },
        decreases parts@.len() - i,
    {
        proof {
            assert(all.take(i + 1).drop_last() == all.take(i as int));
            assert(all.take(i + 1).last() == parts@[i as int]@);
        }
        n = n.saturating_add(chars_of(part_text(&parts[i])).len());
        i = i + 1;
    }
    assert(all.take(all.len() as int) == all);
    n
}

/// The texts of the parts, with a space between each two.
fn parts_text(parts: &Vec<Part>) -> (r: String)
    ensures
        r@ == spaced(pieces_of(parts@)),
{
    let ghost all = pieces_of(parts@);
    let mut out: Vec<char> = Vec::new();
    let mut i: usize = 0;
    while i < parts.len()
        invariant
            i <= parts@.len(),
            all == pieces_of(parts@),
            out@ == spaced(all.take(i as int)),
        decreases parts@.len() - i,
    {
        let ghost before = out@;
        if i > 0 {
            out.push(' ');
        }
        push_all(&mut out, chars_of(part_text(&parts[i])).as_slice());
        proof {
            assert(all.take(i + 1).drop_last() == all.take(i as int));
            assert(all.take(i + 1).last() == parts@[i as int]@);
            if i == 0 {
                assert(all.take(1)[0] == parts@[0]@);
                assert(before == Seq::<char>::empty());
                assert(out@ == piece_text(parts@[0]@));
            } else {
                assert(before.push(' ') == before + seq![' ']);
            }
        }
        i = i + 1;
    }
    assert(all.take(all.len() as int) == all);
    string_of(out.as_slice())
}

/// The text of a message, for counting.
pub fn message_text(m: &Message) -> (r: String)
    ensures
        r@ == text_of(m@),
{
    match &m.content {
        Content::Absent => String::new(),
        Content::Text(s) => s.as_str().to_owned(),
        Content::Parts(parts) => parts_text(parts),
        Content::Other(s) => s.as_str().to_owned(),
    }
}

/// The tokens of a list of messages, as far as a `usize` can tell.
pub fn count_messages_tokens(messages: &Vec<Message>) -> (n: usize)
    ensures
        n == if messages_tokens(msgs(messages@)) <= usize::MAX {
            messages_tokens(msgs(messages@))
        } else {
            usize::MAX as nat
        },
{
    let ghost all = msgs(messages@);
    let mut n: usize = 2;
    let mut i: usize = 0;
    assert(all.take(0) == Seq::<Msg>::empty());
    while i < messages.len()
        invariant
            i <= messages@.len(),
            all == msgs(messages@),
            n == if messages_tokens(all.take(i as int)) <= usize::MAX {
                messages_tokens(all.take(i as int))
            } else {
                usize::MAX as nat
            },
        decreases messages@.len() - i,
    {
        proof {
            assert(all.take(i + 1).drop_last() == all.take(i as int));
            assert(all.take(i + 1).last() == messages@[i as int]@);
        }
        let text: String = message_text(&messages[i]);
        n = n.saturating_add(count_tokens(text.as_str())).saturating_add(4);
        i = i + 1;
    }
    assert(all.take(all.len() as int) == all);
    n
}

} // verus!
