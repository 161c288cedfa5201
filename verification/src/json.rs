//! JSON values, one level deep: what is in them is held as compact JSON.

use crate::outside::{json_quoted, json_read, quote_json, read_json, texts};
use crate::text::{chars_of, join3, opt_str, opt_text, push_all, same_text, string_of};
use vstd::prelude::*;
use vstd::utf8::encode_utf8;

verus! {

broadcast use vstd::string::group_string_axioms;

/// A JSON value, one level deep.
#[derive(Debug)]
pub enum Json {
    /// No JSON.
    Invalid,
    Null,
    Text(String),
    /// The elements, each as compact JSON.
    Array(Vec<String>),
    /// The keys and their values, each as compact JSON.
    Object(Vec<(String, String)>),
    /// A number or a truth value, as compact JSON.
    Other(String),
}

/// What a [`Json`] stands for.
pub enum Shape {
    Invalid,
    Null,
    Text(Seq<char>),
    Array(Seq<Seq<char>>),
    Object(Seq<(Seq<char>, Seq<char>)>),
    Other(Seq<char>),
}

/// What a list of members stands for.
pub open spec fn members(v: Seq<(String, String)>) -> Seq<(Seq<char>, Seq<char>)> {
    v.map_values(|m: (String, String)| (m.0@, m.1@))
}

impl View for Json {
    type V = Shape;

    open spec fn view(&self) -> Shape {
        match self {
            Json::Invalid => Shape::Invalid,
            Json::Null => Shape::Null,
            Json::Text(s) => Shape::Text(s@),
            Json::Array(v) => Shape::Array(texts(v@)),
            Json::Object(v) => Shape::Object(members(v@)),
            Json::Other(s) => Shape::Other(s@),
        }
    }
}

/// What a text holds, if it is JSON.
pub open spec fn shape_of(text: Seq<char>) -> Shape {
    json_read(encode_utf8(text))
}

/// What a text holds, if it is JSON.
pub fn json_of(text: &str) -> (r: Json)
    ensures
        r@ == shape_of(text@),
{
    read_json(text.as_bytes())
}

// --- Members -------------------------------------------------------------------

/// The value under a key.
pub open spec fn member(ms: Seq<(Seq<char>, Seq<char>)>, key: Seq<char>) -> Option<Seq<char>>
    decreases ms.len(),
{
    if ms.len() == 0 {
        None
    } else if ms[0].0 == key {
        Some(ms[0].1)
    } else {
        member(ms.skip(1), key)
    }
}

/// The members with another value under a key.
pub open spec fn with_member(
    ms: Seq<(Seq<char>, Seq<char>)>,
    key: Seq<char>,
    value: Seq<char>,
) -> Seq<(Seq<char>, Seq<char>)> {
    ms.map_values(
        |m: (Seq<char>, Seq<char>)|
            if m.0 == key {
                (key, value)
            } else {
                m
            },
    )
}

/// The string under a key, if there is one.
pub open spec fn string_member(ms: Seq<(Seq<char>, Seq<char>)>, key: Seq<char>) -> Option<Seq<char>> {
    match member(ms, key) {
        Some(t) => match shape_of(t) {
            Shape::Text(s) => Some(s),
            _ => None,
        },
        None => None,
    }
}

/// The value under a key.
pub fn find_member<'a>(ms: &'a Vec<(String, String)>, key: &str) -> (r: Option<&'a str>)
    ensures
        opt_str(r) == member(members(ms@), key@),
{
    let ghost all = members(ms@);
    let mut i: usize = 0;
    assert(all.skip(0) == all);
    while i < ms.len()
        invariant
            i <= ms@.len(),
            all == members(ms@),
            member(all.skip(i as int), key@) == member(all, key@),
        decreases ms@.len() - i,
    {
        assert(all.skip(i as int)[0] == (ms@[i as int].0@, ms@[i as int].1@));
        if same_text(ms[i].0.as_str(), key) {
            return Some(ms[i].1.as_str());
        }
        assert(all.skip(i as int).skip(1) == all.skip(i + 1));
        i = i + 1;
    }
    None
}

/// The string under a key, if there is one.
pub fn find_string(ms: &Vec<(String, String)>, key: &str) -> (r: Option<String>)
    ensures
        opt_text(r) == string_member(members(ms@), key@),
{
    match find_member(ms, key) {
        Some(t) => match json_of(t) {
            Json::Text(s) => Some(s),
            _ => None,
        },
        None => None,
    }
}

/// The members with another value under a key.
pub fn replace_member(ms: &Vec<(String, String)>, key: &str, value: &str) -> (r: Vec<(String, String)>)
    ensures
        members(r@) == with_member(members(ms@), key@, value@),
{
    let mut out: Vec<(String, String)> = Vec::new();
    let mut i: usize = 0;
    while i < ms.len()
        invariant
            i <= ms@.len(),
            out@.len() == i,
            forall|k: int|
                0 <= k < i ==> (#[trigger] out@[k]).0@ == ms@[k].0@ && out@[k].1@ == if ms@[k].0@ == key@ {
                    value@
                } else {
                    ms@[k].1@
                },
        decreases ms@.len() - i,
    {
        let v: String = if same_text(ms[i].0.as_str(), key) {
            value.to_owned()
        } else {
            ms[i].1.as_str().to_owned()
        };
        out.push((ms[i].0.as_str().to_owned(), v));
        i = i + 1;
    }
    assert(members(out@) =~= with_member(members(ms@), key@, value@));
    out
}

/// Replacing the value under one key leaves every other member alone, in its place.
pub proof fn law_other_members_stay(
    ms: Seq<(Seq<char>, Seq<char>)>,
    key: Seq<char>,
    value: Seq<char>,
    i: int,
)
    requires
        0 <= i < ms.len(),
    ensures
        with_member(ms, key, value).len() == ms.len(),
        with_member(ms, key, value)[i].0 == ms[i].0,
        ms[i].0 != key ==> with_member(ms, key, value)[i] == ms[i],
        ms[i].0 == key ==> with_member(ms, key, value)[i].1 == value,
{
}

// --- Writing -------------------------------------------------------------------

/// The elements of a list, with a comma between each two.
pub open spec fn listed(items: Seq<Seq<char>>) -> Seq<char>
    decreases items.len(),
{
    if items.len() == 0 {
        seq![]
    } else if items.len() == 1 {
        items[0]
    } else {
        listed(items.drop_last()) + ","@ + items.last()
    }
}

/// A member as JSON.
pub open spec fn member_text(m: (Seq<char>, Seq<char>)) -> Seq<char> {
    json_quoted(m.0) + ":"@ + m.1
}

/// An array as JSON.
pub open spec fn array_text(items: Seq<Seq<char>>) -> Seq<char> {
    "["@ + listed(items) + "]"@
}

/// An object as JSON.
pub open spec fn object_text(ms: Seq<(Seq<char>, Seq<char>)>) -> Seq<char> {
    "{"@ + listed(ms.map_values(|m: (Seq<char>, Seq<char>)| member_text(m))) + "}"@
}

/// A value as compact JSON.
pub open spec fn compact(shape: Shape) -> Seq<char> {
    match shape {
        Shape::Invalid => seq![],
        Shape::Null => "null"@,
        Shape::Text(s) => json_quoted(s),
        Shape::Array(items) => array_text(items),
        Shape::Object(ms) => object_text(ms),
        Shape::Other(s) => s,
    }
}

fn list(items: &Vec<String>) -> (r: String)
    ensures
        r@ == listed(texts(items@)),
{
    let ghost all = texts(items@);
    let mut out: Vec<char> = Vec::new();
    let mut i: usize = 0;
    while i < items.len()
        invariant
            i <= items@.len(),
            all == texts(items@),
            out@ == listed(all.take(i as int)),
        decreases items@.len() - i,
    {
        let ghost before = out@;
        if i > 0 {
            push_all(&mut out, chars_of(",").as_slice());
        }
        push_all(&mut out, chars_of(items[i].as_str()).as_slice());
        proof {
            assert(all.take(i + 1).drop_last() == all.take(i as int));
            assert(all.take(i + 1).last() == items@[i as int]@);
            if i == 0 {
                assert(all.take(1)[0] == items@[0]@);
                assert(before == Seq::<char>::empty());
                assert(out@ == items@[0]@);
            }
        }
        i = i + 1;
    }
    assert(all.take(all.len() as int) == all);
    string_of(out.as_slice())
}

/// An array as JSON.
pub fn write_array(items: &Vec<String>) -> (r: String)
    ensures
        r@ == array_text(texts(items@)),
{
    let inner: String = list(items);
    join3("[", inner.as_str(), "]")
}

/// An object as JSON.
pub fn write_object(ms: &Vec<(String, String)>) -> (r: String)
    ensures
        r@ == object_text(members(ms@)),
{
    let mut items: Vec<String> = Vec::new();
    let mut i: usize = 0;
    while i < ms.len()
        invariant
            i <= ms@.len(),
            items@.len() == i,
            forall|k: int|
                0 <= k < i ==> (#[trigger] items@[k])@ == member_text((ms@[k].0@, ms@[k].1@)),
        decreases ms@.len() - i,
    {
        let key: String = quote_json(ms[i].0.as_str());
        items.push(join3(key.as_str(), ":", ms[i].1.as_str()));
        i = i + 1;
    }
    assert(texts(items@) =~= members(ms@).map_values(
        |m: (Seq<char>, Seq<char>)| member_text(m),
    ));
    let inner: String = list(&items);
    join3("{", inner.as_str(), "}")
}

/// A string as JSON.
pub fn write_text(s: &str) -> (r: String)
    ensures
        r@ == json_quoted(s@),
{
    quote_json(s)
}

/// A value as compact JSON.
pub fn write_json(json: &Json) -> (r: String)
    ensures
        r@ == compact(json@),
{
    match json {
        Json::Invalid => String::new(),
        Json::Null => "null".to_owned(),
        Json::Text(s) => quote_json(s.as_str()),
        Json::Array(items) => write_array(items),
        Json::Object(ms) => write_object(ms),
        Json::Other(s) => s.as_str().to_owned(),
    }
}

// --- Laws ----------------------------------------------------------------------

/// Member `i` is the first one under its key.
pub open spec fn is_first_under(ms: Seq<(Seq<char>, Seq<char>)>, key: Seq<char>, i: int) -> bool {
    0 <= i < ms.len() && ms[i].0 == key && forall|j: int| 0 <= j < i ==> (#[trigger] ms[j]).0 != key
}

/// The value under a key is that of the first member under it, and there is none only if no
/// member has the key.
pub proof fn law_first_member_counts(ms: Seq<(Seq<char>, Seq<char>)>, key: Seq<char>)
    ensures
        match member(ms, key) {
            Some(v) => exists|i: int| #[trigger] is_first_under(ms, key, i) && ms[i].1 == v,
            None => forall|i: int| 0 <= i < ms.len() ==> (#[trigger] ms[i]).0 != key,
        },
        forall|i: int| #[trigger] is_first_under(ms, key, i) ==> member(ms, key) == Some(ms[i].1),
    decreases ms.len(),
{
    if ms.len() > 0 {
        let rest = ms.skip(1);
        law_first_member_counts(rest, key);
        assert forall|i: int| #[trigger] is_first_under(ms, key, i) implies member(ms, key) == Some(
            ms[i].1,
        ) by {
            if i > 0 {
                assert(ms[0].0 != key);
                assert forall|j: int| 0 <= j < i - 1 implies (#[trigger] rest[j]).0 != key by {
                    assert(rest[j] == ms[j + 1]);
                }
                assert(is_first_under(rest, key, i - 1));
            }
        }
        if ms[0].0 == key {
            assert(is_first_under(ms, key, 0));
        } else {
            match member(rest, key) {
                Some(v) => {
                    let i = choose|i: int| #[trigger] is_first_under(rest, key, i) && rest[i].1 == v;
                    assert forall|j: int| 0 <= j < i + 1 implies (#[trigger] ms[j]).0 != key by {
                        if j > 0 {
                            assert(rest[j - 1] == ms[j]);
                        }
                    }
                    assert(is_first_under(ms, key, i + 1));
                },
                None => {
                    assert forall|i: int| 0 <= i < ms.len() implies (#[trigger] ms[i]).0 != key by {
                        if i > 0 {
                            assert(rest[i - 1] == ms[i]);
                        }
                    }
                },
            }
        }
    }
}

/// Replacing the value under a key changes that value and nothing else: there are as many
/// members as before, under the same keys, and each other value is what it was. So the new
/// value is under the key, if the key was there.
pub proof fn law_one_value_is_replaced(
    ms: Seq<(Seq<char>, Seq<char>)>,
    key: Seq<char>,
    value: Seq<char>,
)
    ensures
        with_member(ms, key, value).len() == ms.len(),
        forall|i: int|
            0 <= i < ms.len() ==> (#[trigger] with_member(ms, key, value)[i]).0 == ms[i].0,
        forall|i: int|
            0 <= i < ms.len() ==> (#[trigger] with_member(ms, key, value)[i]).1 == if ms[i].0 == key {
                value
            } else {
                ms[i].1
            },
        member(ms, key) is Some ==> member(with_member(ms, key, value), key) == Some(value),
        forall|other: Seq<char>|
            other != key ==> #[trigger] member(with_member(ms, key, value), other) == member(ms, other),
{
    let new = with_member(ms, key, value);
    law_first_member_counts(ms, key);
    law_first_member_counts(new, key);
    if member(ms, key) is Some {
        let i = choose|i: int| #[trigger] is_first_under(ms, key, i);
        assert forall|j: int| 0 <= j < i implies (#[trigger] new[j]).0 != key by {
            assert(ms[j].0 != key);
        }
        assert(is_first_under(new, key, i));
    }
    assert forall|other: Seq<char>| other != key implies #[trigger] member(new, other) == member(
        ms,
        other,
    ) by {
        law_first_member_counts(ms, other);
        law_first_member_counts(new, other);
        if member(ms, other) is Some {
            let i = choose|i: int| #[trigger] is_first_under(ms, other, i);
            assert forall|j: int| 0 <= j < i implies (#[trigger] new[j]).0 != other by {
                assert(ms[j].0 != other);
            }
            assert(is_first_under(new, other, i));
        } else if member(new, other) is Some {
            let i = choose|i: int| #[trigger] is_first_under(new, other, i);
            assert(ms[i].0 == other);
        }
    }
}

/// A list is its elements with a comma between each two: two lists one after the other are
/// the one, a comma, and the other.
pub proof fn law_lists_go_one_after_the_other(a: Seq<Seq<char>>, b: Seq<Seq<char>>)
    requires
        a.len() > 0,
        b.len() > 0,
    ensures
        listed(a + b) == listed(a) + seq![','] + listed(b),
        a.len() == 1 ==> listed(a) == a[0],
        listed(Seq::empty()) == Seq::<char>::empty(),
    decreases b.len(),
{
    let whole = a + b;
    reveal_strlit(",");
    assert(","@ =~= seq![',']);
    assert(whole.last() == b.last());
    if b.len() == 1 {
        assert(whole.drop_last() =~= a);
        assert(listed(b) == b[0]);
    } else {
        let c = b.drop_last();
        law_lists_go_one_after_the_other(a, c);
        assert(whole.drop_last() =~= a + c);
        assert(listed(a) + seq![','] + listed(c) + ","@ + b.last() =~= listed(a) + seq![','] + (listed(c)
            + ","@ + b.last()));
    }
}

/// An array holds exactly its elements, in order: one more element stands behind a comma at
/// its end.
pub proof fn law_arrays_hold_their_elements(items: Seq<Seq<char>>, last: Seq<char>)
    ensures
        array_text(Seq::empty()) == seq!['[', ']'],
        array_text(seq![last]) == seq!['['] + last + seq![']'],
        items.len() > 0 ==> array_text(items.push(last)) == array_text(items).drop_last() + seq![',']
            + last + seq![']'],
{
    reveal_strlit("[");
    reveal_strlit("]");
    assert("["@ =~= seq!['[']);
    assert("]"@ =~= seq![']']);
    assert(array_text(Seq::empty()) =~= seq!['[', ']']);
    assert(seq![last][0] == last);
    if items.len() > 0 {
        law_lists_go_one_after_the_other(items, seq![last]);
        assert(items + seq![last] =~= items.push(last));
        assert(listed(seq![last]) == last);
        assert(array_text(items).drop_last() =~= "["@ + listed(items));
        assert(array_text(items.push(last)) =~= "["@ + listed(items) + seq![','] + last + seq![']']);
    }
}

/// An object holds exactly its members, in order: one more member, its key quoted, a colon
/// and its value, stands behind a comma at its end.
pub proof fn law_objects_hold_their_members(
    ms: Seq<(Seq<char>, Seq<char>)>,
    key: Seq<char>,
    value: Seq<char>,
)
    ensures
        object_text(Seq::empty()) == seq!['{', '}'],
        object_text(seq![(key, value)]) == seq!['{'] + (json_quoted(key) + seq![':'] + value) + seq!['}'],
        ms.len() > 0 ==> object_text(ms.push((key, value))) == object_text(ms).drop_last() + seq![','] + (
        json_quoted(key) + seq![':'] + value) + seq!['}'],
{
    reveal_strlit("{");
    reveal_strlit("}");
    reveal_strlit(":");
    assert("{"@ =~= seq!['{']);
    assert("}"@ =~= seq!['}']);
    assert(":"@ =~= seq![':']);
    let f = |m: (Seq<char>, Seq<char>)| member_text(m);
    let none = Seq::<(Seq<char>, Seq<char>)>::empty();
    assert(none.map_values(f) =~= Seq::<Seq<char>>::empty());
    assert(object_text(none) =~= seq!['{', '}']);
    let text = json_quoted(key) + seq![':'] + value;
    assert(member_text((key, value)) == text);
    assert(seq![(key, value)].map_values(f) =~= seq![text]);
    assert(seq![text][0] == text);
    if ms.len() > 0 {
        let items = ms.map_values(f);
        law_lists_go_one_after_the_other(items, seq![text]);
        assert(ms.push((key, value)).map_values(f) =~= items + seq![text]);
        assert(object_text(ms).drop_last() =~= "{"@ + listed(items));
        assert(object_text(ms.push((key, value))) =~= "{"@ + listed(items) + seq![','] + text + seq!['}']);
    }
}

/// A text is the JSON of this string.
pub open spec fn holds_text(text: Seq<char>, s: Seq<char>) -> bool {
    shape_of(text) == Shape::Text(s)
}

/// The string under a key is what its value holds, if that is a string, and nothing else.
pub proof fn law_strings_under_keys(ms: Seq<(Seq<char>, Seq<char>)>, key: Seq<char>, i: int)
    requires
        is_first_under(ms, key, i),
    ensures
        forall|s: Seq<char>|
            (string_member(ms, key) == Some(s)) == #[trigger] holds_text(ms[i].1, s),
        !(shape_of(ms[i].1) is Text) ==> string_member(ms, key) is None,
{
    law_first_member_counts(ms, key);
}

/// A value is written as what it is: strings quoted, arrays and objects with what they
/// hold, numbers and truth values as they came.
pub proof fn law_values_are_written_as_they_are(s: Seq<char>)
    ensures
        compact(Shape::Text(s)) == json_quoted(s),
        compact(Shape::Other(s)) == s,
        compact(Shape::Null) == seq!['n', 'u', 'l', 'l'],
        forall|items: Seq<Seq<char>>| #[trigger] compact(Shape::Array(items)) == array_text(items),
        forall|ms: Seq<(Seq<char>, Seq<char>)>| #[trigger]
            compact(Shape::Object(ms)) == object_text(ms),
{
    reveal_strlit("null");
}

/// Without a member under a key, there is no string under it either.
pub proof fn law_no_member_no_string(ms: Seq<(Seq<char>, Seq<char>)>, key: Seq<char>)
    requires
        forall|i: int| 0 <= i < ms.len() ==> (#[trigger] ms[i]).0 != key,
    ensures
        member(ms, key) is None,
        string_member(ms, key) is None,
{
    law_first_member_counts(ms, key);
    if member(ms, key) is Some {
        let i = choose|i: int| #[trigger] is_first_under(ms, key, i);
        assert(ms[i].0 == key);
    }
}

/// What a text holds is what its bytes hold, all of them.
pub proof fn law_texts_are_read_by_their_bytes(text: Seq<char>)
    ensures
        shape_of(text) == json_read(encode_utf8(text)),
{
}

} // verus!
