//! What the local model is asked and what its answers count as, said of the texts.

use crate::codec::front;
use crate::decimal::decimal;
use crate::json::{member, shape_of, string_member, Shape};
use crate::llm::{
    budget, choice_text, is_success, listed, lists, names_given, names_in, read_choice,
    read_exchange, target_pct, unless_empty, user_prompt, Choice, Exchange, Listing, Names,
};
use crate::outside::json_read;
use crate::rules_meaning::{all_white, ends_of, law_trim_takes_white_space_off_the_ends};
use crate::text::{
    is_white, lemma_lead, lemma_lead_unique, lemma_trim_end_unique, opt_text, trim, trim_end, trim_start,
};
use vstd::prelude::*;

verus! {

broadcast use vstd::string::group_string_axioms;

/// `whole` is `core` with white space before it and behind it.
pub open spec fn is_framed(before: Seq<char>, core: Seq<char>, after: Seq<char>, whole: Seq<char>) -> bool {
    all_white(before) && all_white(after) && whole == before + core + after
}

/// `core` is `whole` without the white space at its two ends: nothing but white space stands
/// before it and behind it, and it neither starts nor ends in white space.
pub open spec fn is_core(core: Seq<char>, whole: Seq<char>) -> bool {
    &&& exists|before: Seq<char>, after: Seq<char>| #[trigger] is_framed(before, core, after, whole)
    &&& core.len() > 0
    &&& !is_white(core[0])
    &&& !is_white(core.last())
}

/// There is one such text at most.
pub proof fn law_core_is_unique(a: Seq<char>, b: Seq<char>, whole: Seq<char>)
    requires
        is_core(a, whole),
        is_core(b, whole),
    ensures
        a == b,
{
    lemma_core_is_trim(a, whole);
    lemma_core_is_trim(b, whole);
}

proof fn lemma_white_front_goes(before: Seq<char>, rest: Seq<char>)
    requires
        all_white(before),
        rest.len() > 0,
        !is_white(rest[0]),
    ensures
        trim_start(before + rest) == rest,
{
    let whole = before + rest;
    let k = before.len() as int;
    assert forall|i: int| 0 <= i < k implies is_white(#[trigger] whole[i]) by {
        assert(whole[i] == before[i]);
    }
    assert(whole[k] == rest[0]);
    lemma_lead_unique(whole, k);
    lemma_lead(whole);
    assert(whole.skip(k) =~= rest);
}

proof fn lemma_white_end_goes(core: Seq<char>, after: Seq<char>)
    requires
        all_white(after),
        core.len() > 0,
        !is_white(core.last()),
    ensures
        trim_end(core + after) == core,
{
    let whole = core + after;
    let n = core.len() as int;
    assert forall|i: int| n <= i < whole.len() implies is_white(#[trigger] whole[i]) by {
        assert(whole[i] == after[i - n]);
    }
    assert(whole[n - 1] == core.last());
    lemma_trim_end_unique(whole, n);
    assert(whole.take(n) =~= core);
}

pub(crate) proof fn lemma_core_is_trim(core: Seq<char>, whole: Seq<char>)
    requires
        is_core(core, whole),
    ensures
        core == trim(whole),
{
    let (before, after) = choose|before: Seq<char>, after: Seq<char>| #[trigger]
        is_framed(before, core, after, whole);
    let rest = core + after;
    assert(before + core + after =~= before + rest);
    assert(rest[0] == core[0]);
    lemma_white_front_goes(before, rest);
    lemma_white_end_goes(core, after);
}

proof fn lemma_trim_is_core(s: Seq<char>)
    requires
        !all_white(s),
    ensures
        is_core(trim(s), s),
{
    law_trim_takes_white_space_off_the_ends(s);
    assert(is_framed(ends_of(s).0, trim(s), ends_of(s).1, s));
}

/// What an answer counts as. One that was not cut off and says something counts as its
/// content, all of it, with nothing but the white space taken off its two ends, however long
/// it is; one that was cut off, or says nothing, is an error that says so.
pub proof fn law_answers_count_as_their_content(c: Choice)
    ensures
        match read_choice(c) {
            Ok(text) => opt_text(c.finish_reason) != Some("length"@) && match c.content {
                Some(content) => is_core(text, content@),
                None => false,
            },
            Err(e) => if opt_text(c.finish_reason) == Some("length"@) {
                e == "local LLM output truncated (finish_reason=length)"@
            } else {
                e == "local LLM returned empty content"@ && match c.content {
                    Some(content) => all_white(content@),
                    None => true,
                }
            },
        },
{
    law_trim_takes_white_space_off_the_ends(choice_text(c));
    if !all_white(choice_text(c)) {
        lemma_trim_is_core(choice_text(c));
    }
}

/// What an exchange counts as. A reply whose status is a success counts as its first answer,
/// whatever the others say; any other reply, and an exchange that failed, is an error that
/// says what went wrong.
pub proof fn law_the_first_answer_counts(e: Exchange)
    ensures
        match e {
            Exchange::Reply { status, status_text, body, choices } => if 200 <= status <= 299 {
                match choices {
                    Some(v) => if v@.len() > 0 {
                        read_exchange(e) == read_choice(v@[0])
                    } else {
                        read_exchange(e) == Err::<Seq<char>, Seq<char>>(
                            "local LLM response had no choices"@,
                        )
                    },
                    None => read_exchange(e) == Err::<Seq<char>, Seq<char>>(
                        "failed to parse local LLM response: "@ + front(body@, 200),
                    ),
                }
            } else {
                read_exchange(e) == Err::<Seq<char>, Seq<char>>(
                    "local LLM returned "@ + status_text@ + ": "@ + front(body@, 200),
                )
            },
            Exchange::SendFailed => read_exchange(e) == Err::<Seq<char>, Seq<char>>(
                "local LLM request failed"@,
            ),
            Exchange::BodyFailed => read_exchange(e) == Err::<Seq<char>, Seq<char>>(
                "failed to read local LLM response body"@,
            ),
        },
{
    if let Exchange::Reply { status, status_text, body, choices } = e {
        assert("local LLM returned "@ + status_text@ + (": "@ + front(body@, 200))
            =~= "local LLM returned "@ + status_text@ + ": "@ + front(body@, 200));
    }
}

/// The model is given a text whole, however long it is: before it and behind it stands what
/// stands there for any other text.
pub proof fn law_the_model_is_given_the_whole_text(pct: int)
    ensures
        exists|before: Seq<char>, after: Seq<char>| #[trigger] puts_texts_between(pct, before, after),
{
    let before = "Target length: about "@ + decimal(pct as nat)
        + "% of the original token count.\n\n--- ORIGINAL PROMPT ---\n"@;
    let after =
        "\n--- END ---\n\nCarry over EVERY concrete value from the original (paths, IDs, error text, durations, TTLs, limits, versions). A compressed prompt missing any of them is wrong."@;
    assert(puts_texts_between(pct, before, after));
}

/// Every text is put to the model between these two.
pub open spec fn puts_texts_between(pct: int, before: Seq<char>, after: Seq<char>) -> bool {
    &&& ("Target length: about "@ + decimal(pct as nat)).is_prefix_of(before)
    &&& forall|text: Seq<char>| #[trigger] user_prompt(text, pct) == before + text + after
}

/// The target is what is asked for, brought up to 5 and down to 95.
pub proof fn law_target_is_in_range(raw: int)
    ensures
        5 <= target_pct(raw) <= 95,
        5 <= raw <= 95 ==> target_pct(raw) == raw,
        raw <= 5 ==> target_pct(raw) == 5,
        raw >= 95 ==> target_pct(raw) == 95,
{
}

/// The model may answer with what the job asks for, at least 256 tokens and, beyond that, no
/// more than the limit.
pub proof fn law_budget_is_in_range(raw: int, max_tokens: int)
    ensures
        budget(raw, max_tokens) >= 256,
        budget(raw, max_tokens) <= 256 || budget(raw, max_tokens) <= max_tokens,
        256 <= raw <= max_tokens ==> budget(raw, max_tokens) == raw,
        256 <= max_tokens <= raw ==> budget(raw, max_tokens) == max_tokens,
        raw <= 256 || max_tokens <= 256 ==> budget(raw, max_tokens) == 256,
{
}

/// A setting is sent as it is, or not at all where it is empty.
pub proof fn law_empty_settings_are_not_sent(s: Seq<char>)
    ensures
        s.len() == 0 <==> unless_empty(s) is None,
        s.len() > 0 ==> unless_empty(s) == Some(s),
{
}

/// A status is a success exactly from 200 to 299.
pub proof fn law_which_statuses_succeed(status: u16)
    ensures
        is_success(status) <==> status / 100 == 2,
{
}

/// A listing holds a model exactly if one of its models has that name, whatever stands
/// before or behind it; one that lists nothing holds none; and where there is no listing,
/// nobody knows.
pub proof fn law_which_models_are_listed(listing: Listing, model: Seq<char>)
    ensures
        listed(listing, model) is None <==> listing is Unknown,
        listed(listing, model) == Some(true) <==> match listing {
            Listing::Models(v) => exists|i: int|
                0 <= i < v@.len() && #[trigger] opt_text(v@[i]) == Some(model),
            _ => false,
        },
{
    if let Listing::Models(v) = listing {
        if exists|i: int| 0 <= i < v@.len() && #[trigger] opt_text(v@[i]) == Some(model) {
            let i = choose|i: int| 0 <= i < v@.len() && #[trigger] opt_text(v@[i]) == Some(model);
            assert(opt_text(v@[i]) == Some(model));
            assert(lists(v@, model));
        }
    }
}

/// A listing is read model by model: as many as there are under `data`, each in its place,
/// by the string under its `id`.
pub proof fn law_listings_are_read_model_by_model(
    ms: Seq<(Seq<char>, Seq<char>)>,
    data: Seq<char>,
    items: Seq<Seq<char>>,
)
    requires
        member(ms, "data"@) == Some(data),
        shape_of(data) == Shape::Array(items),
    ensures
        match names_given(Shape::Object(ms)) {
            Names::Models(names) => names.len() == items.len() && forall|i: int|
                0 <= i < items.len() ==> #[trigger] names[i] == (match shape_of(items[i]) {
                    Shape::Object(m) => string_member(m, "id"@),
                    _ => None,
                }),
            _ => false,
        },
{
}

/// What is no listing is known as none: anything but an object, an object without `data`, and
/// one whose `data` is neither a list nor nothing; nothing under `data` lists nothing.
pub proof fn law_what_is_no_listing(ms: Seq<(Seq<char>, Seq<char>)>, shape: Shape)
    ensures
        !(shape is Object) ==> names_given(shape) == Names::Unknown,
        member(ms, "data"@) is None ==> names_given(Shape::Object(ms)) == Names::Unknown,
        match member(ms, "data"@) {
            Some(data) => {
                &&& shape_of(data) is Null ==> names_given(Shape::Object(ms)) == Names::Nothing
                &&& !(shape_of(data) is Null) && !(shape_of(data) is Array) ==> names_given(
                    Shape::Object(ms),
                ) == Names::Unknown
            },
            None => true,
        },
        names_in(None) == Names::Unknown,
        forall|bytes: Seq<u8>| #[trigger] names_in(Some(bytes)) == names_given(json_read(bytes)),
{
}

} // verus!
