//! What is left of a configuration and which one is taken, said of its keys and files.

use crate::config::{
    all_warnings, candidate_paths, first_there, kept_keys, kept_section, kept_sections, key_warning,
    key_warnings, known_keys, sanitize_warnings, sanitized, section_warnings, shown, superseded,
    Candidate, Key, Section, Tree,
};
use crate::order::{are_picked, lemma_pick_more, lemma_pick_nothing};
use crate::text::{path_in, trim};
use vstd::prelude::*;

verus! {

broadcast use vstd::string::group_string_axioms;

/// The keys that are left are exactly those that are known names, as they were and in their
/// order.
pub proof fn law_known_keys_are_left(known: Seq<Seq<char>>, keys: Seq<Key>)
    ensures
        are_picked(
            kept_keys(known, keys),
            keys,
            |k: Key| k.is_name && known.contains(k.text),
            |k: Key| k,
        ),
    decreases keys.len(),
{
    let picked = |k: Key| k.is_name && known.contains(k.text);
    let f = |k: Key| k;
    if keys.len() == 0 {
        lemma_pick_nothing(picked, f);
        assert(keys =~= Seq::<Key>::empty());
        assert(kept_keys(known, keys) =~= Seq::<Key>::empty());
    } else {
        let init = keys.drop_last();
        law_known_keys_are_left(known, init);
        assert(keys =~= init.push(keys.last()));
        lemma_pick_more(kept_keys(known, init), init, keys.last(), picked, f);
    }
}

/// There is a warning for exactly each key that is not left, in order.
pub proof fn law_each_key_that_goes_is_warned_about(
    section: Seq<char>,
    known: Seq<Seq<char>>,
    keys: Seq<Key>,
)
    ensures
        are_picked(
            key_warnings(section, known, keys),
            keys,
            |k: Key| !(k.is_name && known.contains(k.text)),
            |k: Key| key_warning(section, k),
        ),
        key_warnings(section, known, keys).len() + kept_keys(known, keys).len() == keys.len(),
    decreases keys.len(),
{
    let picked = |k: Key| !(k.is_name && known.contains(k.text));
    let f = |k: Key| key_warning(section, k);
    if keys.len() == 0 {
        lemma_pick_nothing(picked, f);
        assert(keys =~= Seq::<Key>::empty());
        assert(key_warnings(section, known, keys) =~= Seq::<Seq<char>>::empty());
    } else {
        let init = keys.drop_last();
        law_each_key_that_goes_is_warned_about(section, known, init);
        assert(keys =~= init.push(keys.last()));
        lemma_pick_more(key_warnings(section, known, init), init, keys.last(), picked, f);
    }
}

/// What is said about a key that is not left names it and its section, unless it is one of
/// the three keys of earlier versions, about which something else is said.
pub proof fn law_warnings_name_the_key(section: Seq<char>, key: Key)
    ensures
        superseded(section, key.text) is None || !key.is_name ==> key_warning(section, key)
            == "unknown config key ignored: "@ + section + "."@ + (if key.is_name {
            key.text
        } else {
            trim(key.text)
        }),
        key.is_name && superseded(section, key.text) is Some ==> key_warning(section, key) == superseded(
            section,
            key.text,
        )->0,
        superseded(section, key.text) is Some <==> (section == "local"@ && key.text == "timeout_s"@) || (
        section == "encoder"@ && key.text == "roles"@) || (section == "stats"@ && key.text
            == "encoding"@),
        superseded("local"@, "timeout_s"@) == Some(
            "local.timeout_s is ignored in v2; use encoder.llm_timeout_s"@,
        ),
        superseded("encoder"@, "roles"@) == Some(
            "encoder.roles is ignored; role policy is fixed in v2"@,
        ),
        superseded("stats"@, "encoding"@) == Some(
            "stats.encoding is ignored in v2; tokenizer is fixed to cl100k_base"@,
        ),
{
    reveal_strlit("local");
    reveal_strlit("encoder");
    reveal_strlit("stats");
    assert("local"@[0] == 'l' && "encoder"@[0] == 'e' && "stats"@[0] == 's');
    assert("unknown config key ignored: "@ + section + ("."@ + shown(key))
        =~= "unknown config key ignored: "@ + section + "."@ + shown(key));
}

/// The sections that are left are exactly those with a known name, in their order; each
/// keeps its name, and of its keys the known ones.
pub proof fn law_known_sections_are_left(v: Seq<Section>)
    ensures
        are_picked(
            kept_sections(v),
            v,
            |s: Section| s.key.is_name && known_keys(s.key.text) is Some,
            |s: Section| kept_section(s),
        ),
        forall|s: Section| (#[trigger] kept_section(s)).key == s.key,
        forall|s: Section|
            s.keys is None || known_keys(s.key.text) is None ==> #[trigger] kept_section(s) == s,
        forall|s: Section|
            s.keys is Some && known_keys(s.key.text) is Some ==> (#[trigger] kept_section(s)).keys == Some(
                kept_keys(known_keys(s.key.text)->0, s.keys->0),
            ),
    decreases v.len(),
{
    let picked = |s: Section| s.key.is_name && known_keys(s.key.text) is Some;
    let f = |s: Section| kept_section(s);
    if v.len() == 0 {
        lemma_pick_nothing(picked, f);
        assert(v =~= Seq::<Section>::empty());
        assert(kept_sections(v) =~= Seq::<Section>::empty());
    } else {
        let init = v.drop_last();
        law_known_sections_are_left(init);
        assert(v =~= init.push(v.last()));
        lemma_pick_more(kept_sections(init), init, v.last(), picked, f);
    }
}

/// What is said about sections is said of each in turn, one list after the other: of one
/// that is not left, one thing, which names it; of one that is left, what its keys call for.
pub proof fn law_sections_are_warned_about_in_turn(a: Seq<Section>, b: Seq<Section>, s: Section)
    ensures
        all_warnings(a + b) == all_warnings(a) + all_warnings(b),
        all_warnings(seq![s]) == section_warnings(s),
        !(s.key.is_name && known_keys(s.key.text) is Some) ==> section_warnings(s) == seq![
            "unknown config section ignored: "@ + (if s.key.is_name {
                s.key.text
            } else {
                trim(s.key.text)
            }),
        ],
        s.key.is_name && known_keys(s.key.text) is Some ==> (match s.keys {
            Some(keys) => section_warnings(s) == key_warnings(
                s.key.text,
                known_keys(s.key.text)->0,
                keys,
            ),
            None => section_warnings(s).len() == 0,
        }),
    decreases b.len(),
{
    let none = Seq::<Section>::empty();
    assert(seq![s].drop_last() =~= none);
    assert(all_warnings(none) =~= Seq::<Seq<char>>::empty());
    assert(seq![s].last() == s);
    if b.len() == 0 {
        assert(a + b =~= a);
        assert(all_warnings(b) =~= Seq::<Seq<char>>::empty());
    } else {
        let c = b.drop_last();
        law_sections_are_warned_about_in_turn(a, c, s);
        assert((a + b).drop_last() =~= a + c);
        assert((a + b).last() == b.last());
        assert(all_warnings(a) + all_warnings(c) + section_warnings(b.last()) =~= all_warnings(a) + (
        all_warnings(c) + section_warnings(b.last())));
    }
}

/// A file with nothing in it counts as one without sections; one that holds no sections at
/// all is left as it is, and nothing is said about either.
pub proof fn law_files_without_sections(t: Tree)
    ensures
        t is Null ==> sanitized(t) == Tree::Mapping(Seq::empty()) && sanitize_warnings(t).len() == 0,
        t is Other ==> sanitized(t) == t && sanitize_warnings(t).len() == 0,
        match t {
            Tree::Mapping(v) => sanitized(t) == Tree::Mapping(kept_sections(v)) && sanitize_warnings(t)
                == all_warnings(v),
            _ => true,
        },
{
}

/// What a configuration may say.
pub proof fn law_what_a_configuration_may_say(section: Seq<char>)
    ensures
        known_keys(section) is Some <==> seq![
            "local"@,
            "encoder"@,
            "cache"@,
            "proxy"@,
            "stats"@,
        ].contains(section),
        known_keys("local"@) == Some(
            seq![
                "base_url"@,
                "api_key"@,
                "model"@,
                "temperature"@,
                "max_tokens"@,
                "reasoning_effort"@,
                "keep_alive"@,
            ],
        ),
        known_keys("encoder"@) == Some(
            seq![
                "mode"@,
                "target_ratio"@,
                "protect_system_under_chars"@,
                "min_chars_to_compress"@,
                "rules_enabled"@,
                "llm_scope"@,
                "llm_timeout_s"@,
                "list_trim_enabled"@,
            ],
        ),
        known_keys("cache"@) == Some(
            seq!["max_entries"@, "persist"@, "path"@, "max_disk_entries"@],
        ),
        known_keys("proxy"@) == Some(
            seq![
                "host"@,
                "port"@,
                "upstream_base_url"@,
                "upstream_api_key_env"@,
                "upstream_auth_style"@,
                "pass_client_auth"@,
                "require_client_auth"@,
                "log_stats"@,
            ],
        ),
        known_keys("stats"@) == Some(seq!["usd_per_mtok_input"@]),
{
    reveal_strlit("local");
    reveal_strlit("encoder");
    reveal_strlit("cache");
    reveal_strlit("proxy");
    reveal_strlit("stats");
    assert("local"@[0] == 'l' && "encoder"@[0] == 'e' && "cache"@[0] == 'c' && "proxy"@[0] == 'p'
        && "stats"@[0] == 's');
    let all = seq!["local"@, "encoder"@, "cache"@, "proxy"@, "stats"@];
    assert(all[0] == "local"@ && all[1] == "encoder"@ && all[2] == "cache"@ && all[3] == "proxy"@ && all[4]
        == "stats"@);
}

/// Candidate `i` is there, and none before it is.
pub open spec fn is_first_there(candidates: Seq<Candidate>, i: int) -> bool {
    0 <= i < candidates.len() && candidates[i].exists && forall|j: int|
        0 <= j < i ==> !(#[trigger] candidates[j]).exists
}

/// The file that is taken is the first candidate that is there, and there is none only if
/// no candidate is.
pub proof fn law_the_first_file_there_is_taken(candidates: Seq<Candidate>)
    ensures
        match first_there(candidates) {
            Some(path) => exists|i: int| #[trigger]
                is_first_there(candidates, i) && path == candidates[i].path@,
            None => forall|i: int| 0 <= i < candidates.len() ==> !(#[trigger] candidates[i]).exists,
        },
    decreases candidates.len(),
{
    if candidates.len() > 0 {
        let rest = candidates.skip(1);
        law_the_first_file_there_is_taken(rest);
        if candidates[0].exists {
            assert(is_first_there(candidates, 0));
        } else {
            match first_there(rest) {
                Some(path) => {
                    let i = choose|i: int| #[trigger] is_first_there(rest, i) && path == rest[i].path@;
                    assert forall|j: int| 0 <= j < i + 1 implies !(#[trigger] candidates[j]).exists by {
                        if j > 0 {
                            assert(rest[j - 1] == candidates[j]);
                        }
                    }
                    assert(is_first_there(candidates, i + 1));
                },
                None => {
                    assert forall|i: int| 0 <= i < candidates.len() implies !(#[trigger] candidates[i]).exists by {
                        if i > 0 {
                            assert(rest[i - 1] == candidates[i]);
                        }
                    }
                },
            }
        }
    }
}

/// Where configurations are looked for: where the environment says comes first, and counts
/// exactly as it is given; then the working directory; then the home directory.
pub proof fn law_where_configurations_are_looked_for(env: Option<Seq<char>>, home: Option<Seq<char>>)
    ensures
        env is Some ==> candidate_paths(env, home)[0] == env->0 && candidate_paths(env, home)[1]
            == "config.yaml"@,
        env is None ==> candidate_paths(env, home)[0] == "config.yaml"@,
        home is Some ==> candidate_paths(env, home).last() == path_in(
            home->0,
            ".config/prompt-codec/config.yaml"@,
        ),
        candidate_paths(env, home).len() == 1 + (if env is Some {
            1int
        } else {
            0
        }) + (if home is Some {
            1int
        } else {
            0
        }),
{
}

} // verus!
