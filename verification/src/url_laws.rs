//! What is done to addresses and hosts, said of the pieces that they are made of.

use crate::config::ProxyConfig;
use crate::decimal::{all_digits, is_digit};
use crate::proxy::{
    asked_host, first_of, fits_header, hop_by_hop, host_of, is_key_auth, is_loopback, is_port, lower,
    lowered, occurrences, passes_guard, refusal_kind, refusal_message, refusal_status, AuthDecision,
    Refusal,
};
use crate::codec::front;
use crate::llm_laws::{is_framed, lemma_core_is_trim};
use crate::rules_meaning::{all_white, law_trim_takes_white_space_off_the_ends};
use crate::text::{is_white, trim};
use crate::url::{
    ends_with, forwarded, joined, starts_with, without_endings, without_leading, without_trailing,
};
use vstd::prelude::*;

verus! {

broadcast use vstd::string::group_string_axioms;

// --- Addresses -----------------------------------------------------------------

/// Nothing but `c`, any number of times.
pub open spec fn all_are(s: Seq<char>, c: char) -> bool {
    forall|i: int| 0 <= i < s.len() ==> #[trigger] s[i] == c
}

/// What is left without the characters `c` at the end is what stands before them, all of it.
pub proof fn law_trailing_characters_go(s: Seq<char>, c: char, more: Seq<char>)
    requires
        s.len() > 0 ==> s.last() != c,
        all_are(more, c),
    ensures
        without_trailing(s + more, c) == s,
    decreases more.len(),
{
    if more.len() > 0 {
        let fewer = more.drop_last();
        assert forall|i: int| 0 <= i < fewer.len() implies #[trigger] fewer[i] == c by {
            assert(fewer[i] == more[i]);
        }
        law_trailing_characters_go(s, c, fewer);
        assert((s + more).drop_last() =~= s + fewer);
        assert((s + more).last() == more[more.len() - 1]);
    } else {
        assert(s + more =~= s);
    }
}

/// What is left without the characters `c` at the front is what stands behind them, all of
/// it.
pub proof fn law_leading_characters_go(more: Seq<char>, s: Seq<char>, c: char)
    requires
        s.len() > 0 ==> s[0] != c,
        all_are(more, c),
    ensures
        without_leading(more + s, c) == s,
    decreases more.len(),
{
    if more.len() > 0 {
        let fewer = more.skip(1);
        assert forall|i: int| 0 <= i < fewer.len() implies #[trigger] fewer[i] == c by {
            assert(fewer[i] == more[i + 1]);
        }
        law_leading_characters_go(fewer, s, c);
        assert((more + s).skip(1) =~= fewer + s);
        assert((more + s)[0] == more[0]);
    } else {
        assert(more + s =~= s);
    }
}

/// An ending is taken off as often as it stands at the end, and nothing else is.
pub proof fn law_endings_go(s: Seq<char>, end: Seq<char>)
    requires
        end.len() > 0,
    ensures
        without_endings(s + end, end) == without_endings(s, end),
        !ends_with(s, end) ==> without_endings(s, end) == s,
        ends_with(s, end) <==> exists|before: Seq<char>| s == #[trigger] (before + end),
        starts_with(s, end) <==> exists|after: Seq<char>| s == #[trigger] (end + after),
{
    let whole = s + end;
    assert(whole.skip(whole.len() - end.len()) =~= end);
    assert(whole.take(whole.len() - end.len()) =~= s);
    if ends_with(s, end) {
        let before = s.take(s.len() - end.len());
        assert(s =~= before + end);
    }
    if exists|before: Seq<char>| s == #[trigger] (before + end) {
        let before = choose|before: Seq<char>| s == #[trigger] (before + end);
        assert(s.skip(s.len() - end.len()) =~= end);
    }
    if starts_with(s, end) {
        let after = s.skip(end.len() as int);
        assert(s =~= end + after);
    }
    if exists|after: Seq<char>| s == #[trigger] (end + after) {
        let after = choose|after: Seq<char>| s == #[trigger] (end + after);
        assert(s.take(end.len() as int) =~= end);
    }
}

/// A base and a path are put together with exactly one slash between them, however many
/// there were, and all the rest of both is kept.
pub proof fn law_one_slash_between(base: Seq<char>, path: Seq<char>, some: Seq<char>, more: Seq<char>)
    requires
        base.len() > 0 ==> base.last() != '/',
        path.len() > 0 ==> path[0] != '/',
        all_are(some, '/'),
        all_are(more, '/'),
    ensures
        joined(base + some, more + path) == base + seq!['/'] + path,
{
    reveal_strlit("/");
    assert("/"@ =~= seq!['/']);
    law_trailing_characters_go(base, '/', some);
    law_leading_characters_go(more, path, '/');
}

/// A request goes to what stands behind `/v1` in its path, below the base, or to its whole
/// path where that does not start with it; its query goes along, all of it, behind a
/// question mark.
pub proof fn law_requests_are_forwarded(
    base: Seq<char>,
    path: Seq<char>,
    some: Seq<char>,
    more: Seq<char>,
    query: Seq<char>,
)
    requires
        base.len() > 0 ==> base.last() != '/',
        path.len() > 0 ==> path[0] != '/',
        all_are(some, '/'),
        all_are(more, '/'),
    ensures
        forwarded(base + some, seq!['/', 'v', '1'] + (more + path), None) == base + seq!['/'] + path,
        forwarded(base + some, seq!['/', 'v', '1'] + (more + path), Some(query)) == base + seq!['/'] + path
            + seq!['?'] + query,
        !starts_with(more + path, seq!['/', 'v', '1']) ==> forwarded(base + some, more + path, None)
            == base + seq!['/'] + path && forwarded(base + some, more + path, Some(query)) == base
            + seq!['/'] + path + seq!['?'] + query,
{
    reveal_strlit("/v1");
    reveal_strlit("?");
    assert("/v1"@ =~= seq!['/', 'v', '1']);
    assert("?"@ =~= seq!['?']);
    law_one_slash_between(base, path, some, more);
    let whole = seq!['/', 'v', '1'] + (more + path);
    assert(whole.take(3) =~= seq!['/', 'v', '1']);
    assert(whole.skip(3) =~= more + path);
}

// --- Hosts ---------------------------------------------------------------------

/// The white space around a host is nothing to it.
pub proof fn law_white_space_around_a_host_goes(
    before: Seq<char>,
    h: Seq<char>,
    after: Seq<char>,
)
    requires
        all_white(before),
        all_white(after),
        h.len() > 0,
        !is_white(h[0]),
        !is_white(h.last()),
    ensures
        host_of(before + h + after) == host_of(h),
        trim(h) == h,
{
    assert(is_framed(before, h, after, before + h + after));
    lemma_core_is_trim(h, before + h + after);
    let none = Seq::<char>::empty();
    assert(none + h + none =~= h);
    assert(is_framed(none, h, none, h));
    lemma_core_is_trim(h, h);
}

proof fn lemma_first_of(a: Seq<char>, c: char, b: Seq<char>)
    requires
        !a.contains(c),
        b.len() > 0 ==> b[0] == c,
    ensures
        first_of(a + b, c) == a.len(),
    decreases a.len(),
{
    if a.len() > 0 {
        let rest = a.skip(1);
        assert(a[0] != c);
        if rest.contains(c) {
            let j = choose|j: int| 0 <= j < rest.len() && rest[j] == c;
            assert(a[j + 1] == c);
        }
        lemma_first_of(rest, c, b);
        assert((a + b).skip(1) =~= rest + b);
        assert((a + b)[0] == a[0]);
    } else {
        assert(a + b =~= b);
    }
}

proof fn lemma_occurrences(s: Seq<char>, c: char)
    ensures
        occurrences(s, c) == 0 <==> !s.contains(c),
        occurrences(s, c) >= 2 <==> exists|i: int, j: int|
            0 <= i < j < s.len() && #[trigger] s[i] == c && #[trigger] s[j] == c,
    decreases s.len(),
{
    if s.len() > 0 {
        let init = s.drop_last();
        let n = s.len() - 1;
        lemma_occurrences(init, c);
        if init.contains(c) {
            let i = choose|i: int| 0 <= i < init.len() && init[i] == c;
            assert(s[i] == c);
            if s.last() == c {
                assert(s[n] == c);
            }
        }
        if s.contains(c) {
            let i = choose|i: int| 0 <= i < s.len() && s[i] == c;
            if i < n {
                assert(init[i] == c);
            }
        }
        if s.last() == c {
            assert(s[n] == c);
        }
        if occurrences(init, c) >= 2 {
            let (i, j) = choose|i: int, j: int|
                0 <= i < j < init.len() && #[trigger] init[i] == c && #[trigger] init[j] == c;
            assert(s[i] == c && s[j] == c);
        }
        if exists|i: int, j: int|
            0 <= i < j < s.len() && #[trigger] s[i] == c && #[trigger] s[j] == c {
            let (i, j) = choose|i: int, j: int|
                0 <= i < j < s.len() && #[trigger] s[i] == c && #[trigger] s[j] == c;
            assert(init[i] == c);
            if j < n {
                assert(init[j] == c);
            }
        }
    }
}

/// A host in brackets is what stands between them, whatever follows.
pub proof fn law_hosts_in_brackets(inner: Seq<char>, rest: Seq<char>)
    requires
        !inner.contains(']'),
        rest.len() > 0 ==> rest[0] == ']' && !is_white(rest.last()),
        rest.len() == 0 && inner.len() > 0 ==> !is_white(inner.last()),
    ensures
        host_of(seq!['['] + inner + rest) == inner,
{
    let h = seq!['['] + inner + rest;
    assert(h[0] == '[');
    let last = h.last();
    if rest.len() > 0 {
        assert(last == rest.last());
    } else if inner.len() > 0 {
        assert(last == inner.last());
    } else {
        assert(last == '[');
    }
    let none = Seq::<char>::empty();
    law_white_space_around_a_host_goes(none, h, none);
    assert(h.skip(1) =~= inner + rest);
    lemma_first_of(inner, ']', rest);
    assert((inner + rest).take(inner.len() as int) =~= inner);
}

/// A host with two colons or more is all of it.
pub proof fn law_hosts_with_colons(h: Seq<char>, i: int, j: int)
    requires
        h.len() > 0,
        !is_white(h[0]),
        !is_white(h.last()),
        h[0] != '[',
        0 <= i < j < h.len(),
        h[i] == ':',
        h[j] == ':',
    ensures
        host_of(h) == h,
{
    let none = Seq::<char>::empty();
    law_white_space_around_a_host_goes(none, h, none);
    lemma_occurrences(h, ':');
}

/// A host without a colon is all of it. With one, it is what stands before the colon if a
/// port follows it, and all of it if anything else does.
pub proof fn law_hosts_and_ports(name: Seq<char>, port: Seq<char>)
    requires
        name.len() > 0,
        !name.contains(':'),
        !port.contains(':'),
        name[0] != '[',
        !is_white(name[0]),
        port.len() > 0 ==> !is_white(port.last()),
    ensures
        !is_white(name.last()) ==> host_of(name) == name,
        all_digits(port) ==> host_of(name + seq![':'] + port) == name,
        !all_digits(port) ==> host_of(name + seq![':'] + port) == name + seq![':'] + port,
{
    let none = Seq::<char>::empty();
    if !is_white(name.last()) {
        law_white_space_around_a_host_goes(none, name, none);
    }
    lemma_occurrences(name, ':');
    lemma_first_of(name, ':', none);
    assert(name + none =~= name);
    let tail = seq![':'] + port;
    let h = name + seq![':'] + port;
    assert(h =~= name + tail);
    assert(h[0] == name[0]);
    if port.len() > 0 {
        assert(h.last() == port.last());
    } else {
        assert(h.last() == ':');
    }
    law_white_space_around_a_host_goes(none, h, none);
    lemma_first_of(name, ':', tail);
    lemma_occurrences(h, ':');
    if occurrences(h, ':') >= 2 {
        let (i, j) = choose|i: int, j: int|
            0 <= i < j < h.len() && #[trigger] h[i] == ':' && #[trigger] h[j] == ':';
        let k = name.len() as int;
        if i < k {
            assert(name[i] == ':');
        } else {
            assert(port[j - k - 1] == ':');
        }
    }
    assert(h.skip(name.len() as int + 1) =~= port);
    assert(h.take(name.len() as int) =~= name);
    if all_digits(port) {
        assert forall|i: int| 0 <= i < port.len() implies '0' <= #[trigger] port[i] <= '9' by {
            assert(is_digit(port[i]));
        }
    }
    if is_port(port) {
        assert forall|i: int| 0 <= i < port.len() implies is_digit(#[trigger] port[i]) by {
            assert('0' <= port[i] <= '9');
        }
    }
}

/// Lower case changes the ASCII capitals and nothing else, each in its place.
pub proof fn law_lower_case(s: Seq<char>, i: int)
    requires
        0 <= i < s.len(),
    ensures
        lowered(s).len() == s.len(),
        65 <= (s[i] as u32) <= 90 ==> lowered(s)[i] as u32 == s[i] as u32 + 32,
        !(65 <= (s[i] as u32) <= 90) ==> lowered(s)[i] == s[i],
        lowered(lowered(s)) == lowered(s),
{
    assert forall|j: int| 0 <= j < s.len() implies lowered(lowered(s))[j] == lowered(s)[j] by {
        assert(lowered(s)[j] == lower(s[j]));
    }
    assert(lowered(lowered(s)) =~= lowered(s));
}

/// The machine itself goes by three names, in capitals or not.
pub proof fn law_names_of_this_machine(host: Seq<char>)
    ensures
        is_loopback(host) <==> lowered(host) == seq![
            'l',
            'o',
            'c',
            'a',
            'l',
            'h',
            'o',
            's',
            't',
        ] || lowered(host) == seq!['1', '2', '7', '.', '0', '.', '0', '.', '1'] || lowered(host) == seq![
            ':',
            ':',
            '1',
        ],
{
    reveal_strlit("localhost");
    reveal_strlit("127.0.0.1");
    reveal_strlit("::1");
    assert("localhost"@ =~= seq!['l', 'o', 'c', 'a', 'l', 'h', 'o', 's', 't']);
    assert("127.0.0.1"@ =~= seq!['1', '2', '7', '.', '0', '.', '0', '.', '1']);
    assert("::1"@ =~= seq![':', ':', '1']);
}

/// Whom the guard lets through: bound to other machines too, everyone; bound to this one
/// alone, exactly the requests for this machine and those that do not say whom they are for.
/// A `Host` header counts before the authority.
pub proof fn law_whom_the_guard_lets_through(
    bound_to: Seq<char>,
    header: Option<Seq<char>>,
    authority: Option<Seq<char>>,
)
    ensures
        !is_loopback(host_of(bound_to)) ==> passes_guard(bound_to, asked_host(header, authority)),
        is_loopback(host_of(bound_to)) ==> (passes_guard(bound_to, asked_host(header, authority)) <==> (
        match header {
            Some(h) => is_loopback(host_of(h)),
            None => match authority {
                Some(a) => is_loopback(host_of(a)),
                None => true,
            },
        })),
        header is Some ==> asked_host(header, authority) == Some(host_of(header->0)),
        header is None && authority is Some ==> asked_host(header, authority) == Some(
            host_of(authority->0),
        ),
        header is None && authority is None ==> asked_host(header, authority) is None,
{
}

// --- Answers -------------------------------------------------------------------

/// How each refusal is answered: with a status of the client's making, but for an upstream
/// that cannot be reached, and with words of its own.
pub proof fn law_how_refusals_are_answered(r: Refusal)
    ensures
        refusal_status(r) == 502 <==> r is Upstream,
        refusal_status(r) == 403 <==> r is ForeignHost,
        refusal_status(r) == 401 <==> r is NoClientAuth,
        refusal_status(r) == 400 <==> !(r is Upstream || r is ForeignHost || r is NoClientAuth),
        match r {
            Refusal::ForeignHost => refusal_kind(r) == "forbidden"@ && refusal_message(r)
                == "host header not permitted"@,
            Refusal::NoClientAuth => refusal_kind(r) == "authentication_error"@ && refusal_message(r)
                == "client authentication required"@,
            Refusal::Upstream(e) => refusal_kind(r) == "upstream_error"@ && refusal_message(
                r,
            ).is_prefix_of(e@) && refusal_message(r).len() == if e@.len() <= 200 {
                e@.len()
            } else {
                200
            },
            Refusal::UnreadableBody => refusal_kind(r) == "invalid_request_error"@ && refusal_message(r)
                == "failed to read request body"@,
            Refusal::InvalidJson => refusal_kind(r) == "invalid_request_error"@ && refusal_message(r)
                == "invalid JSON body"@,
            Refusal::NoMessages => refusal_kind(r) == "invalid_request_error"@ && refusal_message(r)
                == "messages required"@,
            Refusal::InvalidBody => refusal_kind(r) == "invalid_request_error"@ && refusal_message(r)
                == "invalid request body"@,
        },
{
}

/// The key from the environment goes upstream whole or not at all: in the style that is
/// configured, and only where there is none, or it does not fit a header, not at all.
pub proof fn law_the_key_goes_upstream_whole(cfg: ProxyConfig, key: Seq<char>, d: AuthDecision)
    requires
        is_key_auth(cfg, key, d),
    ensures
        match d {
            AuthDecision::ApiKey(sent) => sent@ == key && key.len() > 0 && cfg.upstream_auth_style@
                == "x_api_key"@,
            AuthDecision::Bearer(sent) => sent@ == "Bearer "@ + key && key.len() > 0
                && cfg.upstream_auth_style@ != "x_api_key"@,
            AuthDecision::Nothing => key.len() == 0 || (cfg.upstream_auth_style@ == "x_api_key"@
                && !fits_header(key)) || (cfg.upstream_auth_style@ != "x_api_key"@ && !fits_header(
                "Bearer "@ + key,
            )),
            _ => false,
        },
{
}

/// Three headers belong to the connection, and are not passed on; all others are.
pub proof fn law_headers_of_the_connection(name: Seq<char>)
    ensures
        hop_by_hop(name) <==> seq!["transfer-encoding"@, "connection"@, "content-length"@].contains(name),
{
    let all = seq!["transfer-encoding"@, "connection"@, "content-length"@];
    assert(all[0] == "transfer-encoding"@ && all[1] == "connection"@ && all[2] == "content-length"@);
}

/// Nothing, or white space alone, is no host; and neither is a port alone.
pub proof fn law_no_host(blank: Seq<char>, port: Seq<char>)
    requires
        all_white(blank),
        all_digits(port),
    ensures
        host_of(blank) == Seq::<char>::empty(),
        host_of(seq![':'] + port) == Seq::<char>::empty(),
{
    law_trim_takes_white_space_off_the_ends(blank);
    assert(trim(blank) =~= Seq::<char>::empty());
    let none = Seq::<char>::empty();
    let h = seq![':'] + port;
    assert(is_digit(port[port.len() - 1]));
    assert(h.last() == port.last());
    law_white_space_around_a_host_goes(none, h, none);
    lemma_first_of(none, ':', h);
    assert(none + h =~= h);
    assert(h.skip(1) =~= port);
    lemma_occurrences(h, ':');
    if occurrences(h, ':') >= 2 {
        let (i, j) = choose|i: int, j: int|
            0 <= i < j < h.len() && #[trigger] h[i] == ':' && #[trigger] h[j] == ':';
        assert(is_digit(port[j - 1]));
        assert(h[j] == port[j - 1]);
    }
    assert forall|i: int| 0 <= i < port.len() implies '0' <= #[trigger] port[i] <= '9' by {
        assert(is_digit(port[i]));
    }
    assert(h.take(0) =~= none);
}

} // verus!
