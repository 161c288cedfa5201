//! The proxy's decisions: whom it answers, what it sends on, and how it refuses.

use crate::codec::{front, truncate_chars};
use crate::config::ProxyConfig;
use crate::decimal::{decimal, decimal_text};
use crate::outside::{header_byte, is_header_value};
use crate::stats::TokenStats;
use crate::text::{chars_of, join2, opt_str, opt_text, same_text, string_of, trim, trimmed};
use vstd::prelude::*;
use vstd::slice::slice_subrange;
use vstd::utf8::encode_utf8;

verus! {

broadcast use vstd::string::group_string_axioms;

// --- Hosts ---------------------------------------------------------------------

/// Where the first `c` of `s` is, or its length if there is none.
pub open spec fn first_of(s: Seq<char>, c: char) -> nat
    decreases s.len(),
{
    if s.len() == 0 || s[0] == c {
        0
    } else {
        1 + first_of(s.skip(1), c)
    }
}

/// How often `c` occurs in `s`.
pub open spec fn occurrences(s: Seq<char>, c: char) -> nat
    decreases s.len(),
{
    if s.len() == 0 {
        0
    } else {
        occurrences(s.drop_last(), c) + if s.last() == c {
            1nat
        } else {
            0
        }
    }
}

/// A port: digits, and at least one.
pub open spec fn is_port(s: Seq<char>) -> bool {
    s.len() > 0 && forall|i: int| 0 <= i < s.len() ==> '0' <= #[trigger] s[i] <= '9'
}

/// The host in a `Host` header or an authority, without port and brackets: what
/// stands in brackets, or all of it if there are two colons or more, or what stands
/// before the colon if a port follows it.
pub open spec fn host_of(raw: Seq<char>) -> Seq<char> {
    let h = trim(raw);
    let colon = first_of(h, ':') as int;
    if h.len() > 0 && h[0] == '[' {
        h.skip(1).take(first_of(h.skip(1), ']') as int)
    } else if occurrences(h, ':') >= 2 {
        h
    } else if colon < h.len() && is_port(h.skip(colon + 1)) {
        h.take(colon)
    } else {
        h
    }
}

fn find(v: &[char], c: char) -> (k: usize)
    ensures
        k == first_of(v@, c),
        k <= v@.len(),
{
    let mut k: usize = 0;
    assert(v@.skip(0) == v@);
    while k < v.len() && v[k] != c
        invariant
            k <= v@.len(),
            k + first_of(v@.skip(k as int), c) == first_of(v@, c),
        decreases v@.len() - k,
    {
        assert(v@.skip(k as int).skip(1) == v@.skip(k + 1));
        k = k + 1;
    }
    k
}

fn count(v: &[char], c: char) -> (n: usize)
    ensures
        n == occurrences(v@, c),
{
    let mut n: usize = 0;
    let mut i: usize = 0;
    while i < v.len()
        invariant
            n <= i <= v@.len(),
            n == occurrences(v@.take(i as int), c),
        decreases v@.len() - i,
    {
        assert(v@.take(i + 1).drop_last() == v@.take(i as int));
        if v[i] == c {
            n = n + 1;
        }
        i = i + 1;
    }
    assert(v@.take(v@.len() as int) == v@);
    n
}

fn port(v: &[char]) -> (r: bool)
    ensures
        r == is_port(v@),
{
    let mut i: usize = 0;
    while i < v.len()
        invariant
            i <= v@.len(),
            forall|j: int| 0 <= j < i ==> '0' <= #[trigger] v@[j] <= '9',
        decreases v@.len() - i,
    {
        if v[i] < '0' || v[i] > '9' {
            assert(!('0' <= v@[i as int] <= '9'));
            return false;
        }
        i = i + 1;
    }
    v.len() > 0
}

/// The host in a `Host` header or an authority, without port and brackets.
pub fn normalize_host(raw: &str) -> (r: String)
    ensures
        r@ == host_of(raw@),
{
    let v: Vec<char> = chars_of(raw);
    let h: &[char] = trimmed(v.as_slice());
    if h.len() > 0 && h[0] == '[' {
        let rest: &[char] = slice_subrange(h, 1, h.len());
        let k: usize = find(rest, ']');
        let inner: &[char] = slice_subrange(rest, 0, k);
        proof {
            assert(rest@ == h@.skip(1));
            assert(inner@ == rest@.take(k as int));
        }
        return string_of(inner);
    }
    if count(h, ':') >= 2 {
        return string_of(h);
    }
    let k: usize = find(h, ':');
    if k < h.len() {
        let tail: &[char] = slice_subrange(h, k + 1, h.len());
        assert(tail@ == h@.skip(k + 1));
        if port(tail) {
            let host: &[char] = slice_subrange(h, 0, k);
            assert(host@ == h@.take(k as int));
            return string_of(host);
        }
    }
    string_of(h)
}

/// An ASCII letter in lower case, anything else as it is.
pub open spec fn lower(c: char) -> char {
    if 'A' <= c <= 'Z' {
        ((c as u8) + 32) as u8 as char
    } else {
        c
    }
}

/// `s` with its ASCII letters in lower case.
pub open spec fn lowered(s: Seq<char>) -> Seq<char> {
    s.map_values(|c: char| lower(c))
}

/// `s` with its ASCII letters in lower case.
pub fn ascii_lowercase(s: &str) -> (r: String)
    ensures
        r@ == lowered(s@),
{
    let v: Vec<char> = chars_of(s);
    let mut out: Vec<char> = Vec::new();
    let mut i: usize = 0;
    while i < v.len()
        invariant
            i <= v@.len(),
            out@.len() == i,
            forall|j: int| 0 <= j < i ==> #[trigger] out@[j] == lower(v@[j]),
        decreases v@.len() - i,
    {
        let c: char = v[i];
        if 'A' <= c && c <= 'Z' {
            out.push(((c as u8) + 32) as char);
        } else {
            out.push(c);
        }
        i = i + 1;
    }
    assert(out@ == lowered(v@));
    string_of(out.as_slice())
}

/// A host that is this machine itself.
pub open spec fn is_loopback(host: Seq<char>) -> bool {
    lowered(host) == "localhost"@ || lowered(host) == "127.0.0.1"@ || lowered(host) == "::1"@
}

/// Whether a host, without port and brackets, is this machine itself.
pub fn is_loopback_name(host: &str) -> (r: bool)
    ensures
        r == is_loopback(host@),
{
    let h: String = ascii_lowercase(host);
    same_text(h.as_str(), "localhost") || same_text(h.as_str(), "127.0.0.1") || same_text(
        h.as_str(),
        "::1",
    )
}

/// Whether the proxy is bound to this machine alone.
pub fn cfg_host_is_loopback(host: &str) -> (r: bool)
    ensures
        r == is_loopback(host_of(host@)),
{
    let h: String = normalize_host(host);
    is_loopback_name(h.as_str())
}

/// The host that a request is for: what its `Host` header says, if that can be read,
/// or else its authority.
pub open spec fn asked_host(header: Option<Seq<char>>, authority: Option<Seq<char>>) -> Option<
    Seq<char>,
> {
    match (header, authority) {
        (Some(h), _) => Some(host_of(h)),
        (None, Some(a)) => Some(host_of(a)),
        (None, None) => None,
    }
}

/// The host that a request is for.
pub fn request_host(header: Option<&str>, authority: Option<&str>) -> (r: Option<String>)
    ensures
        opt_text(r) == asked_host(opt_str(header), opt_str(authority)),
{
    match header {
        Some(h) => Some(normalize_host(h)),
        None => match authority {
            Some(a) => Some(normalize_host(a)),
            None => None,
        },
    }
}

/// A request gets past the guard: the proxy is open to other machines, or the request
/// does not say what host it is for, or it is for this machine.
pub open spec fn passes_guard(bound_to: Seq<char>, host: Option<Seq<char>>) -> bool {
    !is_loopback(host_of(bound_to)) || match host {
        Some(h) => is_loopback(h),
        None => true,
    }
}

/// Whether a request gets past the guard.
pub fn host_guard(bound_to: &str, header: Option<&str>, authority: Option<&str>) -> (r: bool)
    ensures
        r == passes_guard(bound_to@, asked_host(opt_str(header), opt_str(authority))),
{
    if !cfg_host_is_loopback(bound_to) {
        return true;
    }
    match request_host(header, authority) {
        Some(h) => is_loopback_name(h.as_str()),
        None => true,
    }
}

/// Bound to this machine, the proxy answers no request whose `Host` header names
/// another one.
pub proof fn law_other_hosts_are_refused(
    bound_to: Seq<char>,
    header: Seq<char>,
    authority: Option<Seq<char>>,
)
    requires
        is_loopback(host_of(bound_to)),
        !is_loopback(host_of(header)),
    ensures
        !passes_guard(bound_to, asked_host(Some(header), authority)),
{
}

// --- Refusals ------------------------------------------------------------------

/// Why the proxy does not hand back a reply from upstream.
#[derive(Debug)]
pub enum Refusal {
    /// The request is for another host.
    ForeignHost,
    /// The client has to authenticate, and did not.
    NoClientAuth,
    /// The body cannot be read.
    UnreadableBody,
    /// The body of a chat request is not JSON.
    InvalidJson,
    /// A chat request has no messages.
    NoMessages,
    /// The body of a completion request is not JSON.
    InvalidBody,
    /// Upstream cannot be reached; the error says why.
    Upstream(String),
}

/// The answer to a request that is refused.
#[derive(Debug)]
pub struct ErrorReply {
    pub status: u16,
    pub kind: String,
    pub message: String,
}

/// The status of a refusal.
pub open spec fn refusal_status(r: Refusal) -> u16 {
    match r {
        Refusal::ForeignHost => 403,
        Refusal::NoClientAuth => 401,
        Refusal::Upstream(_) => 502,
        _ => 400,
    }
}

/// The type of a refusal.
pub open spec fn refusal_kind(r: Refusal) -> Seq<char> {
    match r {
        Refusal::ForeignHost => "forbidden"@,
        Refusal::NoClientAuth => "authentication_error"@,
        Refusal::Upstream(_) => "upstream_error"@,
        _ => "invalid_request_error"@,
    }
}

/// What a refusal says. Of an error of upstream's, no more than 200 characters.
pub open spec fn refusal_message(r: Refusal) -> Seq<char> {
    match r {
        Refusal::ForeignHost => "host header not permitted"@,
        Refusal::NoClientAuth => "client authentication required"@,
        Refusal::UnreadableBody => "failed to read request body"@,
        Refusal::InvalidJson => "invalid JSON body"@,
        Refusal::NoMessages => "messages required"@,
        Refusal::InvalidBody => "invalid request body"@,
        Refusal::Upstream(e) => front(e@, 200),
    }
}

/// The answer to a request that is refused.
pub fn error_response(refusal: &Refusal) -> (r: ErrorReply)
    ensures
        r.status == refusal_status(*refusal),
        r.kind@ == refusal_kind(*refusal),
        r.message@ == refusal_message(*refusal),
{
    let (status, kind, message): (u16, &str, String) = match refusal {
        Refusal::ForeignHost => (403, "forbidden", "host header not permitted".to_owned()),
        Refusal::NoClientAuth => (
            401,
            "authentication_error",
            "client authentication required".to_owned(),
        ),
        Refusal::UnreadableBody => (
            400,
            "invalid_request_error",
            "failed to read request body".to_owned(),
        ),
        Refusal::InvalidJson => (400, "invalid_request_error", "invalid JSON body".to_owned()),
        Refusal::NoMessages => (400, "invalid_request_error", "messages required".to_owned()),
        Refusal::InvalidBody => (400, "invalid_request_error", "invalid request body".to_owned()),
        Refusal::Upstream(e) => (502, "upstream_error", truncate_chars(e.as_str(), 200)),
    };
    ErrorReply { status, kind: kind.to_owned(), message }
}

// --- Authentication ------------------------------------------------------------

/// What goes upstream to authenticate a request.
#[derive(Debug)]
pub enum AuthDecision {
    /// Nothing goes upstream: the request is refused.
    Reject,
    /// What the client sent.
    Client,
    /// This `Authorization` header.
    Bearer(String),
    /// This `x-api-key` header.
    ApiKey(String),
    /// Nothing.
    Nothing,
}

/// A text can be the value of a header.
pub open spec fn fits_header(s: Seq<char>) -> bool {
    forall|i: int|
        0 <= i < encode_utf8(s).len() ==> header_byte(#[trigger] encode_utf8(s)[i])
}

/// What goes upstream in place of the client's own authentication: the key from the
/// environment, in the configured style, if there is one that fits a header.
pub open spec fn is_key_auth(cfg: ProxyConfig, env_key: Seq<char>, d: AuthDecision) -> bool {
    let bearer = "Bearer "@ + env_key;
    if env_key.len() == 0 {
        d == AuthDecision::Nothing
    } else if cfg.upstream_auth_style@ == "x_api_key"@ {
        if fits_header(env_key) {
            d matches AuthDecision::ApiKey(k) && k@ == env_key
        } else {
            d == AuthDecision::Nothing
        }
    } else if fits_header(bearer) {
        d matches AuthDecision::Bearer(k) && k@ == bearer
    } else {
        d == AuthDecision::Nothing
    }
}

/// What goes upstream to authenticate a request: nothing if the client had to
/// authenticate and did not; what the client sent, if that is passed on; the key from
/// the environment otherwise.
pub fn resolve_auth(cfg: &ProxyConfig, client_sent: bool, env_key: &str) -> (r: AuthDecision)
    ensures
        if cfg.require_client_auth && !client_sent {
            r == AuthDecision::Reject
        } else if cfg.pass_client_auth && client_sent {
            r == AuthDecision::Client
        } else {
            is_key_auth(*cfg, env_key@, r)
        },
{
    if cfg.require_client_auth && !client_sent {
        return AuthDecision::Reject;
    }
    if cfg.pass_client_auth && client_sent {
        return AuthDecision::Client;
    }
    if env_key.is_empty() {
        return AuthDecision::Nothing;
    }
    if same_text(cfg.upstream_auth_style.as_str(), "x_api_key") {
        if is_header_value(env_key) {
            return AuthDecision::ApiKey(env_key.to_owned());
        }
        return AuthDecision::Nothing;
    }
    let bearer: String = join2("Bearer ", env_key);
    if is_header_value(bearer.as_str()) {
        AuthDecision::Bearer(bearer)
    } else {
        AuthDecision::Nothing
    }
}

// --- Headers -------------------------------------------------------------------

/// A header of the connection itself, which is not passed on.
pub open spec fn hop_by_hop(name: Seq<char>) -> bool {
    name == "transfer-encoding"@ || name == "connection"@ || name == "content-length"@
}

/// Whether a header, its name in lower case, is one of the connection itself.
pub fn is_hop_by_hop(name: &str) -> (r: bool)
    ensures
        r == hop_by_hop(name@),
{
    same_text(name, "transfer-encoding") || same_text(name, "connection") || same_text(
        name,
        "content-length",
    )
}

/// What a list of headers holds.
pub open spec fn header_texts(v: Seq<(String, String)>) -> Seq<(Seq<char>, Seq<char>)> {
    v.map_values(|h: (String, String)| (h.0@, h.1@))
}

/// The headers that tell a client what compression did; `saved_pct` is the saving in
/// percent.
pub fn stat_headers(stats: &TokenStats, saved_pct: &str) -> (r: Vec<(String, String)>)
    ensures
        header_texts(r@) == seq![
            ("x-prompt-codec-before"@, decimal(stats.before_tokens as nat)),
            ("x-prompt-codec-after"@, decimal(stats.after_tokens as nat)),
            ("x-prompt-codec-saved-pct"@, saved_pct@),
        ],
{
    let mut out: Vec<(String, String)> = Vec::new();
    out.push(("x-prompt-codec-before".to_owned(), decimal_text(stats.before_tokens)));
    out.push(("x-prompt-codec-after".to_owned(), decimal_text(stats.after_tokens)));
    out.push(("x-prompt-codec-saved-pct".to_owned(), saved_pct.to_owned()));
    assert(header_texts(out@) =~= seq![
        ("x-prompt-codec-before"@, decimal(stats.before_tokens as nat)),
        ("x-prompt-codec-after"@, decimal(stats.after_tokens as nat)),
        ("x-prompt-codec-saved-pct"@, saved_pct@),
    ]);
    out
}

} // verus!
