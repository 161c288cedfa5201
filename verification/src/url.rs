//! URLs, as far as the proxy and the local client put them together.

use crate::text::{chars_of, join3, same_chars, string_of};
use vstd::prelude::*;
use vstd::slice::slice_subrange;

verus! {

broadcast use vstd::string::group_string_axioms;

/// `s` without the characters `c` at its end.
pub open spec fn without_trailing(s: Seq<char>, c: char) -> Seq<char>
    decreases s.len(),
{
    if s.len() > 0 && s.last() == c {
        without_trailing(s.drop_last(), c)
    } else {
        s
    }
}

/// `s` without the characters `c` at its front.
pub open spec fn without_leading(s: Seq<char>, c: char) -> Seq<char>
    decreases s.len(),
{
    if s.len() > 0 && s[0] == c {
        without_leading(s.skip(1), c)
    } else {
        s
    }
}

/// `s` ends with `end`.
pub open spec fn ends_with(s: Seq<char>, end: Seq<char>) -> bool {
    s.len() >= end.len() && s.skip(s.len() - end.len()) == end
}

/// `s` starts with `start`.
pub open spec fn starts_with(s: Seq<char>, start: Seq<char>) -> bool {
    s.len() >= start.len() && s.take(start.len() as int) == start
}

/// `s` without the repetitions of `end` at its end.
pub open spec fn without_endings(s: Seq<char>, end: Seq<char>) -> Seq<char>
    decreases s.len(),
{
    if end.len() > 0 && ends_with(s, end) {
        without_endings(s.take(s.len() - end.len()), end)
    } else {
        s
    }
}

/// `s` without the characters `c` at its end.
pub fn trim_end_char(s: &str, c: char) -> (r: String)
    ensures
        r@ == without_trailing(s@, c),
{
    let v: Vec<char> = chars_of(s);
    let mut n: usize = v.len();
    assert(v@.take(n as int) == v@);
    while n > 0 && v[n - 1] == c
        invariant
            n <= v@.len(),
            without_trailing(v@.take(n as int), c) == without_trailing(v@, c),
        decreases n,
    {
        assert(v@.take(n as int).drop_last() == v@.take(n - 1));
        n = n - 1;
    }
    let part: &[char] = slice_subrange(v.as_slice(), 0, n);
    assert(part@ == v@.take(n as int));
    string_of(part)
}

/// `s` without the characters `c` at its front.
pub fn trim_start_char(s: &str, c: char) -> (r: String)
    ensures
        r@ == without_leading(s@, c),
{
    let v: Vec<char> = chars_of(s);
    let mut k: usize = 0;
    assert(v@.skip(0) == v@);
    while k < v.len() && v[k] == c
        invariant
            k <= v@.len(),
            without_leading(v@.skip(k as int), c) == without_leading(v@, c),
        decreases v@.len() - k,
    {
        assert(v@.skip(k as int).skip(1) == v@.skip(k + 1));
        k = k + 1;
    }
    let part: &[char] = slice_subrange(v.as_slice(), k, v.len());
    assert(part@ == v@.skip(k as int));
    string_of(part)
}

/// What follows `start`, if `s` starts with it.
pub fn strip_start(s: &str, start: &str) -> (r: Option<String>)
    ensures
        match r {
            Some(rest) => starts_with(s@, start@) && rest@ == s@.skip(start@.len() as int),
            None => !starts_with(s@, start@),
        },
{
    let v: Vec<char> = chars_of(s);
    let p: Vec<char> = chars_of(start);
    if v.len() < p.len() {
        return None;
    }
    let head: &[char] = slice_subrange(v.as_slice(), 0, p.len());
    assert(head@ == s@.take(start@.len() as int));
    if same_chars(head, p.as_slice()) {
        let rest: &[char] = slice_subrange(v.as_slice(), p.len(), v.len());
        assert(rest@ == s@.skip(start@.len() as int));
        Some(string_of(rest))
    } else {
        None
    }
}

/// `s` without the repetitions of `end` at its end.
pub fn trim_end_text(s: &str, end: &str) -> (r: String)
    ensures
        r@ == without_endings(s@, end@),
{
    let v: Vec<char> = chars_of(s);
    let e: Vec<char> = chars_of(end);
    let mut n: usize = v.len();
    assert(v@.take(n as int) == v@);
    while e.len() > 0 && n >= e.len()
        invariant_except_break
            without_endings(v@.take(n as int), e@) == without_endings(v@, e@),
        invariant
            n <= v@.len(),
        ensures
            without_endings(v@, e@) == v@.take(n as int),
        decreases n,
    {
        let ghost here = v@.take(n as int);
        let last: &[char] = slice_subrange(v.as_slice(), n - e.len(), n);
        assert(last@ == here.skip(here.len() - e@.len()));
        if !same_chars(last, e.as_slice()) {
            break;
        }
        assert(here.take(here.len() - e@.len()) == v@.take(n - e@.len()));
        n = n - e.len();
    }
    let part: &[char] = slice_subrange(v.as_slice(), 0, n);
    assert(part@ == v@.take(n as int));
    string_of(part)
}

/// A base and a path below it, with exactly one slash between them.
pub open spec fn joined(base: Seq<char>, suffix: Seq<char>) -> Seq<char> {
    without_trailing(base, '/') + "/"@ + without_leading(suffix, '/')
}

/// The address of a path below a base.
pub fn upstream_url(base: &str, suffix: &str) -> (r: String)
    ensures
        r@ == joined(base@, suffix@),
{
    let b: String = trim_end_char(base, '/');
    let s: String = trim_start_char(suffix, '/');
    join3(b.as_str(), "/", s.as_str())
}

/// Where a request for `path` and `query` goes: the upstream base takes the place of
/// `/v1`, and the query goes along.
pub open spec fn forwarded(base: Seq<char>, path: Seq<char>, query: Option<Seq<char>>) -> Seq<char> {
    let suffix = if starts_with(path, "/v1"@) {
        path.skip("/v1"@.len() as int)
    } else {
        path
    };
    match query {
        Some(q) => joined(base, suffix) + "?"@ + q,
        None => joined(base, suffix),
    }
}

/// Where a request for `path` and `query` goes.
pub fn forwarded_url(base: &str, path: &str, query: Option<&str>) -> (r: String)
    ensures
        r@ == forwarded(
            base@,
            path@,
            match query {
                Some(q) => Some(q@),
                None => None,
            },
        ),
{
    let url: String = match strip_start(path, "/v1") {
        Some(rest) => upstream_url(base, rest.as_str()),
        None => upstream_url(base, path),
    };
    match query {
        Some(q) => join3(url.as_str(), "?", q),
        None => url,
    }
}

/// Slashes at the end of the base, or at the front of the path, make no difference
/// to the address.
pub proof fn law_slashes_make_no_difference(base: Seq<char>, suffix: Seq<char>)
    ensures
        joined(base + seq!['/'], suffix) == joined(base, suffix),
        joined(base, seq!['/'] + suffix) == joined(base, suffix),
{
    assert((base + seq!['/']).drop_last() == base);
    assert((seq!['/'] + suffix).skip(1) == suffix);
}

} // verus!
