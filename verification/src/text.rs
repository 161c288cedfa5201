//! Characters and white space: the string vocabulary of the other modules.
//!
//! Text is modelled as `Seq<char>`. The executable side works on `Vec<char>`
//! and `&[char]`, and turns into a `String` at the edges.

use vstd::prelude::*;
use vstd::slice::slice_subrange;

verus! {

broadcast use vstd::string::group_string_axioms;

// --- Conversions ---------------------------------------------------------------

/// The characters of `s`.
pub fn chars_of(s: &str) -> (r: Vec<char>)
    ensures
        r@ == s@,
{
    let mut out: Vec<char> = Vec::new();
    for c in it: s.chars()
        invariant
            out@ == it.seq().take(it.index() as int),
            it.seq() == s@,
    {
        out.push(c);
    }
    out
}

/// The string with these characters.
pub fn string_of(v: &[char]) -> (r: String)
    ensures
        r@ == v@,
{
    let mut out: String = String::new();
    let mut i: usize = 0;
    while i < v.len()
        invariant
            i <= v@.len(),
            out@ == v@.take(i as int),
        decreases v@.len() - i,
    {
        out.push(v[i]);
        i = i + 1;
        assert(v@.take(i as int) == v@.take(i as int - 1).push(v@[i as int - 1]));
    }
    assert(v@.take(v@.len() as int) == v@);
    out
}

/// Appends all of `part` to `out`.
pub fn push_all(out: &mut Vec<char>, part: &[char])
    ensures
        final(out)@ == old(out)@ + part@,
{
    let ghost before = out@;
    let mut i: usize = 0;
    while i < part.len()
        invariant
            i <= part@.len(),
            out@ == before + part@.take(i as int),
        decreases part@.len() - i,
    {
        out.push(part[i]);
        i = i + 1;
        assert(part@.take(i as int) == part@.take(i as int - 1).push(part@[i as int - 1]));
    }
    assert(part@.take(part@.len() as int) == part@);
}

/// Whether two runs of characters are the same.
pub fn same_chars(a: &[char], b: &[char]) -> (r: bool)
    ensures
        r == (a@ == b@),
{
    if a.len() != b.len() {
        return false;
    }
    let mut i: usize = 0;
    while i < a.len()
        invariant
            i <= a@.len(),
            a@.len() == b@.len(),
            forall|j: int| 0 <= j < i ==> a@[j] == b@[j],
        decreases a@.len() - i,
    {
        if a[i] != b[i] {
            return false;
        }
        i = i + 1;
    }
    assert(a@ == b@);
    true
}

/// Appends bytes.
pub fn push_bytes(out: &mut Vec<u8>, part: &[u8])
    ensures
        final(out)@ == old(out)@ + part@,
{
    let ghost before = out@;
    let mut i: usize = 0;
    while i < part.len()
        invariant
            i <= part@.len(),
            out@ == before + part@.take(i as int),
        decreases part@.len() - i,
    {
        out.push(part[i]);
        assert(part@.take(i + 1) == part@.take(i as int).push(part@[i as int]));
        i = i + 1;
    }
    assert(part@.take(part@.len() as int) == part@);
}

/// Whether two strings hold the same characters.
pub fn same_text(a: &str, b: &str) -> (r: bool)
    ensures
        r == (a@ == b@),
{
    a.to_owned() == b.to_owned()
}

/// `a` and then `b`.
pub fn join2(a: &str, b: &str) -> (r: String)
    ensures
        r@ == a@ + b@,
{
    let mut out: Vec<char> = chars_of(a);
    let tail: Vec<char> = chars_of(b);
    push_all(&mut out, tail.as_slice());
    string_of(out.as_slice())
}

/// `a`, `b` and then `c`.
pub fn join3(a: &str, b: &str, c: &str) -> (r: String)
    ensures
        r@ == a@ + b@ + c@,
{
    let ab: String = join2(a, b);
    join2(ab.as_str(), c)
}

/// A run of characters of the list holds `c`.
pub fn holds_char(v: &[char], c: char) -> (r: bool)
    ensures
        r == v@.contains(c),
{
    let mut i: usize = 0;
    while i < v.len()
        invariant
            i <= v@.len(),
            forall|j: int| 0 <= j < i ==> v@[j] != c,
        decreases v@.len() - i,
    {
        if v[i] == c {
            assert(v@[i as int] == c);
            return true;
        }
        i = i + 1;
    }
    false
}

/// The text that an optional string holds.
pub open spec fn opt_text(s: Option<String>) -> Option<Seq<char>> {
    match s {
        Some(t) => Some(t@),
        None => None,
    }
}

/// The text that an optional string slice holds.
pub open spec fn opt_str(s: Option<&str>) -> Option<Seq<char>> {
    match s {
        Some(t) => Some(t@),
        None => None,
    }
}

/// The path of something in a directory: a slash stands between the two, unless the
/// directory ends in one or is nothing.
pub open spec fn path_in(dir: Seq<char>, rest: Seq<char>) -> Seq<char> {
    if dir.len() == 0 || dir.last() == '/' {
        dir + rest
    } else {
        dir + "/"@ + rest
    }
}

/// The path of something in a directory.
pub fn join_path(dir: &str, rest: &str) -> (r: String)
    ensures
        r@ == path_in(dir@, rest@),
{
    let v: Vec<char> = chars_of(dir);
    if v.len() == 0 || v[v.len() - 1] == '/' {
        join2(dir, rest)
    } else {
        join3(dir, "/", rest)
    }
}

// --- White space ---------------------------------------------------------------

/// The characters with the Unicode property `White_Space`.
pub open spec fn is_white(c: char) -> bool {
    let n = c as u32;
    ||| 0x09 <= n <= 0x0d
    ||| n == 0x20
    ||| n == 0x85
    ||| n == 0xa0
    ||| n == 0x1680
    ||| 0x2000 <= n <= 0x200a
    ||| n == 0x2028
    ||| n == 0x2029
    ||| n == 0x202f
    ||| n == 0x205f
    ||| n == 0x3000
}

/// How many characters at the front of `s` are white space.
pub open spec fn lead(s: Seq<char>) -> nat
    decreases s.len(),
{
    if s.len() > 0 && is_white(s[0]) {
        1 + lead(s.skip(1))
    } else {
        0
    }
}

/// `s` without the white space at its front.
pub open spec fn trim_start(s: Seq<char>) -> Seq<char>
    decreases s.len(),
{
    if s.len() > 0 && is_white(s[0]) {
        trim_start(s.skip(1))
    } else {
        s
    }
}

/// `s` without the white space at its end.
pub open spec fn trim_end(s: Seq<char>) -> Seq<char>
    decreases s.len(),
{
    if s.len() > 0 && is_white(s.last()) {
        trim_end(s.drop_last())
    } else {
        s
    }
}

/// `s` without the white space at either end.
pub open spec fn trim(s: Seq<char>) -> Seq<char> {
    trim_end(trim_start(s))
}

/// `s` holds nothing but white space.
pub open spec fn is_blank(s: Seq<char>) -> bool {
    trim(s).len() == 0
}

pub fn white(c: char) -> (r: bool)
    ensures
        r == is_white(c),
{
    let n: u32 = c as u32;
    (0x09 <= n && n <= 0x0d) || n == 0x20 || n == 0x85 || n == 0xa0 || n == 0x1680 || (0x2000 <= n
        && n <= 0x200a) || n == 0x2028 || n == 0x2029 || n == 0x202f || n == 0x205f || n == 0x3000
}

/// The front of a text splits into its leading white space and the rest.
pub proof fn lemma_lead(s: Seq<char>)
    ensures
        lead(s) <= s.len(),
        forall|i: int| 0 <= i < lead(s) ==> is_white(#[trigger] s[i]),
        lead(s) < s.len() ==> !is_white(s[lead(s) as int]),
        trim_start(s) == s.skip(lead(s) as int),
    decreases s.len(),
{
    if s.len() > 0 && is_white(s[0]) {
        let t = s.skip(1);
        lemma_lead(t);
        assert forall|i: int| 0 <= i < lead(s) implies is_white(#[trigger] s[i]) by {
            if i > 0 {
                assert(s[i] == t[i - 1]);
            }
        }
        assert(s.skip(lead(s) as int) == t.skip(lead(t) as int));
    } else {
        assert(s.skip(0) == s);
    }
}

/// The only place where leading white space can end.
pub proof fn lemma_lead_unique(s: Seq<char>, k: int)
    requires
        0 <= k <= s.len(),
        forall|i: int| 0 <= i < k ==> is_white(#[trigger] s[i]),
        k < s.len() ==> !is_white(s[k]),
    ensures
        lead(s) == k,
{
    lemma_lead(s);
    let l = lead(s) as int;
    if l < k {
        assert(is_white(s[l]));
    } else if k < l {
        assert(is_white(s[k]));
    }
}

/// What is left after trimming the end is a prefix that ends in no white space.
pub proof fn lemma_trim_end(s: Seq<char>)
    ensures
        trim_end(s).len() <= s.len(),
        trim_end(s) == s.take(trim_end(s).len() as int),
        trim_end(s).len() > 0 ==> !is_white(trim_end(s).last()),
        forall|i: int| trim_end(s).len() <= i < s.len() ==> is_white(#[trigger] s[i]),
    decreases s.len(),
{
    if s.len() > 0 && is_white(s.last()) {
        let t = s.drop_last();
        lemma_trim_end(t);
        assert(trim_end(s) == s.take(trim_end(s).len() as int));
        assert forall|i: int| trim_end(s).len() <= i < s.len() implies is_white(
            #[trigger] s[i],
        ) by {
            if i < t.len() {
                assert(s[i] == t[i]);
            }
        }
    } else {
        assert(s.take(s.len() as int) == s);
    }
}

/// The only prefix that trimming the end can leave.
pub proof fn lemma_trim_end_unique(s: Seq<char>, k: int)
    requires
        0 <= k <= s.len(),
        forall|i: int| k <= i < s.len() ==> is_white(#[trigger] s[i]),
        k > 0 ==> !is_white(s[k - 1]),
    ensures
        trim_end(s) == s.take(k),
{
    lemma_trim_end(s);
    let n = trim_end(s).len() as int;
    if n < k {
        assert(is_white(s[k - 1]));
    } else if k < n {
        assert(is_white(s[n - 1]));
        assert(trim_end(s).last() == s[n - 1]);
    }
}

/// The length of the white space at the front.
pub fn lead_len(v: &[char]) -> (k: usize)
    ensures
        k == lead(v@),
        k <= v@.len(),
{
    let mut k: usize = 0;
    while k < v.len() && white(v[k])
        invariant
            k <= v@.len(),
            forall|i: int| 0 <= i < k ==> is_white(#[trigger] v@[i]),
        decreases v@.len() - k,
    {
        k = k + 1;
    }
    proof {
        lemma_lead_unique(v@, k as int);
    }
    k
}

/// The length of what trimming the end leaves.
pub fn trimmed_end_len(v: &[char]) -> (n: usize)
    ensures
        n == trim_end(v@).len(),
        n <= v@.len(),
        trim_end(v@) == v@.take(n as int),
{
    let mut n: usize = v.len();
    while n > 0 && white(v[n - 1])
        invariant
            n <= v@.len(),
            forall|i: int| n <= i < v@.len() ==> is_white(#[trigger] v@[i]),
        decreases n,
    {
        n = n - 1;
    }
    proof {
        lemma_trim_end_unique(v@, n as int);
    }
    n
}

/// The part of `v` between the white space at its two ends.
pub fn trimmed<'a>(v: &'a [char]) -> (r: &'a [char])
    ensures
        r@ == trim(v@),
{
    let k: usize = lead_len(v);
    let rest: &[char] = slice_subrange(v, k, v.len());
    proof {
        lemma_lead(v@);
        assert(rest@ == trim_start(v@));
    }
    let n: usize = trimmed_end_len(rest);
    proof {
        assert(rest@.subrange(0, n as int) == rest@.take(n as int));
    }
    slice_subrange(rest, 0, n)
}

/// `s` without the white space at either end.
pub fn trim_text(s: &str) -> (r: String)
    ensures
        r@ == trim(s@),
{
    let v: Vec<char> = chars_of(s);
    string_of(trimmed(v.as_slice()))
}

/// Whether `s` is blank.
pub fn blank(s: &str) -> (r: bool)
    ensures
        r == is_blank(s@),
{
    let v: Vec<char> = chars_of(s);
    trimmed(v.as_slice()).len() == 0
}

// --- Subsequences --------------------------------------------------------------

/// The characters of `sub` stand in `s` at the places `at`, in the same order.
pub open spec fn stands_at(sub: Seq<char>, s: Seq<char>, at: Seq<int>) -> bool {
    &&& at.len() == sub.len()
    &&& forall|i: int, j: int| 0 <= i < j < at.len() ==> #[trigger] at[i] < #[trigger] at[j]
    &&& forall|i: int|
        0 <= i < at.len() ==> 0 <= #[trigger] at[i] < s.len() && sub[i] == s[at[i]]
}

/// `sub` is `s` with some characters left out: none is added, and none changes its
/// place among the others.
pub open spec fn is_subsequence(sub: Seq<char>, s: Seq<char>) -> bool {
    exists|at: Seq<int>| #[trigger] stands_at(sub, s, at)
}

pub proof fn lemma_subsequence_of_itself(s: Seq<char>)
    ensures
        is_subsequence(s, s),
{
    let at = Seq::new(s.len(), |i: int| i);
    assert(stands_at(s, s, at));
}

pub proof fn lemma_subsequence_trans(a: Seq<char>, b: Seq<char>, c: Seq<char>)
    requires
        is_subsequence(a, b),
        is_subsequence(b, c),
    ensures
        is_subsequence(a, c),
{
    let f = choose|at: Seq<int>| #[trigger] stands_at(a, b, at);
    let g = choose|at: Seq<int>| #[trigger] stands_at(b, c, at);
    let h = Seq::new(a.len(), |i: int| g[f[i]]);
    assert forall|i: int| 0 <= i < h.len() implies 0 <= #[trigger] h[i] < c.len() && a[i] == c[h[i]] by {
        assert(0 <= f[i] < b.len());
        assert(0 <= g[f[i]] < c.len());
    }
    assert forall|i: int, j: int| 0 <= i < j < h.len() implies #[trigger] h[i] < #[trigger] h[j] by {
        assert(f[i] < f[j]);
        assert(0 <= f[i] < g.len() && 0 <= f[j] < g.len());
        assert(g[f[i]] < g[f[j]]);
    }
    assert(stands_at(a, c, h));
}

proof fn lemma_places_grow(sub: Seq<char>, s: Seq<char>, at: Seq<int>, i: int)
    requires
        stands_at(sub, s, at),
        0 <= i < at.len(),
    ensures
        at[i] >= i,
    decreases i,
{
    if i > 0 {
        lemma_places_grow(sub, s, at, i - 1);
        assert(at[i - 1] < at[i]);
    }
}

/// A subsequence is no longer than what it is taken from, and holds no character that
/// is not in there.
pub proof fn lemma_subsequence(sub: Seq<char>, s: Seq<char>)
    requires
        is_subsequence(sub, s),
    ensures
        sub.len() <= s.len(),
        forall|c: char| #[trigger] sub.contains(c) ==> s.contains(c),
{
    let at = choose|at: Seq<int>| #[trigger] stands_at(sub, s, at);
    if sub.len() > 0 {
        lemma_places_grow(sub, s, at, sub.len() - 1);
        assert(at[sub.len() - 1] < s.len());
    }
    assert forall|c: char| #[trigger] sub.contains(c) implies s.contains(c) by {
        let i = choose|i: int| 0 <= i < sub.len() && sub[i] == c;
        assert(0 <= at[i] < s.len() && sub[i] == s[at[i]]);
    }
}

/// A subsequence as long as what it is taken from is all of it.
pub proof fn lemma_whole_subsequence(sub: Seq<char>, s: Seq<char>)
    requires
        is_subsequence(sub, s),
        sub.len() == s.len(),
    ensures
        sub == s,
{
    let at = choose|at: Seq<int>| #[trigger] stands_at(sub, s, at);
    assert forall|i: int| 0 <= i < s.len() implies #[trigger] sub[i] == s[i] by {
        lemma_places_grow(sub, s, at, i);
        lemma_places_end(sub, s, at, i);
    }
}

proof fn lemma_places_end(sub: Seq<char>, s: Seq<char>, at: Seq<int>, i: int)
    requires
        stands_at(sub, s, at),
        0 <= i < at.len(),
    ensures
        at[i] <= s.len() - (at.len() - i),
    decreases at.len() - i,
{
    if i < at.len() - 1 {
        lemma_places_end(sub, s, at, i + 1);
        assert(at[i] < at[i + 1]);
    }
}

/// Trimming leaves no more than there was.
pub proof fn lemma_trim_len(s: Seq<char>)
    ensures
        trim(s).len() <= s.len(),
{
    lemma_lead(s);
    lemma_trim_end(trim_start(s));
}

} // verus!
