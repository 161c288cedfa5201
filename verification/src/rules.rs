//! Deterministic, fence-aware prompt compression.
//!
//! A text is cut into prose and fenced blocks. Prose loses boilerplate,
//! repeated long lines and surplus white space; a fenced block is never
//! touched, except that a whole repeat of an earlier one becomes a marker.

use crate::lines::{
    first_newline, join_lines, join_newlines, lemma_first_newline, newline_at,
    split_lines, split_newlines, views,
};
use crate::outside::{
    boilerplate, regex_removed, remove_matches, AS_AN_AI, COMMENTS, EMPTY_BULLET, EXHORTATION,
    FLUFF_LINE, HOPE, PLEASE, PLEASE_PHRASE, THANKS, WOULD_LIKE,
};
use crate::rules_clean::{
    is_clean, is_plain, lemma_fixed_is_clean, lemma_plain_keeps_to_itself, lemma_plain_stays_plain,
    lemma_plain_text,
};
use crate::rules_laws::{
    law_compression_is_idempotent, lemma_given_up, lemma_kept_shape_is_fixed, lemma_round_shrinks,
    lemma_settled_at, loses_its_shape, weight,
};
use crate::text::{
    blank, chars_of, holds_char, is_blank, is_subsequence, lead, lead_len, lemma_lead, lemma_trim_end,
    lemma_subsequence, lemma_subsequence_of_itself, lemma_subsequence_trans, push_all, same_chars,
    same_text, string_of, trim, trim_end, trim_start, trimmed,
    trimmed_end_len,
};
use vstd::prelude::*;
use vstd::slice::slice_subrange;

verus! {

broadcast use vstd::string::group_string_axioms;

// --- Segments ------------------------------------------------------------------

/// A piece of a text: prose, or a fenced block.
#[derive(Debug, Clone, PartialEq)]
pub enum Segment {
    Prose(String),
    /// `open` is the full opening line (such as "```python"), `body` the raw
    /// lines between the markers, `close` the closing line, or `None` where the
    /// text ends inside the block.
    Fence { open: String, body: String, close: Option<String> },
}

/// What a [`Segment`] stands for.
pub enum Seg {
    Prose(Seq<char>),
    Fence { open: Seq<char>, body: Seq<char>, close: Option<Seq<char>> },
}

impl View for Segment {
    type V = Seg;

    open spec fn view(&self) -> Seg {
        match self {
            Segment::Prose(p) => Seg::Prose(p@),
            Segment::Fence { open, body, close } => Seg::Fence {
                open: open@,
                body: body@,
                close: match close {
                    Some(c) => Some(c@),
                    None => None,
                },
            },
        }
    }
}

/// What a list of segments stands for.
pub open spec fn seg_views(v: Seq<Segment>) -> Seq<Seg> {
    v.map_values(|s: Segment| s@)
}

/// The length of the first line of `s`, its newline included.
pub open spec fn first_line_len(s: Seq<char>) -> nat {
    if first_newline(s) < s.len() {
        first_newline(s) + 1
    } else {
        s.len()
    }
}

/// The first line of `s`, its newline included.
pub open spec fn first_line(s: Seq<char>) -> Seq<char> {
    s.take(first_line_len(s) as int)
}

/// A line that opens or closes a fenced block: three backticks, with nothing but
/// white space before them.
pub open spec fn is_marker(line: Seq<char>) -> bool {
    let t = trim_start(line);
    t.len() >= 3 && t[0] == '`' && t[1] == '`' && t[2] == '`'
}

/// The length of the lines at the front of `s`, up to the first marker.
pub open spec fn plain_len(s: Seq<char>) -> nat
    decreases s.len(),
    via plain_len_decreases
{
    if s.len() == 0 || is_marker(first_line(s)) {
        0
    } else {
        first_line_len(s) + plain_len(s.skip(first_line_len(s) as int))
    }
}

#[via_fn]
proof fn plain_len_decreases(s: Seq<char>) {
    lemma_first_newline(s);
}

/// The segments of a text: runs of lines without a marker are prose; a marker
/// opens a block that runs to the next marker or to the end of the text.
pub open spec fn segments(s: Seq<char>) -> Seq<Seg>
    decreases s.len(),
    via segments_decreases
{
    if s.len() == 0 {
        seq![]
    } else if is_marker(first_line(s)) {
        let rest = s.skip(first_line_len(s) as int);
        let body = rest.take(plain_len(rest) as int);
        let tail = rest.skip(plain_len(rest) as int);
        if tail.len() == 0 {
            seq![Seg::Fence { open: first_line(s), body, close: None }]
        } else {
            seq![Seg::Fence { open: first_line(s), body, close: Some(first_line(tail)) }] + segments(
                tail.skip(first_line_len(tail) as int),
            )
        }
    } else {
        seq![Seg::Prose(s.take(plain_len(s) as int))] + segments(s.skip(plain_len(s) as int))
    }
}

#[via_fn]
proof fn segments_decreases(s: Seq<char>) {
    lemma_first_newline(s);
    lemma_plain_len(s);
    let rest = s.skip(first_line_len(s) as int);
    lemma_plain_len(rest);
    let tail = rest.skip(plain_len(rest) as int);
    lemma_first_newline(tail);
}

pub(crate) proof fn lemma_plain_len(s: Seq<char>)
    ensures
        plain_len(s) <= s.len(),
        s.len() > 0 && !is_marker(first_line(s)) ==> plain_len(s) > 0,
    decreases s.len(),
{
    lemma_first_newline(s);
    if s.len() > 0 && !is_marker(first_line(s)) {
        lemma_plain_len(s.skip(first_line_len(s) as int));
    }
}

/// The text of one segment.
pub open spec fn seg_text(seg: Seg) -> Seq<char> {
    match seg {
        Seg::Prose(p) => p,
        Seg::Fence { open, body, close } => open + body + (match close {
            Some(c) => c,
            None => seq![],
        }),
    }
}

/// The texts of the segments, one after the other.
pub open spec fn segs_text(segs: Seq<Seg>) -> Seq<char>
    decreases segs.len(),
{
    if segs.len() == 0 {
        seq![]
    } else {
        segs_text(segs.drop_last()) + seg_text(segs.last())
    }
}

/// Whether a line is a fence marker.
fn is_fence_marker(line: &[char]) -> (r: bool)
    ensures
        r == is_marker(line@),
{
    let k: usize = lead_len(line);
    proof {
        lemma_lead(line@);
        assert(trim_start(line@) == line@.skip(k as int));
    }
    line.len() - k >= 3 && line[k] == '`' && line[k + 1] == '`' && line[k + 2] == '`'
}

/// The length of the first line of `v`, its newline included.
fn line_len(v: &[char]) -> (n: usize)
    ensures
        n == first_line_len(v@),
        n <= v@.len(),
        v@.len() > 0 ==> n > 0,
{
    let j: usize = newline_at(v);
    if j < v.len() {
        j + 1
    } else {
        j
    }
}

/// The length of the lines at the front of `v`, up to the first marker.
fn plain_run(v: &[char]) -> (n: usize)
    ensures
        n == plain_len(v@),
        n <= v@.len(),
{
    let mut n: usize = 0;
    proof {
        assert(v@.skip(0) == v@);
    }
    while n < v.len()
        invariant_except_break
            n + plain_len(v@.skip(n as int)) == plain_len(v@),
        invariant
            n <= v@.len(),
        ensures
            n == plain_len(v@),
        decreases v@.len() - n,
    {
        let rest: &[char] = slice_subrange(v, n, v.len());
        let k: usize = line_len(rest);
        let line: &[char] = slice_subrange(rest, 0, k);
        proof {
            assert(rest@ == v@.skip(n as int));
            assert(line@ == first_line(rest@));
        }
        if is_fence_marker(line) {
            break;
        }
        proof {
            assert(rest@.skip(k as int) == v@.skip(n + k));
        }
        n = n + k;
    }
    n
}

/// Cuts a text into prose and fenced blocks.
pub fn segment(text: &str) -> (r: Vec<Segment>)
    ensures
        seg_views(r@) == segments(text@),
{
    let v: Vec<char> = chars_of(text);
    let mut out: Vec<Segment> = Vec::new();
    let mut at: usize = 0;
    let ghost whole = segments(v@);
    proof {
        assert(v@.skip(0) == v@);
    }
    while at < v.len()
        invariant
            at <= v@.len(),
            whole == segments(v@),
            seg_views(out@) + segments(v@.skip(at as int)) == whole,
        decreases v@.len() - at,
    {
        let ghost before = seg_views(out@);
        let rest: &[char] = slice_subrange(v.as_slice(), at, v.len());
        let ghost s = rest@;
        proof {
            assert(s == v@.skip(at as int));
        }
        let k: usize = line_len(rest);
        let line: &[char] = slice_subrange(rest, 0, k);
        assert(line@ == first_line(s));
        if is_fence_marker(line) {
            let after: &[char] = slice_subrange(rest, k, rest.len());
            let n: usize = plain_run(after);
            let body: &[char] = slice_subrange(after, 0, n);
            let tail: &[char] = slice_subrange(after, n, after.len());
            proof {
                assert(after@ == s.skip(k as int));
                assert(body@ == after@.take(n as int));
                assert(tail@ == after@.skip(n as int));
            }
            let c: usize = line_len(tail);
            let close: Option<String> = if tail.len() == 0 {
                None
            } else {
                let last: &[char] = slice_subrange(tail, 0, c);
                assert(last@ == first_line(tail@));
                Some(string_of(last))
            };
            let piece: Segment = Segment::Fence { open: string_of(line), body: string_of(body), close };
            let ghost pv = piece@;
            out.push(piece);
            proof {
                assert(seg_views(out@) == before.push(pv));
                if tail@.len() == 0 {
                    assert(pv == Seg::Fence { open: first_line(s), body: body@, close: None });
                    assert(segments(s) == seq![pv]);
                    assert(v@.skip(at + k + n + c) == Seq::<char>::empty());
                    assert(segments(v@.skip(at + k + n + c)) == Seq::<Seg>::empty());
                } else {
                    let next = tail@.skip(c as int);
                    assert(pv == Seg::Fence {
                        open: first_line(s),
                        body: body@,
                        close: Some(first_line(tail@)),
                    });
                    assert(segments(s) == seq![pv] + segments(next));
                    assert(next == v@.skip(at + k + n + c));
                }
                assert(before.push(pv) + segments(v@.skip(at + k + n + c)) == before + (seq![pv]
                    + segments(v@.skip(at + k + n + c))));
            }
            at = at + k + n + c;
        } else {
            let n: usize = plain_run(rest);
            let prose: &[char] = slice_subrange(rest, 0, n);
            proof {
                assert(prose@ == s.take(n as int));
                lemma_plain_len(s);
            }
            let piece: Segment = Segment::Prose(string_of(prose));
            let ghost pv = piece@;
            out.push(piece);
            proof {
                assert(seg_views(out@) == before.push(pv));
                assert(s.skip(n as int) == v@.skip(at + n));
                assert(segments(s) == seq![pv] + segments(s.skip(n as int)));
                assert(before.push(pv) + segments(v@.skip(at + n)) == before + (seq![pv] + segments(
                    v@.skip(at + n),
                )));
            }
            at = at + n;
        }
    }
    proof {
        assert(v@.skip(at as int) == Seq::<char>::empty());
        assert(segments(v@.skip(at as int)) == Seq::<Seg>::empty());
        assert(seg_views(out@) + Seq::<Seg>::empty() == seg_views(out@));
    }
    out
}

/// Puts segments together again.
pub fn reassemble(segs: &[Segment]) -> (r: String)
    ensures
        r@ == segs_text(seg_views(segs@)),
{
    let mut out: Vec<char> = Vec::new();
    let mut i: usize = 0;
    let ghost all = seg_views(segs@);
    while i < segs.len()
        invariant
            i <= segs@.len(),
            all == seg_views(segs@),
            out@ == segs_text(all.take(i as int)),
        decreases segs@.len() - i,
    {
        let ghost before = out@;
        match &segs[i] {
            Segment::Prose(p) => {
                push_all(&mut out, chars_of(p.as_str()).as_slice());
            },
            Segment::Fence { open, body, close } => {
                push_all(&mut out, chars_of(open.as_str()).as_slice());
                push_all(&mut out, chars_of(body.as_str()).as_slice());
                if let Some(c) = close {
                    push_all(&mut out, chars_of(c.as_str()).as_slice());
                }
            },
        }
        proof {
            assert(all.take(i + 1).drop_last() == all.take(i as int));
            assert(all.take(i + 1).last() == segs@[i as int]@);
            assert(out@ == before + seg_text(segs@[i as int]@));
        }
        i = i + 1;
    }
    proof {
        assert(all.take(all.len() as int) == all);
    }
    string_of(out.as_slice())
}

// --- Boilerplate ---------------------------------------------------------------

/// `text` after each of the patterns was taken out of it, in order.
pub open spec fn removed_in_order(patterns: Seq<Seq<char>>, text: Seq<char>) -> Seq<char>
    decreases patterns.len(),
{
    if patterns.len() == 0 {
        text
    } else {
        regex_removed(patterns.last(), removed_in_order(patterns.drop_last(), text))
    }
}

/// `text` without boilerplate.
pub open spec fn stripped(text: Seq<char>) -> Seq<char> {
    removed_in_order(boilerplate(), text)
}

/// The boilerplate patterns, in order.
fn boilerplate_patterns() -> (r: Vec<&'static str>)
    ensures
        r@.len() == boilerplate().len(),
        forall|i: int| 0 <= i < r@.len() ==> (#[trigger] r@[i])@ == boilerplate()[i],
{
    vec![
        PLEASE_PHRASE,
        PLEASE,
        THANKS,
        AS_AN_AI,
        HOPE,
        WOULD_LIKE,
        EXHORTATION,
        COMMENTS,
        FLUFF_LINE,
        EMPTY_BULLET,
    ]
}

/// Takes boilerplate out of each of the texts.
fn strip_all(from: Vec<String>) -> (r: Vec<String>)
    ensures
        r@.len() == from@.len(),
        forall|k: int| 0 <= k < r@.len() ==> (#[trigger] r@[k])@ == stripped(from@[k]@),
        forall|k: int| 0 <= k < r@.len() ==> is_subsequence((#[trigger] r@[k])@, from@[k]@),
{
    let patterns: Vec<&'static str> = boilerplate_patterns();
    let ghost whole = from@;
    let ghost all = boilerplate();
    let mut cur: Vec<String> = from;
    let mut i: usize = 0;
    assert forall|k: int| 0 <= k < cur@.len() implies is_subsequence((#[trigger] cur@[k])@, whole[k]@) by {
        lemma_subsequence_of_itself(whole[k]@);
    }
    while i < patterns.len()
        invariant
            i <= patterns@.len(),
            all == boilerplate(),
            patterns@.len() == all.len(),
            forall|k: int| 0 <= k < patterns@.len() ==> (#[trigger] patterns@[k])@ == all[k],
            cur@.len() == whole.len(),
            forall|k: int|
                0 <= k < cur@.len() ==> (#[trigger] cur@[k])@ == removed_in_order(
                    all.take(i as int),
                    whole[k]@,
                ),
            forall|k: int| 0 <= k < cur@.len() ==> is_subsequence((#[trigger] cur@[k])@, whole[k]@),
        decreases patterns@.len() - i,
    {
        proof {
            assert(all[i as int] == patterns@[i as int]@);
            assert(all.contains(all[i as int]));
            assert(all.take(i + 1).drop_last() == all.take(i as int));
        }
        let shorter: Vec<String> = remove_matches(patterns[i], &cur);
        assert forall|k: int| 0 <= k < shorter@.len() implies is_subsequence(
            (#[trigger] shorter@[k])@,
            whole[k]@,
        ) by {
            assert(is_subsequence(cur@[k]@, whole[k]@));
            lemma_subsequence_trans(shorter@[k]@, cur@[k]@, whole[k]@);
        }
        assert forall|k: int| 0 <= k < shorter@.len() implies (#[trigger] shorter@[k])@
            == removed_in_order(all.take(i + 1), whole[k]@) by {
            assert(cur@[k]@ == removed_in_order(all.take(i as int), whole[k]@));
        }
        cur = shorter;
        i = i + 1;
    }
    assert(all.take(all.len() as int) == all);
    cur
}

/// Takes boilerplate out of prose.
pub fn strip_boilerplate(text: &str) -> (r: String)
    ensures
        r@ == stripped(text@),
        is_subsequence(r@, text@),
        r@.len() <= text@.len(),
{
    let mut one: Vec<String> = Vec::new();
    one.push(text.to_owned());
    let ghost from = one@;
    let out: Vec<String> = strip_all(one);
    proof {
        assert(from[0]@ == text@);
        assert(out@[0]@ == stripped(from[0]@));
        lemma_subsequence(out@[0]@, text@);
    }
    out[0].as_str().to_owned()
}

// --- Repeated lines ------------------------------------------------------------

/// The shortest line, in characters without the white space around it, that
/// counts as a repeat.
pub const DEDUPE_MIN_CHARS: usize = 12;

/// A line long enough to count as a repeat.
pub open spec fn is_long(line: Seq<char>) -> bool {
    trim(line).len() >= DEDUPE_MIN_CHARS
}

/// What the long lines say.
pub open spec fn long_keys(lines: Seq<Seq<char>>) -> Set<Seq<char>>
    decreases lines.len(),
{
    if lines.len() == 0 {
        Set::empty()
    } else if is_long(lines.last()) {
        long_keys(lines.drop_last()).insert(trim(lines.last()))
    } else {
        long_keys(lines.drop_last())
    }
}

/// The lines without those long ones that say what was seen before or what an
/// earlier line says.
pub open spec fn without_repeats(lines: Seq<Seq<char>>, seen: Set<Seq<char>>) -> Seq<Seq<char>>
    decreases lines.len(),
{
    if lines.len() == 0 {
        seq![]
    } else {
        let init = lines.drop_last();
        let line = lines.last();
        if is_long(line) && seen.union(long_keys(init)).contains(trim(line)) {
            without_repeats(init, seen)
        } else {
            without_repeats(init, seen).push(line)
        }
    }
}

/// `text` without its repeated lines.
pub open spec fn deduped(text: Seq<char>, seen: Set<Seq<char>>) -> Seq<char> {
    join_newlines(without_repeats(split_newlines(text), seen))
}

/// `seen` holds exactly the keys of `model`.
pub open spec fn holds_keys(seen: Seq<Vec<char>>, model: Set<Seq<char>>) -> bool {
    forall|k: Seq<char>| #[trigger] views(seen).contains(k) <==> model.contains(k)
}

/// Whether `key` is among `seen`.
fn holds_key(seen: &Vec<Vec<char>>, key: &[char]) -> (r: bool)
    ensures
        r == views(seen@).contains(key@),
{
    let mut i: usize = 0;
    while i < seen.len()
        invariant
            i <= seen@.len(),
            forall|j: int| 0 <= j < i ==> #[trigger] views(seen@)[j] != key@,
        decreases seen@.len() - i,
    {
        if same_chars(seen[i].as_slice(), key) {
            assert(views(seen@)[i as int] == key@);
            return true;
        }
        assert(views(seen@)[i as int] == seen@[i as int]@);
        i = i + 1;
    }
    false
}

/// Drops repeated lines; `seen` holds the keys of the lines met so far.
fn dedupe_lines_with(text: &[char], seen: &mut Vec<Vec<char>>, model: Ghost<Set<Seq<char>>>) -> (r: Vec<char>)
    requires
        holds_keys(old(seen)@, model@),
    ensures
        r@ == deduped(text@, model@),
        holds_keys(final(seen)@, model@.union(long_keys(split_newlines(text@)))),
{
    let lines: Vec<Vec<char>> = split_lines(text);
    let ghost all = views(lines@);
    let mut out: Vec<Vec<char>> = Vec::new();
    let mut i: usize = 0;
    proof {
        assert(model@.union(Set::<Seq<char>>::empty()) =~= model@);
        assert(views(out@) == Seq::<Seq<char>>::empty());
    }
    while i < lines.len()
        invariant
            i <= lines@.len(),
            all == views(lines@),
            views(out@) == without_repeats(all.take(i as int), model@),
            holds_keys(seen@, model@.union(long_keys(all.take(i as int)))),
        decreases lines@.len() - i,
    {
        let ghost init = all.take(i as int);
        let ghost known = model@.union(long_keys(init));
        let ghost before = views(out@);
        let ghost was = seen@;
        let key: &[char] = trimmed(lines[i].as_slice());
        proof {
            assert(all.take(i + 1).drop_last() == init);
            assert(all.take(i + 1).last() == lines@[i as int]@);
            assert(key@ == trim(lines@[i as int]@));
        }
        if key.len() >= DEDUPE_MIN_CHARS {
            let ghost next: Set<Seq<char>> = model@.union(long_keys(all.take(i + 1)));
            assert(next == known.insert(key@));
            if holds_key(seen, key) {
                assert(known.contains(key@));
                assert(next == known);
                i = i + 1;
                continue;
            }
            let mut kept: Vec<char> = Vec::new();
            push_all(&mut kept, key);
            seen.push(kept);
            proof {
                assert(kept@ == key@);
                assert(views(seen@) == views(was).push(key@));
                assert forall|k: Seq<char>| #[trigger] views(seen@).contains(k) <==> next.contains(k) by {
                    lemma_push_contains(views(was), key@, k);
                }
            }
        }
        let mut line: Vec<char> = Vec::new();
        push_all(&mut line, lines[i].as_slice());
        out.push(line);
        proof {
            assert(views(out@) == before.push(all[i as int]));
        }
        i = i + 1;
    }
    proof {
        assert(all.take(all.len() as int) == all);
    }
    join_lines(&out)
}

proof fn lemma_push_contains(s: Seq<Seq<char>>, x: Seq<char>, k: Seq<char>)
    ensures
        s.push(x).contains(k) <==> (s.contains(k) || k == x),
{
    if s.contains(k) {
        let j = choose|j: int| 0 <= j < s.len() && s[j] == k;
        assert(s.push(x)[j] == k);
    }
    if k == x {
        assert(s.push(x)[s.len() as int] == k);
    }
    if s.push(x).contains(k) && k != x {
        let j = choose|j: int| 0 <= j < s.push(x).len() && s.push(x)[j] == k;
        assert(s[j] == k);
    }
}

/// Drops every long line that says what an earlier line says.
pub fn dedupe_lines(text: &str) -> (r: String)
    ensures
        r@ == deduped(text@, Set::empty()),
{
    let chars: Vec<char> = chars_of(text);
    let mut seen: Vec<Vec<char>> = Vec::new();
    assert(views(seen@) == Seq::<Seq<char>>::empty());
    let out: Vec<char> = dedupe_lines_with(chars.as_slice(), &mut seen, Ghost(Set::empty()));
    string_of(out.as_slice())
}

// --- White space ---------------------------------------------------------------

/// `s` with at most two newlines in a row.
pub open spec fn capped(s: Seq<char>) -> Seq<char>
    decreases s.len(),
{
    if s.len() == 0 {
        seq![]
    } else if ends_in_three_newlines(s) {
        capped(s.drop_last())
    } else {
        capped(s.drop_last()).push(s.last())
    }
}

/// The last three characters of `s` are newlines.
pub open spec fn ends_in_three_newlines(s: Seq<char>) -> bool {
    let n = s.len() as int;
    n >= 3 && s[n - 1] == '\n' && s[n - 2] == '\n' && s[n - 3] == '\n'
}

/// A space or a tab.
pub open spec fn is_gap(c: char) -> bool {
    c == ' ' || c == '\t'
}

/// `s` with each run of two or more spaces and tabs as one space.
pub open spec fn squeezed(s: Seq<char>) -> Seq<char>
    decreases s.len(),
{
    if s.len() == 0 {
        seq![]
    } else if s.len() >= 2 && is_gap(s.last()) && is_gap(s[s.len() - 2]) {
        squeezed(s.drop_last()).drop_last().push(' ')
    } else {
        squeezed(s.drop_last()).push(s.last())
    }
}

/// A line without white space at its end and with its gaps squeezed: indentation
/// stays, and so does every gap of a line that holds a backtick.
pub open spec fn tidy_line(line: Seq<char>) -> Seq<char> {
    let t = trim_end(line);
    if t.contains('`') {
        t
    } else {
        t.take(lead(t) as int) + squeezed(t.skip(lead(t) as int))
    }
}

/// Every line tidied.
pub open spec fn tidy_lines(lines: Seq<Seq<char>>) -> Seq<Seq<char>> {
    lines.map_values(|line: Seq<char>| tidy_line(line))
}

/// `text` with its surplus white space gone: first within its lines, then between them.
pub open spec fn collapsed(text: Seq<char>) -> Seq<char> {
    capped(join_newlines(tidy_lines(split_newlines(text))))
}

fn cap_newlines(v: &[char]) -> (r: Vec<char>)
    ensures
        r@ == capped(v@),
{
    let mut out: Vec<char> = Vec::new();
    let mut i: usize = 0;
    while i < v.len()
        invariant
            i <= v@.len(),
            out@ == capped(v@.take(i as int)),
        decreases v@.len() - i,
    {
        proof {
            assert(v@.take(i + 1).drop_last() == v@.take(i as int));
            assert(v@.take(i + 1).last() == v@[i as int]);
        }
        let third: bool = i >= 2 && v[i] == '\n' && v[i - 1] == '\n' && v[i - 2] == '\n';
        if !third {
            out.push(v[i]);
        }
        i = i + 1;
    }
    proof {
        assert(v@.take(v@.len() as int) == v@);
    }
    out
}

pub(crate) proof fn lemma_squeezed_len(s: Seq<char>)
    ensures
        squeezed(s).len() <= s.len(),
        s.len() > 0 ==> squeezed(s).len() > 0,
    decreases s.len(),
{
    if s.len() > 0 {
        lemma_squeezed_len(s.drop_last());
    }
}

fn squeeze(v: &[char]) -> (r: Vec<char>)
    ensures
        r@ == squeezed(v@),
{
    let mut out: Vec<char> = Vec::new();
    let mut i: usize = 0;
    while i < v.len()
        invariant
            i <= v@.len(),
            out@ == squeezed(v@.take(i as int)),
        decreases v@.len() - i,
    {
        let ghost init = v@.take(i as int);
        proof {
            lemma_squeezed_len(init);
            assert(v@.take(i + 1).drop_last() == init);
            assert(v@.take(i + 1).last() == v@[i as int]);
            if i >= 1 {
                assert(v@.take(i + 1)[i - 1] == v@[i - 1]);
            }
        }
        let gap: bool = v[i] == ' ' || v[i] == '\t';
        if gap && i >= 1 && (v[i - 1] == ' ' || v[i - 1] == '\t') {
            let _ = out.pop();
            out.push(' ');
        } else {
            out.push(v[i]);
        }
        i = i + 1;
    }
    proof {
        assert(v@.take(v@.len() as int) == v@);
    }
    out
}

fn tidy(line: &[char]) -> (r: Vec<char>)
    ensures
        r@ == tidy_line(line@),
{
    let n: usize = trimmed_end_len(line);
    let t: &[char] = slice_subrange(line, 0, n);
    let mut out: Vec<char> = Vec::new();
    proof {
        lemma_trim_end(line@);
        assert(t@ == trim_end(line@));
    }
    if holds_char(t, '`') {
        push_all(&mut out, t);
        return out;
    }
    let k: usize = lead_len(t);
    push_all(&mut out, slice_subrange(t, 0, k));
    let rest: Vec<char> = squeeze(slice_subrange(t, k, t.len()));
    push_all(&mut out, rest.as_slice());
    proof {
        assert(t@.subrange(0, k as int) == t@.take(k as int));
        assert(t@.subrange(k as int, t@.len() as int) == t@.skip(k as int));
    }
    out
}

fn collapse(v: &[char]) -> (r: Vec<char>)
    ensures
        r@ == collapsed(v@),
{
    let lines: Vec<Vec<char>> = split_lines(v);
    let ghost all = views(lines@);
    let mut out: Vec<Vec<char>> = Vec::new();
    let mut i: usize = 0;
    while i < lines.len()
        invariant
            i <= lines@.len(),
            all == views(lines@),
            views(out@) == tidy_lines(all.take(i as int)),
        decreases lines@.len() - i,
    {
        let ghost before = views(out@);
        let line: Vec<char> = tidy(lines[i].as_slice());
        let ghost lv = line@;
        out.push(line);
        proof {
            assert(views(out@) == before.push(lv));
            assert(tidy_lines(all.take(i + 1)) == tidy_lines(all.take(i as int)).push(
                tidy_line(all[i as int]),
            ));
        }
        i = i + 1;
    }
    proof {
        assert(all.take(all.len() as int) == all);
    }
    let joined: Vec<char> = join_lines(&out);
    cap_newlines(joined.as_slice())
}

/// Takes surplus white space out of a text: blank lines, trailing white space and
/// gaps inside a line, but no indentation.
pub fn collapse_whitespace(text: &str) -> (r: String)
    ensures
        r@ == collapsed(text@),
{
    let v: Vec<char> = chars_of(text);
    let out: Vec<char> = collapse(v.as_slice());
    string_of(out.as_slice())
}

// --- The whole pipeline --------------------------------------------------------

/// `s` with every line ended by `\n` alone.
pub open spec fn unix_newlines(s: Seq<char>) -> Seq<char>
    decreases s.len(),
{
    if s.len() == 0 {
        seq![]
    } else if s.last() == '\r' {
        unix_newlines(s.drop_last()).push('\n')
    } else if s.last() == '\n' && s.len() >= 2 && s[s.len() - 2] == '\r' {
        unix_newlines(s.drop_last())
    } else {
        unix_newlines(s.drop_last()).push(s.last())
    }
}

/// The body of a segment, if it is a fenced block.
pub open spec fn fence_body(seg: Seg) -> Option<Seq<char>> {
    match seg {
        Seg::Prose(_) => None,
        Seg::Fence { body, .. } => Some(body),
    }
}

/// Segment `i` is a block with the same body, not blank, as an earlier one.
pub open spec fn is_repeat(segs: Seq<Seg>, i: int) -> bool {
    match segs[i] {
        Seg::Prose(_) => false,
        Seg::Fence { body, .. } => !is_blank(body) && exists|j: int|
            0 <= j < i && #[trigger] fence_body(segs[j]) == Some(body),
    }
}

/// What a repeated block becomes.
pub open spec fn repeat_marker() -> Seg {
    Seg::Fence {
        open: "```\n"@,
        body: "[duplicate code block removed]\n"@,
        close: Some("```\n"@),
    }
}

/// Prose with its lines ended by `\n` alone and without boilerplate.
pub open spec fn bare(p: Seq<char>) -> Seq<char> {
    stripped(unix_newlines(p))
}

/// What the long lines of the prose say.
pub open spec fn prose_keys(segs: Seq<Seg>) -> Set<Seq<char>>
    decreases segs.len(),
{
    if segs.len() == 0 {
        Set::empty()
    } else {
        match segs.last() {
            Seg::Prose(p) => prose_keys(segs.drop_last()).union(
                long_keys(split_newlines(bare(p))),
            ),
            Seg::Fence { .. } => prose_keys(segs.drop_last()),
        }
    }
}

/// What segment `i` becomes: the lines of prose are ended by `\n` alone, and it loses its
/// boilerplate, then the long lines that any prose before it has said, then its surplus
/// white space. A fenced block stays as it is, or becomes the marker.
pub open spec fn piece(segs: Seq<Seg>, i: int) -> Seg {
    match segs[i] {
        Seg::Prose(p) => Seg::Prose(collapsed(deduped(bare(p), prose_keys(segs.take(i))))),
        Seg::Fence { .. } => if is_repeat(segs, i) {
            repeat_marker()
        } else {
            segs[i]
        },
    }
}

/// What all the segments become.
pub open spec fn pieces(segs: Seq<Seg>) -> Seq<Seg> {
    Seq::new(segs.len(), |i: int| piece(segs, i))
}

/// What the segments become when this is done `n` times.
pub open spec fn repeated(segs: Seq<Seg>, n: nat) -> Seq<Seg>
    decreases n,
{
    if n == 0 {
        segs
    } else {
        pieces(repeated(segs, (n - 1) as nat))
    }
}

/// A text that is left as it is: blank, or cut into segments of which nothing changes.
pub open spec fn is_fixed(text: Seq<char>) -> bool {
    is_blank(text) || pieces(segments(text)) == segments(text)
}

/// After `n` times, the segments make a text that is left as it is, and after no fewer.
pub open spec fn first_fixed(segs: Seq<Seg>, n: nat) -> bool {
    &&& is_fixed(segs_text(repeated(segs, n)))
    &&& forall|m: nat| m < n ==> !is_fixed(segs_text(#[trigger] repeated(segs, m)))
}

/// No number of times makes a text that is left as it is.
pub open spec fn never_fixed(segs: Seq<Seg>) -> bool {
    forall|n: nat| !is_fixed(segs_text(#[trigger] repeated(segs, n)))
}

/// The segments of a text, done as often as it takes to make a text that is left as it
/// is; where nothing makes one, as they are.
pub open spec fn settled(text: Seq<char>) -> Seq<Seg> {
    let segs = segments(text);
    if never_fixed(segs) {
        segs
    } else {
        repeated(segs, choose|n: nat| first_fixed(segs, n))
    }
}

/// The text that the whole pipeline makes of `text`.
pub open spec fn compressed(text: Seq<char>) -> Seq<char> {
    if is_blank(text) {
        text
    } else {
        segs_text(settled(text))
    }
}

fn normalize_newlines(v: &[char]) -> (r: Vec<char>)
    ensures
        r@ == unix_newlines(v@),
{
    let mut out: Vec<char> = Vec::new();
    let mut i: usize = 0;
    while i < v.len()
        invariant
            i <= v@.len(),
            out@ == unix_newlines(v@.take(i as int)),
        decreases v@.len() - i,
    {
        proof {
            assert(v@.take(i + 1).drop_last() == v@.take(i as int));
            assert(v@.take(i + 1).last() == v@[i as int]);
            if i >= 1 {
                assert(v@.take(i + 1)[i - 1] == v@[i - 1]);
            }
        }
        let second: bool = v[i] == '\n' && i >= 1 && v[i - 1] == '\r';
        if v[i] == '\r' {
            out.push('\n');
        } else if !second {
            out.push(v[i]);
        }
        i = i + 1;
    }
    proof {
        assert(v@.take(v@.len() as int) == v@);
    }
    out
}

/// Whether segment `i` repeats an earlier block.
fn repeats_earlier(segs: &Vec<Segment>, i: usize) -> (r: bool)
    requires
        i < segs@.len(),
    ensures
        r == is_repeat(seg_views(segs@), i as int),
{
    let ghost all = seg_views(segs@);
    assert(all[i as int] == segs@[i as int]@);
    if let Segment::Fence { open: _, body, close: _ } = &segs[i] {
        if blank(body.as_str()) {
            return false;
        }
        let mut j: usize = 0;
        while j < i
            invariant
                j <= i < segs@.len(),
                all == seg_views(segs@),
                !is_blank(body@),
                fence_body(all[i as int]) == Some(body@),
                forall|k: int| 0 <= k < j ==> #[trigger] fence_body(all[k]) != Some(body@),
            decreases i - j,
        {
            assert(all[j as int] == segs@[j as int]@);
            if let Segment::Fence { open: _, body: other, close: _ } = &segs[j] {
                if same_text(other.as_str(), body.as_str()) {
                    assert(fence_body(all[j as int]) == Some(body@));
                    return true;
                }
            }
            j = j + 1;
        }
    }
    false
}

/// A copy of a fenced block or of prose.
fn copy_segment(seg: &Segment) -> (r: Segment)
    ensures
        r@ == seg@,
{
    match seg {
        Segment::Prose(p) => Segment::Prose(p.as_str().to_owned()),
        Segment::Fence { open, body, close } => Segment::Fence {
            open: open.as_str().to_owned(),
            body: body.as_str().to_owned(),
            close: match close {
                Some(c) => Some(c.as_str().to_owned()),
                None => None,
            },
        },
    }
}

/// Whether two segments are the same.
fn same_segment(a: &Segment, b: &Segment) -> (r: bool)
    ensures
        r == (a@ == b@),
{
    match (a, b) {
        (Segment::Prose(p), Segment::Prose(q)) => same_text(p.as_str(), q.as_str()),
        (
            Segment::Fence { open, body, close },
            Segment::Fence { open: open2, body: body2, close: close2 },
        ) => {
            let same_close: bool = match (close, close2) {
                (Some(c), Some(d)) => same_text(c.as_str(), d.as_str()),
                (None, None) => true,
                _ => false,
            };
            same_close && same_text(open.as_str(), open2.as_str()) && same_text(
                body.as_str(),
                body2.as_str(),
            )
        },
        _ => false,
    }
}

/// Whether two lists of segments are the same.
fn same_segments(a: &Vec<Segment>, b: &Vec<Segment>) -> (r: bool)
    ensures
        r == (seg_views(a@) == seg_views(b@)),
{
    if a.len() != b.len() {
        assert(seg_views(a@).len() != seg_views(b@).len());
        return false;
    }
    let mut i: usize = 0;
    while i < a.len()
        invariant
            i <= a@.len(),
            a@.len() == b@.len(),
            forall|k: int| 0 <= k < i ==> (#[trigger] a@[k])@ == b@[k]@,
        decreases a@.len() - i,
    {
        if !same_segment(&a[i], &b[i]) {
            assert(seg_views(a@)[i as int] != seg_views(b@)[i as int]);
            return false;
        }
        i = i + 1;
    }
    assert(seg_views(a@) =~= seg_views(b@));
    true
}

/// Taking boilerplate out of the prose only leaves characters out.
pub open spec fn strips_only_remove(segs: Seq<Seg>) -> bool {
    forall|i: int|
        0 <= i < segs.len() ==> (match #[trigger] segs[i] {
            Seg::Prose(p) => is_subsequence(bare(p), unix_newlines(p)),
            Seg::Fence { .. } => true,
        })
}

/// The prose of each segment, its lines ended by `\n` alone and without boilerplate;
/// nothing for a fenced block.
fn bare_prose(segs: &Vec<Segment>) -> (r: Vec<String>)
    ensures
        r@.len() == segs@.len(),
        forall|k: int|
            0 <= k < segs@.len() ==> (match #[trigger] segs@[k]@ {
                Seg::Prose(p) => r@[k]@ == bare(p) && is_subsequence(bare(p), unix_newlines(p)),
                Seg::Fence { .. } => true,
            }),
{
    let mut unix: Vec<String> = Vec::new();
    let mut i: usize = 0;
    while i < segs.len()
        invariant
            i <= segs@.len(),
            unix@.len() == i,
            forall|k: int|
                0 <= k < i ==> (match #[trigger] segs@[k]@ {
                    Seg::Prose(p) => unix@[k]@ == unix_newlines(p),
                    Seg::Fence { .. } => true,
                }),
        decreases segs@.len() - i,
    {
        match &segs[i] {
            Segment::Prose(p) => {
                let raw: Vec<char> = chars_of(p.as_str());
                let lines: Vec<char> = normalize_newlines(raw.as_slice());
                unix.push(string_of(lines.as_slice()));
            },
            Segment::Fence { .. } => {
                unix.push(String::new());
            },
        }
        i = i + 1;
    }
    let ghost from = unix@;
    let out: Vec<String> = strip_all(unix);
    assert forall|k: int| 0 <= k < segs@.len() implies (match #[trigger] segs@[k]@ {
        Seg::Prose(p) => out@[k]@ == bare(p) && is_subsequence(bare(p), unix_newlines(p)),
        Seg::Fence { .. } => true,
    }) by {
        assert(out@[k]@ == stripped(from[k]@));
        assert(is_subsequence(out@[k]@, from[k]@));
    }
    out
}

/// Does once what is done to segments.
fn round(segs: &Vec<Segment>) -> (r: Vec<Segment>)
    ensures
        seg_views(r@) == pieces(seg_views(segs@)),
        strips_only_remove(seg_views(segs@)),
{
    let plain: Vec<String> = bare_prose(segs);
    let ghost all = seg_views(segs@);
    let mut out: Vec<Segment> = Vec::new();
    let mut seen: Vec<Vec<char>> = Vec::new();
    let mut i: usize = 0;
    proof {
        assert forall|k: int| 0 <= k < all.len() implies (match #[trigger] all[k] {
            Seg::Prose(p) => is_subsequence(bare(p), unix_newlines(p)),
            Seg::Fence { .. } => true,
        }) by {
            assert(all[k] == segs@[k]@);
        }
        assert(views(seen@) == Seq::<Seq<char>>::empty());
        assert(all.take(0) == Seq::<Seg>::empty());
        assert(seg_views(out@) == pieces(all).take(0));
    }
    while i < segs.len()
        invariant
            i <= segs@.len(),
            all == seg_views(segs@),
            plain@.len() == segs@.len(),
            forall|k: int|
                0 <= k < segs@.len() ==> (match #[trigger] segs@[k]@ {
                    Seg::Prose(p) => plain@[k]@ == bare(p),
                    Seg::Fence { .. } => true,
                }),
            seg_views(out@) == pieces(all).take(i as int),
            holds_keys(seen@, prose_keys(all.take(i as int))),
        decreases segs@.len() - i,
    {
        let ghost before = seg_views(out@);
        let ghost keys = prose_keys(all.take(i as int));
        proof {
            assert(all.take(i + 1).drop_last() == all.take(i as int));
            assert(all.take(i + 1).last() == all[i as int]);
            assert(all[i as int] == segs@[i as int]@);
        }
        let next: Segment = match &segs[i] {
            Segment::Prose(_) => {
                let plain_chars: Vec<char> = chars_of(plain[i].as_str());
                let once: Vec<char> = dedupe_lines_with(
                    plain_chars.as_slice(),
                    &mut seen,
                    Ghost(keys),
                );
                let tidy_chars: Vec<char> = collapse(once.as_slice());
                Segment::Prose(string_of(tidy_chars.as_slice()))
            },
            Segment::Fence { .. } => {
                if repeats_earlier(segs, i) {
                    Segment::Fence {
                        open: "```\n".to_owned(),
                        body: "[duplicate code block removed]\n".to_owned(),
                        close: Some("```\n".to_owned()),
                    }
                } else {
                    copy_segment(&segs[i])
                }
            },
        };
        let ghost nv = next@;
        out.push(next);
        proof {
            assert(nv == piece(all, i as int));
            assert(seg_views(out@) == before.push(nv));
            assert(pieces(all).take(i + 1) == pieces(all).take(i as int).push(nv));
        }
        i = i + 1;
    }
    assert(pieces(all).take(all.len() as int) == pieces(all));
    out
}

/// Whether a text is left as it is.
fn stays(text: &str) -> (r: bool)
    ensures
        r == is_fixed(text@),
        r ==> is_blank(text@) || is_clean(segments(text@)),
{
    if blank(text) {
        return true;
    }
    let segs: Vec<Segment> = segment(text);
    let next: Vec<Segment> = round(&segs);
    let same: bool = same_segments(&next, &segs);
    proof {
        if same {
            lemma_fixed_is_clean(segments(text@));
        }
    }
    same
}

/// Compresses a text: prose loses boilerplate, repeated lines and surplus white space;
/// fenced blocks stay as they are, but for whole repeats. This is repeated until nothing
/// changes any more, so compressing the result changes nothing. It is given up, and the
/// text left as it came, only where prose has turned into a marker or lost its last line
/// end on the way, so that its neighbours would be cut differently.
pub fn rules_compress(text: &str) -> (r: String)
    ensures
        r@ == compressed(text@),
        compressed(r@) == r@,
        !is_blank(text@) && never_fixed(segments(text@)) ==> loses_its_shape(segments(text@)),
        is_blank(r@) || is_clean(segments(r@)) || (r@ == text@ && loses_its_shape(segments(text@))),
        !text@.contains('`') ==> is_blank(r@) || is_clean(segments(r@)),
{
    proof {
        law_compression_is_idempotent(text@);
    }
    if blank(text) {
        return text.to_owned();
    }
    let ghost all = segments(text@);
    let ghost mut n: nat = 1;
    let segs: Vec<Segment> = segment(text);
    let mut cur: Vec<Segment> = round(&segs);
    proof {
        law_segments_keep_every_character(text@);
        assert(repeated(all, 0) == all);
        assert(repeated(all, 1) == pieces(repeated(all, 0)));
    }
    if same_segments(&cur, &segs) {
        proof {
            assert(first_fixed(all, 0));
            lemma_settled_at(text@, 0);
            lemma_fixed_is_clean(all);
        }
        return text.to_owned();
    }
    proof {
        if !text@.contains('`') {
            lemma_plain_text(text@);
            lemma_plain_stays_plain(all);
        }
    }
    loop
        invariant
            !is_blank(text@),
            all == segments(text@),
            n >= 1,
            seg_views(cur@) == repeated(all, n),
            forall|m: nat| m < n ==> !is_fixed(segs_text(#[trigger] repeated(all, m))),
            compressed(compressed(text@)) == compressed(text@),
            !text@.contains('`') ==> is_plain(seg_views(cur@)) && seg_views(cur@).len() <= 1,
        decreases weight(seg_views(cur@)),
    {
        let out: String = reassemble(cur.as_slice());
        if stays(out.as_str()) {
            proof {
                assert(first_fixed(all, n));
                lemma_settled_at(text@, n);
            }
            return out;
        }
        let next: Vec<Segment> = round(&cur);
        proof {
            lemma_round_shrinks(seg_views(cur@));
            if !text@.contains('`') {
                lemma_plain_stays_plain(seg_views(cur@));
            }
        }
        if same_segments(&next, &cur) {
            proof {
                lemma_given_up(text@, n);
                if !text@.contains('`') {
                    lemma_plain_text(text@);
                    lemma_plain_keeps_to_itself(seg_views(cur@));
                    lemma_kept_shape_is_fixed(text@, n);
                }
            }
            return text.to_owned();
        }
        proof {
            n = n + 1;
        }
        cur = next;
    }
}

// --- Where characters come from ------------------------------------------------

pub(crate) proof fn lemma_concat_char(a: Seq<char>, b: Seq<char>, c: char)
    ensures
        (a + b).contains(c) <==> (a.contains(c) || b.contains(c)),
{
    if a.contains(c) {
        let j = choose|j: int| 0 <= j < a.len() && a[j] == c;
        assert((a + b)[j] == c);
    }
    if b.contains(c) {
        let j = choose|j: int| 0 <= j < b.len() && b[j] == c;
        assert((a + b)[a.len() + j] == c);
    }
}

proof fn lemma_push_char(s: Seq<char>, x: char, c: char)
    ensures
        s.push(x).contains(c) <==> (s.contains(c) || x == c),
{
    lemma_concat_char(s, seq![x], c);
    assert(s.push(x) == s + seq![x]);
    assert(seq![x].contains(c) <==> x == c) by {
        assert(seq![x][0] == x);
    }
}

pub(crate) proof fn lemma_unix_has_no_cr(s: Seq<char>)
    ensures
        !unix_newlines(s).contains('\r'),
    decreases s.len(),
{
    if s.len() > 0 {
        let u = unix_newlines(s.drop_last());
        lemma_unix_has_no_cr(s.drop_last());
        lemma_push_char(u, '\n', '\r');
        lemma_push_char(u, s.last(), '\r');
    }
}

/// Every line is free of `c`.
pub(crate) open spec fn lines_lack(lines: Seq<Seq<char>>, c: char) -> bool {
    forall|i: int| 0 <= i < lines.len() ==> !(#[trigger] lines[i]).contains(c)
}

pub(crate) proof fn lemma_split_lacks(s: Seq<char>, c: char)
    requires
        !s.contains(c),
    ensures
        lines_lack(split_newlines(s), c),
    decreases s.len(),
{
    lemma_first_newline(s);
    let j = first_newline(s) as int;
    if j < s.len() {
        let head = s.take(j);
        let rest = s.skip(j + 1);
        assert(s == head + (seq!['\n'] + rest));
        lemma_concat_char(head, seq!['\n'] + rest, c);
        lemma_concat_char(seq!['\n'], rest, c);
        lemma_split_lacks(rest, c);
        let lines = split_newlines(s);
        assert forall|i: int| 0 <= i < lines.len() implies !(#[trigger] lines[i]).contains(c) by {
            if i > 0 {
                assert(lines[i] == split_newlines(rest)[i - 1]);
            }
        }
    }
}

pub(crate) proof fn lemma_join_lacks(lines: Seq<Seq<char>>, c: char)
    requires
        lines_lack(lines, c),
        c != '\n',
    ensures
        !join_newlines(lines).contains(c),
    decreases lines.len(),
{
    if lines.len() == 1 {
        assert(!lines[0].contains(c));
    } else if lines.len() > 1 {
        let rest = lines.skip(1);
        assert(!lines[0].contains(c));
        assert forall|i: int| 0 <= i < rest.len() implies !(#[trigger] rest[i]).contains(c) by {
            assert(rest[i] == lines[i + 1]);
        }
        lemma_join_lacks(rest, c);
        lemma_concat_char(lines[0], seq!['\n'], c);
        lemma_concat_char(lines[0] + seq!['\n'], join_newlines(rest), c);
    }
}

pub(crate) proof fn lemma_without_repeats_lacks(lines: Seq<Seq<char>>, seen: Set<Seq<char>>, c: char)
    requires
        lines_lack(lines, c),
    ensures
        lines_lack(without_repeats(lines, seen), c),
    decreases lines.len(),
{
    if lines.len() > 0 {
        let init = lines.drop_last();
        assert forall|i: int| 0 <= i < init.len() implies !(#[trigger] init[i]).contains(c) by {
            assert(init[i] == lines[i]);
        }
        assert(!lines[lines.len() - 1].contains(c));
        lemma_without_repeats_lacks(init, seen, c);
    }
}

pub(crate) proof fn lemma_deduped_has_no_cr(s: Seq<char>, seen: Set<Seq<char>>)
    requires
        !s.contains('\r'),
    ensures
        !deduped(s, seen).contains('\r'),
{
    lemma_split_lacks(s, '\r');
    lemma_without_repeats_lacks(split_newlines(s), seen, '\r');
    lemma_join_lacks(without_repeats(split_newlines(s), seen), '\r');
}

pub(crate) proof fn lemma_capped_lacks(s: Seq<char>, c: char)
    requires
        !s.contains(c),
    ensures
        !capped(s).contains(c),
    decreases s.len(),
{
    if s.len() > 0 {
        assert(s == s.drop_last().push(s.last()));
        lemma_push_char(s.drop_last(), s.last(), c);
        lemma_capped_lacks(s.drop_last(), c);
        lemma_push_char(capped(s.drop_last()), s.last(), c);
    }
}

proof fn lemma_squeezed_lacks(s: Seq<char>, c: char)
    requires
        !s.contains(c),
        c != ' ',
    ensures
        !squeezed(s).contains(c),
    decreases s.len(),
{
    if s.len() > 0 {
        assert(s == s.drop_last().push(s.last()));
        lemma_push_char(s.drop_last(), s.last(), c);
        lemma_squeezed_lacks(s.drop_last(), c);
        lemma_squeezed_len(s.drop_last());
        let q = squeezed(s.drop_last());
        lemma_push_char(q, s.last(), c);
        if q.len() > 0 {
            assert(q == q.drop_last().push(q.last()));
            lemma_push_char(q.drop_last(), q.last(), c);
            lemma_push_char(q.drop_last(), ' ', c);
        }
    }
}

pub(crate) proof fn lemma_tidy_line_lacks(line: Seq<char>, c: char)
    requires
        !line.contains(c),
        c != ' ',
    ensures
        !tidy_line(line).contains(c),
{
    let t = trim_end(line);
    lemma_trim_end(line);
    let n = t.len() as int;
    assert(line == line.take(n) + line.skip(n));
    lemma_concat_char(line.take(n), line.skip(n), c);
    lemma_lead(t);
    let k = lead(t) as int;
    assert(t == t.take(k) + t.skip(k));
    lemma_concat_char(t.take(k), t.skip(k), c);
    lemma_squeezed_lacks(t.skip(k), c);
    lemma_concat_char(t.take(k), squeezed(t.skip(k)), c);
}

pub(crate) proof fn lemma_collapsed_has_no_cr(s: Seq<char>)
    requires
        !s.contains('\r'),
    ensures
        !collapsed(s).contains('\r'),
{
    let lines = split_newlines(s);
    lemma_split_lacks(s, '\r');
    assert forall|i: int| 0 <= i < lines.len() implies !(#[trigger] tidy_lines(lines)[i]).contains('\r') by {
        assert(!lines[i].contains('\r'));
        lemma_tidy_line_lacks(lines[i], '\r');
    }
    lemma_join_lacks(tidy_lines(lines), '\r');
    lemma_capped_lacks(join_newlines(tidy_lines(lines)), '\r');
}

// --- Laws ----------------------------------------------------------------------

pub(crate) proof fn lemma_segs_text_front(first: Seg, rest: Seq<Seg>)
    ensures
        segs_text(seq![first] + rest) == seg_text(first) + segs_text(rest),
    decreases rest.len(),
{
    let all = seq![first] + rest;
    if rest.len() == 0 {
        assert(all.drop_last() == Seq::<Seg>::empty());
        assert(all.last() == first);
        assert(segs_text(all.drop_last()) == Seq::<char>::empty());
        assert(Seq::<char>::empty() + seg_text(first) == seg_text(first) + Seq::<char>::empty());
    } else {
        lemma_segs_text_front(first, rest.drop_last());
        assert(all.drop_last() == seq![first] + rest.drop_last());
        assert(all.last() == rest.last());
        assert((seg_text(first) + segs_text(rest.drop_last())) + seg_text(rest.last()) == seg_text(
            first,
        ) + (segs_text(rest.drop_last()) + seg_text(rest.last())));
    }
}

/// Cutting a text into segments loses nothing: their texts, one after the other,
/// are the text.
pub proof fn law_segments_keep_every_character(s: Seq<char>)
    ensures
        segs_text(segments(s)) == s,
    decreases s.len(),
{
    if s.len() > 0 {
        lemma_first_newline(s);
        lemma_plain_len(s);
        if is_marker(first_line(s)) {
            let k = first_line_len(s) as int;
            let rest = s.skip(k);
            lemma_plain_len(rest);
            let n = plain_len(rest) as int;
            let body = rest.take(n);
            let tail = rest.skip(n);
            lemma_first_newline(tail);
            if tail.len() == 0 {
                let f = Seg::Fence { open: first_line(s), body, close: None };
                lemma_segs_text_front(f, Seq::empty());
                assert(seq![f] + Seq::<Seg>::empty() == seq![f]);
                assert(seg_text(f) + segs_text(Seq::<Seg>::empty()) == s);
            } else {
                let c = first_line_len(tail) as int;
                let next = tail.skip(c);
                let f = Seg::Fence { open: first_line(s), body, close: Some(first_line(tail)) };
                law_segments_keep_every_character(next);
                lemma_segs_text_front(f, segments(next));
                assert(seg_text(f) + next == s);
            }
        } else {
            let n = plain_len(s) as int;
            law_segments_keep_every_character(s.skip(n));
            lemma_segs_text_front(Seg::Prose(s.take(n)), segments(s.skip(n)));
            assert(s.take(n) + s.skip(n) == s);
        }
    }
}

pub(crate) proof fn lemma_segs_text_split(segs: Seq<Seg>, i: int)
    requires
        0 <= i <= segs.len(),
    ensures
        segs_text(segs) == segs_text(segs.take(i)) + segs_text(segs.skip(i)),
    decreases segs.len(),
{
    if i == segs.len() {
        assert(segs.take(i) == segs);
        assert(segs.skip(i) == Seq::<Seg>::empty());
        assert(segs_text(segs) + Seq::<char>::empty() == segs_text(segs));
    } else {
        let init = segs.drop_last();
        lemma_segs_text_split(init, i);
        assert(init.take(i) == segs.take(i));
        assert(init.skip(i) == segs.skip(i).drop_last());
        assert(segs.skip(i).last() == segs.last());
        assert((segs_text(init.take(i)) + segs_text(init.skip(i))) + seg_text(segs.last())
            == segs_text(init.take(i)) + (segs_text(init.skip(i)) + seg_text(segs.last())));
    }
}

} // verus!
