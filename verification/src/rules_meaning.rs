//! What the compression rules mean: what a result has to satisfy, said of the characters
//! and lines of a text.

use crate::lines::{
    join_newlines, law_lines_join_back, lemma_join_push, lemma_split_clean, lemma_split_join,
    lemma_split_push, split_newlines,
};
use crate::outside::{
    boilerplate, regex_removed, AS_AN_AI, COMMENTS, EMPTY_BULLET, EXHORTATION, FLUFF_LINE, HOPE,
    PLEASE, PLEASE_PHRASE, THANKS, WOULD_LIKE,
};
use crate::rules::{
    capped, collapsed, deduped, ends_in_three_newlines, is_gap, is_long, lemma_squeezed_len,
    long_keys, removed_in_order, repeated, squeezed, stripped, tidy_line, tidy_lines, unix_newlines,
    without_repeats,
};
use crate::rules_laws::{
    gaps_apart, lemma_blank_iff, lemma_capped, lemma_capped_fixed, lemma_squeezed,
    lemma_squeezed_fixed, lemma_unix_fixed, newlines_apart,
};
use crate::text::{
    is_blank, is_white, lead, lemma_lead, lemma_lead_unique, lemma_trim_end, lemma_trim_end_unique,
    trim, trim_end, trim_start,
};
use vstd::prelude::*;

verus! {

broadcast use vstd::string::group_string_axioms;

// --- White space at the ends ---------------------------------------------------

/// Every character is white space.
pub open spec fn all_white(s: Seq<char>) -> bool {
    forall|i: int| 0 <= i < s.len() ==> is_white(#[trigger] s[i])
}

/// The white space at the front of a text, and that at its end.
pub open spec fn ends_of(s: Seq<char>) -> (Seq<char>, Seq<char>) {
    (s.take(lead(s) as int), s.skip((lead(s) + trim(s).len()) as int))
}

/// Trimming takes nothing but white space off the two ends of a text, and all of it: what
/// is left neither starts nor ends in white space.
pub proof fn law_trim_takes_white_space_off_the_ends(s: Seq<char>)
    ensures
        s == ends_of(s).0 + trim(s) + ends_of(s).1,
        all_white(ends_of(s).0),
        all_white(ends_of(s).1),
        trim(s).len() > 0 ==> !is_white(trim(s)[0]) && !is_white(trim(s).last()),
        trim(s).len() == 0 <==> all_white(s),
        is_blank(s) <==> all_white(s),
{
    lemma_lead(s);
    let k = lead(s) as int;
    let t = trim_start(s);
    lemma_trim_end(t);
    let n = trim(s).len() as int;
    assert(s =~= s.take(k) + trim(s) + s.skip(k + n));
    assert forall|i: int| 0 <= i < s.skip(k + n).len() implies is_white(#[trigger] s.skip(k + n)[i]) by {
        assert(s.skip(k + n)[i] == t[n + i]);
    }
    assert forall|i: int| 0 <= i < s.take(k).len() implies is_white(#[trigger] s.take(k)[i]) by {
        assert(s.take(k)[i] == s[i]);
    }
    lemma_blank_iff(s);
    if all_white(s) && k < s.len() {
        assert(is_white(s[k]));
    }
    if n > 0 {
        assert(trim(s)[0] == t[0]);
        assert(t[0] == s[k]);
    }
}

/// White space is what Unicode has as such: of ASCII the space, the tab and the line ends, and
/// no letter, digit or sign; beyond ASCII the spaces of other widths and the two separators.
pub proof fn law_what_white_space_is(c: char)
    ensures
        (c as u32) < 128 ==> (is_white(c) <==> c == ' ' || 9 <= (c as u32) <= 13),
        (c as u32) >= 128 ==> (is_white(c) <==> c == '\u{85}' || c == '\u{a0}' || c == '\u{1680}' || (
        '\u{2000}' <= c && c <= '\u{200a}') || c == '\u{2028}' || c == '\u{2029}' || c == '\u{202f}' || c
            == '\u{205f}' || c == '\u{3000}'),
{
}

// --- Repeated lines ------------------------------------------------------------

/// Line `i` says something new, or is too short to count: it has fewer than twelve
/// characters without the white space around it, or what it says was neither seen before
/// nor said by a line before it that is long enough to count.
pub open spec fn is_new(lines: Seq<Seq<char>>, seen: Set<Seq<char>>, i: int) -> bool {
    trim(lines[i]).len() < 12 || (!seen.contains(trim(lines[i])) && forall|j: int|
        0 <= j < i && trim(#[trigger] lines[j]).len() >= 12 ==> trim(lines[j]) != trim(lines[i]))
}

/// `kept` are the lines at the places `at`, in order.
pub open spec fn stand_at(kept: Seq<Seq<char>>, lines: Seq<Seq<char>>, at: Seq<int>) -> bool {
    &&& at.len() == kept.len()
    &&& forall|a: int, b: int| 0 <= a < b < at.len() ==> #[trigger] at[a] < #[trigger] at[b]
    &&& forall|a: int| 0 <= a < at.len() ==> 0 <= #[trigger] at[a] < lines.len() && kept[a] == lines[at[a]]
}

/// `kept` are exactly the lines that say something new, or are too short to count, in
/// order.
pub open spec fn are_the_new_ones(
    kept: Seq<Seq<char>>,
    lines: Seq<Seq<char>>,
    seen: Set<Seq<char>>,
) -> bool {
    exists|at: Seq<int>|
        #[trigger] stand_at(kept, lines, at) && forall|i: int|
            0 <= i < lines.len() ==> (is_new(lines, seen, i) <==> #[trigger] at.contains(i))
}

pub(crate) proof fn lemma_keys_are_said(lines: Seq<Seq<char>>, key: Seq<char>)
    ensures
        long_keys(lines).contains(key) <==> exists|j: int|
            0 <= j < lines.len() && trim(#[trigger] lines[j]).len() >= 12 && trim(lines[j]) == key,
    decreases lines.len(),
{
    if lines.len() > 0 {
        let init = lines.drop_last();
        lemma_keys_are_said(init, key);
        if exists|j: int|
            0 <= j < init.len() && trim(#[trigger] init[j]).len() >= 12 && trim(init[j]) == key {
            let j = choose|j: int|
                0 <= j < init.len() && trim(#[trigger] init[j]).len() >= 12 && trim(init[j]) == key;
            assert(lines[j] == init[j]);
        }
        if exists|j: int|
            0 <= j < lines.len() && trim(#[trigger] lines[j]).len() >= 12 && trim(lines[j]) == key {
            let j = choose|j: int|
                0 <= j < lines.len() && trim(#[trigger] lines[j]).len() >= 12 && trim(lines[j]) == key;
            if j < init.len() {
                assert(init[j] == lines[j]);
            }
        }
        if is_long(lines.last()) && trim(lines.last()) == key {
            assert(trim(lines[lines.len() - 1]).len() >= 12);
        }
    }
}

/// A line is kept exactly if it is short, or if what it says was neither seen before nor
/// said by a long line before it; and the lines that are kept stay in their order.
pub proof fn law_kept_lines_are_the_new_ones(lines: Seq<Seq<char>>, seen: Set<Seq<char>>)
    ensures
        are_the_new_ones(without_repeats(lines, seen), lines, seen),
    decreases lines.len(),
{
    let kept = without_repeats(lines, seen);
    if lines.len() == 0 {
        assert(stand_at(kept, lines, Seq::<int>::empty()));
    } else {
        let init = lines.drop_last();
        let n = lines.len() - 1;
        let line = lines.last();
        let before = without_repeats(init, seen);
        law_kept_lines_are_the_new_ones(init, seen);
        let at = choose|at: Seq<int>|
            #[trigger] stand_at(before, init, at) && forall|i: int|
                0 <= i < init.len() ==> (is_new(init, seen, i) <==> #[trigger] at.contains(i));
        assert forall|i: int| 0 <= i < n implies is_new(init, seen, i) == is_new(lines, seen, i) by {
            assert(init[i] == lines[i]);
            assert(forall|j: int| 0 <= j < i ==> init[j] == lines[j]);
        }
        lemma_keys_are_said(init, trim(line));
        if is_new(lines, seen, n) {
            if is_long(line) && long_keys(init).contains(trim(line)) {
                let j = choose|j: int|
                    0 <= j < init.len() && trim(#[trigger] init[j]).len() >= 12 && trim(init[j])
                        == trim(line);
                assert(lines[j] == init[j]);
            }
            assert(kept == before.push(line));
            let more = at.push(n as int);
            assert forall|a: int| 0 <= a < more.len() implies 0 <= #[trigger] more[a] < lines.len()
                && kept[a] == lines[more[a]] by {
                if a < at.len() {
                    assert(more[a] == at[a]);
                    assert(init[at[a]] == lines[at[a]]);
                }
            }
            assert forall|a: int, b: int| 0 <= a < b < more.len() implies #[trigger] more[a]
                < #[trigger] more[b] by {
                assert(more[a] == at[a]);
                if b < at.len() {
                    assert(more[b] == at[b]);
                }
            }
            assert(stand_at(kept, lines, more));
            assert forall|i: int| 0 <= i < lines.len() implies (is_new(lines, seen, i)
                <==> #[trigger] more.contains(i)) by {
                if i < n {
                    if at.contains(i) {
                        let a = choose|a: int| 0 <= a < at.len() && at[a] == i;
                        assert(more[a] == i);
                    }
                    if more.contains(i) {
                        let a = choose|a: int| 0 <= a < more.len() && more[a] == i;
                        assert(at[a] == i);
                    }
                } else {
                    assert(more[at.len() as int] == n);
                }
            }
        } else {
            if !seen.contains(trim(line)) {
                let j = choose|j: int|
                    0 <= j < n && trim(#[trigger] lines[j]).len() >= 12 && trim(lines[j]) == trim(line);
                assert(init[j] == lines[j]);
            }
            assert(kept == before);
            assert forall|a: int| 0 <= a < at.len() implies 0 <= #[trigger] at[a] < lines.len()
                && kept[a] == lines[at[a]] by {
                assert(init[at[a]] == lines[at[a]]);
            }
            assert(stand_at(kept, lines, at));
            assert forall|i: int| 0 <= i < lines.len() implies (is_new(lines, seen, i)
                <==> #[trigger] at.contains(i)) by {
                if i == n && at.contains(i) {
                    let a = choose|a: int| 0 <= a < at.len() && at[a] == i;
                    assert(at[a] < init.len());
                }
            }
        }
    }
}

/// Where every line is new, all are kept.
pub(crate) proof fn lemma_all_new(lines: Seq<Seq<char>>, seen: Set<Seq<char>>)
    requires
        forall|i: int| 0 <= i < lines.len() ==> #[trigger] is_new(lines, seen, i),
    ensures
        without_repeats(lines, seen) == lines,
    decreases lines.len(),
{
    if lines.len() > 0 {
        let init = lines.drop_last();
        let n = lines.len() - 1;
        assert forall|i: int| 0 <= i < init.len() implies #[trigger] is_new(init, seen, i) by {
            assert(is_new(lines, seen, i));
            assert(forall|j: int| 0 <= j <= i ==> init[j] == lines[j]);
        }
        lemma_all_new(init, seen);
        assert(is_new(lines, seen, n));
        lemma_keys_are_said(init, trim(lines.last()));
        if is_long(lines.last()) && long_keys(init).contains(trim(lines.last())) {
            let j = choose|j: int|
                0 <= j < init.len() && trim(#[trigger] init[j]).len() >= 12 && trim(init[j]) == trim(
                    lines.last(),
                );
            assert(lines[j] == init[j]);
        }
        assert(lines =~= init.push(lines.last()));
    }
}

/// Where all lines are kept, every one is new.
pub(crate) proof fn lemma_all_kept_are_new(lines: Seq<Seq<char>>, seen: Set<Seq<char>>)
    requires
        without_repeats(lines, seen) == lines,
    ensures
        forall|i: int| 0 <= i < lines.len() ==> #[trigger] is_new(lines, seen, i),
{
    law_kept_lines_are_the_new_ones(lines, seen);
    let at = choose|at: Seq<int>|
        #[trigger] stand_at(lines, lines, at) && forall|i: int|
            0 <= i < lines.len() ==> (is_new(lines, seen, i) <==> #[trigger] at.contains(i));
    assert forall|i: int| 0 <= i < lines.len() implies #[trigger] is_new(lines, seen, i) by {
        lemma_places(lines, at, i);
        assert(at[i] == i);
        assert(at.contains(i));
    }
}

proof fn lemma_places(lines: Seq<Seq<char>>, at: Seq<int>, i: int)
    requires
        stand_at(lines, lines, at),
        0 <= i < lines.len(),
    ensures
        at[i] == i,
{
    lemma_places_low(lines, at, i);
    lemma_places_high(lines, at, i);
}

proof fn lemma_places_low(lines: Seq<Seq<char>>, at: Seq<int>, i: int)
    requires
        stand_at(lines, lines, at),
        0 <= i < lines.len(),
    ensures
        at[i] >= i,
    decreases i,
{
    if i > 0 {
        lemma_places_low(lines, at, i - 1);
        assert(at[i - 1] < at[i]);
    }
}

proof fn lemma_places_high(lines: Seq<Seq<char>>, at: Seq<int>, i: int)
    requires
        stand_at(lines, lines, at),
        0 <= i < lines.len(),
    ensures
        at[i] <= i,
    decreases lines.len() - i,
{
    if i < lines.len() - 1 {
        lemma_places_high(lines, at, i + 1);
        assert(at[i] < at[i + 1]);
    } else {
        assert(at[i] < lines.len());
    }
}

// --- White space ---------------------------------------------------------------

/// Capping newlines is this, and nothing else: three in a row count as two, wherever they
/// stand, and a text without three in a row is left as it is.
pub proof fn law_capping_newlines(a: Seq<char>, b: Seq<char>, s: Seq<char>)
    ensures
        capped(a + seq!['\n', '\n', '\n'] + b) == capped(a + seq!['\n', '\n'] + b),
        newlines_apart(s) <==> capped(s) == s,
        newlines_apart(capped(s)),
    decreases b.len(),
{
    lemma_capped(s);
    if newlines_apart(s) {
        lemma_capped_fixed(s);
    }
    let three = a + seq!['\n', '\n', '\n'];
    let two = a + seq!['\n', '\n'];
    if b.len() == 0 {
        assert(three + b =~= three);
        assert(two + b =~= two);
        assert(three.drop_last() =~= two);
        let n = three.len() as int;
        assert(three[n - 1] == '\n' && three[n - 2] == '\n' && three[n - 3] == '\n');
    } else {
        let c = b.drop_last();
        law_capping_newlines(a, c, s);
        let x = three + b;
        let y = two + b;
        assert(x.drop_last() =~= three + c);
        assert(y.drop_last() =~= two + c);
        assert(x.last() == y.last());
        assert(x[x.len() - 2] == y[y.len() - 2]);
        assert(x[x.len() - 3] == y[y.len() - 3]);
    }
}

/// A text is left as it is by squeezing exactly if no two spaces or tabs stand side by side
/// in it.
pub proof fn law_squeezed_text_has_no_gaps(s: Seq<char>)
    ensures
        (forall|i: int|
            0 <= i < s.len() - 1 && (#[trigger] s[i] == ' ' || s[i] == '\t') ==> s[i + 1] != ' ' && s[i
                + 1] != '\t') <==> squeezed(s) == s,
{
    lemma_squeezed(s);
    if squeezed(s) == s {
        assert forall|i: int|
            0 <= i < s.len() - 1 && (#[trigger] s[i] == ' ' || s[i] == '\t') implies s[i + 1] != ' ' && s[i
            + 1] != '\t' by {
            assert(is_gap(s[i]));
            assert(!is_gap(s[i + 1]));
        }
    }
    if forall|i: int|
        0 <= i < s.len() - 1 && (#[trigger] s[i] == ' ' || s[i] == '\t') ==> s[i + 1] != ' ' && s[i + 1]
            != '\t' {
        assert(gaps_apart(s)) by {
            assert forall|i: int| 0 <= i < s.len() - 1 && is_gap(#[trigger] s[i]) implies !is_gap(
                s[i + 1],
            ) by {}
        }
        lemma_squeezed_fixed(s);
    }
}

proof fn lemma_squeezed_end(a: Seq<char>, g: char, h: char)
    requires
        is_gap(g),
        is_gap(h),
    ensures
        squeezed(a + seq![g, h]) == squeezed(a + seq![' ']),
{
    let two = a + seq![g, h];
    let one = a + seq![' '];
    let ag = a + seq![g];
    let q = squeezed(a);
    assert(two.drop_last() =~= ag);
    assert(ag.drop_last() =~= a);
    assert(one.drop_last() =~= a);
    assert(two[two.len() - 2] == g);
    lemma_squeezed_len(a);
    lemma_squeezed_len(ag);
    if a.len() > 0 {
        assert(ag[ag.len() - 2] == a.last());
        assert(one[one.len() - 2] == a.last());
    }
    if a.len() > 0 && is_gap(a.last()) {
        assert(squeezed(ag) == q.drop_last().push(' '));
        assert(squeezed(two) =~= q.drop_last().push(' '));
        assert(squeezed(one) =~= q.drop_last().push(' '));
    } else {
        assert(squeezed(ag) == q.push(g));
        assert(q.push(g).drop_last() =~= q);
        assert(squeezed(two) =~= q.push(' '));
        assert(squeezed(one) =~= q.push(' '));
    }
}

/// Squeezing gaps is this: two spaces or tabs side by side count as one space, wherever they
/// stand.
pub proof fn law_squeezing_gaps(a: Seq<char>, g: char, h: char, b: Seq<char>)
    requires
        g == ' ' || g == '\t',
        h == ' ' || h == '\t',
    ensures
        squeezed(a + seq![g, h] + b) == squeezed(a + seq![' '] + b),
    decreases b.len(),
{
    let two = a + seq![g, h];
    let one = a + seq![' '];
    if b.len() == 0 {
        assert(two + b =~= two);
        assert(one + b =~= one);
        lemma_squeezed_end(a, g, h);
    } else {
        let c = b.drop_last();
        law_squeezing_gaps(a, g, h, c);
        let x = two + b;
        let y = one + b;
        assert(x.drop_last() =~= two + c);
        assert(y.drop_last() =~= one + c);
        assert(x.last() == y.last());
        if c.len() > 0 {
            assert(x[x.len() - 2] == y[y.len() - 2]);
        } else {
            assert(x[x.len() - 2] == h);
            assert(y[y.len() - 2] == ' ');
        }
    }
}

/// Tidying a line takes the white space off its end, keeps the white space at its front,
/// and squeezes the gaps in between, unless there is a backtick in it; a line of white
/// space alone becomes nothing.
pub proof fn law_tidying_a_line(indent: Seq<char>, rest: Seq<char>, tail: Seq<char>)
    requires
        all_white(indent),
        all_white(tail),
        rest.len() > 0 ==> !is_white(rest[0]) && !is_white(rest.last()),
    ensures
        rest.len() == 0 ==> tidy_line(indent + rest + tail) == Seq::<char>::empty(),
        rest.contains('`') ==> tidy_line(indent + rest + tail) == indent + rest,
        rest.len() > 0 && !rest.contains('`') ==> tidy_line(indent + rest + tail) == indent + squeezed(
            rest,
        ),
{
    let line = indent + rest + tail;
    let k = indent.len() as int;
    let n = (indent + rest).len() as int;
    if rest.len() == 0 {
        assert forall|i: int| 0 <= i < line.len() implies is_white(#[trigger] line[i]) by {
            if i < k {
                assert(line[i] == indent[i]);
            } else {
                assert(line[i] == tail[i - k]);
            }
        }
        lemma_trim_end_unique(line, 0);
        let t = trim_end(line);
        assert(t =~= Seq::<char>::empty());
        assert(lead(t) == 0);
        assert(t.skip(0) =~= t);
        assert(tidy_line(line) =~= Seq::<char>::empty());
    } else {
        assert forall|i: int| n <= i < line.len() implies is_white(#[trigger] line[i]) by {
            assert(line[i] == tail[i - n]);
        }
        assert(line[n - 1] == rest.last());
        lemma_trim_end_unique(line, n);
        let t = trim_end(line);
        assert(t =~= indent + rest);
        assert forall|i: int| 0 <= i < k implies is_white(#[trigger] t[i]) by {
            assert(t[i] == indent[i]);
        }
        assert(t[k] == rest[0]);
        lemma_lead_unique(t, k);
        assert(t.take(k) =~= indent);
        assert(t.skip(k) =~= rest);
        if rest.contains('`') {
            let j = choose|j: int| 0 <= j < rest.len() && rest[j] == '`';
            assert(t[k + j] == '`');
        }
        if t.contains('`') {
            let j = choose|j: int| 0 <= j < t.len() && t[j] == '`';
            if j < k {
                assert(is_white(indent[j]));
            } else {
                assert(rest[j - k] == '`');
            }
        }
    }
}

/// The lines with something in them.
pub open spec fn with_something(lines: Seq<Seq<char>>) -> Seq<Seq<char>> {
    lines.filter(|l: Seq<char>| l.len() > 0)
}

proof fn lemma_something_push(lines: Seq<Seq<char>>, l: Seq<char>)
    ensures
        with_something(lines.push(l)) == if l.len() > 0 {
            with_something(lines).push(l)
        } else {
            with_something(lines)
        },
{
    reveal(Seq::filter);
    assert(lines.push(l).drop_last() =~= lines);
    assert(lines.push(l).last() == l);
}

proof fn lemma_capped_somethings(s: Seq<char>)
    ensures
        split_newlines(s).len() >= 1,
        split_newlines(capped(s)).len() >= 1,
        split_newlines(capped(s)).last() == split_newlines(s).last(),
        with_something(split_newlines(capped(s)).drop_last()) == with_something(
            split_newlines(s).drop_last(),
        ),
    decreases s.len(),
{
    lemma_split_clean(s);
    lemma_split_clean(capped(s));
    if s.len() > 0 {
        let init = s.drop_last();
        let c = s.last();
        assert(s =~= init.push(c));
        lemma_capped_somethings(init);
        let was = split_newlines(init);
        let kept = split_newlines(capped(init));
        lemma_split_push(init, c);
        lemma_split_push(capped(init), c);
        assert(was =~= was.drop_last().push(was.last()));
        assert(kept =~= kept.drop_last().push(kept.last()));
        lemma_something_push(was.drop_last(), was.last());
        lemma_something_push(kept.drop_last(), kept.last());
        if ends_in_three_newlines(s) {
            assert(init.last() == '\n');
            lemma_split_push(init.drop_last(), '\n');
            assert(init =~= init.drop_last().push('\n'));
            assert(was.last() == Seq::<char>::empty());
            assert(split_newlines(s).drop_last() =~= was);
        } else if c == '\n' {
            assert(split_newlines(s).drop_last() =~= was);
            assert(split_newlines(capped(s)).drop_last() =~= kept);
        } else {
            assert(split_newlines(s).drop_last() =~= was.drop_last());
            assert(split_newlines(capped(s)).drop_last() =~= kept.drop_last());
        }
    }
}

/// Collapsing white space loses no line that says something: the lines with something in
/// them are those of the text, each tidied, in their order; and no three newlines stand in
/// a row.
pub proof fn law_collapsing_loses_no_line(text: Seq<char>)
    ensures
        with_something(split_newlines(collapsed(text))) == with_something(
            tidy_lines(split_newlines(text)),
        ),
        newlines_apart(collapsed(text)),
{
    let lines = split_newlines(text);
    let tidied = tidy_lines(lines);
    let joined = join_newlines(tidied);
    lemma_split_clean(text);
    assert forall|i: int| 0 <= i < tidied.len() implies !(#[trigger] tidied[i]).contains('\n') by {
        assert(!lines[i].contains('\n'));
        crate::rules::lemma_tidy_line_lacks(lines[i], '\n');
    }
    crate::lines::lemma_split_join(tidied);
    lemma_capped_somethings(joined);
    lemma_capped(joined);
    let a = split_newlines(capped(joined));
    assert(a =~= a.drop_last().push(a.last()));
    assert(tidied =~= tidied.drop_last().push(tidied.last()));
    lemma_something_push(a.drop_last(), a.last());
    lemma_something_push(tidied.drop_last(), tidied.last());
}

/// Line ends are made `\n` by this, and nothing else: the first carriage return of a text
/// becomes one, together with the newline behind it if there is one, and then what follows
/// is looked at; a text without carriage returns is left as it is.
pub proof fn law_line_ends_are_normalized(a: Seq<char>, b: Seq<char>)
    requires
        !a.contains('\r'),
    ensures
        unix_newlines(a) == a,
        unix_newlines(a + seq!['\r', '\n'] + b) == a + seq!['\n'] + unix_newlines(b),
        (b.len() == 0 || b[0] != '\n') ==> unix_newlines(a + seq!['\r'] + b) == a + seq!['\n']
            + unix_newlines(b),
    decreases b.len(),
{
    lemma_unix_fixed(a);
    let cr = a + seq!['\r'];
    let crlf = a + seq!['\r', '\n'];
    let head = a + seq!['\n'];
    if b.len() == 0 {
        assert(cr + b =~= cr);
        assert(crlf + b =~= crlf);
        assert(cr.drop_last() =~= a);
        assert(crlf.drop_last() =~= cr);
        assert(crlf[crlf.len() - 2] == '\r');
        assert(unix_newlines(cr) =~= a.push('\n'));
        assert(unix_newlines(b) =~= Seq::<char>::empty());
        assert(head + unix_newlines(b) =~= a.push('\n'));
    } else {
        let c = b.drop_last();
        law_line_ends_are_normalized(a, c);
        let x = cr + b;
        let y = crlf + b;
        assert(x.drop_last() =~= cr + c);
        assert(y.drop_last() =~= crlf + c);
        assert(x.last() == b.last() && y.last() == b.last());
        if c.len() > 0 {
            assert(c[0] == b[0]);
            assert(x[x.len() - 2] == b[b.len() - 2]);
            assert(y[y.len() - 2] == b[b.len() - 2]);
        } else {
            assert(x[x.len() - 2] == '\r');
            assert(y[y.len() - 2] == '\n');
        }
        let u = unix_newlines(c);
        assert((head + u).push('\n') =~= head + u.push('\n'));
        assert((head + u).push(b.last()) =~= head + u.push(b.last()));
    }
}

// --- Boilerplate ---------------------------------------------------------------

/// Boilerplate is taken out by ten patterns, one after the other, each from what the last
/// one left.
pub proof fn law_boilerplate_goes_pattern_by_pattern(text: Seq<char>)
    ensures
        stripped(text) == regex_removed(
            EMPTY_BULLET@,
            regex_removed(
                FLUFF_LINE@,
                regex_removed(
                    COMMENTS@,
                    regex_removed(
                        EXHORTATION@,
                        regex_removed(
                            WOULD_LIKE@,
                            regex_removed(
                                HOPE@,
                                regex_removed(
                                    AS_AN_AI@,
                                    regex_removed(
                                        THANKS@,
                                        regex_removed(
                                            PLEASE@,
                                            regex_removed(PLEASE_PHRASE@, text),
                                        ),
                                    ),
                                ),
                            ),
                        ),
                    ),
                ),
            ),
        ),
{
    let all = boilerplate();
    reveal_with_fuel(removed_in_order, 11);
    assert(all.len() == 10);
    assert(all.drop_last() =~= all.take(9));
    assert(all.take(9).drop_last() =~= all.take(8));
    assert(all.take(8).drop_last() =~= all.take(7));
    assert(all.take(7).drop_last() =~= all.take(6));
    assert(all.take(6).drop_last() =~= all.take(5));
    assert(all.take(5).drop_last() =~= all.take(4));
    assert(all.take(4).drop_last() =~= all.take(3));
    assert(all.take(3).drop_last() =~= all.take(2));
    assert(all.take(2).drop_last() =~= all.take(1));
    assert(all.take(1).drop_last() =~= all.take(0));
}

/// A text in which no pattern finds anything keeps every character.
pub proof fn law_text_without_boilerplate_is_kept(text: Seq<char>)
    requires
        forall|k: int|
            0 <= k < boilerplate().len() ==> regex_removed(#[trigger] boilerplate()[k], text) == text,
    ensures
        stripped(text) == text,
{
    lemma_removed_nothing(boilerplate(), text, boilerplate().len() as int);
    assert(boilerplate().take(boilerplate().len() as int) =~= boilerplate());
}

proof fn lemma_removed_nothing(patterns: Seq<Seq<char>>, text: Seq<char>, n: int)
    requires
        0 <= n <= patterns.len(),
        forall|k: int| 0 <= k < patterns.len() ==> regex_removed(#[trigger] patterns[k], text) == text,
    ensures
        removed_in_order(patterns.take(n), text) == text,
    decreases n,
{
    if n > 0 {
        lemma_removed_nothing(patterns, text, n - 1);
        assert(patterns.take(n).drop_last() =~= patterns.take(n - 1));
        assert(patterns.take(n).last() == patterns[n - 1]);
    }
}

// --- Whole texts ---------------------------------------------------------------

/// A text without its repeated lines is its own lines, but for the long ones that say what
/// was seen before or what a line before them says.
pub proof fn law_deduped_text_is_its_new_lines(text: Seq<char>, seen: Set<Seq<char>>)
    ensures
        exists|kept: Seq<Seq<char>>| #[trigger]
            are_the_new_ones(kept, split_newlines(text), seen) && deduped(text, seen) == join_newlines(
                kept,
            ),
{
    law_kept_lines_are_the_new_ones(split_newlines(text), seen);
    assert(are_the_new_ones(without_repeats(split_newlines(text), seen), split_newlines(text), seen));
}

/// `out` are the lines, each tidied, in their places.
pub open spec fn are_tidied(out: Seq<Seq<char>>, lines: Seq<Seq<char>>) -> bool {
    out.len() == lines.len() && forall|i: int|
        0 <= i < lines.len() ==> #[trigger] out[i] == tidy_line(lines[i])
}

/// Collapsing white space tidies each line and then caps the newlines, and does nothing else.
pub proof fn law_collapsing_tidies_and_caps(text: Seq<char>)
    ensures
        exists|out: Seq<Seq<char>>| #[trigger]
            are_tidied(out, split_newlines(text)) && collapsed(text) == capped(join_newlines(out)),
{
    assert(are_tidied(tidy_lines(split_newlines(text)), split_newlines(text)));
}

/// Lines are what stands between newlines: as many as there are newlines and one more, none
/// with a newline in it, and joined they are the text.
pub proof fn law_lines_stand_between_newlines(lines: Seq<Seq<char>>, text: Seq<char>)
    requires
        lines.len() > 0,
        forall|i: int| 0 <= i < lines.len() ==> !(#[trigger] lines[i]).contains('\n'),
    ensures
        split_newlines(join_newlines(lines)) == lines,
        join_newlines(split_newlines(text)) == text,
        forall|last: Seq<char>| #[trigger]
            join_newlines(lines.push(last)) == join_newlines(lines) + seq!['\n'] + last,
{
    lemma_split_join(lines);
    law_lines_join_back(text);
    assert forall|last: Seq<char>| #[trigger] join_newlines(lines.push(last)) == join_newlines(lines)
        + seq!['\n'] + last by {
        lemma_join_push(lines, last);
    }
}

} // verus!
