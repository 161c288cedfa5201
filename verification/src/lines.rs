//! Lines of a text: splitting at `\n` and joining again.

use crate::text::push_all;
use vstd::prelude::*;
use vstd::slice::slice_subrange;

verus! {

/// The texts that a list of character vectors stands for.
pub open spec fn views(v: Seq<Vec<char>>) -> Seq<Seq<char>> {
    v.map_values(|x: Vec<char>| x@)
}

/// Where the first newline of `s` is, or its length if there is none.
pub open spec fn first_newline(s: Seq<char>) -> nat
    decreases s.len(),
{
    if s.len() == 0 || s[0] == '\n' {
        0
    } else {
        1 + first_newline(s.skip(1))
    }
}

/// The texts between the newlines of `s`; always at least one.
pub open spec fn split_newlines(s: Seq<char>) -> Seq<Seq<char>>
    decreases s.len(),
    via split_newlines_decreases
{
    let j = first_newline(s) as int;
    if j >= s.len() {
        seq![s]
    } else {
        seq![s.take(j)] + split_newlines(s.skip(j + 1))
    }
}

#[via_fn]
proof fn split_newlines_decreases(s: Seq<char>) {
    lemma_first_newline(s);
}

/// The lines with a newline between each two of them.
pub open spec fn join_newlines(lines: Seq<Seq<char>>) -> Seq<char>
    decreases lines.len(),
{
    if lines.len() == 0 {
        seq![]
    } else if lines.len() == 1 {
        lines[0]
    } else {
        lines[0] + seq!['\n'] + join_newlines(lines.skip(1))
    }
}

pub proof fn lemma_first_newline(s: Seq<char>)
    ensures
        first_newline(s) <= s.len(),
        forall|i: int| 0 <= i < first_newline(s) ==> #[trigger] s[i] != '\n',
        first_newline(s) < s.len() ==> s[first_newline(s) as int] == '\n',
    decreases s.len(),
{
    if s.len() > 0 && s[0] != '\n' {
        let t = s.skip(1);
        lemma_first_newline(t);
        assert forall|i: int| 0 <= i < first_newline(s) implies #[trigger] s[i] != '\n' by {
            if i > 0 {
                assert(s[i] == t[i - 1]);
            }
        }
    }
}

pub proof fn lemma_first_newline_unique(s: Seq<char>, k: int)
    requires
        0 <= k <= s.len(),
        forall|i: int| 0 <= i < k ==> #[trigger] s[i] != '\n',
        k < s.len() ==> s[k] == '\n',
    ensures
        first_newline(s) == k,
{
    lemma_first_newline(s);
    let f = first_newline(s) as int;
    if f < k {
        assert(s[f] != '\n');
    } else if k < f {
        assert(s[k] != '\n');
    }
}

/// Joining the lines of a text gives the text back.
pub proof fn law_lines_join_back(s: Seq<char>)
    ensures
        join_newlines(split_newlines(s)) == s,
        split_newlines(s).len() >= 1,
    decreases s.len(),
{
    lemma_first_newline(s);
    let j = first_newline(s) as int;
    let lines = split_newlines(s);
    if j < s.len() {
        let rest = s.skip(j + 1);
        law_lines_join_back(rest);
        assert(lines.skip(1) == split_newlines(rest));
        assert(lines[0] == s.take(j));
        assert(s == s.take(j) + seq!['\n'] + rest);
    }
}

/// No line of a text holds a newline.
pub proof fn lemma_split_clean(s: Seq<char>)
    ensures
        forall|i: int| 0 <= i < split_newlines(s).len() ==> !(#[trigger] split_newlines(s)[i]).contains('\n'),
        split_newlines(s).len() >= 1,
    decreases s.len(),
{
    lemma_first_newline(s);
    let j = first_newline(s) as int;
    let lines = split_newlines(s);
    if j < s.len() {
        let rest = s.skip(j + 1);
        lemma_split_clean(rest);
        let tail = split_newlines(rest);
        assert forall|i: int| 0 <= i < lines.len() implies !(#[trigger] lines[i]).contains('\n') by {
            if i > 0 {
                assert(lines[i] == tail[i - 1]);
            } else {
                assert(lines[0] == s.take(j));
                assert forall|k: int| 0 <= k < j implies #[trigger] s.take(j)[k] != '\n' by {
                    assert(s[k] != '\n');
                }
            }
        }
    } else {
        assert(forall|k: int| 0 <= k < s.len() ==> s[k] != '\n');
    }
}

/// Splitting joined lines gives the lines back, if there is a line and none
/// holds a newline.
pub proof fn lemma_split_join(lines: Seq<Seq<char>>)
    requires
        lines.len() >= 1,
        forall|i: int| 0 <= i < lines.len() ==> !(#[trigger] lines[i]).contains('\n'),
    ensures
        split_newlines(join_newlines(lines)) == lines,
    decreases lines.len(),
{
    let s = join_newlines(lines);
    let head = lines[0];
    assert(!lines[0].contains('\n'));
    assert forall|i: int| 0 <= i < head.len() implies #[trigger] head[i] != '\n' by {
        if head[i] == '\n' {
            assert(head.contains('\n'));
        }
    }
    if lines.len() == 1 {
        lemma_first_newline_unique(s, s.len() as int);
        assert(lines == seq![s]);
    } else {
        let rest = lines.skip(1);
        assert forall|i: int| 0 <= i < rest.len() implies !(#[trigger] rest[i]).contains('\n') by {
            assert(rest[i] == lines[i + 1]);
        }
        lemma_split_join(rest);
        assert forall|i: int| 0 <= i < head.len() implies #[trigger] s[i] != '\n' by {
            assert(s[i] == head[i]);
        }
        lemma_first_newline_unique(s, head.len() as int);
        assert(s.take(head.len() as int) == head);
        assert(s.skip(head.len() as int + 1) == join_newlines(rest));
        assert(lines == seq![head] + rest);
    }
}

/// Splitting with one more character at the end.
pub proof fn lemma_split_push(s: Seq<char>, c: char)
    ensures
        split_newlines(s).len() >= 1,
        split_newlines(s.push(c)) == if c == '\n' {
            split_newlines(s).push(Seq::empty())
        } else {
            split_newlines(s).drop_last().push(split_newlines(s).last().push(c))
        },
    decreases s.len(),
{
    lemma_first_newline(s);
    let j = first_newline(s) as int;
    let t = s.push(c);
    assert forall|i: int| 0 <= i < j implies #[trigger] t[i] != '\n' by {
        assert(t[i] == s[i]);
    }
    if j < s.len() {
        let rest = s.skip(j + 1);
        lemma_split_push(rest, c);
        assert(t[j] == '\n');
        lemma_first_newline_unique(t, j);
        assert(t.take(j) == s.take(j));
        assert(t.skip(j + 1) == rest.push(c));
        let head = seq![s.take(j)];
        let tail = split_newlines(rest);
        assert(split_newlines(s) == head + tail);
        if c == '\n' {
            assert(head + tail.push(Seq::empty()) == (head + tail).push(Seq::empty()));
        } else {
            assert((head + tail).last() == tail.last());
            assert(head + tail.drop_last().push(tail.last().push(c)) == (head
                + tail).drop_last().push(tail.last().push(c)));
        }
    } else if c == '\n' {
        lemma_first_newline_unique(t, j);
        assert(t.take(j) == s);
        assert(t.skip(j + 1) == Seq::<char>::empty());
        assert(split_newlines(Seq::<char>::empty()) == seq![Seq::<char>::empty()]);
        assert(seq![s] + seq![Seq::<char>::empty()] == seq![s].push(Seq::empty()));
    } else {
        lemma_first_newline_unique(t, j + 1);
        assert(seq![s].drop_last().push(s.push(c)) == seq![t]);
    }
}

/// Joining with one more line at the end.
pub proof fn lemma_join_push(lines: Seq<Seq<char>>, last: Seq<char>)
    requires
        lines.len() >= 1,
    ensures
        join_newlines(lines.push(last)) == join_newlines(lines) + seq!['\n'] + last,
    decreases lines.len(),
{
    let all = lines.push(last);
    if lines.len() == 1 {
        assert(all.skip(1) == seq![last]);
        assert(join_newlines(all.skip(1)) == last);
    } else {
        lemma_join_push(lines.skip(1), last);
        assert(all.skip(1) == lines.skip(1).push(last));
        assert(join_newlines(all) == lines[0] + seq!['\n'] + (join_newlines(lines.skip(1)) + seq!['\n'] + last));
        assert(join_newlines(all) == join_newlines(lines) + seq!['\n'] + last);
    }
}

/// Where the first newline is.
pub fn newline_at(v: &[char]) -> (k: usize)
    ensures
        k == first_newline(v@),
        k <= v@.len(),
{
    let mut k: usize = 0;
    while k < v.len() && v[k] != '\n'
        invariant
            k <= v@.len(),
            forall|i: int| 0 <= i < k ==> #[trigger] v@[i] != '\n',
        decreases v@.len() - k,
    {
        k = k + 1;
    }
    proof {
        lemma_first_newline_unique(v@, k as int);
    }
    k
}

/// The lines of a text.
pub fn split_lines(v: &[char]) -> (r: Vec<Vec<char>>)
    ensures
        views(r@) == split_newlines(v@),
        r@.len() >= 1,
{
    let mut out: Vec<Vec<char>> = Vec::new();
    let mut from: usize = 0;
    let ghost whole = split_newlines(v@);
    proof {
        assert(v@.skip(0) == v@);
    }
    loop
        invariant_except_break
            from <= v@.len(),
            whole == split_newlines(v@),
            views(out@) + split_newlines(v@.skip(from as int)) == whole,
        ensures
            views(out@) == whole,
            out@.len() >= 1,
        decreases v@.len() - from,
    {
        let rest: &[char] = slice_subrange(v, from, v.len());
        let j: usize = newline_at(rest);
        let mut line: Vec<char> = Vec::new();
        push_all(&mut line, slice_subrange(rest, 0, j));
        let ghost before = views(out@);
        let ghost pushed = line@;
        let done: bool = j == rest.len();
        out.push(line);
        proof {
            assert(rest@ == v@.skip(from as int));
            assert(pushed == rest@.take(j as int));
            assert(views(out@) == before.push(pushed));
            if done {
                assert(rest@.take(j as int) == rest@);
                assert(views(out@) == before + seq![rest@]);
            } else {
                assert(rest@.skip(j + 1) == v@.skip(from + j + 1));
                assert(before.push(pushed) + split_newlines(rest@.skip(j + 1)) == before + (seq![pushed]
                    + split_newlines(rest@.skip(j + 1))));
            }
        }
        if done {
            break;
        }
        from = from + j + 1;
    }
    out
}

/// The lines, with a newline between each two.
pub fn join_lines(lines: &Vec<Vec<char>>) -> (r: Vec<char>)
    ensures
        r@ == join_newlines(views(lines@)),
{
    let mut out: Vec<char> = Vec::new();
    let mut i: usize = 0;
    let ghost all = views(lines@);
    while i < lines.len()
        invariant
            i <= lines@.len(),
            all == views(lines@),
            out@ == join_newlines(all.take(i as int)),
        decreases lines@.len() - i,
    {
        let ghost before = out@;
        if i > 0 {
            out.push('\n');
        }
        push_all(&mut out, lines[i].as_slice());
        proof {
            assert(all.take(i + 1) == all.take(i as int).push(all[i as int]));
            if i > 0 {
                lemma_join_push(all.take(i as int), all[i as int]);
                assert(before.push('\n') == before + seq!['\n']);
            } else {
                assert(all.take(1) == seq![all[0]]);
                assert(join_newlines(seq![all[0]]) == all[0]);
                assert(before == Seq::<char>::empty());
                assert(out@ == all[0]);
            }
        }
        i = i + 1;
    }
    proof {
        assert(all.take(all.len() as int) == all);
    }
    out
}

} // verus!
