//! What holds of the compression rules as a whole.

use crate::lines::{
    first_newline, join_newlines, law_lines_join_back, lemma_first_newline,
    lemma_first_newline_unique, lemma_join_push, lemma_split_clean, lemma_split_join,
    lemma_split_push, split_newlines,
};
use crate::rules::{
    bare, capped, collapsed, compressed, deduped, ends_in_three_newlines, fence_body, first_fixed,
    first_line, first_line_len, is_fixed, is_gap, is_long, is_marker, is_repeat,
    law_segments_keep_every_character, lemma_collapsed_has_no_cr, lemma_deduped_has_no_cr,
    lemma_plain_len, lemma_segs_text_front, lemma_segs_text_split, lemma_squeezed_len,
    lemma_tidy_line_lacks, lemma_unix_has_no_cr, long_keys, never_fixed, piece, pieces, plain_len,
    prose_keys, repeat_marker, repeated, seg_text, segments, segs_text, settled, squeezed,
    strips_only_remove, tidy_line, tidy_lines, unix_newlines, without_repeats, Seg,
};
use crate::text::{
    is_blank, is_subsequence, is_white, lead, lemma_lead, lemma_lead_unique, lemma_subsequence,
    lemma_trim_end, lemma_trim_end_unique, lemma_trim_len, lemma_whole_subsequence, trim, trim_end,
};
use vstd::prelude::*;

verus! {

// --- Repeated lines ------------------------------------------------------------

proof fn lemma_long_keys(lines: Seq<Seq<char>>, i: int)
    requires
        0 <= i < lines.len(),
        is_long(lines[i]),
    ensures
        long_keys(lines).contains(trim(lines[i])),
    decreases lines.len(),
{
    if i < lines.len() - 1 {
        lemma_long_keys(lines.drop_last(), i);
        assert(lines.drop_last()[i] == lines[i]);
    }
}

proof fn lemma_kept_come_from_lines(lines: Seq<Seq<char>>, seen: Set<Seq<char>>, i: int)
    requires
        0 <= i < without_repeats(lines, seen).len(),
    ensures
        lines.contains(without_repeats(lines, seen)[i]),
    decreases lines.len(),
{
    if lines.len() > 0 {
        let init = lines.drop_last();
        let kept = without_repeats(init, seen);
        if i < kept.len() {
            lemma_kept_come_from_lines(init, seen, i);
            let j = choose|j: int| 0 <= j < init.len() && init[j] == kept[i];
            assert(lines[j] == kept[i]);
        } else {
            assert(lines[lines.len() - 1] == lines.last());
        }
    }
}

/// Among the lines that are kept, no long one says what was seen before, and no
/// two long ones say the same.
pub proof fn law_no_repeat_is_left(lines: Seq<Seq<char>>, seen: Set<Seq<char>>)
    ensures
        forall|i: int|
            0 <= i < without_repeats(lines, seen).len() && is_long(
                #[trigger] without_repeats(lines, seen)[i],
            ) ==> !seen.contains(trim(without_repeats(lines, seen)[i])),
        forall|i: int, j: int|
            0 <= i < j < without_repeats(lines, seen).len() && is_long(
                #[trigger] without_repeats(lines, seen)[i],
            ) && is_long(#[trigger] without_repeats(lines, seen)[j]) ==> trim(
                without_repeats(lines, seen)[i],
            ) != trim(without_repeats(lines, seen)[j]),
    decreases lines.len(),
{
    if lines.len() > 0 {
        let init = lines.drop_last();
        let line = lines.last();
        let kept = without_repeats(init, seen);
        let all = without_repeats(lines, seen);
        law_no_repeat_is_left(init, seen);
        assert forall|i: int, j: int|
            0 <= i < j < all.len() && is_long(#[trigger] all[i]) && is_long(#[trigger] all[j]) implies trim(
            all[i],
        ) != trim(all[j]) by {
            assert(all[i] == kept[i]);
            if j < kept.len() {
                assert(all[j] == kept[j]);
            } else {
                lemma_kept_come_from_lines(init, seen, i);
                let k = choose|k: int| 0 <= k < init.len() && init[k] == kept[i];
                lemma_long_keys(init, k);
            }
        }
        assert forall|i: int| 0 <= i < all.len() && is_long(#[trigger] all[i]) implies !seen.contains(
            trim(all[i]),
        ) by {
            if i < kept.len() {
                assert(all[i] == kept[i]);
            }
        }
    }
}

/// Dropping repeats spares short lines: they all stay, in their order.
pub proof fn law_short_lines_stay(lines: Seq<Seq<char>>, seen: Set<Seq<char>>)
    ensures
        without_repeats(lines, seen).filter(|l: Seq<char>| !is_long(l)) == lines.filter(
            |l: Seq<char>| !is_long(l),
        ),
    decreases lines.len(),
{
    let short = |l: Seq<char>| !is_long(l);
    reveal(Seq::filter);
    if lines.len() > 0 {
        let init = lines.drop_last();
        let kept = without_repeats(init, seen);
        law_short_lines_stay(init, seen);
        let all = without_repeats(lines, seen);
        if all != kept {
            assert(all.drop_last() == kept);
            assert(all.last() == lines.last());
        }
    }
}

proof fn lemma_all_kept(lines: Seq<Seq<char>>)
    requires
        forall|i: int, j: int|
            0 <= i < j < lines.len() && is_long(#[trigger] lines[i]) && is_long(#[trigger] lines[j])
                ==> trim(lines[i]) != trim(lines[j]),
    ensures
        without_repeats(lines, Set::empty()) == lines,
    decreases lines.len(),
{
    if lines.len() > 0 {
        let init = lines.drop_last();
        assert forall|i: int, j: int|
            0 <= i < j < init.len() && is_long(#[trigger] init[i]) && is_long(
                #[trigger] init[j],
            ) implies trim(init[i]) != trim(init[j]) by {
            assert(init[i] == lines[i] && init[j] == lines[j]);
        }
        lemma_all_kept(init);
        assert(init.push(lines.last()) == lines);
        if long_keys(init).contains(trim(lines.last())) {
            lemma_key_has_line(init, trim(lines.last()));
            let k = choose|k: int|
                0 <= k < init.len() && is_long(#[trigger] init[k]) && trim(init[k]) == trim(
                    lines.last(),
                );
            assert(lines[k] == init[k]);
            if is_long(lines.last()) {
                assert(is_long(lines[lines.len() - 1]));
                assert(trim(lines[k]) != trim(lines[lines.len() - 1]));
            }
        }
    }
}

proof fn lemma_key_has_line(lines: Seq<Seq<char>>, key: Seq<char>)
    requires
        long_keys(lines).contains(key),
    ensures
        exists|k: int| 0 <= k < lines.len() && is_long(#[trigger] lines[k]) && trim(lines[k]) == key,
    decreases lines.len(),
{
    if lines.len() > 0 {
        let init = lines.drop_last();
        if long_keys(init).contains(key) {
            lemma_key_has_line(init, key);
            let k = choose|k: int|
                0 <= k < init.len() && is_long(#[trigger] init[k]) && trim(init[k]) == key;
            assert(lines[k] == init[k]);
        } else {
            assert(is_long(lines[lines.len() - 1]));
        }
    }
}

proof fn lemma_first_line_kept(lines: Seq<Seq<char>>)
    requires
        lines.len() >= 1,
    ensures
        without_repeats(lines, Set::empty()).len() >= 1,
    decreases lines.len(),
{
    if lines.len() > 1 {
        lemma_first_line_kept(lines.drop_last());
    } else {
        assert(long_keys(lines.drop_last()) == Set::<Seq<char>>::empty());
        assert(lines.drop_last().len() == 0);
    }
}

/// Dropping repeated lines a second time changes nothing.
pub proof fn law_dedupe_is_idempotent(text: Seq<char>)
    ensures
        deduped(deduped(text, Set::empty()), Set::empty()) == deduped(text, Set::empty()),
{
    let lines = split_newlines(text);
    let kept = without_repeats(lines, Set::empty());
    lemma_split_clean(text);
    lemma_first_line_kept(lines);
    assert forall|i: int| 0 <= i < kept.len() implies !(#[trigger] kept[i]).contains('\n') by {
        lemma_kept_come_from_lines(lines, Set::empty(), i);
        let j = choose|j: int| 0 <= j < lines.len() && lines[j] == kept[i];
        assert(!lines[j].contains('\n'));
    }
    lemma_split_join(kept);
    law_no_repeat_is_left(lines, Set::empty());
    lemma_all_kept(kept);
}

// --- White space ---------------------------------------------------------------

/// No two gaps stand side by side.
pub open spec fn gaps_apart(s: Seq<char>) -> bool {
    forall|i: int| 0 <= i < s.len() - 1 && is_gap(#[trigger] s[i]) ==> !is_gap(s[i + 1])
}

pub(crate) proof fn lemma_squeezed(s: Seq<char>)
    ensures
        gaps_apart(squeezed(s)),
        s.len() > 0 ==> squeezed(s).len() > 0 && is_gap(squeezed(s).last()) == is_gap(s.last()),
        s.len() > 0 && !is_gap(s.last()) ==> squeezed(s).last() == s.last(),
        s.len() > 0 && !is_gap(s[0]) ==> squeezed(s)[0] == s[0],
    decreases s.len(),
{
    if s.len() > 0 {
        let init = s.drop_last();
        lemma_squeezed(init);
        lemma_squeezed_len(init);
        let q = squeezed(init);
        let r = squeezed(s);
        if s.len() >= 2 {
            assert(init.last() == s[s.len() - 2]);
            assert(init[0] == s[0]);
            if is_gap(s.last()) && is_gap(init.last()) {
                assert forall|i: int| 0 <= i < r.len() - 1 && is_gap(#[trigger] r[i]) implies !is_gap(
                    r[i + 1],
                ) by {
                    assert(r[i] == q[i]);
                    if i + 1 < q.len() - 1 {
                        assert(r[i + 1] == q[i + 1]);
                    } else {
                        assert(!is_gap(q[i + 1]));
                        assert(q[i + 1] == q.last());
                    }
                }
                if !is_gap(s[0]) {
                    assert(q.len() >= 2) by {
                        if q.len() == 1 {
                            assert(q[0] == q.last());
                        }
                    }
                    assert(r[0] == q[0]);
                }
            } else {
                assert(r == q.push(s.last()));
                assert forall|i: int| 0 <= i < r.len() - 1 && is_gap(#[trigger] r[i]) implies !is_gap(
                    r[i + 1],
                ) by {
                    assert(r[i] == q[i]);
                    if i + 1 < q.len() {
                        assert(r[i + 1] == q[i + 1]);
                    } else {
                        assert(q[i] == q.last());
                    }
                }
                assert(r[0] == q[0]);
            }
        } else {
            assert(q == Seq::<char>::empty());
            assert(r == seq![s.last()]);
        }
    }
}

pub(crate) proof fn lemma_squeezed_fixed(s: Seq<char>)
    requires
        gaps_apart(s),
    ensures
        squeezed(s) == s,
    decreases s.len(),
{
    if s.len() > 0 {
        let init = s.drop_last();
        assert forall|i: int| 0 <= i < init.len() - 1 && is_gap(#[trigger] init[i]) implies !is_gap(
            init[i + 1],
        ) by {
            assert(s[i] == init[i]);
            assert(s[i + 1] == init[i + 1]);
        }
        lemma_squeezed_fixed(init);
        assert(init.push(s.last()) == s);
        if s.len() >= 2 && is_gap(s[s.len() - 2]) {
            assert(!is_gap(s[s.len() - 2 + 1]));
        }
    }
}

/// Tidying a line keeps its indentation: the white space before its first other
/// character is untouched.
pub proof fn law_indentation_is_kept(line: Seq<char>)
    requires
        !is_blank(line),
    ensures
        tidy_line(line).take(lead(line) as int) == line.take(lead(line) as int),
        lead(tidy_line(line)) == lead(line),
{
    lemma_blank_iff(line);
    lemma_lead(line);
    let k = lead(line) as int;
    let t = trim_end(line);
    lemma_trim_end(line);
    assert(k < line.len());
    assert(t.len() > k) by {
        if t.len() <= k {
            assert(is_white(line[k]));
        }
    }
    assert forall|i: int| 0 <= i < k implies is_white(#[trigger] t[i]) by {
        assert(t[i] == line[i]);
    }
    assert(t[k] == line[k]);
    lemma_lead_unique(t, k);
    let out = tidy_line(line);
    let rest = t.skip(k);
    lemma_squeezed(rest);
    if !t.contains('`') {
        assert(rest[0] == t[k]);
        assert(out == t.take(k) + squeezed(rest));
        assert(out[k] == squeezed(rest)[0]);
        assert forall|i: int| 0 <= i < k implies is_white(#[trigger] out[i]) by {
            assert(out[i] == t[i]);
        }
        lemma_lead_unique(out, k);
        assert(out.take(k) == line.take(k));
    } else {
        assert(out.take(k) == line.take(k));
    }
}

pub(crate) proof fn lemma_blank_iff(s: Seq<char>)
    ensures
        is_blank(s) <==> lead(s) == s.len(),
{
    lemma_lead(s);
    let t = crate::text::trim_start(s);
    lemma_trim_end(t);
    if lead(s) < s.len() {
        assert(t[0] == s[lead(s) as int]);
        if trim_end(t).len() == 0 {
            assert(is_white(t[0]));
        }
    }
}

/// Tidying a line a second time changes nothing.
pub proof fn law_tidy_line_is_idempotent(line: Seq<char>)
    ensures
        tidy_line(tidy_line(line)) == tidy_line(line),
{
    let t = trim_end(line);
    lemma_trim_end(line);
    let out = tidy_line(line);
    lemma_trim_end_unique(t, t.len() as int);
    assert(t.take(t.len() as int) == t);
    if !t.contains('`') {
        lemma_lead(t);
        let k = lead(t) as int;
        let rest = t.skip(k);
        lemma_squeezed(rest);
        lemma_tidy_line_lacks_backtick(line);
        if t.len() == 0 {
            assert(rest == Seq::<char>::empty());
            assert(out == Seq::<char>::empty());
            assert(trim_end(out) == out);
            assert(lead(out) == 0);
        } else {
            if k == t.len() {
                assert(is_white(t[t.len() - 1]));
            }
            assert(rest[0] == t[k]);
            assert(rest.last() == t.last());
            assert(!is_gap(rest[0]) && !is_gap(rest.last())) by {
                assert(is_white(' ') && is_white('\t'));
            }
            let q = squeezed(rest);
            assert(out == t.take(k) + q);
            assert(out.last() == q.last());
            lemma_trim_end_unique(out, out.len() as int);
            assert(out.take(out.len() as int) == out);
            assert forall|i: int| 0 <= i < k implies is_white(#[trigger] out[i]) by {
                assert(out[i] == t[i]);
            }
            assert(out[k] == q[0]);
            lemma_lead_unique(out, k);
            assert(out.skip(k) == q);
            assert(out.take(k) == t.take(k));
            lemma_squeezed_fixed(q);
        }
    }
}

proof fn lemma_tidy_line_lacks_backtick(line: Seq<char>)
    requires
        !trim_end(line).contains('`'),
    ensures
        !tidy_line(line).contains('`'),
{
    let t = trim_end(line);
    lemma_trim_end(line);
    lemma_trim_end_unique(t, t.len() as int);
    assert(t.take(t.len() as int) == t);
    lemma_tidy_line_lacks(t, '`');
}

/// No three newlines stand in a row.
pub open spec fn newlines_apart(s: Seq<char>) -> bool {
    forall|i: int|
        0 <= i < s.len() - 2 && #[trigger] s[i] == '\n' && s[i + 1] == '\n' ==> s[i + 2] != '\n'
}

/// The last two characters of `s` are newlines.
pub(crate) open spec fn ends_in_two_newlines(s: Seq<char>) -> bool {
    s.len() >= 2 && s.last() == '\n' && s[s.len() - 2] == '\n'
}

pub(crate) proof fn lemma_capped(s: Seq<char>)
    ensures
        newlines_apart(capped(s)),
        capped(s).len() <= s.len(),
        s.len() > 0 ==> capped(s).len() > 0 && (capped(s).last() == '\n') == (s.last() == '\n'),
        ends_in_two_newlines(capped(s)) == ends_in_two_newlines(s),
    decreases s.len(),
{
    if s.len() > 0 {
        let init = s.drop_last();
        let q = capped(init);
        lemma_capped(init);
        if init.len() > 0 {
            assert(init.last() == s[s.len() - 2]);
        }
        if init.len() > 1 {
            assert(init[init.len() - 2] == s[s.len() - 3]);
        }
        if !ends_in_three_newlines(s) {
            let r = q.push(s.last());
            assert(capped(s) == r);
            assert forall|i: int|
                0 <= i < r.len() - 2 && #[trigger] r[i] == '\n' && r[i + 1] == '\n' implies r[i + 2]
                != '\n' by {
                assert(r[i] == q[i] && r[i + 1] == q[i + 1]);
                if i + 2 < q.len() {
                    assert(r[i + 2] == q[i + 2]);
                } else {
                    assert(q[i + 1] == q.last());
                    assert(q[q.len() - 2] == '\n');
                }
            }
            if r.len() >= 2 {
                assert(r[r.len() - 2] == q.last());
            }
        }
    } else {
        assert(capped(s) == Seq::<char>::empty());
    }
}

pub(crate) proof fn lemma_capped_fixed(s: Seq<char>)
    requires
        newlines_apart(s),
    ensures
        capped(s) == s,
    decreases s.len(),
{
    if s.len() > 0 {
        let init = s.drop_last();
        assert forall|i: int|
            0 <= i < init.len() - 2 && #[trigger] init[i] == '\n' && init[i + 1] == '\n' implies init[i
            + 2] != '\n' by {
            assert(s[i] == init[i] && s[i + 1] == init[i + 1] && s[i + 2] == init[i + 2]);
        }
        lemma_capped_fixed(init);
        assert(init.push(s.last()) == s);
        if ends_in_three_newlines(s) {
            let i = s.len() - 3;
            assert(s[i] == '\n' && s[i + 1] == '\n');
            assert(s[i + 2] != '\n');
        }
    }
}

/// Every line of a capped text but the last is a line of the text, and the last one is
/// the last one of the text.
proof fn lemma_capped_lines(s: Seq<char>)
    ensures
        split_newlines(capped(s)).len() >= 1,
        split_newlines(s).len() >= 1,
        split_newlines(capped(s)).last() == split_newlines(s).last(),
        forall|k: int|
            0 <= k < split_newlines(capped(s)).len() - 1 ==> split_newlines(s).drop_last().contains(
                #[trigger] split_newlines(capped(s))[k],
            ),
    decreases s.len(),
{
    lemma_split_clean(s);
    lemma_split_clean(capped(s));
    if s.len() > 0 {
        let init = s.drop_last();
        let c = s.last();
        assert(s == init.push(c));
        lemma_capped_lines(init);
        let was = split_newlines(init);
        let kept = split_newlines(capped(init));
        lemma_split_push(init, c);
        lemma_split_push(capped(init), c);
        let lines = split_newlines(s);
        let now = split_newlines(capped(s));
        if ends_in_three_newlines(s) {
            assert(init.last() == '\n');
            lemma_split_push(init.drop_last(), '\n');
            assert(init == init.drop_last().push('\n'));
            assert(was.last() == Seq::<char>::empty());
            assert(lines.drop_last() == was);
            assert forall|k: int| 0 <= k < now.len() - 1 implies lines.drop_last().contains(
                #[trigger] now[k],
            ) by {
                assert(was.drop_last().contains(kept[k]));
                let j = choose|j: int| 0 <= j < was.drop_last().len() && was.drop_last()[j] == kept[k];
                assert(was[j] == now[k]);
            }
        } else if c == '\n' {
            assert(lines.drop_last() == was);
            assert(now.drop_last() == kept);
            assert forall|k: int| 0 <= k < now.len() - 1 implies lines.drop_last().contains(
                #[trigger] now[k],
            ) by {
                assert(now[k] == kept[k]);
                if k < kept.len() - 1 {
                    assert(was.drop_last().contains(kept[k]));
                    let j = choose|j: int|
                        0 <= j < was.drop_last().len() && was.drop_last()[j] == kept[k];
                    assert(was[j] == now[k]);
                } else {
                    assert(was[was.len() - 1] == now[k]);
                }
            }
        } else {
            assert(lines.drop_last() == was.drop_last());
            assert(now.drop_last() == kept.drop_last());
            assert forall|k: int| 0 <= k < now.len() - 1 implies lines.drop_last().contains(
                #[trigger] now[k],
            ) by {
                assert(now[k] == now.drop_last()[k]);
                assert(was.drop_last().contains(kept[k]));
            }
        }
    }
}

/// Collapsing white space a second time changes nothing.
pub proof fn law_collapse_is_idempotent(text: Seq<char>)
    ensures
        collapsed(collapsed(text)) == collapsed(text),
{
    let lines = split_newlines(text);
    let tidied = tidy_lines(lines);
    let joined = join_newlines(tidied);
    let out = capped(joined);
    lemma_split_clean(text);
    assert forall|i: int| 0 <= i < tidied.len() implies !(#[trigger] tidied[i]).contains('\n') by {
        assert(!lines[i].contains('\n'));
        lemma_tidy_line_lacks(lines[i], '\n');
    }
    lemma_split_join(tidied);
    lemma_capped_lines(joined);
    let kept = split_newlines(out);
    assert forall|k: int| 0 <= k < kept.len() implies #[trigger] tidy_lines(kept)[k] == kept[k] by {
        let j = if k < kept.len() - 1 {
            assert(tidied.drop_last().contains(kept[k]));
            choose|j: int| 0 <= j < tidied.drop_last().len() && tidied.drop_last()[j] == kept[k]
        } else {
            tidied.len() - 1
        };
        assert(kept[k] == tidied[j]);
        law_tidy_line_is_idempotent(lines[j]);
    }
    assert(tidy_lines(kept) == kept);
    law_lines_join_back(out);
    lemma_capped(joined);
    lemma_capped_fixed(out);
}

// --- Cutting a text again ------------------------------------------------------

/// One line, with or without a newline at its end.
pub open spec fn is_one_line(s: Seq<char>) -> bool {
    s.len() > 0 && first_line_len(s) == s.len()
}

/// Nothing, or lines that are all ended.
pub open spec fn ends_whole(s: Seq<char>) -> bool {
    s.len() == 0 || s.last() == '\n'
}

/// No line of `s` is a marker.
pub open spec fn lacks_markers(s: Seq<char>) -> bool {
    plain_len(s) == s.len()
}

/// Segment `i` is cut as a text is cut: prose without markers, between blocks; blocks
/// between markers; every line ended, but for the last one of all.
pub open spec fn is_cut(segs: Seq<Seg>, i: int) -> bool {
    let last = i == segs.len() - 1;
    match segs[i] {
        Seg::Prose(p) => {
            &&& lacks_markers(p)
            &&& last || ends_whole(p)
            &&& last || segs[i + 1] is Fence
        },
        Seg::Fence { open, body, close } => {
            &&& is_one_line(open)
            &&& is_marker(open)
            &&& lacks_markers(body)
            &&& match close {
                Some(c) => open.last() == '\n' && ends_whole(body) && is_one_line(c) && is_marker(c)
                    && (last || c.last() == '\n'),
                None => last && (open.last() == '\n' || body.len() == 0),
            }
        },
    }
}

/// The segments with something in them.
pub open spec fn solid(segs: Seq<Seg>) -> Seq<Seg>
    decreases segs.len(),
{
    if segs.len() == 0 {
        seq![]
    } else if segs[0] == Seg::Prose(Seq::empty()) {
        solid(segs.skip(1))
    } else {
        seq![segs[0]] + solid(segs.skip(1))
    }
}

/// The first line of a text that starts with a line.
proof fn lemma_first_line_of(line: Seq<char>, rest: Seq<char>)
    requires
        is_one_line(line),
        line.last() == '\n' || rest.len() == 0,
    ensures
        first_line_len(line + rest) == line.len(),
        first_line(line + rest) == line,
        (line + rest).skip(line.len() as int) == rest,
{
    lemma_first_newline(line);
    let s = line + rest;
    if rest.len() == 0 {
        assert(s == line);
        assert(s.take(line.len() as int) == line);
        assert(s.skip(line.len() as int) == rest);
    } else {
        let k = line.len() - 1;
        if first_newline(line) < line.len() {
            assert(first_newline(line) == k);
        } else {
            assert(line[k] != '\n');
        }
        assert forall|i: int| 0 <= i < k implies #[trigger] s[i] != '\n' by {
            assert(s[i] == line[i]);
        }
        assert(s[k] == '\n');
        lemma_first_newline_unique(s, k);
        assert(s.take(line.len() as int) == line);
        assert(s.skip(line.len() as int) == rest);
    }
}

/// The lines up to the first marker, where plain lines and then a marker follow.
proof fn lemma_plain_then_marker(p: Seq<char>, rest: Seq<char>)
    requires
        lacks_markers(p),
        ends_whole(p) || rest.len() == 0,
        rest.len() == 0 || is_marker(first_line(rest)),
    ensures
        plain_len(p + rest) == p.len(),
        p.len() > 0 ==> !is_marker(first_line(p + rest)),
        (p + rest).take(p.len() as int) == p,
        (p + rest).skip(p.len() as int) == rest,
    decreases p.len(),
{
    let s = p + rest;
    assert(s.take(p.len() as int) == p);
    assert(s.skip(p.len() as int) == rest);
    if rest.len() == 0 {
        assert(s == p);
        if p.len() > 0 {
            lemma_first_newline(p);
        }
    } else if p.len() == 0 {
        assert(s == rest);
    } else {
        lemma_first_newline(p);
        let k = first_line_len(p) as int;
        assert(first_newline(p) < p.len()) by {
            if first_newline(p) == p.len() {
                assert(p[p.len() - 1] != '\n');
            }
        }
        let line = first_line(p);
        let tail = p.skip(k);
        assert forall|i: int| 0 <= i < k - 1 implies #[trigger] line[i] != '\n' by {
            assert(line[i] == p[i]);
        }
        assert(line[k - 1] == '\n');
        lemma_first_newline_unique(line, k - 1);
        assert(s == line + (tail + rest));
        lemma_first_line_of(line, tail + rest);
        assert(plain_len(p) == k + plain_len(tail));
        if tail.len() > 0 {
            assert(tail.last() == p.last());
        }
        lemma_plain_then_marker(tail, rest);
    }
}

/// A text put together from segments that are cut as a text is cut is cut into them
/// again, but for those with nothing in them.
pub proof fn law_cut_segments_come_back(segs: Seq<Seg>)
    requires
        forall|i: int| 0 <= i < segs.len() ==> #[trigger] is_cut(segs, i),
    ensures
        segments(segs_text(segs)) == solid(segs),
    decreases segs.len(),
{
    if segs.len() == 0 {
        assert(segs_text(segs) == Seq::<char>::empty());
    } else {
        let first = segs[0];
        let rest = segs.skip(1);
        assert(is_cut(segs, 0));
        assert forall|i: int| 0 <= i < rest.len() implies #[trigger] is_cut(rest, i) by {
            assert(is_cut(segs, i + 1));
            assert(rest[i] == segs[i + 1]);
            if i + 1 < rest.len() {
                assert(rest[i + 1] == segs[i + 2]);
            }
        }
        law_cut_segments_come_back(rest);
        assert(segs == seq![first] + rest);
        lemma_segs_text_front(first, rest);
        let tail = segs_text(rest);
        let s = seg_text(first) + tail;
        if rest.len() == 0 {
            assert(tail == Seq::<char>::empty());
        }
        match first {
            Seg::Prose(p) => {
                if rest.len() > 0 {
                    lemma_starts_with_marker(rest);
                }
                lemma_plain_then_marker(p, tail);
                if p.len() == 0 {
                    assert(s == tail);
                    assert(p == Seq::<char>::empty());
                } else {
                    assert(segments(s) == seq![Seg::Prose(p)] + segments(tail));
                }
            },
            Seg::Fence { open, body, close } => {
                match close {
                    Some(c) => {
                        let after = body + (c + tail);
                        assert(s == open + after);
                        lemma_first_line_of(open, after);
                        lemma_first_line_of(c, tail);
                        lemma_plain_then_marker(body, c + tail);
                        assert((c + tail).len() > 0);
                        assert(segments(s) == seq![first] + segments(tail));
                    },
                    None => {
                        assert(s == open + body);
                        lemma_first_line_of(open, body);
                        assert(body + Seq::<char>::empty() == body);
                        lemma_plain_then_marker(body, Seq::empty());
                        assert(segments(s) == seq![first]);
                        assert(solid(rest) == Seq::<Seg>::empty());
                        assert(seq![first] + Seq::<Seg>::empty() == seq![first]);
                    },
                }
            },
        }
    }
}

/// A text whose first segment is a block starts with a marker.
proof fn lemma_starts_with_marker(segs: Seq<Seg>)
    requires
        segs.len() > 0,
        segs[0] is Fence,
        is_cut(segs, 0),
    ensures
        segs_text(segs).len() > 0,
        is_marker(first_line(segs_text(segs))),
{
    let rest = segs.skip(1);
    assert(segs == seq![segs[0]] + rest);
    lemma_segs_text_front(segs[0], rest);
    match segs[0] {
        Seg::Fence { open, body, close } => {
            let after = body + (match close {
                Some(c) => c,
                None => seq![],
            }) + segs_text(rest);
            assert(segs_text(segs) == open + after);
            if rest.len() == 0 {
                assert(segs_text(rest) == Seq::<char>::empty());
            }
            lemma_first_line_of(open, after);
        },
        Seg::Prose(_) => {},
    }
}

proof fn lemma_plain_run(s: Seq<char>)
    ensures
        lacks_markers(s.take(plain_len(s) as int)),
        plain_len(s) < s.len() ==> is_marker(first_line(s.skip(plain_len(s) as int))) && ends_whole(
            s.take(plain_len(s) as int),
        ),
    decreases s.len(),
{
    lemma_plain_len(s);
    let n = plain_len(s) as int;
    if s.len() == 0 || is_marker(first_line(s)) {
        assert(s.skip(0) == s);
        assert(s.take(0).len() == 0);
    } else {
        lemma_first_newline(s);
        let k = first_line_len(s) as int;
        let tail = s.skip(k);
        lemma_plain_run(tail);
        lemma_plain_len(tail);
        let m = plain_len(tail) as int;
        assert(n == k + m);
        assert(tail.skip(m) == s.skip(n));
        let p = s.take(n);
        assert(p.skip(k) == tail.take(m));
        if m > 0 && n < s.len() {
            assert(p.last() == tail.take(m).last());
        }
        if m == 0 && n < s.len() {
            assert(p.last() == s[k - 1]);
        }
        // The first line of `p` is that of `s`.
        if first_newline(s) < s.len() {
            assert forall|i: int| 0 <= i < k - 1 implies #[trigger] p[i] != '\n' by {
                assert(p[i] == s[i]);
            }
            assert(p[k - 1] == s[k - 1]);
            lemma_first_newline_unique(p, k - 1);
        } else {
            assert forall|i: int| 0 <= i < k implies #[trigger] p[i] != '\n' by {
                assert(p[i] == s[i]);
            }
            assert(m == 0);
            lemma_first_newline_unique(p, k);
        }
        assert(first_line(p) == first_line(s));
        assert(plain_len(p) == k + plain_len(p.skip(k)));
    }
}

proof fn lemma_first_line(s: Seq<char>)
    requires
        s.len() > 0,
    ensures
        is_one_line(first_line(s)),
        first_line_len(s) < s.len() ==> first_line(s).last() == '\n',
{
    lemma_first_newline(s);
    let k = first_line_len(s) as int;
    let line = first_line(s);
    assert forall|i: int| 0 <= i < first_newline(s) implies #[trigger] line[i] != '\n' by {
        assert(line[i] == s[i]);
    }
    if first_newline(s) < s.len() {
        assert(line[k - 1] == s[k - 1]);
        lemma_first_newline_unique(line, k - 1);
    } else {
        lemma_first_newline_unique(line, k);
    }
}

/// The segments of a text are cut as a text is cut.
pub proof fn law_texts_are_cut(s: Seq<char>)
    ensures
        forall|i: int| 0 <= i < segments(s).len() ==> #[trigger] is_cut(segments(s), i),
        s.len() > 0 ==> segments(s).len() > 0,
        s.len() > 0 && is_marker(first_line(s)) ==> segments(s)[0] is Fence,
    decreases s.len(),
{
    if s.len() > 0 {
        lemma_first_newline(s);
        lemma_plain_len(s);
        if is_marker(first_line(s)) {
            let k = first_line_len(s) as int;
            let rest = s.skip(k);
            lemma_first_line(s);
            lemma_plain_len(rest);
            lemma_plain_run(rest);
            let n = plain_len(rest) as int;
            let tail = rest.skip(n);
            let body = rest.take(n);
            lemma_first_newline(tail);
            if tail.len() == 0 {
                let f = Seg::Fence { open: first_line(s), body, close: None };
                assert(segments(s) == seq![f]);
                assert(body == rest);
            } else {
                lemma_first_line(tail);
                let next = tail.skip(first_line_len(tail) as int);
                let f = Seg::Fence { open: first_line(s), body, close: Some(first_line(tail)) };
                law_texts_are_cut(next);
                assert(segments(s) == seq![f] + segments(next));
                lemma_cut_front(f, segments(next));
            }
        } else {
            let n = plain_len(s) as int;
            let rest = s.skip(n);
            lemma_plain_run(s);
            law_texts_are_cut(rest);
            let f = Seg::Prose(s.take(n));
            assert(segments(s) == seq![f] + segments(rest));
            lemma_cut_front(f, segments(rest));
        }
    }
}

proof fn lemma_cut_front(first: Seg, rest: Seq<Seg>)
    requires
        forall|i: int| 0 <= i < rest.len() ==> #[trigger] is_cut(rest, i),
        is_cut(seq![first] + rest, 0),
    ensures
        forall|i: int| 0 <= i < rest.len() + 1 ==> #[trigger] is_cut(seq![first] + rest, i),
{
    let all = seq![first] + rest;
    assert forall|i: int| 0 <= i < all.len() implies #[trigger] is_cut(all, i) by {
        if i > 0 {
            assert(is_cut(rest, i - 1));
            assert(all[i] == rest[i - 1]);
            if i + 1 < all.len() {
                assert(all[i + 1] == rest[i]);
            }
        }
    }
}

// --- Each round leaves less ----------------------------------------------------

pub(crate) proof fn lemma_capped_shrinks(s: Seq<char>)
    ensures
        capped(s).len() <= s.len(),
        capped(s).len() == s.len() ==> capped(s) == s,
    decreases s.len(),
{
    if s.len() > 0 {
        lemma_capped_shrinks(s.drop_last());
        assert(s == s.drop_last().push(s.last()));
    }
}

proof fn lemma_squeezed_shrinks(s: Seq<char>)
    ensures
        squeezed(s).len() <= s.len(),
        squeezed(s).len() == s.len() ==> squeezed(s) == s,
    decreases s.len(),
{
    if s.len() > 0 {
        lemma_squeezed_shrinks(s.drop_last());
        lemma_squeezed_len(s.drop_last());
        assert(s == s.drop_last().push(s.last()));
    }
}

pub(crate) proof fn lemma_tidy_line_shrinks(line: Seq<char>)
    ensures
        tidy_line(line).len() <= line.len(),
        tidy_line(line).len() == line.len() ==> tidy_line(line) == line,
{
    let t = trim_end(line);
    lemma_trim_end(line);
    lemma_lead(t);
    let k = lead(t) as int;
    lemma_squeezed_shrinks(t.skip(k));
    assert(t == t.take(k) + t.skip(k));
    if t.len() == line.len() {
        assert(line.take(line.len() as int) == line);
    }
}

pub(crate) proof fn lemma_tidied_shrink(lines: Seq<Seq<char>>)
    ensures
        join_newlines(tidy_lines(lines)).len() <= join_newlines(lines).len(),
        join_newlines(tidy_lines(lines)).len() == join_newlines(lines).len() ==> tidy_lines(lines)
            == lines,
    decreases lines.len(),
{
    if lines.len() == 0 {
        assert(tidy_lines(lines) =~= lines);
    } else {
        let init = lines.drop_last();
        let last = lines.last();
        lemma_tidied_shrink(init);
        lemma_tidy_line_shrinks(last);
        assert(lines == init.push(last));
        assert(tidy_lines(lines) =~= tidy_lines(init).push(tidy_line(last)));
        if init.len() > 0 {
            lemma_join_push(init, last);
            lemma_join_push(tidy_lines(init), tidy_line(last));
        } else {
            assert(join_newlines(lines) == last);
            assert(join_newlines(tidy_lines(lines)) == tidy_line(last));
        }
    }
}

pub(crate) proof fn lemma_collapsed_shrinks(s: Seq<char>)
    ensures
        collapsed(s).len() <= s.len(),
        collapsed(s).len() == s.len() ==> collapsed(s) == s,
{
    let lines = split_newlines(s);
    law_lines_join_back(s);
    lemma_tidied_shrink(lines);
    lemma_capped_shrinks(join_newlines(tidy_lines(lines)));
}

pub(crate) proof fn lemma_without_repeats_shrink(lines: Seq<Seq<char>>, seen: Set<Seq<char>>)
    ensures
        join_newlines(without_repeats(lines, seen)).len() <= join_newlines(lines).len(),
        join_newlines(without_repeats(lines, seen)).len() == join_newlines(lines).len()
            ==> without_repeats(lines, seen) == lines,
    decreases lines.len(),
{
    if lines.len() == 0 {
        assert(without_repeats(lines, seen) =~= lines);
    } else {
        let init = lines.drop_last();
        let last = lines.last();
        let kept = without_repeats(init, seen);
        lemma_without_repeats_shrink(init, seen);
        lemma_trim_len(last);
        assert(lines == init.push(last));
        if init.len() > 0 {
            lemma_join_push(init, last);
        } else {
            assert(join_newlines(lines) == last);
            assert(kept =~= Seq::<Seq<char>>::empty());
        }
        if without_repeats(lines, seen) == kept.push(last) {
            if kept.len() > 0 {
                lemma_join_push(kept, last);
            } else {
                assert(kept.push(last)[0] == last);
                assert(join_newlines(kept.push(last)) == last);
            }
        }
    }
}

pub(crate) proof fn lemma_deduped_shrinks(s: Seq<char>, seen: Set<Seq<char>>)
    ensures
        deduped(s, seen).len() <= s.len(),
        deduped(s, seen).len() == s.len() ==> deduped(s, seen) == s,
{
    law_lines_join_back(s);
    lemma_without_repeats_shrink(split_newlines(s), seen);
}

pub(crate) proof fn lemma_unix_shrinks(s: Seq<char>)
    ensures
        unix_newlines(s).len() <= s.len(),
    decreases s.len(),
{
    if s.len() > 0 {
        lemma_unix_shrinks(s.drop_last());
    }
}

pub(crate) proof fn lemma_unix_fixed(s: Seq<char>)
    requires
        !s.contains('\r'),
    ensures
        unix_newlines(s) == s,
    decreases s.len(),
{
    if s.len() > 0 {
        let init = s.drop_last();
        assert(!init.contains('\r')) by {
            if init.contains('\r') {
                let j = choose|j: int| 0 <= j < init.len() && init[j] == '\r';
                assert(s[j] == '\r');
            }
        }
        lemma_unix_fixed(init);
        assert(s[s.len() - 1] != '\r');
        if s.len() >= 2 {
            assert(s[s.len() - 2] != '\r');
        }
        assert(init.push(s.last()) == s);
    }
}

/// How much there is to do about a segment, at most.
pub open spec fn seg_weight(seg: Seg) -> nat {
    match seg {
        Seg::Prose(p) => p.len() + if p.contains('\r') {
            1nat
        } else {
            0
        },
        Seg::Fence { .. } => if seg == repeat_marker() {
            0
        } else {
            1
        },
    }
}

/// How much there is to do, at most.
pub open spec fn weight(segs: Seq<Seg>) -> nat
    decreases segs.len(),
{
    if segs.len() == 0 {
        0
    } else {
        weight(segs.drop_last()) + seg_weight(segs.last())
    }
}

proof fn lemma_piece_shrinks(segs: Seq<Seg>, i: int)
    requires
        strips_only_remove(segs),
        0 <= i < segs.len(),
    ensures
        seg_weight(piece(segs, i)) <= seg_weight(segs[i]),
        seg_weight(piece(segs, i)) == seg_weight(segs[i]) ==> piece(segs, i) == segs[i],
{
    match segs[i] {
        Seg::Prose(p) => {
            let u = unix_newlines(p);
            let b = bare(p);
            let keys = prose_keys(segs.take(i));
            let d = deduped(b, keys);
            assert(is_subsequence(b, u));
            lemma_unix_has_no_cr(p);
            lemma_unix_shrinks(p);
            lemma_subsequence(b, u);
            assert(!b.contains('\r'));
            lemma_deduped_has_no_cr(b, keys);
            lemma_collapsed_has_no_cr(d);
            lemma_deduped_shrinks(b, keys);
            lemma_collapsed_shrinks(d);
            if collapsed(d).len() == p.len() && !p.contains('\r') {
                lemma_unix_fixed(p);
                lemma_whole_subsequence(b, u);
            }
        },
        Seg::Fence { .. } => {},
    }
}

proof fn lemma_weights(a: Seq<Seg>, b: Seq<Seg>)
    requires
        a.len() == b.len(),
        forall|i: int| 0 <= i < a.len() ==> seg_weight(#[trigger] a[i]) <= seg_weight(b[i]),
        forall|i: int|
            0 <= i < a.len() && seg_weight(#[trigger] a[i]) == seg_weight(b[i]) ==> a[i] == b[i],
    ensures
        weight(a) <= weight(b),
        weight(a) == weight(b) ==> a == b,
    decreases a.len(),
{
    if a.len() > 0 {
        let (c, d) = (a.drop_last(), b.drop_last());
        assert forall|i: int| 0 <= i < c.len() implies seg_weight(#[trigger] c[i]) <= seg_weight(d[i]) by {
            assert(c[i] == a[i] && d[i] == b[i]);
        }
        assert forall|i: int|
            0 <= i < c.len() && seg_weight(#[trigger] c[i]) == seg_weight(d[i]) implies c[i] == d[i] by {
            assert(c[i] == a[i] && d[i] == b[i]);
        }
        lemma_weights(c, d);
        let k = a.len() - 1;
        assert(seg_weight(a[k]) <= seg_weight(b[k]));
        if weight(a) == weight(b) {
            assert(a[k] == b[k]);
            assert(a =~= c.push(a[k]));
            assert(b =~= d.push(b[k]));
        }
    } else {
        assert(a =~= b);
    }
}

/// What is done to segments leaves less to do, unless it changes nothing.
pub(crate) proof fn lemma_round_shrinks(segs: Seq<Seg>)
    requires
        strips_only_remove(segs),
    ensures
        weight(pieces(segs)) <= weight(segs),
        pieces(segs) != segs ==> weight(pieces(segs)) < weight(segs),
{
    let made = pieces(segs);
    assert forall|i: int| 0 <= i < made.len() implies seg_weight(#[trigger] made[i]) <= seg_weight(
        segs[i],
    ) by {
        lemma_piece_shrinks(segs, i);
    }
    assert forall|i: int|
        0 <= i < made.len() && seg_weight(#[trigger] made[i]) == seg_weight(segs[i]) implies made[i]
        == segs[i] by {
        lemma_piece_shrinks(segs, i);
    }
    lemma_weights(made, segs);
}

// --- The pipeline --------------------------------------------------------------

/// What the choice in [`settled`] comes to.
pub(crate) proof fn lemma_settled_at(text: Seq<char>, n: nat)
    requires
        first_fixed(segments(text), n),
    ensures
        settled(text) == repeated(segments(text), n),
{
    let segs = segments(text);
    assert(is_fixed(segs_text(repeated(segs, n))));
    let m = choose|m: nat| first_fixed(segs, m);
    assert(first_fixed(segs, m));
    if m < n {
        assert(!is_fixed(segs_text(repeated(segs, m))));
    } else if n < m {
        assert(!is_fixed(segs_text(repeated(segs, n))));
    }
}

pub(crate) proof fn lemma_first_fixed_exists(segs: Seq<Seg>, n: nat)
    requires
        is_fixed(segs_text(repeated(segs, n))),
    ensures
        exists|m: nat| first_fixed(segs, m),
    decreases n,
{
    if !first_fixed(segs, n) {
        let m = choose|m: nat| m < n && is_fixed(segs_text(#[trigger] repeated(segs, m)));
        lemma_first_fixed_exists(segs, m);
    }
}

/// Compressing a second time changes nothing.
pub proof fn law_compression_is_idempotent(text: Seq<char>)
    ensures
        compressed(compressed(text)) == compressed(text),
{
    let out = compressed(text);
    if !is_blank(text) {
        let segs = segments(text);
        law_segments_keep_every_character(text);
        if !never_fixed(segs) {
            let k = choose|k: nat| is_fixed(segs_text(#[trigger] repeated(segs, k)));
            lemma_first_fixed_exists(segs, k);
            let n = choose|n: nat| first_fixed(segs, n);
            assert(first_fixed(segs, n));
            lemma_settled_at(text, n);
            if !is_blank(out) {
                let again = segments(out);
                law_segments_keep_every_character(out);
                assert(repeated(again, 0) == again);
                assert(first_fixed(again, 0));
                lemma_settled_at(out, 0);
            }
        }
    }
}

/// Where one pass over the segments makes a text that is left as it is, that text is the
/// result.
pub proof fn law_one_pass_is_enough(text: Seq<char>)
    requires
        !is_blank(text),
        is_fixed(segs_text(pieces(segments(text)))),
    ensures
        compressed(text) == segs_text(pieces(segments(text))),
{
    let segs = segments(text);
    law_segments_keep_every_character(text);
    assert(repeated(segs, 0) == segs);
    assert(repeated(segs, 1) == pieces(repeated(segs, 0)));
    if is_fixed(text) {
        assert(first_fixed(segs, 0));
        lemma_settled_at(text, 0);
    } else {
        assert forall|m: nat| m < 1 implies !is_fixed(segs_text(#[trigger] repeated(segs, m))) by {
            assert(m == 0);
        }
        assert(first_fixed(segs, 1));
        lemma_settled_at(text, 1);
    }
}

/// However often it is done, prose stays prose, and a block stays as it is or becomes the
/// marker; it becomes the marker only if a block before it has the same body, or if it says
/// what the marker says.
proof fn lemma_repeated_blocks(segs: Seq<Seg>, n: nat, i: int)
    requires
        0 <= i < segs.len(),
    ensures
        repeated(segs, n).len() == segs.len(),
        segs[i] is Prose <==> repeated(segs, n)[i] is Prose,
        segs[i] is Fence ==> repeated(segs, n)[i] == segs[i] || repeated(segs, n)[i]
            == repeat_marker(),
        segs[i] is Fence && !is_repeat(segs, i) && fence_body(segs[i]) != fence_body(repeat_marker())
            ==> repeated(segs, n)[i] == segs[i],
    decreases n,
{
    if n > 0 {
        let before = repeated(segs, (n - 1) as nat);
        lemma_repeated_blocks(segs, (n - 1) as nat, i);
        assert(repeated(segs, n)[i] == piece(before, i));
        if segs[i] is Fence && !is_repeat(segs, i) && fence_body(segs[i]) != fence_body(
            repeat_marker(),
        ) {
            if is_repeat(before, i) {
                match segs[i] {
                    Seg::Fence { open, body, close } => {
                        let j = choose|j: int|
                            0 <= j < i && #[trigger] fence_body(before[j]) == Some(body);
                        lemma_repeated_blocks(segs, (n - 1) as nat, j);
                        assert(fence_body(segs[j]) == Some(body));
                    },
                    Seg::Prose(_) => {},
                }
            }
        }
    }
}

/// Compression leaves fenced code alone: each fenced block stands in the result, byte for
/// byte and with its own line ends, exactly as it stood in the text, between what the
/// segments before it and those after it became, unless a block before it has the same
/// body. (A block that says just what the marker says may become the marker.)
pub proof fn law_fenced_code_is_kept(text: Seq<char>, i: int)
    requires
        !is_blank(text),
        0 <= i < segments(text).len(),
        segments(text)[i] is Fence,
        !is_repeat(segments(text), i),
        fence_body(segments(text)[i]) != fence_body(repeat_marker()),
    ensures
        settled(text)[i] == segments(text)[i],
        settled(text).len() == segments(text).len(),
        compressed(text) == segs_text(settled(text).take(i)) + seg_text(segments(text)[i]) + segs_text(
            settled(text).skip(i + 1),
        ),
{
    let segs = segments(text);
    let out = settled(text);
    lemma_repeated_blocks(segs, choose|n: nat| first_fixed(segs, n), i);
    assert(out[i] == segs[i]);
    lemma_segs_text_split(out, i);
    assert(out.skip(i) == seq![out[i]] + out.skip(i + 1));
    lemma_segs_text_front(out[i], out.skip(i + 1));
    assert(segs_text(out.take(i)) + (seg_text(out[i]) + segs_text(out.skip(i + 1))) == segs_text(
        out.take(i),
    ) + seg_text(out[i]) + segs_text(out.skip(i + 1)));
}

// --- When compression is given up ----------------------------------------------

/// What prose `i` has become leaves its neighbours alone: no line of it has turned into a
/// marker, and its last line is still ended.
pub open spec fn keeps_to_itself(made: Seq<Seg>, i: int) -> bool {
    match made[i] {
        Seg::Prose(q) => lacks_markers(q) && (i == made.len() - 1 || ends_whole(q)),
        Seg::Fence { .. } => true,
    }
}

/// However often it takes until nothing changes, prose has by then turned into a marker or
/// lost its last line end.
pub open spec fn loses_its_shape(segs: Seq<Seg>) -> bool {
    exists|n: nat, i: int|
        #![trigger keeps_to_itself(repeated(segs, n), i)]
        0 <= i < segs.len() && pieces(repeated(segs, n)) == repeated(segs, n) && !keeps_to_itself(
            repeated(segs, n),
            i,
        )
}

proof fn lemma_solid_push(segs: Seq<Seg>, x: Seg)
    ensures
        solid(segs.push(x)) == if x == Seg::Prose(Seq::empty()) {
            solid(segs)
        } else {
            solid(segs).push(x)
        },
    decreases segs.len(),
{
    let all = segs.push(x);
    if segs.len() == 0 {
        assert(all[0] == x);
        assert(all.skip(1) =~= Seq::<Seg>::empty());
        assert(solid(all.skip(1)) == Seq::<Seg>::empty());
        assert(solid(segs) == Seq::<Seg>::empty());
        assert(seq![x] + Seq::<Seg>::empty() =~= Seq::<Seg>::empty().push(x));
    } else {
        lemma_solid_push(segs.skip(1), x);
        assert(all.skip(1) =~= segs.skip(1).push(x));
        assert(all[0] == segs[0]);
        let rest = solid(segs.skip(1));
        assert(seq![segs[0]] + rest.push(x) =~= (seq![segs[0]] + rest).push(x));
    }
}

/// What is done to a segment depends on it and those before it alone.
proof fn lemma_piece_of_front(segs: Seq<Seg>, x: Seg, k: int)
    requires
        0 <= k < segs.len(),
    ensures
        piece(segs.push(x), k) == piece(segs, k),
{
    let all = segs.push(x);
    assert(all.take(k) =~= segs.take(k));
    assert(all[k] == segs[k]);
    if is_repeat(all, k) {
        match segs[k] {
            Seg::Fence { open, body, close } => {
                let j = choose|j: int| 0 <= j < k && #[trigger] fence_body(all[j]) == Some(body);
                assert(fence_body(segs[j]) == Some(body));
            },
            Seg::Prose(_) => {},
        }
    }
    if is_repeat(segs, k) {
        match segs[k] {
            Seg::Fence { open, body, close } => {
                let j = choose|j: int| 0 <= j < k && #[trigger] fence_body(segs[j]) == Some(body);
                assert(fence_body(all[j]) == Some(body));
            },
            Seg::Prose(_) => {},
        }
    }
}

/// Some block has this body.
spec fn has_body(segs: Seq<Seg>, body: Seq<char>) -> bool {
    exists|j: int| 0 <= j < segs.len() && #[trigger] fence_body(segs[j]) == Some(body)
}

proof fn lemma_has_body_push(segs: Seq<Seg>, x: Seg, body: Seq<char>)
    ensures
        has_body(segs.push(x), body) <==> has_body(segs, body) || fence_body(x) == Some(body),
{
    let all = segs.push(x);
    if has_body(segs, body) {
        let j = choose|j: int| 0 <= j < segs.len() && #[trigger] fence_body(segs[j]) == Some(body);
        assert(fence_body(all[j]) == Some(body));
    }
    if fence_body(x) == Some(body) {
        assert(fence_body(all[segs.len() as int]) == Some(body));
    }
    if has_body(all, body) && fence_body(x) != Some(body) {
        let j = choose|j: int| 0 <= j < all.len() && #[trigger] fence_body(all[j]) == Some(body);
        assert(fence_body(segs[j]) == Some(body));
    }
}

proof fn lemma_nothing_is_bare()
    requires
        is_subsequence(bare(Seq::empty()), unix_newlines(Seq::empty())),
    ensures
        long_keys(split_newlines(bare(Seq::empty()))) == Set::<Seq<char>>::empty(),
{
    let none = Seq::<char>::empty();
    assert(unix_newlines(none) =~= none);
    lemma_subsequence(bare(none), none);
    assert(bare(none) =~= none);
    assert(split_newlines(none) =~= seq![none]);
    let lines = seq![none];
    lemma_trim_len(none);
    assert(!is_long(lines.last()));
    assert(lines.drop_last() =~= Seq::<Seq<char>>::empty());
    assert(long_keys(lines.drop_last()) == Set::<Seq<char>>::empty());
}

/// Leaving out the segments with nothing in them makes no difference to the others.
proof fn lemma_solid_is_fixed(segs: Seq<Seg>, n: int)
    requires
        pieces(segs) == segs,
        strips_only_remove(segs),
        0 <= n <= segs.len(),
    ensures
        prose_keys(solid(segs.take(n))) == prose_keys(segs.take(n)),
        forall|body: Seq<char>| #[trigger]
            has_body(solid(segs.take(n)), body) <==> has_body(segs.take(n), body),
        pieces(solid(segs.take(n))) == solid(segs.take(n)),
    decreases n,
{
    if n == 0 {
        assert(segs.take(0) =~= Seq::<Seg>::empty());
        assert(pieces(solid(segs.take(0))) =~= solid(segs.take(0)));
    } else {
        let front = segs.take(n - 1);
        let x = segs[n - 1];
        let kept = solid(front);
        lemma_solid_is_fixed(segs, n - 1);
        assert(segs.take(n) =~= front.push(x));
        lemma_solid_push(front, x);
        assert(front.push(x).drop_last() =~= front);
        assert forall|body: Seq<char>| #[trigger]
            has_body(solid(segs.take(n)), body) <==> has_body(segs.take(n), body) by {
            lemma_has_body_push(front, x, body);
            lemma_has_body_push(kept, x, body);
            assert(has_body(kept, body) <==> has_body(front, body));
        }
        if x == Seg::Prose(Seq::empty()) {
            assert(strips_only_remove(segs));
            assert(is_subsequence(bare(Seq::empty()), unix_newlines(Seq::empty())));
            lemma_nothing_is_bare();
            assert(prose_keys(front).union(Set::empty()) =~= prose_keys(front));
        } else {
            let all = kept.push(x);
            assert(all.drop_last() =~= kept);
            assert forall|k: int| 0 <= k < all.len() implies #[trigger] pieces(all)[k] == all[k] by {
                if k < kept.len() {
                    lemma_piece_of_front(kept, x, k);
                    assert(pieces(kept)[k] == kept[k]);
                } else {
                    assert(all.take(k) =~= kept);
                    assert(pieces(segs)[n - 1] == x);
                    assert(piece(segs, n - 1) == x);
                    match x {
                        Seg::Fence { open, body, close } => {
                            lemma_repeat_is_has_body(all, k, body);
                            lemma_repeat_is_has_body(segs, n - 1, body);
                            assert(has_body(kept, body) <==> has_body(front, body));
                        },
                        Seg::Prose(_) => {},
                    }
                }
            }
            assert(pieces(all) =~= all);
        }
    }
}

proof fn lemma_repeat_is_has_body(segs: Seq<Seg>, i: int, body: Seq<char>)
    requires
        0 <= i < segs.len(),
        fence_body(segs[i]) == Some(body),
    ensures
        is_repeat(segs, i) <==> !is_blank(body) && has_body(segs.take(i), body),
{
    let front = segs.take(i);
    if is_repeat(segs, i) {
        let j = choose|j: int| 0 <= j < i && #[trigger] fence_body(segs[j]) == Some(body);
        assert(fence_body(front[j]) == Some(body));
    }
    if has_body(front, body) {
        let j = choose|j: int| 0 <= j < front.len() && #[trigger] fence_body(front[j]) == Some(body);
        assert(fence_body(segs[j]) == Some(body));
    }
}

/// Segments of which nothing changes any more make a text that is left as it is, if prose
/// has kept to itself.
pub(crate) proof fn lemma_kept_shape_is_fixed(text: Seq<char>, n: nat)
    requires
        pieces(repeated(segments(text), n)) == repeated(segments(text), n),
        strips_only_remove(repeated(segments(text), n)),
        forall|i: int|
            0 <= i < segments(text).len() ==> #[trigger] keeps_to_itself(
                repeated(segments(text), n),
                i,
            ),
    ensures
        is_fixed(segs_text(repeated(segments(text), n))),
{
    let from = segments(text);
    let made = repeated(from, n);
    law_texts_are_cut(text);
    if from.len() > 0 {
        lemma_repeated_blocks(from, n, 0);
    } else {
        lemma_repeated_nothing(from, n);
    }
    assert forall|i: int| 0 <= i < made.len() implies #[trigger] is_cut(made, i) by {
        assert(is_cut(from, i));
        assert(keeps_to_itself(made, i));
        lemma_repeated_blocks(from, n, i);
        if i + 1 < made.len() {
            lemma_repeated_blocks(from, n, i + 1);
        }
        lemma_marker_is_cut();
    }
    law_cut_segments_come_back(made);
    lemma_solid_is_fixed(made, made.len() as int);
    assert(made.take(made.len() as int) =~= made);
}

proof fn lemma_repeated_nothing(segs: Seq<Seg>, n: nat)
    requires
        segs.len() == 0,
    ensures
        repeated(segs, n).len() == 0,
    decreases n,
{
    if n > 0 {
        lemma_repeated_nothing(segs, (n - 1) as nat);
    }
}

proof fn lemma_repeated_stays(segs: Seq<Seg>, n: nat, m: nat)
    requires
        pieces(repeated(segs, n)) == repeated(segs, n),
        n <= m,
    ensures
        repeated(segs, m) == repeated(segs, n),
    decreases m - n,
{
    if n < m {
        lemma_repeated_stays(segs, n, (m - 1) as nat);
    }
}

/// Where nothing changes any more and no text that is left as it is has come of it,
/// compression is given up; and prose has lost its shape.
pub(crate) proof fn lemma_given_up(text: Seq<char>, n: nat)
    requires
        pieces(repeated(segments(text), n)) == repeated(segments(text), n),
        strips_only_remove(repeated(segments(text), n)),
        forall|m: nat| m <= n ==> !is_fixed(segs_text(#[trigger] repeated(segments(text), m))),
    ensures
        never_fixed(segments(text)),
        segs_text(settled(text)) == text,
        loses_its_shape(segments(text)),
{
    let segs = segments(text);
    assert forall|m: nat| !is_fixed(segs_text(#[trigger] repeated(segs, m))) by {
        if m > n {
            lemma_repeated_stays(segs, n, m);
        }
    }
    law_segments_keep_every_character(text);
    assert(!is_fixed(segs_text(repeated(segs, n))));
    if forall|i: int| 0 <= i < segs.len() ==> #[trigger] keeps_to_itself(repeated(segs, n), i) {
        lemma_kept_shape_is_fixed(text, n);
    }
}

proof fn lemma_marker_is_cut()
    ensures
        match repeat_marker() {
            Seg::Fence { open, body, close } => {
                &&& is_one_line(open)
                &&& is_marker(open)
                &&& open.last() == '\n'
                &&& lacks_markers(body)
                &&& ends_whole(body)
                &&& close == Some(open)
            },
            Seg::Prose(_) => false,
        },
{
    reveal_strlit("```\n");
    reveal_strlit("[duplicate code block removed]\n");
    let open = "```\n"@;
    let body = "[duplicate code block removed]\n"@;
    assert(open.len() == 4);
    assert(open[0] == '`' && open[1] == '`' && open[2] == '`' && open[3] == '\n');
    lemma_first_newline_unique(open, 3);
    lemma_lead_unique(open, 0);
    lemma_lead(open);
    assert(open.skip(0) == open);
    let n = body.len() as int;
    assert(n == 31);
    assert(body[0] == '[');
    assert(body[n - 1] == '\n');
    assert forall|i: int| 0 <= i < n - 1 implies #[trigger] body[i] != '\n' by {}
    lemma_first_newline_unique(body, n - 1);
    assert(first_line(body) == body);
    lemma_lead_unique(body, 0);
    lemma_lead(body);
    assert(body.skip(0) == body);
    assert(!is_marker(first_line(body)));
    let rest = body.skip(first_line_len(body) as int);
    assert(rest.len() == 0);
    assert(plain_len(rest) == 0);
    assert(lacks_markers(body));
    assert(is_marker(open));
    assert(is_one_line(open));
}

} // verus!
