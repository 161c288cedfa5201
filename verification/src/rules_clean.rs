//! Clean texts: those that have nothing left to compress. A clean text comes back as it
//! is, and what compression gives back is clean.

use crate::lines::{join_newlines, law_lines_join_back, split_newlines};
use crate::outside::boilerplate;
use crate::rules::{
    bare, collapsed, compressed, deduped, fence_body, first_fixed, first_line, first_line_len,
    is_fixed, is_marker, is_repeat, law_segments_keep_every_character, lemma_collapsed_has_no_cr,
    lemma_concat_char, lemma_deduped_has_no_cr, lemma_join_lacks, lemma_split_lacks,
    lemma_tidy_line_lacks, lemma_unix_has_no_cr, lemma_without_repeats_lacks, lemma_capped_lacks,
    lemma_plain_len, long_keys, never_fixed, piece, pieces, plain_len, prose_keys, repeated,
    seg_text, segments, segs_text, settled, stripped, strips_only_remove, tidy_line, tidy_lines,
    unix_newlines, without_repeats, Seg,
};
use crate::rules_laws::{
    keeps_to_itself, lacks_markers, law_fenced_code_is_kept, lemma_capped_shrinks,
    lemma_collapsed_shrinks, lemma_deduped_shrinks, lemma_first_fixed_exists, lemma_settled_at,
    lemma_tidied_shrink, lemma_unix_fixed, lemma_unix_shrinks, lemma_without_repeats_shrink,
    newlines_apart,
};
use crate::rules_meaning::{
    all_white, are_the_new_ones, ends_of, is_new, law_capping_newlines,
    law_kept_lines_are_the_new_ones, law_squeezed_text_has_no_gaps, law_tidying_a_line,
    law_trim_takes_white_space_off_the_ends, lemma_all_kept_are_new, lemma_all_new,
    lemma_keys_are_said,
};
use crate::text::{
    is_blank, is_white, lead, lemma_lead, lemma_lead_unique, lemma_subsequence,
    lemma_whole_subsequence, trim, trim_start,
};
use vstd::prelude::*;

verus! {

broadcast use vstd::string::group_string_axioms;

/// A line with no surplus white space: none at its end and, unless there is a backtick in
/// it, no two spaces or tabs side by side but in the white space at its front.
pub open spec fn is_clean_line(line: Seq<char>) -> bool {
    &&& line.len() > 0 ==> !is_white(line.last())
    &&& line.contains('`') || forall|i: int|
        0 <= i < line.len() - 1 && (#[trigger] line[i] == ' ' || line[i] == '\t') && (line[i + 1] == ' '
            || line[i + 1] == '\t') ==> all_white(line.take(i))
}

/// Prose with nothing to take out of it by itself: no boilerplate, no carriage return, no
/// three newlines in a row, no surplus white space.
pub open spec fn is_clean_prose(p: Seq<char>) -> bool {
    &&& stripped(p) == p
    &&& !p.contains('\r')
    &&& newlines_apart(p)
    &&& forall|a: int| 0 <= a < split_newlines(p).len() ==> is_clean_line(#[trigger] split_newlines(p)[a])
}

/// The lines of segment `i`, if it is prose.
pub open spec fn prose_lines(segs: Seq<Seg>, i: int) -> Seq<Seq<char>> {
    match segs[i] {
        Seg::Prose(p) => split_newlines(p),
        Seg::Fence { .. } => seq![],
    }
}

/// Line `a` of prose `i` says what a line before it says, in the same prose or in an
/// earlier one, and both are twelve characters or longer without the white space around
/// them.
pub open spec fn says_it_again(segs: Seq<Seg>, i: int, a: int) -> bool {
    &&& trim(prose_lines(segs, i)[a]).len() >= 12
    &&& exists|j: int, b: int|
        #![trigger prose_lines(segs, j)[b]]
        0 <= j <= i && 0 <= b < prose_lines(segs, j).len() && (j < i || b < a) && trim(
            prose_lines(segs, j)[b],
        ) == trim(prose_lines(segs, i)[a])
}

/// Segments in which there is nothing left to compress: the prose is clean, no long line
/// of it says what an earlier one says, and a fenced block whose body, not blank, is that
/// of an earlier block is the marker of a block that was taken out.
pub open spec fn is_clean(segs: Seq<Seg>) -> bool {
    &&& forall|i: int|
        0 <= i < segs.len() ==> (match #[trigger] segs[i] {
            Seg::Prose(p) => is_clean_prose(p),
            Seg::Fence { .. } => true,
        })
    &&& forall|i: int, a: int|
        0 <= i < segs.len() && 0 <= a < prose_lines(segs, i).len() ==> !#[trigger] says_it_again(
            segs,
            i,
            a,
        )
    &&& forall|j: int, i: int|
        #![trigger segs[j], segs[i]]
        0 <= j < i < segs.len() ==> (match (segs[j], segs[i]) {
            (Seg::Fence { body: first, .. }, Seg::Fence { open, body, close }) => first == body
                && !all_white(body) ==> {
                &&& open == "```\n"@
                &&& body == "[duplicate code block removed]\n"@
                &&& close == Some("```\n"@)
            },
            _ => true,
        })
}

// --- Lines ---------------------------------------------------------------------

proof fn lemma_tidy_is_clean(line: Seq<char>)
    ensures
        tidy_line(line) == line <==> is_clean_line(line),
{
    law_trim_takes_white_space_off_the_ends(line);
    let indent = ends_of(line).0;
    let rest = trim(line);
    let tail = ends_of(line).1;
    let k = indent.len() as int;
    law_tidying_a_line(indent, rest, tail);
    assert(line == indent + rest + tail);
    if rest.len() == 0 {
        if line.len() > 0 {
            assert(is_white(line.last()));
        }
    } else {
        let end = line.len() - tail.len();
        assert(line[end - 1] == rest.last());
        if tail.len() > 0 {
            assert(line.last() == tail.last());
            assert(is_white(tail[tail.len() - 1]));
            assert(tidy_line(line).len() <= (indent + rest).len()) by {
                crate::rules_laws::lemma_tidy_line_shrinks(indent + rest);
                assert(indent + rest + Seq::<char>::empty() =~= indent + rest);
                law_tidying_a_line(indent, rest, Seq::empty());
            }
        } else {
            assert(line =~= indent + rest);
            if rest.contains('`') {
                let j = choose|j: int| 0 <= j < rest.len() && rest[j] == '`';
                assert(line[k + j] == '`');
            } else {
                if line.contains('`') {
                    let j = choose|j: int| 0 <= j < line.len() && line[j] == '`';
                    if j < k {
                        assert(is_white(indent[j]));
                    } else {
                        assert(rest[j - k] == '`');
                    }
                }
                law_squeezed_text_has_no_gaps(rest);
                if is_clean_line(line) {
                    assert forall|i: int|
                        0 <= i < rest.len() - 1 && (#[trigger] rest[i] == ' ' || rest[i] == '\t') implies rest[i
                        + 1] != ' ' && rest[i + 1] != '\t' by {
                        assert(line[k + i] == rest[i]);
                        assert(line[k + i + 1] == rest[i + 1]);
                        if rest[i + 1] == ' ' || rest[i + 1] == '\t' {
                            assert(all_white(line.take(k + i)));
                            if i > 0 {
                                assert(line.take(k + i)[k] == rest[0]);
                            }
                        }
                    }
                    assert(tidy_line(line) == indent + rest);
                }
                if tidy_line(line) == line {
                    assert(crate::rules::squeezed(rest) =~= line.skip(k));
                    assert(line.skip(k) =~= rest);
                    assert forall|i: int|
                        0 <= i < line.len() - 1 && (#[trigger] line[i] == ' ' || line[i] == '\t') && (line[i
                            + 1] == ' ' || line[i + 1] == '\t') implies all_white(line.take(i)) by {
                        if i >= k {
                            assert(rest[i - k] == line[i]);
                            assert(rest[i - k + 1] == line[i + 1]);
                        } else {
                            assert forall|j: int| 0 <= j < line.take(i).len() implies is_white(
                                #[trigger] line.take(i)[j],
                            ) by {
                                assert(line.take(i)[j] == indent[j]);
                            }
                        }
                    }
                }
            }
        }
    }
}

proof fn lemma_collapsed_is_clean(p: Seq<char>)
    ensures
        collapsed(p) == p <==> newlines_apart(p) && forall|a: int|
            0 <= a < split_newlines(p).len() ==> is_clean_line(#[trigger] split_newlines(p)[a]),
{
    let lines = split_newlines(p);
    let tidied = tidy_lines(lines);
    let joined = join_newlines(tidied);
    law_lines_join_back(p);
    lemma_tidied_shrink(lines);
    lemma_capped_shrinks(joined);
    law_capping_newlines(Seq::empty(), Seq::empty(), p);
    assert forall|a: int| 0 <= a < lines.len() implies (tidied[a] == lines[a] <==> is_clean_line(
        #[trigger] lines[a],
    )) by {
        lemma_tidy_is_clean(lines[a]);
        assert(tidied[a] == tidy_line(lines[a]));
    }
    if collapsed(p) == p {
        assert(tidied == lines);
    }
    if forall|a: int| 0 <= a < lines.len() ==> is_clean_line(#[trigger] lines[a]) {
        assert(tidied =~= lines);
    }
}

proof fn lemma_deduped_is_all_new(p: Seq<char>, seen: Set<Seq<char>>)
    ensures
        deduped(p, seen) == p <==> forall|a: int|
            0 <= a < split_newlines(p).len() ==> #[trigger] is_new(split_newlines(p), seen, a),
{
    let lines = split_newlines(p);
    law_lines_join_back(p);
    lemma_without_repeats_shrink(lines, seen);
    if deduped(p, seen) == p {
        lemma_all_kept_are_new(lines, seen);
    }
    if forall|a: int| 0 <= a < lines.len() ==> #[trigger] is_new(lines, seen, a) {
        lemma_all_new(lines, seen);
    }
}

// --- Prose before --------------------------------------------------------------

/// What prose before segment `i` says: a long line of it, after its boilerplate is gone.
pub open spec fn said_before(segs: Seq<Seg>, i: int, key: Seq<char>) -> bool {
    exists|j: int, b: int|
        #![trigger bare_lines(segs, j)[b]]
        0 <= j < i && 0 <= b < bare_lines(segs, j).len() && trim(bare_lines(segs, j)[b]).len() >= 12
            && trim(bare_lines(segs, j)[b]) == key
}

/// The lines of segment `j` without boilerplate, if it is prose.
pub open spec fn bare_lines(segs: Seq<Seg>, j: int) -> Seq<Seq<char>> {
    match segs[j] {
        Seg::Prose(p) => split_newlines(stripped(unix_newlines(p))),
        Seg::Fence { .. } => seq![],
    }
}

proof fn lemma_prose_keys(segs: Seq<Seg>, i: int, key: Seq<char>)
    requires
        0 <= i <= segs.len(),
    ensures
        prose_keys(segs.take(i)).contains(key) <==> said_before(segs, i, key),
    decreases i,
{
    let front = segs.take(i);
    if i == 0 {
        assert(front =~= Seq::<Seg>::empty());
    } else {
        lemma_prose_keys(segs, i - 1, key);
        assert(front.drop_last() =~= segs.take(i - 1));
        assert(front.last() == segs[i - 1]);
        if said_before(segs, i, key) {
            let (j, b) = choose|j: int, b: int|
                #![trigger bare_lines(segs, j)[b]]
                0 <= j < i && 0 <= b < bare_lines(segs, j).len() && trim(bare_lines(segs, j)[b]).len()
                    >= 12 && trim(bare_lines(segs, j)[b]) == key;
            if j == i - 1 {
                lemma_keys_are_said(bare_lines(segs, j), key);
            }
        }
        match segs[i - 1] {
            Seg::Prose(p) => {
                let lines = bare_lines(segs, i - 1);
                lemma_keys_are_said(lines, key);
                if long_keys(lines).contains(key) {
                    let b = choose|b: int|
                        0 <= b < lines.len() && trim(#[trigger] lines[b]).len() >= 12 && trim(lines[b])
                            == key;
                    assert(bare_lines(segs, i - 1)[b] == lines[b]);
                }
            },
            Seg::Fence { .. } => {},
        }
    }
}

// --- One round -----------------------------------------------------------------

/// A segment is a fenced block with this body.
pub open spec fn is_block_of(seg: Seg, body: Seq<char>) -> bool {
    match seg {
        Seg::Prose(_) => false,
        Seg::Fence { body: own, .. } => own == body,
    }
}

/// One round makes of prose its own lines, ended by `\n` alone and without boilerplate,
/// but for the long ones that a line before them says, in the same prose or in one before
/// it; then the surplus white space goes. Of blocks it makes nothing, but for one whose
/// body, not blank, is that of a block before it: that becomes the marker.
pub proof fn law_one_round(segs: Seq<Seg>, i: int)
    requires
        0 <= i < segs.len(),
    ensures
        pieces(segs).len() == segs.len(),
        match segs[i] {
            Seg::Prose(p) => exists|kept: Seq<Seq<char>>, seen: Set<Seq<char>>|
                #![trigger are_the_new_ones(kept, bare_lines(segs, i), seen)]
                are_the_new_ones(kept, bare_lines(segs, i), seen) && (forall|key: Seq<char>|
                    #[trigger] seen.contains(key) <==> said_before(segs, i, key)) && pieces(segs)[i]
                    == Seg::Prose(collapsed(join_newlines(kept))),
            Seg::Fence { open, body, close } => if !all_white(body) && exists|j: int|
                0 <= j < i && is_block_of(#[trigger] segs[j], body) {
                pieces(segs)[i] == (Seg::Fence {
                    open: "```\n"@,
                    body: "[duplicate code block removed]\n"@,
                    close: Some("```\n"@),
                })
            } else {
                pieces(segs)[i] == segs[i]
            },
        },
{
    match segs[i] {
        Seg::Prose(p) => {
            let seen = prose_keys(segs.take(i));
            let kept = without_repeats(bare_lines(segs, i), seen);
            law_kept_lines_are_the_new_ones(bare_lines(segs, i), seen);
            assert forall|key: Seq<char>| #[trigger] seen.contains(key) <==> said_before(segs, i, key) by {
                lemma_prose_keys(segs, i, key);
            }
            assert(are_the_new_ones(kept, bare_lines(segs, i), seen));
            assert(pieces(segs)[i] == Seg::Prose(collapsed(join_newlines(kept))));
        },
        Seg::Fence { open, body, close } => {
            law_trim_takes_white_space_off_the_ends(body);
            if is_repeat(segs, i) {
                let j = choose|j: int| 0 <= j < i && #[trigger] fence_body(segs[j]) == Some(body);
                assert(is_block_of(segs[j], body));
            }
            if exists|j: int| 0 <= j < i && is_block_of(#[trigger] segs[j], body) {
                let j = choose|j: int| 0 <= j < i && is_block_of(#[trigger] segs[j], body);
                assert(fence_body(segs[j]) == Some(body));
            }
        },
    }
}

proof fn lemma_nothing_said_again(segs: Seq<Seg>, i: int)
    requires
        0 <= i < segs.len(),
        forall|j: int| 0 <= j <= i ==> #[trigger] bare_lines(segs, j) == prose_lines(segs, j),
    ensures
        (forall|a: int| 0 <= a < prose_lines(segs, i).len() ==> !#[trigger] says_it_again(segs, i, a))
            <==> forall|a: int|
            0 <= a < prose_lines(segs, i).len() ==> #[trigger] is_new(
                prose_lines(segs, i),
                prose_keys(segs.take(i)),
                a,
            ),
{
    let lines = prose_lines(segs, i);
    let seen = prose_keys(segs.take(i));
    assert forall|a: int| 0 <= a < lines.len() implies !says_it_again(segs, i, a) == is_new(lines, seen, a) by {
        let key = trim(lines[a]);
        lemma_prose_keys(segs, i, key);
        if says_it_again(segs, i, a) {
            let (j, b) = choose|j: int, b: int|
                #![trigger prose_lines(segs, j)[b]]
                0 <= j <= i && 0 <= b < prose_lines(segs, j).len() && (j < i || b < a) && trim(
                    prose_lines(segs, j)[b],
                ) == key;
            if j < i {
                assert(bare_lines(segs, j)[b] == prose_lines(segs, j)[b]);
                assert(said_before(segs, i, key));
            } else {
                assert(trim(lines[b]) == key);
            }
        }
        if !is_new(lines, seen, a) {
            if seen.contains(key) {
                let (j, b) = choose|j: int, b: int|
                    #![trigger bare_lines(segs, j)[b]]
                    0 <= j < i && 0 <= b < bare_lines(segs, j).len() && trim(bare_lines(segs, j)[b]).len()
                        >= 12 && trim(bare_lines(segs, j)[b]) == key;
                assert(bare_lines(segs, j) == prose_lines(segs, j));
                assert(prose_lines(segs, j)[b] == bare_lines(segs, j)[b]);
            } else {
                let b = choose|b: int|
                    0 <= b < a && trim(#[trigger] lines[b]).len() >= 12 && trim(lines[b]) == key;
                assert(prose_lines(segs, i)[b] == lines[b]);
            }
        }
    }
    if forall|a: int| 0 <= a < lines.len() ==> !#[trigger] says_it_again(segs, i, a) {
        assert forall|a: int| 0 <= a < lines.len() implies #[trigger] is_new(lines, seen, a) by {
            assert(!says_it_again(segs, i, a));
        }
    }
    if forall|a: int| 0 <= a < lines.len() ==> #[trigger] is_new(lines, seen, a) {
        assert forall|a: int| 0 <= a < lines.len() implies !#[trigger] says_it_again(segs, i, a) by {
            assert(is_new(lines, seen, a));
        }
    }
}

/// A round changes nothing about clean segments.
pub proof fn law_clean_segments_stay(segs: Seq<Seg>)
    requires
        is_clean(segs),
    ensures
        pieces(segs) == segs,
{
    assert forall|j: int| 0 <= j < segs.len() implies #[trigger] bare_lines(segs, j) == prose_lines(
        segs,
        j,
    ) by {
        match segs[j] {
            Seg::Prose(p) => {
                lemma_unix_fixed(p);
            },
            Seg::Fence { .. } => {},
        }
    }
    assert forall|i: int| 0 <= i < segs.len() implies #[trigger] pieces(segs)[i] == segs[i] by {
        match segs[i] {
            Seg::Prose(p) => {
                let keys = prose_keys(segs.take(i));
                assert(is_clean_prose(p));
                lemma_unix_fixed(p);
                assert(prose_lines(segs, i) == split_newlines(p));
                lemma_nothing_said_again(segs, i);
                lemma_deduped_is_all_new(p, keys);
                lemma_collapsed_is_clean(p);
            },
            Seg::Fence { open, body, close } => {
                law_trim_takes_white_space_off_the_ends(body);
                if is_repeat(segs, i) {
                    let j = choose|j: int| 0 <= j < i && #[trigger] fence_body(segs[j]) == Some(body);
                    assert(segs[j] is Fence);
                }
            },
        }
    }
    assert(pieces(segs) =~= segs);
}

/// Segments about which a round changes nothing are clean.
pub(crate) proof fn lemma_fixed_is_clean(segs: Seq<Seg>)
    requires
        strips_only_remove(segs),
        pieces(segs) == segs,
    ensures
        is_clean(segs),
{
    assert forall|i: int| 0 <= i < segs.len() && (#[trigger] segs[i]) is Prose implies ({
        let p = segs[i]->Prose_0;
        &&& !p.contains('\r')
        &&& unix_newlines(p) == p
        &&& stripped(p) == p
        &&& deduped(p, prose_keys(segs.take(i))) == p
        &&& collapsed(p) == p
    }) by {
        let p = segs[i]->Prose_0;
        let u = unix_newlines(p);
        let b = bare(p);
        let keys = prose_keys(segs.take(i));
        let d = deduped(b, keys);
        assert(pieces(segs)[i] == piece(segs, i));
        assert(p == collapsed(d));
        lemma_unix_has_no_cr(p);
        lemma_unix_shrinks(p);
        lemma_subsequence(b, u);
        assert(!b.contains('\r'));
        lemma_deduped_has_no_cr(b, keys);
        lemma_collapsed_has_no_cr(d);
        lemma_deduped_shrinks(b, keys);
        lemma_collapsed_shrinks(d);
        lemma_unix_fixed(p);
        lemma_whole_subsequence(b, u);
    }
    assert forall|j: int| 0 <= j < segs.len() implies #[trigger] bare_lines(segs, j) == prose_lines(
        segs,
        j,
    ) by {
        if segs[j] is Prose {
        }
    }
    assert forall|i: int| 0 <= i < segs.len() implies (match #[trigger] segs[i] {
        Seg::Prose(p) => is_clean_prose(p),
        Seg::Fence { .. } => true,
    }) by {
        if segs[i] is Prose {
            lemma_collapsed_is_clean(segs[i]->Prose_0);
        }
    }
    assert forall|i: int, a: int|
        0 <= i < segs.len() && 0 <= a < prose_lines(segs, i).len() implies !#[trigger] says_it_again(
        segs,
        i,
        a,
    ) by {
        if segs[i] is Prose {
            lemma_nothing_said_again(segs, i);
            lemma_deduped_is_all_new(segs[i]->Prose_0, prose_keys(segs.take(i)));
        }
    }
    assert forall|j: int, i: int|
        #![trigger segs[j], segs[i]]
        0 <= j < i < segs.len() implies (match (segs[j], segs[i]) {
        (Seg::Fence { body: first, .. }, Seg::Fence { open, body, close }) => first == body
            && !all_white(body) ==> {
            &&& open == "```\n"@
            &&& body == "[duplicate code block removed]\n"@
            &&& close == Some("```\n"@)
        },
        _ => true,
    }) by {
        if segs[j] is Fence && segs[i] is Fence && fence_body(segs[j]) == fence_body(segs[i]) {
            law_trim_takes_white_space_off_the_ends(segs[i]->body);
            assert(pieces(segs)[i] == piece(segs, i));
        }
    }
}

/// A clean text comes back exactly as it is, whatever its length.
pub proof fn law_clean_text_comes_back(text: Seq<char>)
    requires
        is_clean(segments(text)),
    ensures
        compressed(text) == text,
{
    law_clean_segments_stay(segments(text));
    law_segments_keep_every_character(text);
    if !is_blank(text) {
        assert(repeated(segments(text), 0) == segments(text));
        assert(first_fixed(segments(text), 0));
        lemma_settled_at(text, 0);
    }
}

// --- Rounds --------------------------------------------------------------------

/// Each of `chain` is what one round makes of the one before it, and the first is `segs`.
pub open spec fn are_rounds(chain: Seq<Seq<Seg>>, segs: Seq<Seg>) -> bool {
    &&& chain.len() >= 1
    &&& chain[0] == segs
    &&& forall|k: int| 0 < k < chain.len() ==> #[trigger] chain[k] == pieces(chain[k - 1])
}

/// A round has nothing to do about a text: it is blank, or cut into segments of which nothing
/// changes.
pub open spec fn is_done(text: Seq<char>) -> bool {
    all_white(text) || pieces(segments(text)) == segments(text)
}

proof fn lemma_done(text: Seq<char>)
    ensures
        is_done(text) == is_fixed(text),
{
    law_trim_takes_white_space_off_the_ends(text);
}

/// Compression does rounds until a text comes out that is left as it is, not one more and
/// not one less; it gives the text back as it came only if no number of rounds leads there.
pub proof fn law_compression_does_rounds(text: Seq<char>)
    requires
        !all_white(text),
    ensures
        (exists|chain: Seq<Seq<Seg>>| #[trigger]
            are_rounds(chain, segments(text)) && compressed(text) == segs_text(chain.last())
                && is_done(compressed(text)) && forall|k: int|
                0 <= k < chain.len() - 1 ==> !is_done(segs_text(#[trigger] chain[k]))) || (
        compressed(text) == text && forall|chain: Seq<Seq<Seg>>| #[trigger]
            are_rounds(chain, segments(text)) ==> !is_done(segs_text(chain.last()))),
{
    let segs = segments(text);
    law_segments_keep_every_character(text);
    law_trim_takes_white_space_off_the_ends(text);
    if never_fixed(segs) {
        assert forall|chain: Seq<Seq<Seg>>| #[trigger] are_rounds(chain, segs) implies !is_done(
            segs_text(chain.last()),
        ) by {
            lemma_done(segs_text(chain.last()));
            lemma_rounds(chain, segs, chain.len() - 1);
            assert(!is_fixed(segs_text(repeated(segs, (chain.len() - 1) as nat))));
        }
    } else {
        let some = choose|n: nat| is_fixed(segs_text(#[trigger] repeated(segs, n)));
        lemma_first_fixed_exists(segs, some);
        let n = choose|n: nat| first_fixed(segs, n);
        lemma_settled_at(text, n);
        let chain = Seq::new(n + 1, |k: int| repeated(segs, k as nat));
        assert forall|k: int| 0 < k < chain.len() implies #[trigger] chain[k] == pieces(chain[k - 1]) by {
            assert(repeated(segs, k as nat) == pieces(repeated(segs, (k - 1) as nat)));
        }
        assert(are_rounds(chain, segs));
        assert(chain.last() == repeated(segs, n));
        lemma_done(compressed(text));
        assert forall|k: int| 0 <= k < chain.len() - 1 implies !is_done(segs_text(#[trigger] chain[k])) by {
            lemma_done(segs_text(chain[k]));
            assert(!is_fixed(segs_text(repeated(segs, k as nat))));
        }
    }
}

proof fn lemma_rounds(chain: Seq<Seq<Seg>>, segs: Seq<Seg>, k: int)
    requires
        are_rounds(chain, segs),
        0 <= k < chain.len(),
    ensures
        chain[k] == repeated(segs, k as nat),
    decreases k,
{
    if k > 0 {
        lemma_rounds(chain, segs, k - 1);
        assert(chain[k] == pieces(chain[k - 1]));
    }
}

// --- Fenced blocks -------------------------------------------------------------

/// A line is a marker exactly if three backticks stand at its front, behind white space or
/// nothing.
pub proof fn law_what_a_marker_is(line: Seq<char>)
    ensures
        is_marker(line) <==> exists|k: int|
            0 <= k <= line.len() - 3 && all_white(#[trigger] line.take(k)) && line[k] == '`' && line[k
                + 1] == '`' && line[k + 2] == '`',
{
    lemma_lead(line);
    let l = lead(line) as int;
    if is_marker(line) {
        assert(line.take(l).len() == l);
        assert(all_white(line.take(l)));
        assert(trim_start(line)[0] == line[l]);
        assert(trim_start(line)[1] == line[l + 1]);
        assert(trim_start(line)[2] == line[l + 2]);
    }
    if exists|k: int|
        0 <= k <= line.len() - 3 && all_white(#[trigger] line.take(k)) && line[k] == '`' && line[k + 1]
            == '`' && line[k + 2] == '`' {
        let k = choose|k: int|
            0 <= k <= line.len() - 3 && all_white(#[trigger] line.take(k)) && line[k] == '`' && line[k
                + 1] == '`' && line[k + 2] == '`';
        assert forall|i: int| 0 <= i < k implies is_white(#[trigger] line[i]) by {
            assert(line.take(k)[i] == line[i]);
        }
        lemma_lead_unique(line, k);
    }
}

proof fn lemma_marker_with_newline(line: Seq<char>)
    ensures
        is_marker(line.push('\n')) == is_marker(line),
{
    let whole = line.push('\n');
    law_what_a_marker_is(line);
    law_what_a_marker_is(whole);
    if is_marker(line) {
        let k = choose|k: int|
            0 <= k <= line.len() - 3 && all_white(#[trigger] line.take(k)) && line[k] == '`' && line[k
                + 1] == '`' && line[k + 2] == '`';
        assert(whole.take(k) =~= line.take(k));
    }
    if is_marker(whole) {
        let k = choose|k: int|
            0 <= k <= whole.len() - 3 && all_white(#[trigger] whole.take(k)) && whole[k] == '`' && whole[k
                + 1] == '`' && whole[k + 2] == '`';
        assert(k + 2 < line.len());
        assert(whole.take(k) =~= line.take(k));
    }
}

/// A text has no markers exactly if none of its lines is one.
pub proof fn law_a_marker_is_a_line(s: Seq<char>)
    ensures
        lacks_markers(s) <==> forall|a: int|
            0 <= a < split_newlines(s).len() ==> !is_marker(#[trigger] split_newlines(s)[a]),
    decreases s.len(),
{
    crate::lines::lemma_first_newline(s);
    let j = crate::lines::first_newline(s) as int;
    let lines = split_newlines(s);
    if s.len() == 0 {
        assert(lines =~= seq![s]);
        lemma_lead(s);
    } else if j < s.len() {
        let rest = s.skip(j + 1);
        law_a_marker_is_a_line(rest);
        lemma_plain_len(rest);
        let tail = split_newlines(rest);
        assert(lines =~= seq![s.take(j)] + tail);
        assert(first_line(s) =~= s.take(j).push('\n'));
        lemma_marker_with_newline(s.take(j));
        assert(lines[0] == s.take(j));
        assert(first_line_len(s) == j + 1);
        assert(plain_len(s) == if is_marker(first_line(s)) {
            0
        } else {
            first_line_len(s) + plain_len(rest)
        });
        if lacks_markers(s) {
            assert forall|a: int| 0 <= a < lines.len() implies !is_marker(#[trigger] lines[a]) by {
                if a > 0 {
                    assert(lines[a] == tail[a - 1]);
                }
            }
        }
        if forall|a: int| 0 <= a < lines.len() ==> !is_marker(#[trigger] lines[a]) {
            assert forall|a: int| 0 <= a < tail.len() implies !is_marker(#[trigger] tail[a]) by {
                assert(tail[a] == lines[a + 1]);
            }
        }
    } else {
        assert(lines =~= seq![s]);
        assert(first_line(s) =~= s);
        assert(lines[0] == s);
        assert(first_line_len(s) == s.len());
        assert(s.skip(s.len() as int) =~= Seq::<char>::empty());
        assert(plain_len(s.skip(s.len() as int)) == 0);
    }
}

/// Text without a backtick is prose, all of it.
pub proof fn law_text_without_backticks_is_prose(text: Seq<char>)
    requires
        text.len() > 0,
        !text.contains('`'),
    ensures
        lacks_markers(text),
        segments(text) == seq![Seg::Prose(text)],
{
    lemma_no_backtick_no_marker(text);
    let end = text.len() as int;
    assert(text.take(end) =~= text);
    assert(text.skip(end) =~= Seq::<char>::empty());
    assert(segments(text.skip(end)) =~= Seq::<Seg>::empty());
    assert(segments(text) =~= seq![Seg::Prose(text)]);
}

proof fn lemma_no_backtick_no_marker(text: Seq<char>)
    requires
        !text.contains('`'),
    ensures
        lacks_markers(text),
{
    lemma_split_lacks(text, '`');
    law_a_marker_is_a_line(text);
    assert forall|a: int| 0 <= a < split_newlines(text).len() implies !is_marker(
        #[trigger] split_newlines(text)[a],
    ) by {
        let line = split_newlines(text)[a];
        law_what_a_marker_is(line);
        if is_marker(line) {
            let k = choose|k: int|
                0 <= k <= line.len() - 3 && all_white(#[trigger] line.take(k)) && line[k] == '`' && line[k
                    + 1] == '`' && line[k + 2] == '`';
            assert(line.contains('`'));
        }
    }
}

/// `part` stands in `whole` in one piece.
pub open spec fn is_part(part: Seq<char>, whole: Seq<char>) -> bool {
    exists|before: Seq<char>, after: Seq<char>| whole == #[trigger] (before + part + after)
}

/// A fenced block that no block before it has said stands in the result exactly as it
/// stood in the text: its markers, its body, its line ends. (A block that says just what
/// the marker of a repeat says may become that marker.)
pub proof fn law_fenced_block_stands_as_it_was(
    text: Seq<char>,
    i: int,
    open: Seq<char>,
    body: Seq<char>,
    close: Option<Seq<char>>,
)
    requires
        0 <= i < segments(text).len(),
        segments(text)[i] == (Seg::Fence { open, body, close }),
        body != "[duplicate code block removed]\n"@,
        all_white(body) || forall|j: int|
            0 <= j < i ==> !is_block_of(#[trigger] segments(text)[j], body),
    ensures
        is_part(
            open + body + (match close {
                Some(c) => c,
                None => seq![],
            }),
            compressed(text),
        ),
{
    let segs = segments(text);
    law_trim_takes_white_space_off_the_ends(body);
    law_trim_takes_white_space_off_the_ends(text);
    law_segments_keep_every_character(text);
    if is_blank(text) {
        crate::rules::lemma_segs_text_split(segs, i);
        lemma_segs_text_front_of(segs, i);
        let before = segs_text(segs.take(i));
        let after = segs_text(segs.skip(i + 1));
        assert(compressed(text) == before + seg_text(segs[i]) + after);
    } else {
        if is_repeat(segs, i) {
            let j = choose|j: int| 0 <= j < i && #[trigger] fence_body(segs[j]) == Some(body);
            assert(is_block_of(segs[j], body));
        }
        law_fenced_code_is_kept(text, i);
        let before = segs_text(settled(text).take(i));
        let after = segs_text(settled(text).skip(i + 1));
        assert(compressed(text) == before + seg_text(segs[i]) + after);
    }
}

proof fn lemma_segs_text_front_of(segs: Seq<Seg>, i: int)
    requires
        0 <= i < segs.len(),
    ensures
        segs_text(segs) == segs_text(segs.take(i)) + seg_text(segs[i]) + segs_text(segs.skip(i + 1)),
{
    crate::rules::lemma_segs_text_split(segs, i);
    assert(segs.skip(i) == seq![segs[i]] + segs.skip(i + 1));
    crate::rules::lemma_segs_text_front(segs[i], segs.skip(i + 1));
    assert(segs_text(segs.take(i)) + (seg_text(segs[i]) + segs_text(segs.skip(i + 1))) == segs_text(
        segs.take(i),
    ) + seg_text(segs[i]) + segs_text(segs.skip(i + 1)));
}

// --- Text without backticks ----------------------------------------------------

/// Prose alone, and no backtick in it.
pub open spec fn is_plain(segs: Seq<Seg>) -> bool {
    forall|i: int|
        0 <= i < segs.len() ==> (match #[trigger] segs[i] {
            Seg::Prose(p) => !p.contains('`'),
            Seg::Fence { .. } => false,
        })
}

proof fn lemma_unix_lacks(s: Seq<char>)
    requires
        !s.contains('`'),
    ensures
        !unix_newlines(s).contains('`'),
    decreases s.len(),
{
    if s.len() > 0 {
        let init = s.drop_last();
        let u = unix_newlines(init);
        assert(s == init + seq![s.last()]);
        lemma_concat_char(init, seq![s.last()], '`');
        lemma_unix_lacks(init);
        assert(s[s.len() - 1] != '`');
        lemma_concat_char(u, seq!['\n'], '`');
        lemma_concat_char(u, seq![s.last()], '`');
        assert(u.push('\n') =~= u + seq!['\n']);
        assert(u.push(s.last()) =~= u + seq![s.last()]);
    }
}

pub(crate) proof fn lemma_plain_stays_plain(segs: Seq<Seg>)
    requires
        is_plain(segs),
        strips_only_remove(segs),
    ensures
        is_plain(pieces(segs)),
{
    let made = pieces(segs);
    assert forall|i: int| 0 <= i < made.len() implies (match #[trigger] made[i] {
        Seg::Prose(p) => !p.contains('`'),
        Seg::Fence { .. } => false,
    }) by {
        match segs[i] {
            Seg::Prose(p) => {
                let u = unix_newlines(p);
                let b = bare(p);
                let keys = prose_keys(segs.take(i));
                let d = deduped(b, keys);
                lemma_unix_lacks(p);
                lemma_subsequence(b, u);
                assert(!b.contains('`'));
                lemma_split_lacks(b, '`');
                lemma_without_repeats_lacks(split_newlines(b), keys, '`');
                lemma_join_lacks(without_repeats(split_newlines(b), keys), '`');
                let lines = split_newlines(d);
                lemma_split_lacks(d, '`');
                assert forall|a: int| 0 <= a < lines.len() implies !(#[trigger] tidy_lines(lines)[a]).contains('`') by {
                    assert(!lines[a].contains('`'));
                    lemma_tidy_line_lacks(lines[a], '`');
                }
                lemma_join_lacks(tidy_lines(lines), '`');
                lemma_capped_lacks(join_newlines(tidy_lines(lines)), '`');
            },
            Seg::Fence { .. } => {},
        }
    }
}

/// Plain text is cut into plain segments, one at most.
pub(crate) proof fn lemma_plain_text(text: Seq<char>)
    requires
        !text.contains('`'),
    ensures
        is_plain(segments(text)),
        segments(text).len() <= 1,
{
    if text.len() > 0 {
        law_text_without_backticks_is_prose(text);
    }
}

/// Plain segments, one at most, never lose their shape.
pub(crate) proof fn lemma_plain_keeps_to_itself(segs: Seq<Seg>)
    requires
        is_plain(segs),
        segs.len() <= 1,
    ensures
        forall|i: int| 0 <= i < segs.len() ==> #[trigger] keeps_to_itself(segs, i),
{
    assert forall|i: int| 0 <= i < segs.len() implies #[trigger] keeps_to_itself(segs, i) by {
        match segs[i] {
            Seg::Prose(p) => {
                lemma_no_backtick_no_marker(p);
            },
            Seg::Fence { .. } => {},
        }
    }
}

/// Blank text comes back exactly as it is.
pub proof fn law_blank_text_comes_back(text: Seq<char>)
    requires
        all_white(text),
    ensures
        compressed(text) == text,
{
    law_trim_takes_white_space_off_the_ends(text);
}

/// Segments are put together one after the other, each whole: prose as it is, a block as its
/// opening line, its body and its closing line, if it has one.
pub proof fn law_segments_are_put_together_in_turn(a: Seq<Seg>, b: Seq<Seg>, seg: Seg)
    ensures
        segs_text(Seq::empty()) == Seq::<char>::empty(),
        segs_text(a + b) == segs_text(a) + segs_text(b),
        segs_text(seq![seg]) == match seg {
            Seg::Prose(p) => p,
            Seg::Fence { open, body, close: Some(c) } => open + body + c,
            Seg::Fence { open, body, close: None } => open + body,
        },
    decreases b.len(),
{
    if b.len() == 0 {
        assert(a + b =~= a);
    } else {
        let c = b.drop_last();
        law_segments_are_put_together_in_turn(a, c, seg);
        assert((a + b).drop_last() =~= a + c);
        assert((a + b).last() == b.last());
        assert(segs_text(a) + segs_text(c) + seg_text(b.last()) =~= segs_text(a) + (segs_text(c)
            + seg_text(b.last())));
    }
    lemma_one_segment(seg);
}

proof fn lemma_one_segment(seg: Seg)
    ensures
        segs_text(seq![seg]) == seg_text(seg),
{
    let one = seq![seg];
    assert(one.drop_last() =~= Seq::<Seg>::empty());
    assert(one.last() == seg);
    assert(segs_text(one.drop_last()) =~= Seq::<char>::empty());
    assert(Seq::<char>::empty() + seg_text(seg) =~= seg_text(seg));
}

} // verus!
