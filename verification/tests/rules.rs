use prompt_codec::rules::{
    collapse_whitespace, dedupe_lines, reassemble, rules_compress, segment, strip_boilerplate,
    Segment,
};

fn roundtrip(s: &str) {
    assert_eq!(reassemble(&segment(s)), s);
}

#[test]
fn strips_please_prefix_and_thanks() {
    let t = strip_boilerplate("Please help me with the auth bug.\nThank you so much in advance!\n");
    assert!(!t.to_lowercase().contains("thank you"));
    assert!(t.contains("the auth bug"));
}

#[test]
fn keeps_meaningful_important_lines() {
    let t = strip_boilerplate("Important: do not delete the prod database\n");
    assert!(t.contains("do not delete the prod database"));
}

#[test]
fn keeps_meaning_bearing_phrase_lookalikes() {
    let t = strip_boilerplate("write a thank you email to the team\n");
    assert!(t.contains("thank you email"));
    let t = strip_boilerplate("this serves as an aid to debugging\n");
    assert!(t.contains("as an aid to debugging"));
    let t = strip_boilerplate("Follow best practices and use bcrypt for hashing\n");
    assert!(t.contains("use bcrypt for hashing"));
}

#[test]
fn drops_pure_fluff_lines() {
    let t = strip_boilerplate("- Please be careful\n- this is important\nreal content\n");
    assert_eq!(t.trim(), "real content");
}

#[test]
fn boilerplate_is_removed_exactly() {
    assert_eq!(strip_boilerplate("please fix it"), "fix it");
    assert_eq!(strip_boilerplate("I hope this helps a lot. Go on."), "Go on.");
    assert_eq!(strip_boilerplate("As an AI you know. Go on."), "Go on.");
    assert_eq!(strip_boilerplate("I would like you to\nrun it"), "run it");
    assert_eq!(strip_boilerplate("Add comments where needed. Ship."), "Ship.");
    assert_eq!(strip_boilerplate("a\n  •  \nb"), "a\n\nb");
    assert_eq!(strip_boilerplate(""), "");
}

#[test]
fn dedupe_only_long_lines() {
    let t = dedupe_lines("auth uses JWT tokens\nauth uses JWT tokens\n- ok\n- ok\n");
    assert_eq!(t.matches("auth uses JWT tokens").count(), 1);
    assert_eq!(t.matches("- ok").count(), 2);
}

#[test]
fn dedupe_counts_characters_and_ignores_outer_white_space() {
    // Eleven characters are spared, twelve are not.
    assert_eq!(dedupe_lines("elevenchars\nelevenchars"), "elevenchars\nelevenchars");
    assert_eq!(dedupe_lines("twelve chars\n  twelve chars  \nx"), "twelve chars\nx");
    // Twelve characters of two bytes each.
    assert_eq!(dedupe_lines("éééééééééééé\néééééééééééé"), "éééééééééééé");
    assert_eq!(dedupe_lines("ééééééé\nééééééé"), "ééééééé\nééééééé");
}

#[test]
fn dedupe_twice_is_dedupe_once() {
    let s = "one long line here\ntwo\none long line here\n  one long line here\ntwo\n";
    let once = dedupe_lines(s);
    assert_eq!(once, "one long line here\ntwo\ntwo\n");
    assert_eq!(dedupe_lines(&once), once);
}

#[test]
fn whitespace_preserves_indentation() {
    let t = collapse_whitespace("    indented   with   runs\n\n\n\nnext");
    assert!(t.starts_with("    indented with runs"));
    assert!(!t.contains("\n\n\n"));
}

#[test]
fn backtick_lines_untouched_by_space_collapse() {
    let t = collapse_whitespace("has `code  span`  here\n");
    assert!(t.contains("`code  span`"));
}

#[test]
fn whitespace_collapses_exactly() {
    assert_eq!(collapse_whitespace("a\t\tb \t c\td  \n\n\n\n\nx"), "a b c\td\n\nx");
    assert_eq!(collapse_whitespace("\t two  words\t"), "\t two words");
    assert_eq!(collapse_whitespace("`a  b`  \n"), "`a  b`\n");
    assert_eq!(collapse_whitespace(" \t \n"), "\n");
    assert_eq!(collapse_whitespace(""), "");
    // A non-breaking space at the end is white space, one inside is no gap.
    assert_eq!(collapse_whitespace("a\u{a0}\u{a0}b\u{a0}"), "a\u{a0}\u{a0}b");
    // Blank lines that trimming uncovers count too.
    assert_eq!(collapse_whitespace("a\n \n \nb"), "a\n\nb");
    assert_eq!(collapse_whitespace("\n\n\n"), "\n\n");
}

#[test]
fn collapsing_twice_is_collapsing_once() {
    for s in ["a\n \n \nb", " \n\t\n \n x  y \n\n\n\n", "`a  b` \n \n\n c  d", "", "\n"] {
        let once = collapse_whitespace(s);
        assert_eq!(collapse_whitespace(&once), once);
    }
}

#[test]
fn plain_prose_roundtrips() {
    roundtrip("hello\nworld\n");
}

#[test]
fn fence_roundtrips() {
    roundtrip("before\n```python\ndef f():\n    return 1\n```\nafter");
}

#[test]
fn unclosed_fence_becomes_fence_to_eof() {
    let segs = segment("a\n```\ncode never closed");
    assert!(matches!(segs.last().unwrap(), Segment::Fence { .. }));
    roundtrip("a\n```\ncode never closed");
}

#[test]
fn fence_body_is_isolated() {
    let segs = segment("p1\n```rust\nlet x = 1;\n```\np2");
    let bodies: Vec<_> = segs
        .iter()
        .filter_map(|s| match s {
            Segment::Fence { body, .. } => Some(body.as_str()),
            _ => None,
        })
        .collect();
    assert_eq!(bodies, vec!["let x = 1;\n"]);
}

#[test]
fn indented_fence_marker_opens() {
    roundtrip("text\n  ```\n  indented fence\n  ```\ndone");
}

#[test]
fn segments_are_exact() {
    assert_eq!(segment(""), vec![]);
    assert_eq!(
        segment("a\nb\n```x\nc\n```\n```\n```"),
        vec![
            Segment::Prose("a\nb\n".to_string()),
            Segment::Fence {
                open: "```x\n".to_string(),
                body: "c\n".to_string(),
                close: Some("```\n".to_string()),
            },
            Segment::Fence {
                open: "```\n".to_string(),
                body: "".to_string(),
                close: Some("```".to_string()),
            },
        ]
    );
    assert_eq!(
        segment("\n```"),
        vec![
            Segment::Prose("\n".to_string()),
            Segment::Fence {
                open: "```".to_string(),
                body: "".to_string(),
                close: None,
            },
        ]
    );
    roundtrip("a\r\n```\r\nb\r\n");
    roundtrip("x ``` y\n````\nz\n");
}

const FENCED_TWICE: &str = "Please fix this.\n```python\ndef f():\n    if x:\n        return 1\n    return 1\n```\nsome   spaced   prose\n```python\ndef f():\n    if x:\n        return 1\n    return 1\n```\n";

#[test]
fn fenced_code_is_byte_identical() {
    let out = rules_compress(FENCED_TWICE);
    assert!(out.contains("def f():\n    if x:\n        return 1\n    return 1\n"));
}

#[test]
fn duplicate_fence_replaced_with_marker() {
    let out = rules_compress(FENCED_TWICE);
    assert_eq!(out.matches("def f():").count(), 1);
    assert!(out.contains("[duplicate code block removed]"));
    assert_eq!(
        out,
        "fix this.\n```python\ndef f():\n    if x:\n        return 1\n    return 1\n```\nsome spaced prose\n```\n[duplicate code block removed]\n```\n"
    );
}

#[test]
fn repeated_brace_lines_inside_fence_survive() {
    let s = "```js\nif (a) {\n}\nif (b) {\n}\n```\n";
    assert!(rules_compress(s).contains("if (a) {\n}\nif (b) {\n}\n"));
}

#[test]
fn idempotent_on_samples() {
    for s in [FENCED_TWICE, "plain  text\n\n\n\nmore", "```\nunclosed fence"] {
        let once = rules_compress(s);
        assert_eq!(rules_compress(&once), once);
    }
}

#[test]
fn nonempty_in_nonempty_out() {
    assert!(rules_compress("Thanks! Fix src/main.rs").contains("src/main.rs"));
    assert_eq!(rules_compress("Thank you!"), "");
}

#[test]
fn line_ends_are_normalized() {
    assert_eq!(rules_compress("a\r\nb\rc\n"), "a\nb\nc\n");
    // Fenced blocks keep their own line ends.
    assert_eq!(rules_compress("```\r\nx  y\r\n```"), "```\r\nx  y\r\n```");
    assert_eq!(
        rules_compress("a  b\r\n```\r\nx\ry\r\n```\r\nc\r\n"),
        "a b\n```\r\nx\ry\r\n```\r\nc\n"
    );
    assert_eq!(rules_compress("a\r\r\nb"), "a\n\nb");
}

#[test]
fn blank_text_is_left_alone() {
    assert_eq!(rules_compress(" \r\n\t "), " \r\n\t ");
    assert_eq!(rules_compress(""), "");
}

#[test]
fn long_lines_are_deduped_across_fences() {
    assert_eq!(
        rules_compress("the same long line\n```\nx\n```\nthe same long line\nshort\n"),
        "the same long line\n```\nx\n```\nshort\n"
    );
    // Blank bodies are no repeats.
    assert_eq!(rules_compress("```\n\n```\n```\n\n```\n"), "```\n\n```\n```\n\n```\n");
}

#[test]
fn compressing_twice_is_compressing_once() {
    for (s, expected) in [
        // What is left after a phrase is gone may be a phrase again.
        ("please please please x", "x"),
        // Squeezing may uncover boilerplate, or a line that was said before.
        ("thank  you. Go on", "Go on"),
        ("one long  line here\none long line here\n", "one long line here\n"),
        // Prose that becomes a block is a block from then on.
        ("please ```\ncode\n```\n", "```\ncode\n```\n"),
        // Prose that would tear a block apart is left alone.
        (
            "please ```\nA\n```py\ncode  x\n```\n",
            "please ```\nA\n```py\ncode  x\n```\n",
        ),
        ("Thank you!", ""),
        ("a\n \n \nb", "a\n\nb"),
        ("fine as it is", "fine as it is"),
    ] {
        let once = rules_compress(s);
        assert_eq!(once, expected);
        assert_eq!(rules_compress(&once), once);
    }
}

#[test]
fn blocks_that_say_what_the_marker_says_become_it() {
    let s = "```\nx\n```\n```a\nx\n```\n```b\n[duplicate code block removed]\n```\n";
    let once = rules_compress(s);
    assert_eq!(
        once,
        "```\nx\n```\n```\n[duplicate code block removed]\n```\n```\n[duplicate code block removed]\n```\n"
    );
    assert_eq!(rules_compress(&once), once);
}
