use prompt_codec::decimal::{decimal_text, padded_chars, parse_u64};
use prompt_codec::lines::{join_lines, split_lines};
use prompt_codec::message::{
    count_messages_tokens, message_text, part_text, parts_chars, Content, Message, Part,
};
use prompt_codec::stats::TokenStats;
use prompt_codec::text::{blank, trim_text};
use prompt_codec::tokenizer::{count_tokens, tokens_or_estimate};

#[test]
fn counts_known_text() {
    assert_eq!(count_tokens("hello world"), 2);
}

#[test]
fn empty_is_zero() {
    assert_eq!(count_tokens(""), 0);
}

#[test]
fn longer_text_more_tokens() {
    assert!(count_tokens(&"word ".repeat(100)) > count_tokens("word"));
}

#[test]
fn special_tokens_are_ordinary_text() {
    assert!(count_tokens("<|endoftext|>") > 1);
}

#[test]
fn estimate_is_a_quarter_of_the_bytes() {
    assert_eq!(tokens_or_estimate("", None), 0);
    assert_eq!(tokens_or_estimate("", Some(9)), 0);
    assert_eq!(tokens_or_estimate("abc", None), 1);
    assert_eq!(tokens_or_estimate("abcdefgh", None), 2);
    assert_eq!(tokens_or_estimate("éééé", None), 2);
    assert_eq!(tokens_or_estimate("abcdefgh", Some(7)), 7);
}

#[test]
fn saved_tokens_are_what_is_gone() {
    assert_eq!(TokenStats::new(1000, 400).saved_tokens(), 600);
    assert_eq!(TokenStats::new(100, 150).saved_tokens(), 0);
    assert_eq!(TokenStats::new(0, 0).saved_tokens(), 0);
}

fn object(kind: Option<&str>, text: Option<&str>) -> Part {
    Part::Object {
        kind: kind.map(String::from),
        text: text.map(String::from),
    }
}

#[test]
fn message_texts_are_joined() {
    let parts = vec![
        object(Some("text"), Some("one")),
        object(Some("image_url"), None),
        Part::Text("two".to_string()),
        Part::Other("3".to_string()),
    ];
    assert_eq!(part_text(&parts[1]), "");
    assert_eq!(parts_chars(&parts), 7);
    let m = Message {
        role: None,
        content: Content::Parts(parts),
    };
    assert_eq!(message_text(&m), "one  two 3");
    assert_eq!(m.role_text(), "");
    let m = Message {
        role: Some("user".to_string()),
        content: Content::Absent,
    };
    assert_eq!(message_text(&m), "");
    assert_eq!(m.role_text(), "user");
    let m = Message {
        role: None,
        content: Content::Other("{\"a\":1}".to_string()),
    };
    assert_eq!(message_text(&m), "{\"a\":1}");
}

#[test]
fn message_lists_are_counted_with_their_frames() {
    assert_eq!(count_messages_tokens(&vec![]), 2);
    let ms = vec![
        Message {
            role: Some("user".to_string()),
            content: Content::Text("hello world".to_string()),
        },
        Message {
            role: None,
            content: Content::Absent,
        },
    ];
    assert_eq!(count_messages_tokens(&ms), 2 + (2 + 4) + 4);
}

#[test]
fn numbers_are_written_in_decimal() {
    assert_eq!(decimal_text(0), "0");
    assert_eq!(decimal_text(1_234_567_890), "1234567890");
    let s: String = padded_chars(7, 3).iter().collect();
    assert_eq!(s, "007");
    let s: String = padded_chars(u64::MAX, 2).iter().collect();
    assert_eq!(s, "18446744073709551615");
}

#[test]
fn numbers_that_are_written_are_read_back() {
    for n in [0, 7, 10, 65_536, usize::MAX] {
        assert_eq!(parse_u64(&decimal_text(n)), Some(n as u64));
    }
}

#[test]
fn lines_are_cut_and_joined() {
    for s in ["", "\n", "a", "a\n", "a\n\nb", "\n\na"] {
        let chars: Vec<char> = s.chars().collect();
        let lines = split_lines(&chars);
        assert_eq!(lines.len(), s.split('\n').count());
        assert_eq!(join_lines(&lines), chars);
    }
}

#[test]
fn white_space_is_trimmed() {
    for s in ["", " ", " a b\t", "\u{a0}x\u{2003}", "\u{200b}y", "\u{85}\u{3000}"] {
        assert_eq!(trim_text(s), s.trim());
        assert_eq!(blank(s), s.trim().is_empty());
    }
}
