use tokio_sse_llm::line::{
    decode_value, find_line_end, read_line, strip_data_name, strip_prefix, trim_line, Field,
};
use tokio_sse_llm::text::{join_lines, same_text};
use tokio_sse_llm::{LlmSseStream, SseEvent};

#[test]
fn lines_are_read_by_their_names() {
    assert_eq!(read_line(b""), Field::Blank);
    assert_eq!(read_line(b"data:  x y "), Field::Data("x y".into()));
    assert_eq!(read_line(b"data:"), Field::Data("".into()));
    assert_eq!(read_line(b"event:delta"), Field::Event("delta".into()));
    assert_eq!(read_line(b"id: 5"), Field::Id("5".into()));
    assert_eq!(read_line(b":"), Field::Comment("".into()));
    assert_eq!(read_line(b": data: x"), Field::Comment("data: x".into()));
    assert_eq!(read_line(b"retry: 1"), Field::Ignored);
    assert_eq!(read_line(b"data"), Field::Ignored);
    assert_eq!(read_line(b" "), Field::Ignored);
}

#[test]
fn line_ends_are_found() {
    assert_eq!(find_line_end(b""), None);
    assert_eq!(find_line_end(b"abc"), None);
    assert_eq!(find_line_end(b"\n"), Some(0));
    assert_eq!(find_line_end(b"ab\ncd\n"), Some(2));
}

#[test]
fn line_endings_are_cut_off() {
    assert_eq!(trim_line(b"ab\r\n", 3), b"ab");
    assert_eq!(trim_line(b"ab\n", 2), b"ab");
    assert_eq!(trim_line(b"\r\n", 1), b"");
    assert_eq!(trim_line(b"\n", 0), b"");
    assert_eq!(trim_line(b"a\r\r\n", 3), b"a\r");
}

#[test]
fn prefixes_are_stripped() {
    assert_eq!(strip_prefix(b"abc", b"ab"), Some(&b"c"[..]));
    assert_eq!(strip_prefix(b"abc", b""), Some(&b"abc"[..]));
    assert_eq!(strip_prefix(b"abc", b"abcd"), None);
    assert_eq!(strip_prefix(b"abc", b"ac"), None);
    assert_eq!(strip_data_name(b"data: x"), Some(&b" x"[..]));
    assert_eq!(strip_data_name(b"date: x"), None);
}

#[test]
fn valid_utf8_is_decoded() {
    assert_eq!(decode_value(" \u{20ac}\u{1f980} \u{e9}\t".as_bytes()), "\u{20ac}\u{1f980} \u{e9}");
    assert_eq!(decode_value(b""), "");
}

#[test]
fn invalid_utf8_is_replaced() {
    assert_eq!(decode_value(b" a\xffb "), "a\u{fffd}b");
    assert_eq!(decode_value(b"\xe2\x82"), "\u{fffd}");
}

/// The white space that trimming removes is the list of the Unicode property `White_Space`.
#[test]
fn white_space_is_what_is_trimmed() {
    let white_space = [
        0x9, 0xa, 0xb, 0xc, 0xd, 0x20, 0x85, 0xa0, 0x1680, 0x2000, 0x2001, 0x2002, 0x2003, 0x2004,
        0x2005, 0x2006, 0x2007, 0x2008, 0x2009, 0x200a, 0x2028, 0x2029, 0x202f, 0x205f, 0x3000,
    ];
    let mut buffer = [0; 4];
    for c in '\0'..=char::MAX {
        let trimmed = decode_value(c.encode_utf8(&mut buffer).as_bytes());
        if white_space.contains(&(c as u32)) {
            assert_eq!(trimmed, "", "{:?}", c);
        } else {
            assert_eq!(trimmed.chars().next(), Some(c), "{:?}", c);
        }
    }
}

#[test]
fn white_space_inside_is_kept() {
    assert_eq!(decode_value(b" \t a  b \r "), "a  b");
}

#[test]
fn lines_are_joined_with_line_feeds() {
    assert_eq!(join_lines(&vec![]), "");
    assert_eq!(join_lines(&vec!["a".to_string()]), "a");
    let parts = vec!["a".to_string(), "".to_string(), "c".to_string()];
    assert_eq!(join_lines(&parts), "a\n\nc");
}

#[test]
fn texts_are_compared() {
    assert!(same_text("", ""));
    assert!(same_text("ab", "ab"));
    assert!(!same_text("ab", "abc"));
    assert!(!same_text("ab", "aB"));
}

#[test]
fn fields_are_accepted_one_by_one() {
    let mut sse = LlmSseStream::new(());
    assert_eq!(sse.accept(Field::Data("a".into())), None);
    assert_eq!(sse.accept(Field::Event("x".into())), None);
    assert_eq!(sse.accept(Field::Comment("c".into())), Some(SseEvent::Comment("c".into())));
    assert_eq!(sse.accept(Field::Id("1".into())), None);
    assert_eq!(sse.last_event_id(), Some("1"));
    assert_eq!(sse.accept(Field::Ignored), None);
    assert_eq!(sse.accept(Field::Data("b".into())), None);
    assert_eq!(
        sse.accept(Field::Blank),
        Some(SseEvent::NamedData { event_type: "x".into(), data: "a\nb".into() })
    );
    assert_eq!(sse.accept(Field::Blank), None);
    assert_eq!(sse.accept(Field::Id("".into())), None);
    assert_eq!(sse.last_event_id(), None);
}

#[test]
fn the_end_takes_in_the_tail() {
    let mut sse = LlmSseStream::new(());
    assert_eq!(sse.accept(Field::Data("a".into())), None);
    assert_eq!(sse.finish_with(Some("b".into())), Some(SseEvent::Data("a\nb".into())));
    assert_eq!(sse.finish_with(None), None);
    assert_eq!(sse.finish(), None);
    assert_eq!(sse.next_buffered(), None);
}
