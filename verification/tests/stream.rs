use std::collections::VecDeque;
use std::io::{Error, ErrorKind};

use tokio_sse_llm::line::Field;
use tokio_sse_llm::{LlmSseStream, LlmSseStreamExt, Polled, SseEvent, Step};

/// A source of chunks, of which `None` stands for "nothing yet".
type Source = VecDeque<Option<Result<Vec<u8>, Error>>>;

fn bytes_stream(chunks: Vec<&str>) -> Source {
    chunks
        .into_iter()
        .map(|s| Some(Ok(s.as_bytes().to_vec())))
        .collect()
}

fn byte_chunks(chunks: Vec<Vec<u8>>) -> Source {
    chunks.into_iter().map(|c| Some(Ok(c))).collect()
}

/// One poll of the parser: `None` if it has to wait.
fn poll(sse: &mut LlmSseStream<Source>) -> Option<Option<Result<SseEvent, Error>>> {
    let mut step = sse.begin_poll();
    loop {
        match step {
            Step::Ready(item) => return Some(item),
            Step::Pending => return None,
            Step::PollInner => {
                step = match sse.inner_mut().pop_front() {
                    Some(Some(Ok(chunk))) => {
                        assert!(sse.has_room(chunk.len()));
                        sse.resume_poll(Polled::Chunk(&chunk))
                    }
                    Some(Some(Err(error))) => sse.resume_poll(Polled::Failed(error)),
                    Some(None) => sse.resume_poll(Polled::Pending),
                    None => sse.resume_poll(Polled::Ended),
                }
            }
        }
    }
}

fn next(sse: &mut LlmSseStream<Source>) -> Option<Result<SseEvent, Error>> {
    poll(sse).unwrap()
}

fn event(sse: &mut LlmSseStream<Source>) -> SseEvent {
    next(sse).unwrap().unwrap()
}

fn all_events(source: Source) -> Vec<SseEvent> {
    let mut sse = LlmSseStream::new(source);
    let mut events = Vec::new();
    while let Some(item) = next(&mut sse) {
        events.push(item.unwrap());
    }
    assert!(next(&mut sse).is_none());
    events
}

fn named(event_type: &str, data: &str) -> SseEvent {
    SseEvent::NamedData { event_type: event_type.into(), data: data.into() }
}

// Plain events

#[test]
fn single_data_event() {
    let mut sse = LlmSseStream::new(bytes_stream(vec!["data: {\"token\":\"hello\"}\n\n"]));
    assert_eq!(event(&mut sse), SseEvent::Data("{\"token\":\"hello\"}".into()));
    assert!(next(&mut sse).is_none());
}

#[test]
fn done_event() {
    let mut sse = LlmSseStream::new(bytes_stream(vec!["data: [DONE]\n\n"]));
    assert_eq!(event(&mut sse), SseEvent::Done);
}

#[test]
fn comment_event() {
    let mut sse = LlmSseStream::new(bytes_stream(vec![": keep-alive\n\n"]));
    assert_eq!(event(&mut sse), SseEvent::Comment("keep-alive".into()));
}

#[test]
fn chunked_across_tcp_boundary() {
    let mut sse = LlmSseStream::new(bytes_stream(vec!["data: {\"tok", "en\":\"world\"}\n\n"]));
    assert_eq!(event(&mut sse), SseEvent::Data("{\"token\":\"world\"}".into()));
}

#[test]
fn multiple_events_in_sequence() {
    let mut sse = LlmSseStream::new(bytes_stream(vec![
        "data: {\"delta\":\"Hi\"}\n\n",
        "data: {\"delta\":\" there\"}\n\n",
        "data: [DONE]\n\n",
    ]));
    assert_eq!(event(&mut sse), SseEvent::Data("{\"delta\":\"Hi\"}".into()));
    assert_eq!(event(&mut sse), SseEvent::Data("{\"delta\":\" there\"}".into()));
    assert_eq!(event(&mut sse), SseEvent::Done);
    assert!(next(&mut sse).is_none());
}

#[test]
fn crlf_line_endings() {
    let mut sse = LlmSseStream::new(bytes_stream(vec!["data: test\r\n\r\n"]));
    assert_eq!(event(&mut sse), SseEvent::Data("test".into()));
}

#[test]
fn extension_trait() {
    let mut sse = bytes_stream(vec!["data: via-trait\n\n"]).into_sse_stream();
    assert_eq!(event(&mut sse), SseEvent::Data("via-trait".into()));
}

// Multi-line data

#[test]
fn multiline_data_joined_with_newline() {
    let mut sse = LlmSseStream::new(bytes_stream(vec!["data: line one\ndata: line two\n\n"]));
    assert_eq!(
        event(&mut sse),
        SseEvent::Data("line one\nline two".into()),
        "multi-line data must be joined into one event"
    );
    assert!(next(&mut sse).is_none());
}

#[test]
fn multiline_data_three_lines() {
    let mut sse = LlmSseStream::new(bytes_stream(vec!["data: a\ndata: b\ndata: c\n\n"]));
    assert_eq!(event(&mut sse), SseEvent::Data("a\nb\nc".into()));
}

#[test]
fn two_separate_single_line_events_not_joined() {
    let mut sse = LlmSseStream::new(bytes_stream(vec!["data: first\n\ndata: second\n\n"]));
    assert_eq!(event(&mut sse), SseEvent::Data("first".into()));
    assert_eq!(event(&mut sse), SseEvent::Data("second".into()));
    assert!(next(&mut sse).is_none());
}

// event: field

#[test]
fn event_type_field_captured() {
    let mut sse = LlmSseStream::new(bytes_stream(vec![
        "event: content_block_delta\ndata: {\"text\":\"hi\"}\n\n",
    ]));
    assert_eq!(
        event(&mut sse),
        SseEvent::NamedData {
            event_type: "content_block_delta".into(),
            data: "{\"text\":\"hi\"}".into(),
        },
        "event: field must be captured as NamedData"
    );
}

#[test]
fn event_type_with_multiline_data() {
    let mut sse =
        LlmSseStream::new(bytes_stream(vec!["event: delta\ndata: part1\ndata: part2\n\n"]));
    assert_eq!(
        event(&mut sse),
        SseEvent::NamedData { event_type: "delta".into(), data: "part1\npart2".into() }
    );
}

#[test]
fn no_event_type_stays_as_data() {
    let mut sse = LlmSseStream::new(bytes_stream(vec!["data: plain\n\n"]));
    let event = event(&mut sse);
    assert!(matches!(event, SseEvent::Data(_)), "no event: field → Data variant");
}

#[test]
fn comment_between_events_does_not_merge() {
    let mut sse =
        LlmSseStream::new(bytes_stream(vec!["data: hello\n\n: ping\n\ndata: world\n\n"]));
    assert_eq!(event(&mut sse), SseEvent::Data("hello".into()));
    assert_eq!(event(&mut sse), SseEvent::Comment("ping".into()));
    assert_eq!(event(&mut sse), SseEvent::Data("world".into()));
    assert!(next(&mut sse).is_none());
}

// id: and retry: fields

#[test]
fn id_field_is_tracked_retry_is_ignored() {
    let mut sse = LlmSseStream::new(bytes_stream(vec!["id: 42\nretry: 3000\ndata: ok\n\n"]));
    assert_eq!(event(&mut sse), SseEvent::Data("ok".into()));
    assert_eq!(sse.last_event_id(), Some("42"), "id: field must be tracked for reconnect");
    assert!(next(&mut sse).is_none());
}

#[test]
fn id_field_updates_across_events() {
    let mut sse = LlmSseStream::new(bytes_stream(vec![
        "id: 1\ndata: first\n\n",
        "id: 2\ndata: second\n\n",
    ]));
    assert_eq!(event(&mut sse), SseEvent::Data("first".into()));
    assert_eq!(sse.last_event_id(), Some("1"));
    assert_eq!(event(&mut sse), SseEvent::Data("second".into()));
    assert_eq!(sse.last_event_id(), Some("2"));
}

#[test]
fn empty_id_field_resets_to_none() {
    let mut sse =
        LlmSseStream::new(bytes_stream(vec!["id: 5\ndata: first\n\nid:\ndata: second\n\n"]));
    event(&mut sse);
    assert_eq!(sse.last_event_id(), Some("5"));
    event(&mut sse);
    assert_eq!(sse.last_event_id(), None, "empty id: must reset last_event_id to None");
}

#[test]
fn no_id_field_means_none() {
    let mut sse = LlmSseStream::new(bytes_stream(vec!["data: hello\n\n"]));
    event(&mut sse);
    assert_eq!(sse.last_event_id(), None);
}

#[test]
fn empty_data_field_not_emitted() {
    let mut sse =
        LlmSseStream::new(bytes_stream(vec!["data: real\n\ndata: \n\ndata: next\n\n"]));
    assert_eq!(event(&mut sse), SseEvent::Data("real".into()));
    let middle = event(&mut sse);
    assert_eq!(middle, SseEvent::Data("".into()));
    assert_eq!(event(&mut sse), SseEvent::Data("next".into()));
}

// Streams as the services send them

#[test]
fn openai_realistic_stream() {
    let mut sse = LlmSseStream::new(bytes_stream(vec![
        "data: {\"id\":\"chatcmpl-1\",\"choices\":[{\"delta\":{\"content\":\"Hello\"}}]}\n\n",
        "data: {\"id\":\"chatcmpl-1\",\"choices\":[{\"delta\":{\"content\":\" world\"}}]}\n\n",
        "data: [DONE]\n\n",
    ]));
    let e1 = event(&mut sse);
    assert!(matches!(e1, SseEvent::Data(_)));
    let e2 = event(&mut sse);
    assert!(matches!(e2, SseEvent::Data(_)));
    assert_eq!(event(&mut sse), SseEvent::Done);
    assert!(next(&mut sse).is_none());
}

#[test]
fn anthropic_realistic_stream() {
    let mut sse = LlmSseStream::new(bytes_stream(vec![
        "event: message_start\ndata: {\"type\":\"message_start\"}\n\n",
        "event: content_block_delta\ndata: {\"delta\":{\"text\":\"Hi\"}}\n\n",
        "event: message_stop\ndata: {\"type\":\"message_stop\"}\n\n",
    ]));
    assert!(matches!(event(&mut sse), SseEvent::NamedData { event_type, .. } if event_type == "message_start"));
    assert!(matches!(event(&mut sse), SseEvent::NamedData { event_type, .. } if event_type == "content_block_delta"));
    assert!(matches!(event(&mut sse), SseEvent::NamedData { event_type, .. } if event_type == "message_stop"));
    assert!(next(&mut sse).is_none());
}

// Edge cases

#[test]
fn empty_stream_returns_none() {
    let mut sse = LlmSseStream::new(bytes_stream(vec![]));
    assert!(next(&mut sse).is_none(), "empty stream must return None immediately");
}

#[test]
fn stream_with_only_comments_no_data() {
    let mut sse = LlmSseStream::new(bytes_stream(vec![": ping\n\n: pong\n\n"]));
    assert_eq!(event(&mut sse), SseEvent::Comment("ping".into()));
    assert_eq!(event(&mut sse), SseEvent::Comment("pong".into()));
    assert!(next(&mut sse).is_none());
}

#[test]
fn stream_error_propagates() {
    let mut source = bytes_stream(vec!["data: hello\n\n"]);
    source.push_back(Some(Err(Error::new(ErrorKind::ConnectionReset, "reset"))));
    let mut sse = LlmSseStream::new(source);
    assert_eq!(event(&mut sse), SseEvent::Data("hello".into()));
    assert!(next(&mut sse).unwrap().is_err(), "IO error must propagate as Err");
}

#[test]
fn utf8_multibyte_split_across_chunks() {
    let euro = "€";
    let chunk1 = "data: price is ".to_string();
    let mut chunk2_bytes = Vec::new();
    chunk2_bytes.extend_from_slice(euro.as_bytes());
    chunk2_bytes.extend_from_slice(b"100\n\n");

    let mut sse = LlmSseStream::new(byte_chunks(vec![chunk1.into_bytes(), chunk2_bytes]));
    let event = event(&mut sse);
    assert_eq!(
        event,
        SseEvent::Data("price is €100".into()),
        "multi-byte character split across chunks must be assembled correctly"
    );
}

#[test]
fn unterminated_stream_flushes_pending() {
    let mut sse = LlmSseStream::new(bytes_stream(vec!["data: no trailing newline"]));
    let event = event(&mut sse);
    assert_eq!(
        event,
        SseEvent::Data("no trailing newline".into()),
        "stream ending without empty-line separator must flush pending data"
    );
}

#[test]
fn very_large_data_line() {
    let big = "x".repeat(65536);
    let input = format!("data: {}\n\n", big);
    let mut sse = LlmSseStream::new(bytes_stream(vec![&input]));
    let event = event(&mut sse);
    assert!(matches!(event, SseEvent::Data(ref s) if s.len() == 65536));
}

#[test]
fn whitespace_only_data_line() {
    let mut sse = LlmSseStream::new(bytes_stream(vec!["data:    \n\n"]));
    let event = event(&mut sse);
    assert_eq!(event, SseEvent::Data("".into()));
}

// Whole streams

const MIXED: &str = "id: 7\r\nevent: delta\ndata: \u{20ac} one\r\n: ping\ndata:two \u{1f980}\n\n\
    retry: 10\nfoo: bar\ndata: [DONE]\n\ndata: tail";

fn mixed_events() -> Vec<SseEvent> {
    vec![
        SseEvent::Comment("ping".into()),
        named("delta", "\u{20ac} one\ntwo \u{1f980}"),
        SseEvent::Done,
        SseEvent::Data("tail".into()),
    ]
}

#[test]
fn any_cut_into_two_chunks_gives_the_same_events() {
    let bytes = MIXED.as_bytes();
    for cut in 0..=bytes.len() {
        let events = all_events(byte_chunks(vec![bytes[..cut].to_vec(), bytes[cut..].to_vec()]));
        assert_eq!(events, mixed_events(), "cut at {}", cut);
    }
}

#[test]
fn single_bytes_give_the_same_events() {
    let chunks = MIXED.bytes().map(|b| vec![b]).collect();
    assert_eq!(all_events(byte_chunks(chunks)), mixed_events());
}

#[test]
fn empty_chunks_change_nothing() {
    let source = bytes_stream(vec!["", "data: a", "", "\n", "", "\n", ""]);
    assert_eq!(all_events(source), vec![SseEvent::Data("a".into())]);
}

#[test]
fn crlf_and_lf_give_the_same_events() {
    let lf = "event: x\ndata: a\n\n: c\ndata: b\n\n";
    let crlf = lf.replace('\n', "\r\n");
    let expected = vec![
        named("x", "a"),
        SseEvent::Comment("c".into()),
        SseEvent::Data("b".into()),
    ];
    assert_eq!(all_events(bytes_stream(vec![lf])), expected);
    assert_eq!(all_events(bytes_stream(vec![&crlf])), expected);
}

#[test]
fn a_bare_carriage_return_ends_no_line() {
    let source = bytes_stream(vec!["data: a\rdata: b\n\n"]);
    assert_eq!(all_events(source), vec![SseEvent::Data("a\rdata: b".into())]);
}

#[test]
fn a_carriage_return_line_is_an_empty_line() {
    let source = bytes_stream(vec!["data: a\n\r\ndata: b\n\r\n"]);
    assert_eq!(
        all_events(source),
        vec![SseEvent::Data("a".into()), SseEvent::Data("b".into())]
    );
}

#[test]
fn two_carriage_returns_are_not_an_empty_line() {
    let source = bytes_stream(vec!["data: a\n\r\r\ndata: b\n\n"]);
    assert_eq!(all_events(source), vec![SseEvent::Data("a\nb".into())]);
}

#[test]
fn written_blocks_are_read_back() {
    let blocks = [
        (Some("message_start"), vec!["{}"]),
        (None, vec!["gr\u{fc}n", "", "\u{1f980}\u{1f980}"]),
        (Some("stop"), vec!["a b", "c"]),
    ];
    let mut written = String::new();
    for (i, (event_type, data)) in blocks.iter().enumerate() {
        let end = if i % 2 == 0 { "\n" } else { "\r\n" };
        if let Some(event_type) = event_type {
            written += &format!("event:{}{}", event_type, end);
        }
        for line in data {
            written += &format!("data:{}{}", line, end);
        }
        written += end;
    }
    let chunks = written.as_bytes().chunks(3).map(|c| c.to_vec()).collect();
    assert_eq!(
        all_events(byte_chunks(chunks)),
        vec![
            named("message_start", "{}"),
            SseEvent::Data("gr\u{fc}n\n\n\u{1f980}\u{1f980}".into()),
            named("stop", "a b\nc"),
        ]
    );
}

#[test]
fn an_event_type_does_not_reach_the_next_block() {
    let source = bytes_stream(vec!["event: x\ndata: a\n\ndata: b\n\n"]);
    assert_eq!(all_events(source), vec![named("x", "a"), SseEvent::Data("b".into())]);
}

#[test]
fn an_event_type_without_data_is_dropped() {
    let source = bytes_stream(vec!["event: x\n\ndata: b\n\n"]);
    assert_eq!(all_events(source), vec![SseEvent::Data("b".into())]);
}

#[test]
fn the_last_event_type_of_a_block_counts() {
    let source = bytes_stream(vec!["event: x\ndata: a\nevent: y\n\n"]);
    assert_eq!(all_events(source), vec![named("y", "a")]);
}

#[test]
fn an_empty_event_type_is_still_a_type() {
    let source = bytes_stream(vec!["event:\ndata: a\n\n"]);
    assert_eq!(all_events(source), vec![named("", "a")]);
}

#[test]
fn done_has_no_event_type() {
    let source = bytes_stream(vec!["event: x\ndata: [DONE]\n\n"]);
    assert_eq!(all_events(source), vec![SseEvent::Done]);
}

#[test]
fn done_among_other_data_is_data() {
    let source = bytes_stream(vec!["data: [DONE]\ndata: x\n\n"]);
    assert_eq!(all_events(source), vec![SseEvent::Data("[DONE]\nx".into())]);
}

#[test]
fn events_go_on_after_done() {
    let source = bytes_stream(vec!["data: [DONE]\n\ndata: more\n\n"]);
    assert_eq!(all_events(source), vec![SseEvent::Done, SseEvent::Data("more".into())]);
}

#[test]
fn a_comment_within_a_block_comes_first() {
    let source = bytes_stream(vec!["data: a\n: c\ndata: b\n\n"]);
    assert_eq!(
        all_events(source),
        vec![SseEvent::Comment("c".into()), SseEvent::Data("a\nb".into())]
    );
}

#[test]
fn unknown_lines_are_ignored() {
    let source = bytes_stream(vec![
        "retry: 3000\ndata\n data: x\nDATA: x\nid\nevent\nfoo\ndata: a\n\n",
    ]);
    assert_eq!(all_events(source), vec![SseEvent::Data("a".into())]);
}

#[test]
fn blank_lines_alone_make_no_event() {
    assert_eq!(all_events(bytes_stream(vec!["\n\r\n\n\n"])), vec![]);
}

#[test]
fn an_id_outside_a_data_block_counts() {
    let mut sse = LlmSseStream::new(bytes_stream(vec!["id: 9\n\ndata: a\n\n"]));
    assert_eq!(event(&mut sse), SseEvent::Data("a".into()));
    assert_eq!(sse.last_event_id(), Some("9"));
    assert!(next(&mut sse).is_none());
    assert_eq!(sse.last_event_id(), Some("9"));
}

// The end of the stream

#[test]
fn a_terminated_line_without_a_blank_line_is_flushed() {
    assert_eq!(all_events(bytes_stream(vec!["data: a\n"])), vec![SseEvent::Data("a".into())]);
}

#[test]
fn an_unterminated_line_joins_its_block() {
    let source = bytes_stream(vec!["event: x\ndata: a\ndata: b"]);
    assert_eq!(all_events(source), vec![named("x", "a\nb")]);
}

#[test]
fn an_unterminated_empty_data_line_is_dropped() {
    assert_eq!(all_events(bytes_stream(vec!["data:  "])), vec![]);
    let source = bytes_stream(vec!["data: a\ndata: "]);
    assert_eq!(all_events(source), vec![SseEvent::Data("a".into())]);
}

#[test]
fn other_unterminated_lines_are_dropped() {
    assert_eq!(all_events(bytes_stream(vec![": comment"])), vec![]);
    let source = bytes_stream(vec!["data: a\nevent: x"]);
    assert_eq!(all_events(source), vec![SseEvent::Data("a".into())]);
    let mut sse = LlmSseStream::new(bytes_stream(vec!["id: 5"]));
    assert!(next(&mut sse).is_none());
    assert_eq!(sse.last_event_id(), None);
}

#[test]
fn an_unterminated_done_is_done() {
    assert_eq!(all_events(bytes_stream(vec!["data: [DONE]"])), vec![SseEvent::Done]);
}

// Polling

#[test]
fn pending_keeps_what_was_received() {
    let mut source = bytes_stream(vec!["data: a\nda"]);
    source.push_back(None);
    source.extend(bytes_stream(vec!["ta: b\n\n"]));
    let mut sse = LlmSseStream::new(source);
    assert!(poll(&mut sse).is_none());
    assert_eq!(event(&mut sse), SseEvent::Data("a\nb".into()));
    assert!(next(&mut sse).is_none());
}

#[test]
fn an_error_keeps_what_was_received() {
    let mut source = bytes_stream(vec!["data: a\nda"]);
    source.push_back(Some(Err(Error::new(ErrorKind::TimedOut, "slow"))));
    source.extend(bytes_stream(vec!["ta: b\n\n"]));
    let mut sse = LlmSseStream::new(source);
    let error = next(&mut sse).unwrap().unwrap_err();
    assert_eq!(error.kind(), ErrorKind::TimedOut);
    assert_eq!(event(&mut sse), SseEvent::Data("a\nb".into()));
}

#[test]
fn the_source_comes_back_unread() {
    let mut sse = LlmSseStream::new(bytes_stream(vec!["data: a\n\ndata: b\n\n", "data: c\n\n"]));
    assert_eq!(event(&mut sse), SseEvent::Data("a".into()));
    assert_eq!(sse.into_inner().len(), 1);
}

#[test]
fn room_has_a_limit() {
    let mut sse = LlmSseStream::new(bytes_stream(vec![]));
    assert!(sse.has_room(0));
    assert!(sse.has_room(isize::MAX as usize / 2));
    assert!(!sse.has_room(isize::MAX as usize / 2 + 1));
    assert!(!sse.has_room(usize::MAX));
    assert!(matches!(sse.resume_poll::<Error>(Polled::Chunk(b"ab")), Step::PollInner));
    assert!(sse.has_room(isize::MAX as usize / 2 - 4));
    assert!(!sse.has_room(isize::MAX as usize / 2 - 3));
}

// Last event IDs, item by item

type Shown = (Option<Result<SseEvent, ErrorKind>>, Option<String>);

/// Each answer of the parser, its end last, with the ID that shows after it.
fn shown(source: Source) -> Vec<Shown> {
    let mut sse = LlmSseStream::new(source);
    let mut list = Vec::new();
    loop {
        let item = match poll(&mut sse) {
            Some(item) => item.map(|result| result.map_err(|error| error.kind())),
            None => continue,
        };
        let ended = item.is_none();
        list.push((item, sse.last_event_id().map(|id| id.to_string())));
        if ended {
            return list;
        }
    }
}

fn data(text: &str, id: Option<&str>) -> Shown {
    (Some(Ok(SseEvent::Data(text.into()))), id.map(|id| id.to_string()))
}

const WITH_IDS: &str = "data: a\n\nid: 1\n\ndata: b\n\nid: 2\ndata: c\n\nid:\n: ping\nid: 3\ndata: d";

fn with_ids_shown() -> Vec<Shown> {
    vec![
        data("a", None),
        data("b", Some("1")),
        data("c", Some("2")),
        (Some(Ok(SseEvent::Comment("ping".into()))), None),
        data("d", Some("3")),
        (None, Some("3".into())),
    ]
}

#[test]
fn the_id_after_each_item_is_that_of_the_lines_up_to_it() {
    assert_eq!(shown(bytes_stream(vec![WITH_IDS])), with_ids_shown());
}

#[test]
fn any_cut_shows_the_same_ids() {
    let bytes = WITH_IDS.as_bytes();
    for cut in 0..=bytes.len() {
        let mut source = byte_chunks(vec![bytes[..cut].to_vec()]);
        source.push_back(None);
        source.extend(byte_chunks(vec![Vec::new(), bytes[cut..].to_vec()]));
        assert_eq!(shown(source), with_ids_shown(), "cut at {}", cut);
    }
}

#[test]
fn crlf_and_lf_show_the_same_ids() {
    let crlf = WITH_IDS.replace('\n', "\r\n");
    for size in [1, 2, 3, 5, crlf.len()] {
        let chunks = crlf.as_bytes().chunks(size).map(|c| c.to_vec()).collect();
        assert_eq!(shown(byte_chunks(chunks)), with_ids_shown());
    }
}

#[test]
fn an_error_comes_behind_the_events_before_it() {
    let mut source = bytes_stream(vec!["id: 1\ndata: a\n\ndata: b\n", "\nid: 2\nda"]);
    source.push_back(Some(Err(Error::new(ErrorKind::TimedOut, "slow"))));
    source.extend(bytes_stream(vec!["ta: c\n\n"]));
    source.push_back(Some(Err(Error::new(ErrorKind::ConnectionReset, "reset"))));
    assert_eq!(
        shown(source),
        vec![
            data("a", Some("1")),
            data("b", Some("1")),
            (Some(Err(ErrorKind::TimedOut)), Some("2".into())),
            data("c", Some("2")),
            (Some(Err(ErrorKind::ConnectionReset)), Some("2".into())),
            (None, Some("2".into())),
        ]
    );
}

// Blocks and texts

#[test]
fn an_empty_line_parts_the_stream() {
    let front = "event: x\ndata: a\n\nevent: lost\n\n";
    let back = "data: b\n\ndata: [DONE]\n\ndata: c";
    let mut parts = all_events(bytes_stream(vec![front]));
    parts.extend(all_events(bytes_stream(vec![back])));
    assert_eq!(all_events(bytes_stream(vec![front, back])), parts);
    assert_eq!(
        parts,
        vec![
            named("x", "a"),
            SseEvent::Data("b".into()),
            SseEvent::Done,
            SseEvent::Data("c".into()),
        ]
    );
}

#[test]
fn a_block_is_dispatched_once() {
    let mut sse = LlmSseStream::new(bytes_stream(vec![]));
    assert_eq!(sse.accept(Field::Event("x".into())), None);
    assert_eq!(sse.accept(Field::Data("a".into())), None);
    assert_eq!(sse.accept(Field::Blank), Some(named("x", "a")));
    assert_eq!(sse.accept(Field::Blank), None);
    assert_eq!(sse.finish(), None);
    assert_eq!(sse.accept(Field::Data("b".into())), None);
    assert_eq!(sse.flush_pending(), Some(SseEvent::Data("b".into())));
    assert_eq!(sse.flush_pending(), None);
}

#[test]
fn invalid_utf8_brings_in_no_line_feed() {
    let bytes = b"event: \xe2\x82\ndata: \xf0\x9f \ndata: a\xff\n: \xc3\nid: \x80\n\ndata: \xe2\x82";
    assert_eq!(
        shown(byte_chunks(vec![bytes.to_vec()])),
        vec![
            (Some(Ok(SseEvent::Comment("\u{fffd}".into()))), None),
            (Some(Ok(named("\u{fffd}", "\u{fffd}\na\u{fffd}"))), Some("\u{fffd}".into())),
            data("\u{fffd}", Some("\u{fffd}")),
            (None, Some("\u{fffd}".into())),
        ]
    );
}

#[test]
fn texts_are_trimmed_and_an_id_is_never_blank() {
    let source = bytes_stream(vec![
        "event:\t x y \ndata: \u{3000}a \ndata:  b\r\nid: 7 \n\n:  c \n",
        "id: \t \ndata:  [DONE]\u{a0}\n\n",
    ]);
    assert_eq!(
        shown(source),
        vec![
            (Some(Ok(named("x y", "a\nb"))), Some("7".into())),
            (Some(Ok(SseEvent::Comment("c".into()))), Some("7".into())),
            (Some(Ok(SseEvent::Done)), None),
            (None, None),
        ]
    );
}
