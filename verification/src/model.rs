//! The parser as a mathematical object: its state, and what each input does to it.

use vstd::prelude::*;

use crate::event::EventView;
use crate::line;
use crate::line::FieldView;
use crate::text;

verus! {

/// What the parser knows between two inputs.
#[verifier::ext_equal]
pub struct ParserState {
    /// Received bytes that no line has been made of yet.
    pub buffer: Seq<u8>,
    /// The values of the `data:` fields of the current block.
    pub data: Seq<Seq<char>>,
    /// The value of the latest `event:` field of the current block.
    pub event_type: Option<Seq<char>>,
    /// The value of the latest `id:` field of the stream, unless that was empty.
    pub last_event_id: Option<Seq<char>>,
}

/// The state of a parser that has received nothing.
pub open spec fn fresh() -> ParserState {
    ParserState { buffer: Seq::empty(), data: Seq::empty(), event_type: None, last_event_id: None }
}

/// The state after more bytes have been received.
pub open spec fn received(s: ParserState, bytes: Seq<u8>) -> ParserState {
    ParserState { buffer: s.buffer + bytes, ..s }
}

/// The event of a block with the given type and data.
pub open spec fn block_event(event_type: Option<Seq<char>>, data: Seq<char>) -> EventView {
    if data == "[DONE]"@ {
        EventView::Done
    } else {
        match event_type {
            Some(event_type) => EventView::NamedData { event_type, data },
            None => EventView::Data(data),
        }
    }
}

/// The end of a block: the block is cleared, and it makes an event if it has a `data:` field.
pub open spec fn dispatched(s: ParserState) -> (ParserState, Option<EventView>) {
    (
        ParserState { data: Seq::empty(), event_type: None, ..s },
        if s.data.len() == 0 {
            None
        } else {
            Some(block_event(s.event_type, text::joined(s.data)))
        },
    )
}

/// What a field does to the state, and the event that it makes.
pub open spec fn accepted(s: ParserState, field: FieldView) -> (ParserState, Option<EventView>) {
    match field {
        FieldView::Blank => dispatched(s),
        FieldView::Data(value) => (ParserState { data: s.data.push(value), ..s }, None),
        FieldView::Event(value) => (ParserState { event_type: Some(value), ..s }, None),
        FieldView::Id(value) => (
            ParserState {
                last_event_id: if value.len() == 0 {
                    None
                } else {
                    Some(value)
                },
                ..s
            },
            None,
        ),
        FieldView::Comment(value) => (s, Some(EventView::Comment(value))),
        FieldView::Ignored => (s, None),
    }
}

/// Whether the buffer holds a complete line.
pub open spec fn has_line(buffer: Seq<u8>) -> bool {
    line::line_end(buffer) < buffer.len()
}

/// The first complete line of the buffer, without its line ending.
pub open spec fn first_line(buffer: Seq<u8>) -> Seq<u8> {
    line::without_cr(buffer.take(line::line_end(buffer)))
}

/// The buffer behind its first complete line.
pub open spec fn behind_first_line(buffer: Seq<u8>) -> Seq<u8> {
    buffer.skip(line::line_end(buffer) + 1)
}

/// The state after the first complete line, and the event that the line makes.
pub open spec fn line_taken(s: ParserState) -> (ParserState, Option<EventView>) {
    accepted(
        ParserState { buffer: behind_first_line(s.buffer), ..s },
        line::field_of(first_line(s.buffer)),
    )
}

/// Takes complete lines until one of them makes an event or none is left.
pub open spec fn next_event(s: ParserState) -> (ParserState, Option<EventView>)
    decreases s.buffer.len(),
{
    if !has_line(s.buffer) {
        (s, None)
    } else {
        let (after, event) = line_taken(s);
        proof {
            line::lemma_line_end(s.buffer);
        }
        if event is Some {
            (after, event)
        } else {
            next_event(after)
        }
    }
}

/// An optional event, as a sequence.
pub open spec fn listed(event: Option<EventView>) -> Seq<EventView> {
    match event {
        Some(e) => seq![e],
        None => Seq::empty(),
    }
}

/// The state after all complete lines have been taken, and the events that they make.
pub open spec fn drained(s: ParserState) -> (ParserState, Seq<EventView>)
    decreases s.buffer.len(),
{
    if !has_line(s.buffer) {
        (s, Seq::empty())
    } else {
        let (after, event) = line_taken(s);
        proof {
            line::lemma_line_end(s.buffer);
        }
        let (last, events) = drained(after);
        (last, listed(event) + events)
    }
}

/// The complete lines of a buffer, each without its line ending.
pub open spec fn lines_of(buffer: Seq<u8>) -> Seq<Seq<u8>>
    decreases buffer.len(),
{
    if !has_line(buffer) {
        Seq::empty()
    } else {
        proof {
            line::lemma_line_end(buffer);
        }
        seq![first_line(buffer)] + lines_of(behind_first_line(buffer))
    }
}

/// The bytes behind the last complete line of a buffer.
pub open spec fn unterminated(buffer: Seq<u8>) -> Seq<u8>
    decreases buffer.len(),
{
    if !has_line(buffer) {
        buffer
    } else {
        proof {
            line::lemma_line_end(buffer);
        }
        unterminated(behind_first_line(buffer))
    }
}

/// The state after a sequence of fields, and the events that they make.
pub open spec fn accepted_all(s: ParserState, fields: Seq<FieldView>) -> (
    ParserState,
    Seq<EventView>,
)
    decreases fields.len(),
{
    if fields.len() == 0 {
        (s, Seq::empty())
    } else {
        let (before, events) = accepted_all(s, fields.drop_last());
        let (after, event) = accepted(before, fields.last());
        (after, events + listed(event))
    }
}

/// The text of an unterminated last line, if that is a `data:` field that is not empty.
pub open spec fn tail_text(tail: Seq<u8>) -> Option<Seq<char>> {
    let value = line::value_text(tail.skip(line::data_name().len() as int));
    if line::data_name().is_prefix_of(tail) && value.len() > 0 {
        Some(value)
    } else {
        None
    }
}

/// The end of the stream, with the text that the unterminated last line contributes: the
/// buffer is emptied, and the current block ends.
pub open spec fn finished_with(s: ParserState, tail: Option<Seq<char>>) -> (
    ParserState,
    Option<EventView>,
) {
    dispatched(
        ParserState {
            buffer: Seq::empty(),
            data: match tail {
                Some(value) => s.data.push(value),
                None => s.data,
            },
            ..s
        },
    )
}

/// The end of the stream.
pub open spec fn finished(s: ParserState) -> (ParserState, Option<EventView>) {
    finished_with(s, tail_text(s.buffer))
}

/// The events of a stream that brings `bytes` and ends, in the order of their making.
pub open spec fn stream_events(s: ParserState, bytes: Seq<u8>) -> Seq<EventView> {
    let (after, events) = drained(received(s, bytes));
    events + listed(finished(after).1)
}

/// A poll that makes an event has used up a line.
pub proof fn lemma_next_event_shrinks(s: ParserState)
    ensures
        next_event(s).0.buffer.len() <= s.buffer.len(),
        next_event(s).1 is Some ==> next_event(s).0.buffer.len() < s.buffer.len(),
        next_event(s).1 is None ==> !has_line(next_event(s).0.buffer),
    decreases s.buffer.len(),
{
    if has_line(s.buffer) {
        line::lemma_line_end(s.buffer);
        if line_taken(s).1 is None {
            lemma_next_event_shrinks(line_taken(s).0);
        }
    }
}

} // verus!
