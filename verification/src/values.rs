//! What holds of every text that the parser gives out.

use vstd::prelude::*;

use crate::event::EventView;
use crate::laws;
use crate::line;
use crate::line::{FieldView, RawField};
use crate::model;
use crate::model::ParserState;
use crate::polls;
use crate::polls::{Answer, Input, Item};
use crate::roundtrip;
use crate::text;

verus! {

/// Whether a text has no white space at either end and, where `one_line` asks for it, no line
/// feed within.
pub open spec fn tidy(chars: Seq<char>, one_line: bool) -> bool {
    &&& text::trimmed(chars) == chars
    &&& one_line ==> !chars.contains('\n')
}

/// Whether each of several texts is tidy.
pub open spec fn all_tidy(list: Seq<Seq<char>>, one_line: bool) -> bool {
    forall|i: int| 0 <= i < list.len() ==> tidy(#[trigger] list[i], one_line)
}

/// Whether a text is made of tidy texts, joined with line feeds. Where `one_line` holds, these
/// are its lines.
pub open spec fn tidy_lines(chars: Seq<char>, one_line: bool) -> bool {
    exists|list: Seq<Seq<char>>|
        list.len() > 0 && all_tidy(list, one_line) && chars == #[trigger] text::joined(list)
}

/// Whether `from` and `to` are the bounds of a line of a text.
pub open spec fn is_line(chars: Seq<char>, from: int, to: int) -> bool {
    &&& 0 <= from <= to <= chars.len()
    &&& from == 0 || chars[from - 1] == '\n'
    &&& to == chars.len() || chars[to] == '\n'
    &&& forall|i: int| from <= i < to ==> chars[i] != '\n'
}

/// Each line of a text that is made of tidy lines is trimmed.
pub proof fn law_each_line_is_tidy(chars: Seq<char>, from: int, to: int)
    requires
        tidy_lines(chars, true),
        is_line(chars, from, to),
    ensures
        text::trimmed(chars.subrange(from, to)) == chars.subrange(from, to),
{
    let list = choose|list: Seq<Seq<char>>|
        list.len() > 0 && all_tidy(list, true) && chars == #[trigger] text::joined(list);
    lemma_joined_line(list, from, to);
}

/// Each line of texts that were joined is one of them.
proof fn lemma_joined_line(list: Seq<Seq<char>>, from: int, to: int)
    requires
        list.len() > 0,
        all_tidy(list, true),
        is_line(text::joined(list), from, to),
    ensures
        tidy(text::joined(list).subrange(from, to), true),
    decreases list.len(),
{
    let chars = text::joined(list);
    let last = list.last();
    assert(tidy(list[list.len() - 1], true));
    assert forall|i: int| 0 <= i < last.len() implies last[i] != '\n' by {
        assert(last.contains(last[i]));
    }
    if list.len() == 1 {
        assert(chars.subrange(from, to) =~= last);
    } else {
        let front = list.drop_last();
        let before = text::joined(front);
        let n = before.len() as int;
        assert(chars[n] == '\n');
        assert forall|i: int| n < i < chars.len() implies chars[i] != '\n' by {
            assert(chars[i] == last[i - n - 1]);
        }
        if from <= n {
            assert(to <= n);
            assert(forall|i: int| 0 <= i < n ==> before[i] == chars[i]);
            lemma_joined_line(front, from, to);
            assert(chars.subrange(from, to) =~= before.subrange(from, to));
        } else {
            assert(chars.subrange(from, to) =~= last);
        }
    }
}

/// Whether the texts of a field are tidy.
pub open spec fn tidy_field(field: FieldView, one_line: bool) -> bool {
    match field {
        FieldView::Data(value) => tidy(value, one_line),
        FieldView::Event(value) => tidy(value, one_line),
        FieldView::Id(value) => tidy(value, one_line),
        FieldView::Comment(value) => tidy(value, one_line),
        FieldView::Blank | FieldView::Ignored => true,
    }
}

/// Whether the texts of an event are tidy, and its data is not the end-of-stream signal.
pub open spec fn tidy_event(event: EventView, one_line: bool) -> bool {
    match event {
        EventView::Data(data) => data != "[DONE]"@ && tidy_lines(data, one_line),
        EventView::NamedData { event_type, data } => {
            &&& tidy(event_type, one_line)
            &&& data != "[DONE]"@
            &&& tidy_lines(data, one_line)
        },
        EventView::Done => true,
        EventView::Comment(value) => tidy(value, one_line),
    }
}

/// Whether a last event ID is tidy, and not empty.
pub open spec fn tidy_id(id: Option<Seq<char>>, one_line: bool) -> bool {
    id matches Some(value) ==> value.len() > 0 && tidy(value, one_line)
}

/// Whether all texts that the parser holds are tidy.
pub open spec fn tidy_state(s: ParserState, one_line: bool) -> bool {
    &&& all_tidy(s.data, one_line)
    &&& s.event_type matches Some(value) ==> tidy(value, one_line)
    &&& tidy_id(s.last_event_id, one_line)
}

/// Whether the texts of an answer are tidy, and so is the last event ID that shows after it.
pub open spec fn tidy_answer<E>(answer: Answer<E>, one_line: bool) -> bool {
    &&& answer.item matches Some(Item::Event(event)) ==> tidy_event(event, one_line)
    &&& tidy_id(answer.last_event_id, one_line)
}

/// Whether each of several answers is tidy.
pub open spec fn tidy_answers<E>(list: Seq<Answer<E>>, one_line: bool) -> bool {
    forall|i: int| 0 <= i < list.len() ==> tidy_answer(#[trigger] list[i], one_line)
}

/// Whether the value of the field that a line holds is valid UTF-8.
pub open spec fn utf8_value(line: Seq<u8>) -> bool {
    match line::raw_field(line) {
        RawField::Data(value) => vstd::utf8::valid_utf8(value),
        RawField::Event(value) => vstd::utf8::valid_utf8(value),
        RawField::Id(value) => vstd::utf8::valid_utf8(value),
        RawField::Comment(value) => vstd::utf8::valid_utf8(value),
        RawField::Blank | RawField::Ignored => true,
    }
}

/// Whether the values of all lines are valid UTF-8, that of an unterminated last line too.
pub open spec fn utf8_values(bytes: Seq<u8>) -> bool {
    let lines = model::lines_of(bytes);
    &&& forall|i: int| 0 <= i < lines.len() ==> utf8_value(#[trigger] lines[i])
    &&& utf8_value(model::unterminated(bytes))
}

/// Valid UTF-8 can be cut in front of and behind an ASCII byte.
proof fn lemma_ascii_cut(bytes: Seq<u8>, i: int)
    requires
        vstd::utf8::valid_utf8(bytes),
        0 <= i < bytes.len(),
        bytes[i] < 128,
    ensures
        vstd::utf8::valid_utf8(bytes.take(i)),
        vstd::utf8::valid_utf8(bytes.skip(i + 1)),
{
    vstd::utf8::is_char_boundary_iff_not_is_continuation_byte(bytes, i);
    vstd::utf8::valid_utf8_split(bytes, i);
    let rest = bytes.subrange(i, bytes.len() as int);
    assert(bytes.take(i) =~= bytes.subrange(0, i));
    assert(rest[0] == bytes[i]);
    assert(bytes.skip(i + 1) =~= vstd::utf8::pop_first_scalar(rest));
}

/// A line of valid UTF-8 has a valid value.
proof fn lemma_line_valid(bytes: Seq<u8>)
    requires
        vstd::utf8::valid_utf8(bytes),
    ensures
        utf8_value(bytes),
{
    line::lemma_names();
    match line::raw_field(bytes) {
        RawField::Data(_) => {
            assert(line::data_name()[4] == bytes.subrange(0, 5)[4]);
            lemma_ascii_cut(bytes, 4);
        },
        RawField::Event(_) => {
            assert(line::event_name()[5] == bytes.subrange(0, 6)[5]);
            lemma_ascii_cut(bytes, 5);
        },
        RawField::Id(_) => {
            assert(line::id_name()[2] == bytes.subrange(0, 3)[2]);
            lemma_ascii_cut(bytes, 2);
        },
        RawField::Comment(_) => {
            assert(line::comment_mark()[0] == bytes.subrange(0, 1)[0]);
            lemma_ascii_cut(bytes, 0);
        },
        RawField::Blank | RawField::Ignored => {},
    }
}

/// A stream of valid UTF-8 has valid values in all its lines.
pub proof fn law_utf8_stream(bytes: Seq<u8>)
    requires
        vstd::utf8::valid_utf8(bytes),
    ensures
        utf8_values(bytes),
    decreases bytes.len(),
{
    let lines = model::lines_of(bytes);
    if model::has_line(bytes) {
        let end = line::line_end(bytes);
        line::lemma_line_end(bytes);
        lemma_ascii_cut(bytes, end);
        let taken = bytes.take(end);
        if taken.len() > 0 && taken.last() == line::CR {
            lemma_ascii_cut(taken, end - 1);
            assert(taken.take(end - 1) =~= taken.drop_last());
        }
        lemma_line_valid(model::first_line(bytes));
        let behind = model::behind_first_line(bytes);
        law_utf8_stream(behind);
        let rest = model::lines_of(behind);
        assert forall|i: int| 0 <= i < lines.len() implies utf8_value(#[trigger] lines[i]) by {
            if i > 0 {
                assert(lines[i] == rest[i - 1]);
            }
        }
    } else {
        lemma_line_valid(bytes);
    }
}

/// A text with a line feed is encoded with one.
proof fn lemma_line_feed_encoded(chars: Seq<char>)
    requires
        chars.contains('\n'),
    ensures
        vstd::utf8::encode_utf8(chars).contains(line::LF),
    decreases chars.len(),
{
    let rest = chars.drop_first();
    let head = vstd::utf8::encode_scalar(chars[0] as u32);
    let tail = vstd::utf8::encode_utf8(rest);
    if chars[0] == '\n' {
        roundtrip::lemma_scalar_bytes(chars[0]);
        assert((head + tail)[0] == line::LF);
    } else {
        let at = chars.index_of('\n');
        assert(rest[at - 1] == '\n');
        lemma_line_feed_encoded(rest);
        let i = tail.index_of(line::LF);
        assert((head + tail)[head.len() + i] == line::LF);
    }
}

/// The value of a field equals its own trimming. It holds no line feed, where its bytes are
/// valid UTF-8 and hold none.
pub proof fn law_value_is_tidy(value: Seq<u8>)
    ensures
        text::trimmed(line::value_text(value)) == line::value_text(value),
        vstd::utf8::valid_utf8(value) && !value.contains(line::LF) ==> !line::value_text(
            value,
        ).contains('\n'),
{
    let decoded = text::utf8_or(value, text::replaced_utf8(value));
    text::lemma_trimmed_twice(decoded);
    if vstd::utf8::valid_utf8(value) && decoded.contains('\n') {
        vstd::utf8::decode_utf8_encode_utf8(value);
        lemma_line_feed_encoded(decoded);
    }
}

/// The field of a line is tidy.
proof fn lemma_field_tidy(bytes: Seq<u8>, one_line: bool)
    requires
        one_line ==> utf8_value(bytes) && !bytes.contains(line::LF),
    ensures
        tidy_field(line::field_of(bytes), one_line),
{
    match line::raw_field(bytes) {
        RawField::Data(value) | RawField::Event(value) | RawField::Id(value) | RawField::Comment(
            value,
        ) => {
            law_value_is_tidy(value);
            if one_line && value.contains(line::LF) {
                let at = value.index_of(line::LF);
                assert(bytes.contains(bytes[at + bytes.len() - value.len()]));
            }
        },
        RawField::Blank | RawField::Ignored => {},
    }
}

/// The end of a block keeps the texts tidy.
pub proof fn lemma_dispatched_tidy(s: ParserState, one_line: bool)
    requires
        tidy_state(s, one_line),
    ensures
        tidy_state(model::dispatched(s).0, one_line),
        model::dispatched(s).1 matches Some(event) ==> tidy_event(event, one_line),
{
    if s.data.len() > 0 {
        assert(tidy_lines(text::joined(s.data), one_line));
    }
}

/// A field keeps the texts tidy.
pub proof fn lemma_accepted_tidy(s: ParserState, field: FieldView, one_line: bool)
    requires
        tidy_state(s, one_line),
        tidy_field(field, one_line),
    ensures
        tidy_state(model::accepted(s, field).0, one_line),
        model::accepted(s, field).1 matches Some(event) ==> tidy_event(event, one_line),
{
    lemma_dispatched_tidy(s, one_line);
}

/// Without its first line, a stream still has valid values.
proof fn lemma_first_line_valid(bytes: Seq<u8>)
    requires
        model::has_line(bytes),
        utf8_values(bytes),
    ensures
        utf8_value(model::first_line(bytes)),
        utf8_values(model::behind_first_line(bytes)),
{
    line::lemma_line_end(bytes);
    let lines = model::lines_of(bytes);
    let rest = model::lines_of(model::behind_first_line(bytes));
    assert(lines[0] == model::first_line(bytes));
    assert forall|i: int| 0 <= i < rest.len() implies utf8_value(#[trigger] rest[i]) by {
        assert(lines[i + 1] == rest[i]);
    }
}

/// A poll keeps the texts tidy, and what it makes is tidy. Where `one_line` is asked for, the
/// values in the buffer, and in the bytes `more` that are still to come, have to be valid UTF-8.
pub proof fn law_poll_is_tidy(s: ParserState, more: Seq<u8>, one_line: bool)
    requires
        tidy_state(s, one_line),
        one_line ==> utf8_values(s.buffer + more),
    ensures
        ({
            let (after, event) = model::next_event(s);
            &&& tidy_state(after, one_line)
            &&& one_line ==> utf8_values(after.buffer + more)
            &&& event matches Some(e) ==> tidy_event(e, one_line)
        }),
    decreases s.buffer.len(),
{
    if model::has_line(s.buffer) {
        line::lemma_line_end(s.buffer);
        laws::lemma_first_line_joined(s.buffer, more);
        if one_line {
            lemma_first_line_valid(s.buffer + more);
        }
        let first = model::first_line(s.buffer);
        assert(!first.contains(line::LF));
        let (after, event) = model::line_taken(s);
        lemma_field_tidy(first, one_line);
        lemma_accepted_tidy(
            ParserState { buffer: model::behind_first_line(s.buffer), ..s },
            line::field_of(first),
            one_line,
        );
        if event is None {
            law_poll_is_tidy(after, more, one_line);
        }
    }
}

/// The end of the stream keeps the texts tidy, and what it makes is tidy.
pub proof fn law_end_is_tidy(s: ParserState, one_line: bool)
    requires
        tidy_state(s, one_line),
        one_line ==> !model::has_line(s.buffer) && utf8_values(s.buffer),
    ensures
        tidy_state(model::finished(s).0, one_line),
        model::finished(s).1 matches Some(event) ==> tidy_event(event, one_line),
{
    let tail = model::tail_text(s.buffer);
    line::lemma_names();
    line::lemma_line_end(s.buffer);
    lemma_field_tidy(s.buffer, one_line);
    if let Some(value) = tail {
        assert(line::field_of(s.buffer) == FieldView::Data(value));
    }
    let data = match tail {
        Some(value) => s.data.push(value),
        None => s.data,
    };
    lemma_dispatched_tidy(ParserState { buffer: Seq::empty(), data, ..s }, one_line);
}

/// The texts that a consumer gets: event types, comments and the last event ID that shows after
/// each answer have no white space at either end, and that ID is never empty; data is made of
/// such texts, joined with line feeds, and is never the end-of-stream signal. Where the values
/// are valid UTF-8, which `one_line` asks for, no such text holds a line feed. That none does
/// whatever the bytes are is in the contracts of the parser itself, which decodes them: see
/// [`LlmSseStream::well_formed`](crate::stream::LlmSseStream::well_formed).
pub proof fn law_texts_are_tidy<E>(s: ParserState, inputs: Seq<Input<E>>, one_line: bool)
    requires
        tidy_state(s, one_line),
        one_line ==> utf8_values(s.buffer + polls::bytes_of(inputs)),
    ensures
        tidy_answers(polls::answers(s, inputs), one_line),
    decreases inputs.len(), s.buffer.len(),
{
    let (after, event) = model::next_event(s);
    let bytes = polls::bytes_of(inputs);
    model::lemma_next_event_shrinks(s);
    law_poll_is_tidy(s, bytes, one_line);
    if event is Some {
        law_texts_are_tidy(after, inputs, one_line);
    } else if inputs.len() > 0 {
        let rest = inputs.drop_first();
        polls::lemma_bytes_first(inputs);
        match inputs.first() {
            Input::Chunk(chunk) => {
                let next = model::received(after, chunk);
                assert(next.buffer + polls::bytes_of(rest) =~= after.buffer + bytes);
                law_texts_are_tidy(next, rest, one_line);
            },
            Input::Pending => {
                law_texts_are_tidy(after, rest, one_line);
            },
            Input::Failed(_) => {
                law_texts_are_tidy(after, rest, one_line);
            },
        }
    } else {
        assert(after.buffer + bytes =~= after.buffer);
        law_end_is_tidy(after, one_line);
        assert(tidy_answers(polls::ending::<E>(after), one_line));
    }
}

/// A parser that has received nothing holds no text, and so only tidy ones.
pub proof fn law_fresh_is_tidy(one_line: bool)
    ensures
        tidy_state(model::fresh(), one_line),
{
}

} // verus!
