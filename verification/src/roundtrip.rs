//! What is read of a stream that was written: the blocks of an event stream, written out in
//! UTF-8 and cut into chunks at any byte, come out as their events.

use vstd::prelude::*;

use crate::event::EventView;
use crate::laws;
use crate::line;
use crate::line::FieldView;
use crate::model;
use crate::model::ParserState;
use crate::polls;
use crate::polls::Input;
use crate::text;

verus! {

/// A block of an event stream, as its sender has it.
pub struct Block {
    /// The type of the event, if it has one.
    pub event_type: Option<Seq<char>>,
    /// The data, line by line.
    pub data: Seq<Seq<char>>,
}

/// Whether a block can be written out: it has data, and no value goes over the end of a line.
pub open spec fn writable(block: Block) -> bool {
    &&& block.data.len() > 0
    &&& block.event_type matches Some(event_type) ==> !event_type.contains('\n')
    &&& forall|i: int| 0 <= i < block.data.len() ==> !(#[trigger] block.data[i]).contains('\n')
}

/// The lines that a block is written in.
pub open spec fn block_lines(block: Block) -> Seq<Seq<u8>> {
    (match block.event_type {
        Some(event_type) => seq![line::event_name() + vstd::utf8::encode_utf8(event_type)],
        None => Seq::empty(),
    }) + block.data.map_values(
        |value: Seq<char>| line::data_name() + vstd::utf8::encode_utf8(value),
    ) + seq![Seq::empty()]
}

/// The lines that several blocks are written in.
pub open spec fn stream_lines(blocks: Seq<Block>) -> Seq<Seq<u8>>
    decreases blocks.len(),
{
    if blocks.len() == 0 {
        Seq::empty()
    } else {
        stream_lines(blocks.drop_last()) + block_lines(blocks.last())
    }
}

/// The event of a block: its values trimmed, and its data joined.
pub open spec fn event_of(block: Block) -> EventView {
    model::block_event(
        match block.event_type {
            Some(event_type) => Some(text::trimmed(event_type)),
            None => None,
        },
        text::joined(block.data.map_values(|value: Seq<char>| text::trimmed(value))),
    )
}

/// The fields of a block.
spec fn block_fields(block: Block) -> Seq<FieldView> {
    (match block.event_type {
        Some(event_type) => seq![FieldView::Event(text::trimmed(event_type))],
        None => Seq::empty(),
    }) + block.data.map_values(|value: Seq<char>| FieldView::Data(text::trimmed(value)))
        + seq![FieldView::Blank]
}

/// The fields of several blocks.
spec fn stream_fields(blocks: Seq<Block>) -> Seq<FieldView>
    decreases blocks.len(),
{
    if blocks.len() == 0 {
        Seq::empty()
    } else {
        stream_fields(blocks.drop_last()) + block_fields(blocks.last())
    }
}

/// ASCII characters are encoded as themselves, all others in bytes that are not ASCII.
pub proof fn lemma_scalar_bytes(c: char)
    ensures
        ({
            let bytes = vstd::utf8::encode_scalar(c as u32);
            &&& c < '\u{80}' ==> bytes.len() == 1 && bytes[0] as int == c as int
            &&& c >= '\u{80}' ==> forall|i: int| 0 <= i < bytes.len() ==> bytes[i] >= 128
            &&& bytes.len() > 0
        }),
{
    let u = c as u32;
    vstd::utf8::char_is_scalar(c);
    assert(u <= 127 ==> (u & 0x7F) as u8 == u as u8) by (bit_vector);
    assert(forall|x: u8| #[trigger] (0xC0u8 | x) >= 128) by (bit_vector);
    assert(forall|x: u8| #[trigger] (0xE0u8 | x) >= 128) by (bit_vector);
    assert(forall|x: u8| #[trigger] (0xF0u8 | x) >= 128) by (bit_vector);
    assert(forall|x: u8| #[trigger] (0x80u8 | x) >= 128) by (bit_vector);
}

/// An encoded text has a line feed only if the text has one.
proof fn lemma_encode_line_feed(chars: Seq<char>)
    requires
        !chars.contains('\n'),
    ensures
        !vstd::utf8::encode_utf8(chars).contains(line::LF),
    decreases chars.len(),
{
    if chars.len() > 0 {
        let rest = chars.drop_first();
        let head = vstd::utf8::encode_scalar(chars[0] as u32);
        assert(chars.contains(chars[0]));
        lemma_scalar_bytes(chars[0]);
        assert forall|i: int| 0 <= i < rest.len() implies rest[i] != '\n' by {
            assert(chars.contains(chars[i + 1]));
        }
        lemma_encode_line_feed(rest);
        let tail = vstd::utf8::encode_utf8(rest);
        assert forall|i: int| 0 <= i < (head + tail).len() implies (head + tail)[i] != line::LF by {
            if i < head.len() {
                assert((head + tail)[i] == head[i]);
            } else {
                assert(tail.contains(tail[i - head.len()]));
            }
        }
    }
}

/// A text is encoded character by character.
proof fn lemma_encode_last(chars: Seq<char>)
    requires
        chars.len() > 0,
    ensures
        vstd::utf8::encode_utf8(chars) == vstd::utf8::encode_utf8(chars.drop_last())
            + vstd::utf8::encode_scalar(chars.last() as u32),
    decreases chars.len(),
{
    let rest = chars.drop_first();
    if rest.len() > 0 {
        lemma_encode_last(rest);
        assert(rest.drop_last() =~= chars.drop_last().drop_first());
        assert(vstd::utf8::encode_utf8(chars) =~= vstd::utf8::encode_utf8(chars.drop_last())
            + vstd::utf8::encode_scalar(chars.last() as u32));
    } else {
        assert(chars.drop_last() =~= rest);
        assert(vstd::utf8::encode_utf8(rest) =~= Seq::empty());
        assert(vstd::utf8::encode_utf8(chars) =~= vstd::utf8::encode_scalar(chars[0] as u32));
        assert(vstd::utf8::encode_utf8(chars.drop_last()) + vstd::utf8::encode_scalar(
            chars.last() as u32,
        ) =~= vstd::utf8::encode_scalar(chars[0] as u32));
    }
}

/// White space at the end of a text does not survive trimming.
proof fn lemma_trimmed_last(chars: Seq<char>)
    requires
        chars.len() > 0,
        text::is_white_space(chars.last()),
    ensures
        text::trimmed(chars) == text::trimmed(chars.drop_last()),
    decreases chars.len(),
{
    if text::is_white_space(chars.first()) {
        if chars.len() == 1 {
            assert(chars.drop_first() =~= chars.drop_last());
        } else {
            assert(chars.drop_last().drop_first() =~= chars.drop_first().drop_last());
            assert(chars.drop_last().first() == chars.first());
            lemma_trimmed_last(chars.drop_first());
        }
    } else {
        assert(chars.drop_last().len() > 0);
        assert(chars.drop_last().first() == chars.first());
    }
}

/// A text that was encoded is decoded again.
pub proof fn law_text_roundtrip(chars: Seq<char>)
    ensures
        line::value_text(vstd::utf8::encode_utf8(chars)) == text::trimmed(chars),
{
    vstd::utf8::encode_utf8_valid_utf8(chars);
    vstd::utf8::encode_utf8_decode_utf8(chars);
}

/// Whether a line is read as the given field, with or without the carriage return that may be
/// its last byte.
spec fn says(bytes: Seq<u8>, field: FieldView) -> bool {
    &&& !bytes.contains(line::LF)
    &&& line::field_of(bytes) == field
    &&& line::field_of(line::without_cr(bytes)) == field
}

/// Whether lines are read as the given fields.
spec fn all_say(lines: Seq<Seq<u8>>, fields: Seq<FieldView>) -> bool {
    &&& lines.len() == fields.len()
    &&& forall|i: int| 0 <= i < lines.len() ==> says(#[trigger] lines[i], fields[i])
}

/// A line made of a name and a value without a line feed is read alike with and without a
/// carriage return at its end.
proof fn lemma_named_line(name: Seq<u8>, value: Seq<char>)
    requires
        name == line::data_name() || name == line::event_name(),
        !value.contains('\n'),
    ensures
        says(
            name + vstd::utf8::encode_utf8(value),
            if name == line::data_name() {
                FieldView::Data(text::trimmed(value))
            } else {
                FieldView::Event(text::trimmed(value))
            },
        ),
{
    let encoded = vstd::utf8::encode_utf8(value);
    let bytes = name + encoded;
    line::lemma_names();
    assert(line::data_name()[0] != line::event_name()[0]);
    line::law_data_line(encoded);
    line::law_event_line(encoded);
    law_text_roundtrip(value);
    lemma_encode_line_feed(value);
    assert forall|i: int| 0 <= i < bytes.len() implies bytes[i] != line::LF by {
        if i >= name.len() {
            assert(encoded.contains(encoded[i - name.len()]));
        }
    }
    if bytes.last() == line::CR {
        if value.len() == 0 {
            assert(bytes.last() == name.last());
        }
        let last = value.last();
        let front = value.drop_last();
        lemma_encode_last(value);
        lemma_scalar_bytes(last);
        assert(bytes.last() == vstd::utf8::encode_scalar(last as u32).last());
        assert(last == '\r');
        assert(bytes.drop_last() =~= name + vstd::utf8::encode_utf8(front));
        line::law_data_line(vstd::utf8::encode_utf8(front));
        line::law_event_line(vstd::utf8::encode_utf8(front));
        law_text_roundtrip(front);
        lemma_trimmed_last(value);
    }
}

/// The lines of a block are read as its fields.
proof fn lemma_block_lines(block: Block)
    requires
        writable(block),
    ensures
        all_say(block_lines(block), block_fields(block)),
{
    let lines = block_lines(block);
    let fields = block_fields(block);
    let offset: int = if block.event_type is Some {
        1
    } else {
        0
    };
    assert forall|i: int| 0 <= i < lines.len() implies says(#[trigger] lines[i], fields[i]) by {
        if i < offset {
            line::lemma_names();
            assert(line::data_name()[0] != line::event_name()[0]);
            lemma_named_line(line::event_name(), block.event_type->0);
        } else if i < offset + block.data.len() {
            lemma_named_line(line::data_name(), block.data[i - offset]);
        } else {
            assert(lines[i] =~= Seq::empty());
        }
    }
}

/// The lines of several blocks are read as their fields.
proof fn lemma_stream_lines(blocks: Seq<Block>)
    requires
        forall|i: int| 0 <= i < blocks.len() ==> writable(#[trigger] blocks[i]),
    ensures
        all_say(stream_lines(blocks), stream_fields(blocks)),
    decreases blocks.len(),
{
    if blocks.len() > 0 {
        let front = blocks.drop_last();
        assert forall|i: int| 0 <= i < front.len() implies writable(#[trigger] front[i]) by {
            assert(writable(blocks[i]));
        }
        assert(writable(blocks[blocks.len() - 1]));
        lemma_stream_lines(front);
        lemma_block_lines(blocks.last());
        let lines = stream_lines(blocks);
        let fields = stream_fields(blocks);
        let n = stream_lines(front).len();
        assert forall|i: int| 0 <= i < lines.len() implies says(#[trigger] lines[i], fields[i]) by {
            if i < n {
                assert(says(stream_lines(front)[i], stream_fields(front)[i]));
            } else {
                assert(says(block_lines(blocks.last())[i - n], block_fields(blocks.last())[i - n]));
            }
        }
    }
}

/// `data:` fields alone have their values, in order, and nothing else.
proof fn lemma_data_fields(values: Seq<Seq<char>>, fields: Seq<FieldView>)
    requires
        fields.len() == values.len(),
        forall|i: int| 0 <= i < fields.len() ==> fields[i] == FieldView::Data(values[i]),
    ensures
        laws::data_values(fields) == values,
        laws::comments(fields) == Seq::<EventView>::empty(),
        forall|t: Option<Seq<char>>| laws::latest_type(fields, t) == t,
        forall|t: Option<Seq<char>>| laws::latest_id(fields, t) == t,
    decreases fields.len(),
{
    if fields.len() > 0 {
        lemma_data_fields(values.drop_last(), fields.drop_last());
        assert(values.drop_last().push(values.last()) =~= values);
        assert forall|t: Option<Seq<char>>| laws::latest_type(fields, t) == t by {
            assert(laws::latest_type(fields.drop_last(), t) == t);
        }
        assert forall|t: Option<Seq<char>>| laws::latest_id(fields, t) == t by {
            assert(laws::latest_id(fields.drop_last(), t) == t);
        }
    } else {
        assert(values =~= Seq::empty());
    }
}

/// One field, as a sequence of fields.
proof fn lemma_accepted_one(s: ParserState, field: FieldView)
    ensures
        model::accepted_all(s, seq![field]) == (
            model::accepted(s, field).0,
            model::listed(model::accepted(s, field).1),
        ),
{
    reveal_with_fuel(model::accepted_all, 2);
    let (_, event) = model::accepted(s, field);
    assert(seq![field].drop_last() =~= Seq::empty());
    assert(Seq::<EventView>::empty() + model::listed(event) =~= model::listed(event));
}

/// A block makes its event and leaves the state as it was.
proof fn lemma_block_event(s: ParserState, block: Block)
    requires
        s.data.len() == 0,
        s.event_type is None,
        block.data.len() > 0,
    ensures
        model::accepted_all(s, block_fields(block)) == (s, seq![event_of(block)]),
{
    let values = block.data.map_values(|value: Seq<char>| text::trimmed(value));
    let data = block.data.map_values(|value: Seq<char>| FieldView::Data(text::trimmed(value)));
    lemma_data_fields(values, data);
    let end = seq![FieldView::Blank];
    let (named, start) = match block.event_type {
        Some(event_type) => (
            ParserState { event_type: Some(text::trimmed(event_type)), ..s },
            seq![FieldView::Event(text::trimmed(event_type))],
        ),
        None => (s, Seq::empty()),
    };
    laws::law_fields_in_sequence(s, start + data, end);
    laws::law_fields_in_sequence(s, start, data);
    assert(s.data =~= Seq::empty());
    if let Some(event_type) = block.event_type {
        lemma_accepted_one(s, FieldView::Event(text::trimmed(event_type)));
    }
    laws::law_block_is_collected(named, data);
    assert(named.data + values =~= values);
    let (collected, _) = model::accepted_all(named, data);
    lemma_accepted_one(collected, FieldView::Blank);
    assert(model::accepted_all(collected, end).0 =~= s);
    assert(model::accepted_all(s, block_fields(block)).1 =~= seq![event_of(block)]);
}

/// Several blocks make their events, in order, and leave the state as it was.
proof fn lemma_stream_events(s: ParserState, blocks: Seq<Block>)
    requires
        s.data.len() == 0,
        s.event_type is None,
        forall|i: int| 0 <= i < blocks.len() ==> writable(#[trigger] blocks[i]),
    ensures
        model::accepted_all(s, stream_fields(blocks)) == (
            s,
            blocks.map_values(|block: Block| event_of(block)),
        ),
    decreases blocks.len(),
{
    let events = blocks.map_values(|block: Block| event_of(block));
    if blocks.len() > 0 {
        let front = blocks.drop_last();
        assert forall|i: int| 0 <= i < front.len() implies writable(#[trigger] front[i]) by {
            assert(writable(blocks[i]));
        }
        assert(writable(blocks[blocks.len() - 1]));
        lemma_stream_events(s, front);
        lemma_block_event(s, blocks.last());
        laws::law_fields_in_sequence(s, stream_fields(front), block_fields(blocks.last()));
        assert(front.map_values(|block: Block| event_of(block)) + seq![event_of(blocks.last())]
            =~= events);
    } else {
        assert(events =~= Seq::empty());
    }
}

/// What is read is what was written: a stream of blocks, its lines ended by CRLF or LF, its
/// bytes cut into chunks anywhere (within a character too), gives a consumer one event for each
/// block, in order, with the values trimmed of white space, and no other. Failures of the source
/// in between change nothing in this.
pub proof fn law_stream_roundtrip<E>(
    s: ParserState,
    blocks: Seq<Block>,
    crlf: Seq<bool>,
    inputs: Seq<Input<E>>,
)
    requires
        s.buffer.len() == 0,
        s.data.len() == 0,
        s.event_type is None,
        forall|i: int| 0 <= i < blocks.len() ==> writable(#[trigger] blocks[i]),
        crlf.len() == stream_lines(blocks).len(),
        polls::bytes_of(inputs) == laws::sent(stream_lines(blocks), crlf),
    ensures
        polls::events_among(polls::answers(s, inputs)) == blocks.map_values(
            |block: Block| event_of(block),
        ),
{
    let lines = stream_lines(blocks);
    let bytes = laws::sent(lines, crlf);
    let events = blocks.map_values(|block: Block| event_of(block));
    polls::law_errors_pass_through(s, inputs);
    lemma_stream_lines(blocks);
    assert forall|i: int| 0 <= i < lines.len() implies !(#[trigger] lines[i]).contains(
        line::LF,
    ) by {
        assert(says(lines[i], stream_fields(blocks)[i]));
    }
    laws::law_line_endings(lines, crlf);
    assert(s.buffer + bytes =~= bytes);
    assert(s.buffer =~= Seq::empty());
    let whole = model::received(s, bytes);
    laws::law_line_by_line(whole);
    let read = laws::read_back(lines, crlf);
    assert forall|i: int| 0 <= i < lines.len() implies #[trigger] laws::fields_of(read)[i]
        == stream_fields(blocks)[i] by {
        assert(says(lines[i], stream_fields(blocks)[i]));
    }
    assert(laws::fields_of(read) =~= stream_fields(blocks));
    lemma_stream_events(s, blocks);
    assert(ParserState { buffer: model::unterminated(bytes), ..whole } == s);
    line::lemma_names();
    assert(model::finished(s).1 is None);
    assert(events + model::listed(None) =~= events);
}

} // verus!
