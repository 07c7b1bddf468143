//! What holds of the parser as a whole.

use vstd::prelude::*;

use crate::event::EventView;
use crate::line;
use crate::line::FieldView;
use crate::model;
use crate::model::ParserState;
use crate::text;

verus! {

/// The first line of a buffer is not affected by bytes that come behind it.
pub proof fn lemma_first_line_joined(a: Seq<u8>, b: Seq<u8>)
    requires
        model::has_line(a),
    ensures
        model::has_line(a + b),
        model::first_line(a + b) == model::first_line(a),
        model::behind_first_line(a + b) == model::behind_first_line(a) + b,
{
    let end = line::line_end(a);
    line::lemma_line_end(a);
    assert(forall|i: int| 0 <= i < a.len() ==> (a + b)[i] == a[i]);
    line::lemma_line_end_unique(a + b, end);
    assert((a + b).take(end) =~= a.take(end));
    assert(model::behind_first_line(a + b) =~= model::behind_first_line(a) + b);
}

/// Taking a complete line is not affected by bytes that come behind it.
pub proof fn lemma_line_taken_received(s: ParserState, bytes: Seq<u8>)
    requires
        model::has_line(s.buffer),
    ensures
        model::has_line(model::received(s, bytes).buffer),
        model::line_taken(model::received(s, bytes)) == (
            model::received(model::line_taken(s).0, bytes),
            model::line_taken(s).1,
        ),
{
    lemma_first_line_joined(s.buffer, bytes);
}

/// Lines can be taken before or after more bytes are received.
pub proof fn lemma_drained_received(s: ParserState, bytes: Seq<u8>)
    ensures
        ({
            let (s1, events1) = model::drained(s);
            let (s2, events2) = model::drained(model::received(s1, bytes));
            model::drained(model::received(s, bytes)) == (s2, events1 + events2)
        }),
    decreases s.buffer.len(),
{
    let (s2, events2) = model::drained(model::received(model::drained(s).0, bytes));
    if model::has_line(s.buffer) {
        line::lemma_line_end(s.buffer);
        let (after, event) = model::line_taken(s);
        lemma_line_taken_received(s, bytes);
        lemma_drained_received(after, bytes);
        let (_, events) = model::drained(after);
        assert(model::listed(event) + (events + events2) =~= (model::listed(event) + events)
            + events2);
    } else {
        assert(Seq::<EventView>::empty() + events2 =~= events2);
    }
}

/// A chunk may be cut anywhere: receiving its two parts one after the other leaves the same
/// state and makes the same events as receiving it whole.
pub proof fn law_chunk_cut(s: ParserState, a: Seq<u8>, b: Seq<u8>)
    ensures
        ({
            let (s1, events1) = model::drained(model::received(s, a));
            let (s2, events2) = model::drained(model::received(s1, b));
            model::drained(model::received(s, a + b)) == (s2, events1 + events2)
        }),
{
    lemma_drained_received(model::received(s, a), b);
    assert(model::received(model::received(s, a), b) =~= model::received(s, a + b));
}

/// Polling for one event at a time gives the events in the order in which the lines make them,
/// and leaves out none.
pub proof fn law_polls_follow_lines(s: ParserState)
    ensures
        ({
            let (after, event) = model::next_event(s);
            let (last, events) = model::drained(after);
            &&& model::drained(s) == (last, model::listed(event) + events)
            &&& event is None ==> events == Seq::<EventView>::empty() && last == after
        }),
    decreases s.buffer.len(),
{
    let (after, event) = model::next_event(s);
    model::lemma_next_event_shrinks(s);
    let (last, events) = model::drained(after);
    if model::has_line(s.buffer) {
        line::lemma_line_end(s.buffer);
        let (taken, made) = model::line_taken(s);
        if made is None {
            law_polls_follow_lines(taken);
            assert(model::listed(made) + model::drained(taken).1 =~= model::drained(taken).1);
        }
    } else {
        assert(model::listed(event) + events =~= events);
    }
}

/// The fields that a sequence of lines holds.
pub open spec fn fields_of(lines: Seq<Seq<u8>>) -> Seq<FieldView> {
    lines.map_values(|line: Seq<u8>| line::field_of(line))
}

/// Taking in a field leaves the buffer alone and does not look at it.
pub proof fn lemma_accepted_buffer(s: ParserState, buffer: Seq<u8>, field: FieldView)
    ensures
        model::accepted(ParserState { buffer, ..s }, field) == (
            ParserState { buffer, ..model::accepted(s, field).0 },
            model::accepted(s, field).1,
        ),
        model::accepted(s, field).0.buffer == s.buffer,
{
}

/// A sequence of fields can be taken in as its first field and then the others.
pub proof fn lemma_accepted_all_first(s: ParserState, fields: Seq<FieldView>)
    requires
        fields.len() > 0,
    ensures
        ({
            let (s1, event) = model::accepted(s, fields.first());
            let (s2, events) = model::accepted_all(s1, fields.drop_first());
            model::accepted_all(s, fields) == (s2, model::listed(event) + events)
        }),
    decreases fields.len(),
{
    let (s1, event) = model::accepted(s, fields.first());
    let rest = fields.drop_first();
    let (s2, events) = model::accepted_all(s1, rest);
    if rest.len() == 0 {
        assert(model::accepted_all(s, fields.drop_last()) == (s, Seq::<EventView>::empty()));
        assert(Seq::<EventView>::empty() + model::listed(event) =~= model::listed(event) + events);
    } else {
        let front = fields.drop_last();
        lemma_accepted_all_first(s, front);
        assert(front.drop_first() =~= rest.drop_last());
        assert(front.first() == fields.first());
        assert(rest.last() == fields.last());
        let (s3, events3) = model::accepted_all(s1, rest.drop_last());
        let (_, last) = model::accepted(s3, rest.last());
        assert((model::listed(event) + events3) + model::listed(last) =~= model::listed(event) + (
        events3 + model::listed(last)));
    }
}

/// A sequence of fields can be taken in as two sequences, one after the other.
pub proof fn law_fields_in_sequence(s: ParserState, a: Seq<FieldView>, b: Seq<FieldView>)
    ensures
        ({
            let (s1, events1) = model::accepted_all(s, a);
            let (s2, events2) = model::accepted_all(s1, b);
            model::accepted_all(s, a + b) == (s2, events1 + events2)
        }),
    decreases b.len(),
{
    let (s1, events1) = model::accepted_all(s, a);
    if b.len() == 0 {
        assert(a + b =~= a);
        assert(events1 + Seq::<EventView>::empty() =~= events1);
    } else {
        law_fields_in_sequence(s, a, b.drop_last());
        assert((a + b).drop_last() =~= a + b.drop_last());
        let (s2, events2) = model::accepted_all(s1, b.drop_last());
        let (_, event) = model::accepted(s2, b.last());
        assert(events1 + events2 + model::listed(event) =~= events1 + (events2 + model::listed(
            event,
        )));
    }
}

/// The parser works line by line: what the complete lines in the buffer do is what their
/// fields do, one after the other, and the bytes behind the last of them stay.
pub proof fn law_line_by_line(s: ParserState)
    ensures
        model::drained(s) == model::accepted_all(
            ParserState { buffer: model::unterminated(s.buffer), ..s },
            fields_of(model::lines_of(s.buffer)),
        ),
    decreases s.buffer.len(),
{
    let lines = model::lines_of(s.buffer);
    if model::has_line(s.buffer) {
        line::lemma_line_end(s.buffer);
        let behind = model::behind_first_line(s.buffer);
        let field = line::field_of(model::first_line(s.buffer));
        let start = ParserState { buffer: model::unterminated(s.buffer), ..s };
        let (after, _) = model::line_taken(s);
        law_line_by_line(after);
        assert(fields_of(lines).drop_first() =~= fields_of(model::lines_of(behind)));
        assert(fields_of(lines).first() == field);
        lemma_accepted_all_first(start, fields_of(lines));
        lemma_accepted_buffer(s, behind, field);
        lemma_accepted_buffer(s, model::unterminated(s.buffer), field);
    } else {
        assert(fields_of(lines) =~= Seq::empty());
    }
}

/// Lines as they are sent, each with the line ending chosen for it: `\r\n` or `\n`.
pub open spec fn sent(lines: Seq<Seq<u8>>, crlf: Seq<bool>) -> Seq<u8>
    recommends
        lines.len() == crlf.len(),
    decreases lines.len(),
{
    if lines.len() == 0 {
        Seq::empty()
    } else {
        lines.first() + (if crlf.first() {
            seq![line::CR, line::LF]
        } else {
            seq![line::LF]
        }) + sent(lines.drop_first(), crlf.drop_first())
    }
}

/// The lines that are read where `lines` were sent: a carriage return in front of a bare line
/// feed belongs to the line ending.
pub open spec fn read_back(lines: Seq<Seq<u8>>, crlf: Seq<bool>) -> Seq<Seq<u8>> {
    Seq::new(
        lines.len(),
        |i: int|
            if crlf[i] {
                lines[i]
            } else {
                line::without_cr(lines[i])
            },
    )
}

/// Whether no line feed is within any of the lines.
pub open spec fn without_line_feeds(lines: Seq<Seq<u8>>) -> bool {
    forall|i: int| 0 <= i < lines.len() ==> !(#[trigger] lines[i]).contains(line::LF)
}

/// The first of several lines is found, whichever line ending it has.
proof fn lemma_sent_first(lines: Seq<Seq<u8>>, crlf: Seq<bool>)
    requires
        lines.len() == crlf.len(),
        lines.len() > 0,
        !lines.first().contains(line::LF),
    ensures
        model::has_line(sent(lines, crlf)),
        model::first_line(sent(lines, crlf)) == read_back(lines, crlf).first(),
        model::behind_first_line(sent(lines, crlf)) == sent(lines.drop_first(), crlf.drop_first()),
{
    let bytes = sent(lines, crlf);
    let first = lines.first();
    let rest = sent(lines.drop_first(), crlf.drop_first());
    let end = first.len() + (if crlf.first() {
        1int
    } else {
        0
    });
    assert forall|i: int| 0 <= i < end implies bytes[i] != line::LF by {
        if i < first.len() {
            assert(bytes[i] == first[i]);
            assert(first.contains(first[i]));
        }
    }
    assert(bytes[end] == line::LF);
    line::lemma_line_end_unique(bytes, end);
    let taken = bytes.take(end);
    if crlf.first() {
        assert(taken.last() == line::CR);
        assert(taken.drop_last() =~= first);
    } else {
        assert(taken =~= first);
    }
    assert(bytes.skip(end + 1) =~= rest);
}

/// Both CRLF and LF end a line, in any mixture.
pub proof fn law_line_endings(lines: Seq<Seq<u8>>, crlf: Seq<bool>)
    requires
        lines.len() == crlf.len(),
        without_line_feeds(lines),
    ensures
        model::lines_of(sent(lines, crlf)) == read_back(lines, crlf),
        model::unterminated(sent(lines, crlf)) == Seq::<u8>::empty(),
    decreases lines.len(),
{
    if lines.len() > 0 {
        let rest = lines.drop_first();
        assert(!lines[0].contains(line::LF));
        lemma_sent_first(lines, crlf);
        assert forall|i: int| 0 <= i < rest.len() implies !(#[trigger] rest[i]).contains(
            line::LF,
        ) by {
            assert(!lines[i + 1].contains(line::LF));
        }
        law_line_endings(rest, crlf.drop_first());
        assert(seq![read_back(lines, crlf).first()] + read_back(rest, crlf.drop_first())
            =~= read_back(lines, crlf));
    } else {
        assert(model::lines_of(sent(lines, crlf)) =~= read_back(lines, crlf));
    }
}

/// The lines of a buffer are not affected by bytes that come behind them.
proof fn lemma_lines_joined(a: Seq<u8>, b: Seq<u8>)
    ensures
        model::lines_of(a + b) == model::lines_of(a) + model::lines_of(model::unterminated(a) + b),
        model::unterminated(a + b) == model::unterminated(model::unterminated(a) + b),
    decreases a.len(),
{
    let rest = model::lines_of(model::unterminated(a) + b);
    if model::has_line(a) {
        line::lemma_line_end(a);
        lemma_first_line_joined(a, b);
        let behind = model::behind_first_line(a);
        lemma_lines_joined(behind, b);
        let first = seq![model::first_line(a)];
        assert(first + (model::lines_of(behind) + rest) =~= (first + model::lines_of(behind))
            + rest);
    } else {
        assert(model::lines_of(a) + rest =~= rest);
    }
}

/// Bytes without a line feed hold no complete line.
proof fn lemma_no_line(bytes: Seq<u8>)
    requires
        !bytes.contains(line::LF),
    ensures
        model::lines_of(bytes) == Seq::<Seq<u8>>::empty(),
        model::unterminated(bytes) == bytes,
{
    line::lemma_line_end(bytes);
    if model::has_line(bytes) {
        assert(bytes.contains(bytes[line::line_end(bytes)]));
    }
}

/// Whether no line has a carriage return of its own at its end.
pub open spec fn without_last_crs(lines: Seq<Seq<u8>>) -> bool {
    forall|i: int|
        0 <= i < lines.len() && (#[trigger] lines[i]).len() > 0 ==> lines[i].last() != line::CR
}

/// The lines that were sent are the lines that are read, whatever their line endings, as long as
/// no line has a carriage return of its own at its end. An unterminated line may come last.
pub proof fn law_lines_come_back(lines: Seq<Seq<u8>>, crlf: Seq<bool>, tail: Seq<u8>)
    requires
        lines.len() == crlf.len(),
        without_line_feeds(lines),
        without_last_crs(lines),
        !tail.contains(line::LF),
    ensures
        model::lines_of(sent(lines, crlf) + tail) == lines,
        model::unterminated(sent(lines, crlf) + tail) == tail,
{
    law_line_endings(lines, crlf);
    lemma_lines_joined(sent(lines, crlf), tail);
    assert(Seq::<u8>::empty() + tail =~= tail);
    lemma_no_line(tail);
    assert(read_back(lines, crlf) + Seq::<Seq<u8>>::empty() =~= lines);
}

/// `bytes`, with CRLF in place of each line feed.
pub open spec fn with_crlf(bytes: Seq<u8>) -> Seq<u8>
    decreases bytes.len(),
{
    if bytes.len() == 0 {
        bytes
    } else if bytes.last() == line::LF {
        with_crlf(bytes.drop_last()) + seq![line::CR, line::LF]
    } else {
        with_crlf(bytes.drop_last()).push(bytes.last())
    }
}

/// Bytes that hold no carriage return keep their lines if each line feed becomes CRLF.
pub proof fn lemma_with_crlf(bytes: Seq<u8>)
    requires
        !bytes.contains(line::CR),
    ensures
        model::lines_of(with_crlf(bytes)) == model::lines_of(bytes),
        model::unterminated(with_crlf(bytes)) == model::unterminated(bytes),
        !model::unterminated(bytes).contains(line::CR),
    decreases bytes.len(),
{
    if bytes.len() > 0 {
        let front = bytes.drop_last();
        let last = bytes.last();
        assert forall|i: int| 0 <= i < front.len() implies front[i] != line::CR by {
            assert(bytes.contains(bytes[i]));
        }
        lemma_with_crlf(front);
        let tail = model::unterminated(front);
        assert(bytes =~= front + seq![last]);
        lemma_lines_joined(front, seq![last]);
        lemma_unterminated(front);
        if last == line::LF {
            let end = seq![line::CR, line::LF];
            lemma_lines_joined(with_crlf(front), end);
            lemma_one_line(tail, seq![line::LF]);
            lemma_one_line(tail, end);
        } else {
            assert(with_crlf(bytes) =~= with_crlf(front) + seq![last]);
            lemma_lines_joined(with_crlf(front), seq![last]);
            let more = tail + seq![last];
            assert(bytes.contains(last));
            assert forall|i: int| 0 <= i < more.len() implies more[i] != line::CR && more[i]
                != line::LF by {
                if i < tail.len() {
                    assert(tail.contains(tail[i]));
                }
            }
            lemma_no_line(more);
        }
    }
}

/// The bytes behind the last line hold no line feed.
proof fn lemma_unterminated(bytes: Seq<u8>)
    ensures
        !model::unterminated(bytes).contains(line::LF),
    decreases bytes.len(),
{
    line::lemma_line_end(bytes);
    if model::has_line(bytes) {
        lemma_unterminated(model::behind_first_line(bytes));
    }
}

/// A line with its line ending is one line.
proof fn lemma_one_line(content: Seq<u8>, end: Seq<u8>)
    requires
        end == seq![line::LF] || end == seq![line::CR, line::LF],
        !content.contains(line::LF),
        !content.contains(line::CR),
    ensures
        model::lines_of(content + end) == seq![content],
        model::unterminated(content + end) == Seq::<u8>::empty(),
{
    let lines = seq![content];
    let crlf = seq![end.len() == 2];
    law_line_endings(lines, crlf);
    assert(lines.drop_first() =~= Seq::empty());
    reveal_with_fuel(sent, 2);
    assert(sent(lines, crlf) =~= content + end);
    if content.len() > 0 {
        assert(content.contains(content.last()));
    }
    assert(read_back(lines, crlf) =~= lines);
}

/// The values of the `data:` fields, in order.
pub open spec fn data_values(fields: Seq<FieldView>) -> Seq<Seq<char>>
    decreases fields.len(),
{
    if fields.len() == 0 {
        Seq::empty()
    } else {
        match fields.last() {
            FieldView::Data(value) => data_values(fields.drop_last()).push(value),
            _ => data_values(fields.drop_last()),
        }
    }
}

/// The comments, in order.
pub open spec fn comments(fields: Seq<FieldView>) -> Seq<EventView>
    decreases fields.len(),
{
    if fields.len() == 0 {
        Seq::empty()
    } else {
        match fields.last() {
            FieldView::Comment(value) => comments(fields.drop_last()).push(
                EventView::Comment(value),
            ),
            _ => comments(fields.drop_last()),
        }
    }
}

/// The value of the last `event:` field, or `before` if there is none.
pub open spec fn latest_type(fields: Seq<FieldView>, before: Option<Seq<char>>) -> Option<
    Seq<char>,
>
    decreases fields.len(),
{
    if fields.len() == 0 {
        before
    } else {
        match fields.last() {
            FieldView::Event(value) => Some(value),
            _ => latest_type(fields.drop_last(), before),
        }
    }
}

/// The value of the last `id:` field, with none in place of an empty one, or `before` if there
/// is no such field.
pub open spec fn latest_id(fields: Seq<FieldView>, before: Option<Seq<char>>) -> Option<Seq<char>>
    decreases fields.len(),
{
    if fields.len() == 0 {
        before
    } else {
        match fields.last() {
            FieldView::Id(value) => if value.len() == 0 {
                None
            } else {
                Some(value)
            },
            _ => latest_id(fields.drop_last(), before),
        }
    }
}

/// Whether no empty line is among the fields.
pub open spec fn within_block(fields: Seq<FieldView>) -> bool {
    forall|i: int| 0 <= i < fields.len() ==> !((#[trigger] fields[i]) is Blank)
}

/// Within a block nothing is dispatched: `data:` values are collected in order, the last
/// `event:` and `id:` fields count, and the only events are the comments, made at once and
/// without effect on the block.
pub proof fn law_block_is_collected(s: ParserState, fields: Seq<FieldView>)
    requires
        within_block(fields),
    ensures
        model::accepted_all(s, fields) == (
            ParserState {
                buffer: s.buffer,
                data: s.data + data_values(fields),
                event_type: latest_type(fields, s.event_type),
                last_event_id: latest_id(fields, s.last_event_id),
            },
            comments(fields),
        ),
    decreases fields.len(),
{
    let (after, events) = model::accepted_all(s, fields);
    if fields.len() == 0 {
        assert(s.data + data_values(fields) =~= s.data);
    } else {
        law_block_is_collected(s, fields.drop_last());
        let (before, made) = model::accepted_all(s, fields.drop_last());
        assert(after.data =~= s.data + data_values(fields));
        assert(events =~= comments(fields));
    }
}

/// An empty line ends the block and dispatches it: a block with `data:` fields makes one event,
/// of all their values joined with line feeds, named if there was an `event:` field; a block
/// without makes none. Nothing of the block is left for the next one.
pub proof fn law_blank_line_dispatches(s: ParserState, fields: Seq<FieldView>)
    requires
        s.data.len() == 0,
        s.event_type is None,
        within_block(fields),
    ensures
        model::accepted_all(s, fields.push(FieldView::Blank)) == (
            ParserState { last_event_id: latest_id(fields, s.last_event_id), ..s },
            comments(fields) + (if data_values(fields).len() == 0 {
                Seq::empty()
            } else {
                seq![
                    model::block_event(
                        latest_type(fields, None),
                        text::joined(data_values(fields)),
                    ),
                ]
            }),
        ),
{
    let all = fields.push(FieldView::Blank);
    assert(all.drop_last() =~= fields);
    law_block_is_collected(s, fields);
    assert(s.data + data_values(fields) =~= data_values(fields));
    assert(s.data =~= Seq::empty());
}

/// A block is dispatched at most once: nothing of it is left to dispatch again.
pub proof fn law_dispatched_once(s: ParserState)
    ensures
        model::dispatched(model::dispatched(s).0) == (
            model::dispatched(s).0,
            None::<EventView>,
        ),
{
}

/// Whether `bytes` end in an empty line.
pub open spec fn ends_in_empty_line(bytes: Seq<u8>) -> bool {
    &&& model::lines_of(bytes).len() > 0
    &&& model::lines_of(bytes).last().len() == 0
    &&& model::unterminated(bytes).len() == 0
}

/// Two line feeds at the end are an empty line at the end.
proof fn lemma_two_line_feeds(bytes: Seq<u8>)
    requires
        bytes.len() >= 2,
        bytes[bytes.len() - 2] == line::LF,
        bytes[bytes.len() - 1] == line::LF,
    ensures
        ends_in_empty_line(bytes),
{
    let n = bytes.len() - 1;
    let front = bytes.take(n);
    let end = seq![line::LF];
    assert(bytes =~= front + end);
    lemma_lines_joined(front, end);
    lemma_ends_in_line_feed(front);
    let tail = Seq::<u8>::empty();
    lemma_one_line(tail, end);
    assert(model::unterminated(front) =~= tail);
}

/// Behind a line feed at the end there is nothing.
proof fn lemma_ends_in_line_feed(bytes: Seq<u8>)
    requires
        bytes.len() > 0,
        bytes.last() == line::LF,
    ensures
        model::unterminated(bytes).len() == 0,
    decreases bytes.len(),
{
    line::lemma_line_end(bytes);
    assert(bytes[bytes.len() - 1] == line::LF);
    assert(model::has_line(bytes));
    let behind = model::behind_first_line(bytes);
    line::lemma_line_end(behind);
    if behind.len() > 0 {
        assert(behind.last() == bytes.last());
        lemma_ends_in_line_feed(behind);
    }
}

/// The last event ID has no influence on the events.
proof fn lemma_id_apart(s: ParserState, id: Option<Seq<char>>)
    ensures
        ({
            let other = ParserState { last_event_id: id, ..s };
            let (x, y) = (model::drained(s), model::drained(other));
            &&& x.1 == y.1
            &&& x.0 == ParserState { last_event_id: x.0.last_event_id, ..y.0 }
        }),
    decreases s.buffer.len(),
{
    if model::has_line(s.buffer) {
        line::lemma_line_end(s.buffer);
        let (x, event_x) = model::line_taken(s);
        let (y, event_y) = model::line_taken(ParserState { last_event_id: id, ..s });
        assert(event_x == event_y);
        assert(y == ParserState { last_event_id: y.last_event_id, ..x });
        lemma_id_apart(x, y.last_event_id);
    }
}

/// An empty line parts the stream: what comes in front of it and what comes behind it make
/// their events each for itself. No data and no event type crosses it, and events go on after
/// an end-of-stream signal.
pub proof fn law_empty_line_parts(s: ParserState, a: Seq<u8>, b: Seq<u8>)
    requires
        ends_in_empty_line(s.buffer + a),
    ensures
        model::stream_events(s, a + b) == model::stream_events(s, a) + model::stream_events(
            model::fresh(),
            b,
        ),
{
    let whole = model::received(s, a);
    let lines = model::lines_of(whole.buffer);
    let fields = fields_of(lines);
    law_line_by_line(whole);
    let (s1, events1) = model::drained(whole);
    assert(fields.last() == line::field_of(lines.last()));
    assert(fields.last() is Blank);
    let start = ParserState { buffer: model::unterminated(whole.buffer), ..whole };
    lemma_accepted_all_buffer(start, start.buffer, fields);
    assert(s1.data =~= Seq::empty());
    assert(s1.event_type is None);
    assert(s1.buffer =~= Seq::empty());
    line::lemma_names();
    assert(model::finished(s1).1 is None);
    assert(events1 + model::listed(None) =~= events1);
    law_chunk_cut(s, a, b);
    let other = model::received(model::fresh(), b);
    let next = model::received(s1, b);
    assert(next =~= ParserState { last_event_id: s1.last_event_id, ..other });
    lemma_id_apart(other, s1.last_event_id);
    let (s2, events2) = model::drained(next);
    let end = model::listed(model::finished(s2).1);
    assert(end == model::listed(model::finished(model::drained(other).0).1));
    assert((events1 + events2) + end =~= events1 + (events2 + end));
}

/// Two line feeds part the stream, as any empty line does.
pub proof fn law_two_line_feeds_part(a: Seq<u8>, b: Seq<u8>)
    requires
        a.len() >= 2,
        a[a.len() - 2] == line::LF,
        a[a.len() - 1] == line::LF,
    ensures
        model::stream_events(model::fresh(), a + b) == model::stream_events(model::fresh(), a)
            + model::stream_events(model::fresh(), b),
{
    lemma_two_line_feeds(a);
    assert(model::fresh().buffer + a =~= a);
    law_empty_line_parts(model::fresh(), a, b);
}

/// The last event ID is the value of the latest `id:` field of the whole stream; an empty one
/// resets it, and no other line changes it.
pub proof fn law_last_event_id(s: ParserState, fields: Seq<FieldView>)
    ensures
        model::accepted_all(s, fields).0.last_event_id == latest_id(fields, s.last_event_id),
    decreases fields.len(),
{
    if fields.len() > 0 {
        law_last_event_id(s, fields.drop_last());
    }
}

/// The number of lines that a poll uses up: all in front of the first that makes an event, and
/// that one; all there are if none does.
pub open spec fn lines_used(s: ParserState) -> nat
    decreases s.buffer.len(),
{
    if !model::has_line(s.buffer) {
        0
    } else {
        let (after, event) = model::line_taken(s);
        proof {
            line::lemma_line_end(s.buffer);
        }
        if event is Some {
            1
        } else {
            1 + lines_used(after)
        }
    }
}

/// A poll uses up the lines to the first that makes an event, and leaves those behind it. The
/// last event ID is then that of the lines used up: the IDs of later lines do not show yet.
pub proof fn law_poll_uses_lines(s: ParserState)
    ensures
        ({
            let (after, event) = model::next_event(s);
            let lines = model::lines_of(s.buffer);
            let n = lines_used(s) as int;
            let fields = fields_of(lines.take(n));
            &&& n <= lines.len()
            &&& event is None ==> n == lines.len()
            &&& event is Some ==> n > 0 && model::accepted_all(s, fields.drop_last()).1 == Seq::<
                EventView,
            >::empty()
            &&& model::lines_of(after.buffer) == lines.skip(n)
            &&& model::unterminated(after.buffer) == model::unterminated(s.buffer)
            &&& model::accepted_all(ParserState { buffer: after.buffer, ..s }, fields) == (
                after,
                model::listed(event),
            )
            &&& after.last_event_id == latest_id(fields, s.last_event_id)
        }),
    decreases s.buffer.len(),
{
    let (after, event) = model::next_event(s);
    let lines = model::lines_of(s.buffer);
    let n = lines_used(s) as int;
    let fields = fields_of(lines.take(n));
    let start = ParserState { buffer: after.buffer, ..s };
    if model::has_line(s.buffer) {
        line::lemma_line_end(s.buffer);
        let (taken, first) = model::line_taken(s);
        let behind = model::behind_first_line(s.buffer);
        let field = line::field_of(model::first_line(s.buffer));
        assert(lines.drop_first() =~= model::lines_of(behind));
        lemma_accepted_buffer(s, behind, field);
        lemma_accepted_buffer(s, after.buffer, field);
        if first is Some {
            assert(fields.drop_last() =~= Seq::empty());
            assert(lines.skip(n) =~= model::lines_of(behind));
            assert(fields.drop_first() =~= Seq::empty());
        } else {
            law_poll_uses_lines(taken);
            let rest = model::lines_of(behind);
            assert(lines.skip(n) =~= rest.skip(n - 1));
            assert(fields.drop_first() =~= fields_of(rest.take(n - 1)));
            if event is Some && n > 1 {
                let front = fields.drop_last();
                assert(front.drop_first() =~= fields_of(rest.take(n - 1)).drop_last());
                lemma_accepted_all_first(s, front);
                lemma_accepted_all_buffer(model::accepted(s, field).0, behind, front.drop_first());
            }
        }
        assert(fields.first() == field);
        lemma_accepted_all_first(start, fields);
    } else {
        assert(fields =~= Seq::empty());
        assert(lines.skip(n) =~= lines);
    }
    law_last_event_id(start, fields);
}

/// Taking in fields leaves the buffer alone and does not look at it.
pub proof fn lemma_accepted_all_buffer(s: ParserState, buffer: Seq<u8>, fields: Seq<FieldView>)
    ensures
        model::accepted_all(ParserState { buffer, ..s }, fields) == (
            ParserState { buffer, ..model::accepted_all(s, fields).0 },
            model::accepted_all(s, fields).1,
        ),
        model::accepted_all(s, fields).0.buffer == s.buffer,
    decreases fields.len(),
{
    if fields.len() > 0 {
        lemma_accepted_all_buffer(s, buffer, fields.drop_last());
        lemma_accepted_buffer(
            model::accepted_all(s, fields.drop_last()).0,
            buffer,
            fields.last(),
        );
    }
}

/// Ignored lines might as well not be there.
pub proof fn law_ignored_lines(s: ParserState, a: Seq<FieldView>, b: Seq<FieldView>)
    ensures
        model::accepted_all(s, a.push(FieldView::Ignored) + b) == model::accepted_all(s, a + b),
{
    let more = a.push(FieldView::Ignored);
    law_fields_in_sequence(s, more, b);
    law_fields_in_sequence(s, a, b);
    assert(more.drop_last() =~= a);
    let (s1, events1) = model::accepted_all(s, a);
    assert(events1 + model::listed(None) =~= events1);
}

/// A stream that has ended stays ended: nothing is left in the parser, and polling it again
/// brings no event, neither out of the buffer nor when the source reports its end once more.
pub proof fn law_end_is_final(s: ParserState)
    ensures
        ({
            let after = model::finished(s).0;
            &&& after == ParserState { last_event_id: s.last_event_id, ..model::fresh() }
            &&& model::next_event(after) == (after, None::<EventView>)
            &&& model::finished(after) == (after, None::<EventView>)
        }),
{
    let after = model::finished(s).0;
    line::lemma_line_end(after.buffer);
    line::lemma_names();
    assert(model::finished(after).0 =~= after);
}

/// A block is the end-of-stream signal exactly if its data is `[DONE]`: no other event has that
/// as its data.
pub proof fn law_done(event_type: Option<Seq<char>>, data: Seq<char>)
    ensures
        model::block_event(event_type, data) is Done <==> data == "[DONE]"@,
        match model::block_event(event_type, data) {
            EventView::Data(d) => d == data && d != "[DONE]"@,
            EventView::NamedData { event_type: t, data: d } => event_type == Some(t) && d == data
                && d != "[DONE]"@,
            EventView::Done => true,
            EventView::Comment(_) => false,
        },
{
}

/// A new parser holds nothing.
pub proof fn law_fresh_holds_nothing()
    ensures
        model::fresh().buffer.len() == 0,
        model::fresh().data.len() == 0,
        model::fresh().event_type is None,
        model::fresh().last_event_id is None,
{
}

/// What is received comes behind what is in the buffer, and changes nothing else.
pub proof fn law_received(s: ParserState, bytes: Seq<u8>)
    ensures
        model::received(s, bytes).buffer == s.buffer + bytes,
        model::received(s, bytes).data == s.data,
        model::received(s, bytes).event_type == s.event_type,
        model::received(s, bytes).last_event_id == s.last_event_id,
{
}

/// A block whose data is not the end-of-stream signal is named exactly if it has an event type,
/// whatever that is, and has that type and its data unchanged.
pub proof fn law_named_if_typed(data: Seq<char>, event_type: Seq<char>)
    requires
        data != "[DONE]"@,
    ensures
        model::block_event(Some(event_type), data) == (EventView::NamedData { event_type, data }),
        model::block_event(None, data) == EventView::Data(data),
{
}

/// What dispatching a block gives. There is an event exactly if there is a `data:` value. Its
/// data is all values joined; it is the end-of-stream signal, whatever the type, exactly if that
/// data is `[DONE]`; otherwise it has the type of the block, if that has one, and is plain if
/// not. The block is left empty, and neither the buffer nor the last event ID is touched.
pub proof fn law_dispatched(s: ParserState)
    ensures
        ({
            let (after, event) = model::dispatched(s);
            let data = text::joined(s.data);
            &&& event is Some <==> s.data.len() > 0
            &&& event matches Some(e) ==> {
                &&& e is Done <==> data == "[DONE]"@
                &&& e is NamedData <==> data != "[DONE]"@ && s.event_type is Some
                &&& e is Data <==> data != "[DONE]"@ && s.event_type is None
                &&& e matches EventView::NamedData { event_type: t, data: d } ==> s.event_type
                    == Some(t) && d == data
                &&& e matches EventView::Data(d) ==> d == data
            }
            &&& after.data.len() == 0
            &&& after.event_type is None
            &&& after.buffer == s.buffer
            &&& after.last_event_id == s.last_event_id
        }),
{
}

/// What an `id:` field does: its value becomes the last event ID, whatever it is, unless it is
/// empty, which leaves none. It makes no event, and the block is not touched.
pub proof fn law_id_field(s: ParserState, value: Seq<char>)
    ensures
        ({
            let (after, event) = model::accepted(s, FieldView::Id(value));
            &&& value.len() > 0 ==> after.last_event_id == Some(value)
            &&& after.last_event_id is None <==> value.len() == 0
            &&& event is None
            &&& after.data == s.data && after.event_type == s.event_type
            &&& after.buffer == s.buffer
        }),
{
}

/// Right after an `id:` line, the last event ID is what white space encloses in its decoded
/// value, whatever that is; there is none exactly if it encloses nothing.
pub proof fn law_id_line_is_tracked(
    s: ParserState,
    value: Seq<u8>,
    front: Seq<char>,
    middle: Seq<char>,
    back: Seq<char>,
)
    requires
        forall|i: int| 0 <= i < front.len() ==> text::is_white_space(#[trigger] front[i]),
        forall|i: int| 0 <= i < back.len() ==> text::is_white_space(#[trigger] back[i]),
        middle.len() > 0 ==> !text::is_white_space(middle.first()) && !text::is_white_space(
            middle.last(),
        ),
        vstd::utf8::valid_utf8(value),
        vstd::utf8::decode_utf8(value) == front + middle + back,
    ensures
        ({
            let field = line::field_of(seq![105u8, 100, 58] + value);
            let (after, event) = model::accepted(s, field);
            &&& event is None
            &&& middle.len() > 0 ==> after.last_event_id == Some(middle)
            &&& middle.len() == 0 ==> after.last_event_id is None
        }),
{
    line::lemma_names();
    line::law_id_line(value);
    line::law_value_text(value, front, middle, back);
}

/// What a `data:` field does: its value comes behind the others of the block, whatever it is and
/// however many there are. It makes no event, and nothing else is touched.
pub proof fn law_data_field(s: ParserState, value: Seq<char>)
    ensures
        ({
            let (after, event) = model::accepted(s, FieldView::Data(value));
            &&& after.data.len() == s.data.len() + 1
            &&& after.data.last() == value
            &&& after.data.drop_last() == s.data
            &&& event is None
            &&& after.event_type == s.event_type && after.last_event_id == s.last_event_id
            &&& after.buffer == s.buffer
        }),
{
    assert(s.data.push(value).drop_last() =~= s.data);
}

/// What an `event:` field does: its value becomes the type of the block, whatever it is. It
/// makes no event, and nothing else is touched.
pub proof fn law_event_field(s: ParserState, value: Seq<char>)
    ensures
        ({
            let (after, event) = model::accepted(s, FieldView::Event(value));
            &&& after.event_type == Some(value)
            &&& event is None
            &&& after.data == s.data && after.last_event_id == s.last_event_id
            &&& after.buffer == s.buffer
        }),
{
}

/// What a comment does: it is an event with its text, whatever that is, and nothing is touched.
/// An ignored line makes no event either.
pub proof fn law_comment_field(s: ParserState, value: Seq<char>)
    ensures
        model::accepted(s, FieldView::Comment(value)) == (s, Some(EventView::Comment(value))),
        model::accepted(s, FieldView::Ignored) == (s, None::<EventView>),
{
}

/// An empty line dispatches the block.
pub proof fn law_blank_field(s: ParserState)
    ensures
        model::accepted(s, FieldView::Blank) == model::dispatched(s),
{
}

/// What a poll does with the first complete line, whatever it is and whatever comes behind it:
/// it takes in its field, and goes on behind it unless that made an event. A line feed ends the
/// line, or a carriage return and a line feed, and these belong to no line.
pub proof fn law_poll_takes_a_line(s: ParserState, content: Seq<u8>, rest: Seq<u8>)
    requires
        !content.contains(10u8),
    ensures
        ({
            let (after, event) = model::accepted(
                ParserState { buffer: rest, ..s },
                line::field_of(content),
            );
            let lf = ParserState { buffer: content + seq![10u8] + rest, ..s };
            let crlf = ParserState { buffer: content + seq![13u8, 10u8] + rest, ..s };
            &&& event is Some ==> model::next_event(crlf) == (after, event)
            &&& event is None ==> model::next_event(crlf) == model::next_event(after)
            &&& content.len() == 0 || content.last() != 13u8 ==> model::next_event(lf)
                == model::next_event(crlf)
        }),
{
    let lf = content + seq![10u8] + rest;
    let with_cr = content.push(13u8);
    let crlf = content + seq![13u8, 10u8] + rest;
    assert(crlf =~= with_cr + seq![10u8] + rest);
    assert forall|i: int| 0 <= i < with_cr.len() implies with_cr[i] != 10u8 by {
        if i < content.len() {
            assert(content.contains(content[i]));
        }
    }
    line::law_line_end(content, rest);
    line::law_line_end(with_cr, rest);
    line::law_without_cr(content);
    assert(lf.take(content.len() as int) =~= content);
    assert(crlf.take(with_cr.len() as int) =~= with_cr);
    assert(lf.skip(content.len() as int + 1) =~= rest);
    assert(crlf.skip(with_cr.len() as int + 1) =~= rest);
    let a = ParserState { buffer: crlf, ..s };
    let b = ParserState { buffer: lf, ..s };
    assert(model::line_taken(a) == model::accepted(
        ParserState { buffer: rest, ..s },
        line::field_of(content),
    ));
    if content.len() == 0 || content.last() != 13u8 {
        assert(model::line_taken(a) == model::line_taken(b));
    }
}

/// Without a complete line, a poll does nothing.
pub proof fn law_poll_waits_for_a_line(s: ParserState)
    requires
        !s.buffer.contains(10u8),
    ensures
        model::next_event(s) == (s, None::<EventView>),
{
    line::law_line_end(s.buffer, Seq::empty());
}

/// The text of an unterminated last line, given to the end of the stream, counts as one more
/// `data:` field, and an empty line then dispatches the block. Nothing stays in the buffer.
pub proof fn law_finished_with(s: ParserState, tail: Seq<char>)
    ensures
        ({
            let empty = ParserState { buffer: Seq::empty(), ..s };
            &&& model::finished_with(s, None) == model::accepted(empty, FieldView::Blank)
            &&& model::finished_with(s, Some(tail)) == model::accepted(
                model::accepted(empty, FieldView::Data(tail)).0,
                FieldView::Blank,
            )
        }),
{
}

/// The end of the stream. An unterminated `data:` line, whatever its value, unless that is
/// empty, does what it would do with a line feed and an empty line behind it. Anything else
/// that is unterminated is dropped, and the block is dispatched.
pub proof fn law_finished(s: ParserState, value: Seq<u8>)
    ensures
        ({
            let named = seq![100u8, 97, 116, 97, 58] + value;
            let tail = line::value_text(value);
            let empty = ParserState { buffer: Seq::empty(), ..s };
            let blank = model::accepted(empty, FieldView::Blank);
            &&& tail.len() > 0 ==> model::finished(ParserState { buffer: named, ..s })
                == model::accepted(
                model::accepted(empty, FieldView::Data(tail)).0,
                FieldView::Blank,
            )
            &&& tail.len() == 0 ==> model::finished(ParserState { buffer: named, ..s }) == blank
            &&& s.buffer.len() < 5 || s.buffer.take(5) != seq![100u8, 97, 116, 97, 58]
                ==> model::finished(s) == blank
        }),
{
    let named = seq![100u8, 97, 116, 97, 58] + value;
    line::lemma_names();
    line::lemma_prefix(line::data_name(), s.buffer);
    line::lemma_prefix(line::data_name(), named);
    assert(named.take(5) =~= line::data_name());
    assert(named.skip(5) =~= value);
}

} // verus!
