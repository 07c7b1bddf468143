//! What a consumer gets who polls the parser, and the last event ID that shows after each answer.

use vstd::prelude::*;

use crate::event::EventView;
use crate::laws;
use crate::line;
use crate::line::FieldView;
use crate::model;
use crate::model::ParserState;

verus! {

/// What a poll of the source can bring, the end of the stream aside.
pub enum Input<E> {
    Chunk(Seq<u8>),
    Failed(E),
    Pending,
}

/// What a consumer gets.
pub enum Item<E> {
    Event(EventView),
    Error(E),
}

/// An answer to a poll.
pub struct Answer<E> {
    /// The item; none at the end of the stream.
    pub item: Option<Item<E>>,
    /// The last event ID that the parser shows after the poll.
    pub last_event_id: Option<Seq<char>>,
}

/// The answer that an optional event makes, if the parser is then in state `after`.
pub open spec fn made<E>(event: Option<EventView>, after: ParserState) -> Seq<Answer<E>> {
    match event {
        Some(e) => seq![
            Answer { item: Some(Item::Event(e)), last_event_id: after.last_event_id },
        ],
        None => Seq::empty(),
    }
}

/// The answers that the complete lines in the buffer make.
pub open spec fn buffered<E>(s: ParserState) -> Seq<Answer<E>>
    decreases s.buffer.len(),
{
    if !model::has_line(s.buffer) {
        Seq::empty()
    } else {
        let (after, event) = model::line_taken(s);
        proof {
            line::lemma_line_end(s.buffer);
        }
        made(event, after) + buffered(after)
    }
}

/// The answers at the end of the stream, the last of which is the end itself.
pub open spec fn ending<E>(s: ParserState) -> Seq<Answer<E>> {
    let (last, event) = model::finished(s);
    made(event, last).push(Answer { item: None, last_event_id: last.last_event_id })
}

/// The answers that a consumer gets who polls the parser to the end of a source that brings
/// `inputs` one by one: each poll takes the next event of the lines received so far; where
/// there is none, the next input is taken, or the stream finished. A poll that finds the source
/// pending has no answer yet, and is made again.
pub open spec fn answers<E>(s: ParserState, inputs: Seq<Input<E>>) -> Seq<Answer<E>>
    decreases inputs.len(), s.buffer.len(),
{
    let (after, event) = model::next_event(s);
    proof {
        model::lemma_next_event_shrinks(s);
    }
    if event is Some {
        made(event, after) + answers(after, inputs)
    } else if inputs.len() > 0 {
        let rest = inputs.drop_first();
        match inputs.first() {
            Input::Chunk(bytes) => answers(model::received(after, bytes), rest),
            Input::Failed(error) => seq![
                Answer { item: Some(Item::Error(error)), last_event_id: after.last_event_id },
            ] + answers(after, rest),
            Input::Pending => answers(after, rest),
        }
    } else {
        ending(after)
    }
}

/// The answers of a stream that brings `bytes` and ends, without regard to how they come.
pub open spec fn stream_answers<E>(s: ParserState, bytes: Seq<u8>) -> Seq<Answer<E>> {
    let whole = model::received(s, bytes);
    buffered(whole) + ending(model::drained(whole).0)
}

/// The chunks among the inputs.
pub open spec fn chunks_among<E>(inputs: Seq<Input<E>>) -> Seq<Seq<u8>>
    decreases inputs.len(),
{
    if inputs.len() == 0 {
        Seq::empty()
    } else {
        match inputs.first() {
            Input::Chunk(bytes) => seq![bytes] + chunks_among(inputs.drop_first()),
            _ => chunks_among(inputs.drop_first()),
        }
    }
}

/// The bytes that the inputs bring.
pub open spec fn bytes_of<E>(inputs: Seq<Input<E>>) -> Seq<u8> {
    chunks_among(inputs).flatten()
}

/// The failures among the inputs.
pub open spec fn failures_among<E>(inputs: Seq<Input<E>>) -> Seq<E>
    decreases inputs.len(),
{
    if inputs.len() == 0 {
        Seq::empty()
    } else {
        match inputs.first() {
            Input::Failed(error) => seq![error] + failures_among(inputs.drop_first()),
            _ => failures_among(inputs.drop_first()),
        }
    }
}

/// The events among the answers.
pub open spec fn events_among<E>(list: Seq<Answer<E>>) -> Seq<EventView>
    decreases list.len(),
{
    if list.len() == 0 {
        Seq::empty()
    } else {
        match list.first().item {
            Some(Item::Event(event)) => seq![event] + events_among(list.drop_first()),
            _ => events_among(list.drop_first()),
        }
    }
}

/// The errors among the answers.
pub open spec fn errors_among<E>(list: Seq<Answer<E>>) -> Seq<E>
    decreases list.len(),
{
    if list.len() == 0 {
        Seq::empty()
    } else {
        match list.first().item {
            Some(Item::Error(error)) => seq![error] + errors_among(list.drop_first()),
            _ => errors_among(list.drop_first()),
        }
    }
}

/// The answers without the errors among them.
pub open spec fn without_errors<E>(list: Seq<Answer<E>>) -> Seq<Answer<E>>
    decreases list.len(),
{
    if list.len() == 0 {
        Seq::empty()
    } else {
        match list.first().item {
            Some(Item::Error(_)) => without_errors(list.drop_first()),
            _ => seq![list.first()] + without_errors(list.drop_first()),
        }
    }
}

/// A poll that brings no event leaves no event in the buffer.
proof fn lemma_polled_again(s: ParserState)
    requires
        model::next_event(s).1 is None,
    ensures
        model::next_event(model::next_event(s).0) == (model::next_event(s).0, None::<EventView>),
        model::drained(s).0 == model::next_event(s).0,
{
    model::lemma_next_event_shrinks(s);
    laws::law_polls_follow_lines(s);
}

/// The answers of the buffer are those of the next poll and then the others.
proof fn lemma_buffered_next<E>(s: ParserState)
    ensures
        ({
            let (after, event) = model::next_event(s);
            &&& buffered::<E>(s) == made::<E>(event, after) + buffered::<E>(after)
            &&& event is None ==> buffered::<E>(after) == Seq::<Answer<E>>::empty()
        }),
    decreases s.buffer.len(),
{
    let (after, event) = model::next_event(s);
    model::lemma_next_event_shrinks(s);
    if model::has_line(s.buffer) {
        line::lemma_line_end(s.buffer);
        let (taken, first) = model::line_taken(s);
        if first is None {
            lemma_buffered_next::<E>(taken);
            assert(made::<E>(first, taken) + buffered::<E>(taken) =~= buffered::<E>(taken));
        }
    } else {
        assert(made::<E>(event, after) + buffered::<E>(after) =~= buffered::<E>(after));
    }
}

/// The answers of the buffer can be had before or after more bytes are received.
proof fn lemma_buffered_received<E>(s: ParserState, bytes: Seq<u8>)
    ensures
        buffered::<E>(model::received(s, bytes)) == buffered::<E>(s) + buffered::<E>(
            model::received(model::drained(s).0, bytes),
        ),
    decreases s.buffer.len(),
{
    let rest = buffered::<E>(model::received(model::drained(s).0, bytes));
    if model::has_line(s.buffer) {
        line::lemma_line_end(s.buffer);
        let (after, event) = model::line_taken(s);
        laws::lemma_line_taken_received(s, bytes);
        lemma_buffered_received::<E>(after, bytes);
        let first = made::<E>(event, after);
        assert(made::<E>(event, model::received(after, bytes)) =~= first);
        assert(first + (buffered::<E>(after) + rest) =~= (first + buffered::<E>(after)) + rest);
    } else {
        assert(buffered::<E>(s) + rest =~= rest);
    }
}

/// A poll can be made before or after more bytes are received.
proof fn lemma_next_received<E>(s: ParserState, bytes: Seq<u8>)
    ensures
        ({
            let (after, event) = model::next_event(s);
            let whole = model::received(s, bytes);
            let left = model::received(after, bytes);
            &&& buffered::<E>(whole) == made::<E>(event, after) + buffered::<E>(left)
            &&& model::drained(whole).0 == model::drained(left).0
        }),
{
    let (after, event) = model::next_event(s);
    lemma_buffered_next::<E>(s);
    lemma_buffered_received::<E>(s, bytes);
    lemma_buffered_received::<E>(after, bytes);
    laws::law_polls_follow_lines(s);
    laws::lemma_drained_received(s, bytes);
    laws::lemma_drained_received(after, bytes);
    let rest = buffered::<E>(model::received(model::drained(s).0, bytes));
    assert((made::<E>(event, after) + buffered::<E>(after)) + rest =~= made::<E>(event, after) + (
    buffered::<E>(after) + rest));
}

/// The bytes of the inputs are those of the first and then the others.
pub proof fn lemma_bytes_first<E>(inputs: Seq<Input<E>>)
    requires
        inputs.len() > 0,
    ensures
        bytes_of(inputs) == match inputs.first() {
            Input::Chunk(bytes) => bytes + bytes_of(inputs.drop_first()),
            _ => bytes_of(inputs.drop_first()),
        },
{
    if inputs.first() is Chunk {
        assert(chunks_among(inputs).drop_first() =~= chunks_among(inputs.drop_first()));
    }
}

/// Inputs without a failure are answered out of the buffer, and the inputs behind them from the
/// state that is left then.
#[verifier::rlimit(40)]
proof fn lemma_answers_prefix<E>(s: ParserState, a: Seq<Input<E>>, b: Seq<Input<E>>)
    requires
        failures_among(a).len() == 0,
    ensures
        ({
            let whole = model::received(s, bytes_of(a));
            answers(s, a + b) == buffered::<E>(whole) + answers(model::drained(whole).0, b)
        }),
    decreases a.len(), s.buffer.len(),
{
    let (after, event) = model::next_event(s);
    model::lemma_next_event_shrinks(s);
    let bytes = bytes_of(a);
    let left = model::received(after, bytes);
    lemma_next_received::<E>(s, bytes);
    if event is Some {
        lemma_answers_prefix(after, a, b);
        let first = made::<E>(event, after);
        let rest = answers(model::drained(left).0, b);
        assert(first + (buffered::<E>(left) + rest) =~= (first + buffered::<E>(left)) + rest);
    } else {
        lemma_polled_again(s);
        lemma_buffered_next::<E>(s);
        assert(made::<E>(event, after) + buffered::<E>(left) =~= buffered::<E>(left));
        if a.len() > 0 {
            let rest = a.drop_first();
            assert((a + b).drop_first() =~= rest + b);
            lemma_bytes_first(a);
            match a.first() {
                Input::Chunk(chunk) => {
                    let next = model::received(after, chunk);
                    lemma_answers_prefix(next, rest, b);
                    assert(model::received(next, bytes_of(rest)) =~= left);
                },
                Input::Pending => {
                    lemma_answers_prefix(after, rest, b);
                },
                Input::Failed(_) => {},
            }
        } else {
            assert(a + b =~= b);
            assert(model::received(after, bytes) =~= after);
            assert(answers(after, b) == answers(s, b));
            assert(buffered::<E>(left) + answers(after, b) =~= answers(after, b));
        }
    }
}

/// What is among two lists of answers is what is among each of them.
proof fn lemma_among_joined<E>(a: Seq<Answer<E>>, b: Seq<Answer<E>>)
    ensures
        events_among(a + b) == events_among(a) + events_among(b),
        errors_among(a + b) == errors_among(a) + errors_among(b),
        without_errors(a + b) == without_errors(a) + without_errors(b),
    decreases a.len(),
{
    if a.len() > 0 {
        assert((a + b).drop_first() =~= a.drop_first() + b);
        lemma_among_joined(a.drop_first(), b);
        let first = seq![a.first()];
        let (x, y) = (without_errors(a.drop_first()), without_errors(b));
        assert(first + (x + y) =~= (first + x) + y);
        let (x, y) = (events_among(a.drop_first()), events_among(b));
        if let Some(Item::Event(e)) = a.first().item {
            assert(seq![e] + (x + y) =~= (seq![e] + x) + y);
        }
        let (x, y) = (errors_among(a.drop_first()), errors_among(b));
        if let Some(Item::Error(e)) = a.first().item {
            assert(seq![e] + (x + y) =~= (seq![e] + x) + y);
        }
    } else {
        assert(a + b =~= b);
        assert(events_among(a) + events_among(b) =~= events_among(b));
        assert(errors_among(a) + errors_among(b) =~= errors_among(b));
        assert(without_errors(a) + without_errors(b) =~= without_errors(b));
    }
}

/// What is among a single answer.
proof fn lemma_among_one<E>(answer: Answer<E>)
    ensures
        ({
            let list = seq![answer];
            match answer.item {
                Some(Item::Event(e)) => events_among(list) == seq![e] && errors_among(list)
                    == Seq::<E>::empty() && without_errors(list) == list,
                Some(Item::Error(e)) => events_among(list) == Seq::<EventView>::empty()
                    && errors_among(list) == seq![e] && without_errors(list)
                    == Seq::<Answer<E>>::empty(),
                None => events_among(list) == Seq::<EventView>::empty() && errors_among(list)
                    == Seq::<E>::empty() && without_errors(list) == list,
            }
        }),
{
    let list = seq![answer];
    let none = Seq::<Answer<E>>::empty();
    assert(list.drop_first() =~= none);
    assert(events_among(none) == Seq::<EventView>::empty());
    assert(errors_among(none) == Seq::<E>::empty());
    assert(without_errors(none) == none);
    match answer.item {
        Some(Item::Event(e)) => {
            assert(seq![e] + Seq::<EventView>::empty() =~= seq![e]);
            assert(list + none =~= list);
        },
        Some(Item::Error(e)) => {
            assert(seq![e] + Seq::<E>::empty() =~= seq![e]);
        },
        None => {
            assert(list + none =~= list);
        },
    }
}

/// The answer of an optional event holds that event and no error.
proof fn lemma_among_made<E>(event: Option<EventView>, after: ParserState)
    ensures
        events_among(made::<E>(event, after)) == model::listed(event),
        errors_among(made::<E>(event, after)) == Seq::<E>::empty(),
        without_errors(made::<E>(event, after)) == made::<E>(event, after),
{
    if let Some(e) = event {
        lemma_among_one::<E>(
            Answer { item: Some(Item::Event(e)), last_event_id: after.last_event_id },
        );
    }
}

/// The answers at the end of the stream hold the last event, if there is one, and no error.
proof fn lemma_among_ending<E>(s: ParserState)
    ensures
        events_among(ending::<E>(s)) == model::listed(model::finished(s).1),
        errors_among(ending::<E>(s)) == Seq::<E>::empty(),
        without_errors(ending::<E>(s)) == ending::<E>(s),
{
    let (last, event) = model::finished(s);
    let end = Answer::<E> { item: None, last_event_id: last.last_event_id };
    lemma_among_made::<E>(event, last);
    lemma_among_one(end);
    lemma_among_joined(made::<E>(event, last), seq![end]);
    assert(made::<E>(event, last) + seq![end] =~= ending::<E>(s));
    assert(model::listed(event) + Seq::<EventView>::empty() =~= model::listed(event));
    assert(Seq::<E>::empty() + Seq::<E>::empty() =~= Seq::<E>::empty());
}

/// The answers of the buffer hold the events that its lines make, and no error.
pub proof fn law_buffered_events<E>(s: ParserState)
    ensures
        events_among(buffered::<E>(s)) == model::drained(s).1,
        errors_among(buffered::<E>(s)) == Seq::<E>::empty(),
        without_errors(buffered::<E>(s)) == buffered::<E>(s),
    decreases s.buffer.len(),
{
    if model::has_line(s.buffer) {
        line::lemma_line_end(s.buffer);
        let (after, event) = model::line_taken(s);
        law_buffered_events::<E>(after);
        lemma_among_made::<E>(event, after);
        lemma_among_joined(made::<E>(event, after), buffered::<E>(after));
        assert(Seq::<E>::empty() + Seq::<E>::empty() =~= Seq::<E>::empty());
    }
}

/// The answers of a stream hold its events, and no error.
proof fn lemma_stream_answers<E>(s: ParserState, bytes: Seq<u8>)
    ensures
        events_among(stream_answers::<E>(s, bytes)) == model::stream_events(s, bytes),
        errors_among(stream_answers::<E>(s, bytes)) == Seq::<E>::empty(),
        without_errors(stream_answers::<E>(s, bytes)) == stream_answers::<E>(s, bytes),
{
    let whole = model::received(s, bytes);
    let last = model::drained(whole).0;
    law_buffered_events::<E>(whole);
    lemma_among_ending::<E>(last);
    lemma_among_joined(buffered::<E>(whole), ending::<E>(last));
    assert(Seq::<E>::empty() + Seq::<E>::empty() =~= Seq::<E>::empty());
}

/// Where an error of the source stands: behind all events of the chunks that came before it,
/// and in front of all other answers, which are those of the parser as those chunks left it.
/// The ID that shows after the error is the latest of all lines received by then.
pub proof fn law_error_in_place<E>(s: ParserState, a: Seq<Input<E>>, error: E, b: Seq<Input<E>>)
    requires
        failures_among(a).len() == 0,
    ensures
        ({
            let whole = model::received(s, bytes_of(a));
            let left = model::drained(whole).0;
            let answer = Answer {
                item: Some(Item::Error(error)),
                last_event_id: laws::latest_id(
                    laws::fields_of(model::lines_of(whole.buffer)),
                    s.last_event_id,
                ),
            };
            &&& answers(s, a + seq![Input::Failed(error)] + b) == buffered::<E>(whole) + seq![
                answer,
            ] + answers(left, b)
            &&& events_among(buffered::<E>(whole)) == model::drained(whole).1
        }),
{
    let whole = model::received(s, bytes_of(a));
    let left = model::drained(whole).0;
    let failed = seq![Input::Failed(error)];
    assert(a + failed + b =~= a + (failed + b));
    lemma_answers_prefix(s, a, failed + b);
    laws::law_polls_follow_lines(left);
    lemma_drained_left(whole);
    assert((failed + b).drop_first() =~= b);
    laws::law_line_by_line(whole);
    let fields = laws::fields_of(model::lines_of(whole.buffer));
    let start = ParserState { buffer: model::unterminated(whole.buffer), ..whole };
    laws::law_last_event_id(start, fields);
    law_buffered_events::<E>(whole);
    let answer = Answer { item: Some(Item::Error(error)), last_event_id: left.last_event_id };
    assert(answers(left, failed + b) == seq![answer] + answers(left, b));
    assert(buffered::<E>(whole) + (seq![answer] + answers(left, b)) =~= buffered::<E>(whole)
        + seq![answer] + answers(left, b));
}

/// Once all complete lines have been taken, there is no event in the buffer.
proof fn lemma_drained_left(s: ParserState)
    ensures
        model::next_event(model::drained(s).0) == (model::drained(s).0, None::<EventView>),
    decreases s.buffer.len(),
{
    if model::has_line(s.buffer) {
        line::lemma_line_end(s.buffer);
        lemma_drained_left(model::line_taken(s).0);
    }
}

/// The errors among the answers are the failures among the inputs, and the others are those of
/// the whole stream.
proof fn lemma_reassembly<E>(s: ParserState, inputs: Seq<Input<E>>)
    ensures
        errors_among(answers(s, inputs)) == failures_among(inputs),
        without_errors(answers(s, inputs)) == stream_answers::<E>(s, bytes_of(inputs)),
        events_among(answers(s, inputs)) == model::stream_events(s, bytes_of(inputs)),
    decreases inputs.len(), s.buffer.len(),
{
    let (after, event) = model::next_event(s);
    model::lemma_next_event_shrinks(s);
    let bytes = bytes_of(inputs);
    let left = model::received(after, bytes);
    let first = made::<E>(event, after);
    lemma_next_received::<E>(s, bytes);
    lemma_among_made::<E>(event, after);
    assert(first + (buffered::<E>(left) + ending(model::drained(left).0)) =~= (first + buffered::<
        E,
    >(left)) + ending(model::drained(left).0));
    assert(stream_answers::<E>(s, bytes) == first + stream_answers::<E>(after, bytes));
    lemma_stream_answers::<E>(s, bytes);
    lemma_stream_answers::<E>(after, bytes);
    lemma_among_joined(first, stream_answers::<E>(after, bytes));
    if event is Some {
        lemma_reassembly(after, inputs);
        lemma_among_joined(first, answers(after, inputs));
        assert(Seq::<E>::empty() + failures_among(inputs) =~= failures_among(inputs));
    } else {
        assert(first + stream_answers::<E>(after, bytes) =~= stream_answers::<E>(after, bytes));
        if inputs.len() > 0 {
            let rest = inputs.drop_first();
            lemma_bytes_first(inputs);
            match inputs.first() {
                Input::Chunk(chunk) => {
                    let next = model::received(after, chunk);
                    lemma_reassembly(next, rest);
                    assert(model::received(next, bytes_of(rest)) =~= left);
                },
                Input::Pending => {
                    lemma_reassembly(after, rest);
                },
                Input::Failed(error) => {
                    lemma_reassembly(after, rest);
                    let answer = Answer {
                        item: Some(Item::Error(error)),
                        last_event_id: after.last_event_id,
                    };
                    lemma_among_one(answer);
                    lemma_among_joined(seq![answer], answers(after, rest));
                    let others = without_errors(answers(after, rest));
                    assert(Seq::<Answer<E>>::empty() + others =~= others);
                    let events = events_among(answers(after, rest));
                    assert(Seq::<EventView>::empty() + events =~= events);
                },
            }
        } else {
            lemma_polled_again(s);
            lemma_buffered_next::<E>(s);
            assert(left =~= after);
            assert(model::drained(after).0 == after);
            assert(buffered::<E>(after) + ending::<E>(after) =~= ending::<E>(after));
            lemma_among_ending::<E>(after);
        }
    }
}

/// Chunks split across packets are reassembled: however the bytes of a stream are cut into
/// chunks, and however often the source is pending in between, a consumer who polls the parser
/// to the end gets the answers of the whole, and with them its events.
pub proof fn law_reassembly<E>(s: ParserState, inputs: Seq<Input<E>>)
    requires
        failures_among(inputs).len() == 0,
    ensures
        answers(s, inputs) == stream_answers::<E>(s, bytes_of(inputs)),
        events_among(answers(s, inputs)) == model::stream_events(s, bytes_of(inputs)),
{
    lemma_reassembly(s, inputs);
    lemma_no_errors(answers(s, inputs));
}

/// Where there is no error, nothing is left out.
proof fn lemma_no_errors<E>(list: Seq<Answer<E>>)
    requires
        errors_among(list).len() == 0,
    ensures
        without_errors(list) == list,
    decreases list.len(),
{
    if list.len() > 0 {
        lemma_no_errors(list.drop_first());
        assert(seq![list.first()] + list.drop_first() =~= list);
    } else {
        assert(without_errors(list) =~= list);
    }
}

/// Two ways to cut the same bytes into chunks give the same answers: the same events in the
/// same order, and after each of them, and at the end, the same last event ID.
pub proof fn law_cuts_do_not_matter<E>(s: ParserState, a: Seq<Input<E>>, b: Seq<Input<E>>)
    requires
        failures_among(a).len() == 0,
        failures_among(b).len() == 0,
        bytes_of(a) == bytes_of(b),
    ensures
        answers(s, a) == answers(s, b),
{
    law_reassembly(s, a);
    law_reassembly(s, b);
}

/// The chunks among the inputs, as inputs.
pub open spec fn chunks_alone<E>(inputs: Seq<Input<E>>) -> Seq<Input<E>> {
    chunks_among(inputs).map_values(|bytes: Seq<u8>| Input::Chunk(bytes))
}

/// Chunks alone are chunks, and no failures.
proof fn lemma_chunks_alone<E>(chunks: Seq<Seq<u8>>)
    ensures
        ({
            let inputs = chunks.map_values(|bytes: Seq<u8>| Input::<E>::Chunk(bytes));
            &&& chunks_among(inputs) == chunks
            &&& failures_among(inputs) == Seq::<E>::empty()
        }),
    decreases chunks.len(),
{
    let inputs = chunks.map_values(|bytes: Seq<u8>| Input::<E>::Chunk(bytes));
    if chunks.len() > 0 {
        let rest = chunks.drop_first();
        lemma_chunks_alone::<E>(rest);
        assert(inputs.drop_first() =~= rest.map_values(
            |bytes: Seq<u8>| Input::<E>::Chunk(bytes),
        ));
        assert(seq![chunks.first()] + rest =~= chunks);
    } else {
        assert(chunks_among(inputs) =~= chunks);
    }
}

/// Errors of the source propagate: each of them reaches the consumer, in order, and none
/// changes the other answers or the IDs that show after them.
pub proof fn law_errors_pass_through<E>(s: ParserState, inputs: Seq<Input<E>>)
    ensures
        errors_among(answers(s, inputs)) == failures_among(inputs),
        without_errors(answers(s, inputs)) == answers(s, chunks_alone(inputs)),
        events_among(answers(s, inputs)) == model::stream_events(s, bytes_of(inputs)),
{
    lemma_reassembly(s, inputs);
    lemma_chunks_alone::<E>(chunks_among(inputs));
    law_reassembly(s, chunks_alone(inputs));
}

/// The answers that a sequence of fields makes.
pub open spec fn answers_to<E>(s: ParserState, fields: Seq<FieldView>) -> Seq<Answer<E>>
    decreases fields.len(),
{
    if fields.len() == 0 {
        Seq::empty()
    } else {
        let (before, _) = model::accepted_all(s, fields.drop_last());
        let (after, event) = model::accepted(before, fields.last());
        answers_to(s, fields.drop_last()) + made(event, after)
    }
}

/// The answers to a sequence of fields are those to its first field and then the others.
proof fn lemma_answers_to_first<E>(s: ParserState, fields: Seq<FieldView>)
    requires
        fields.len() > 0,
    ensures
        ({
            let (after, event) = model::accepted(s, fields.first());
            answers_to::<E>(s, fields) == made::<E>(event, after) + answers_to::<E>(
                after,
                fields.drop_first(),
            )
        }),
    decreases fields.len(),
{
    let (after, event) = model::accepted(s, fields.first());
    let first = made::<E>(event, after);
    let rest = fields.drop_first();
    let front = fields.drop_last();
    if rest.len() == 0 {
        assert(model::accepted_all(s, front).0 == s);
        assert(answers_to::<E>(s, front) + first =~= first + answers_to::<E>(after, rest));
    } else {
        lemma_answers_to_first::<E>(s, front);
        laws::lemma_accepted_all_first(s, front);
        assert(front.drop_first() =~= rest.drop_last());
        assert(front.first() == fields.first());
        assert(rest.last() == fields.last());
        let (before, _) = model::accepted_all(after, rest.drop_last());
        let (last_state, last_event) = model::accepted(before, rest.last());
        let last = made::<E>(last_event, last_state);
        let middle = answers_to::<E>(after, rest.drop_last());
        assert((first + middle) + last =~= first + (middle + last));
    }
}

/// The answers to fields do not depend on the buffer.
proof fn lemma_answers_to_buffer<E>(s: ParserState, buffer: Seq<u8>, fields: Seq<FieldView>)
    ensures
        answers_to::<E>(ParserState { buffer, ..s }, fields) == answers_to::<E>(s, fields),
    decreases fields.len(),
{
    if fields.len() > 0 {
        let front = fields.drop_last();
        lemma_answers_to_buffer::<E>(s, buffer, front);
        laws::lemma_accepted_all_buffer(s, buffer, front);
        let (before, _) = model::accepted_all(s, front);
        laws::lemma_accepted_buffer(before, buffer, fields.last());
        let (after, event) = model::accepted(before, fields.last());
        assert(made::<E>(event, ParserState { buffer, ..after }) =~= made::<E>(event, after));
    }
}

/// The answers of the buffer are those to the fields of its lines.
pub proof fn law_answers_line_by_line<E>(s: ParserState)
    ensures
        buffered::<E>(s) == answers_to::<E>(s, laws::fields_of(model::lines_of(s.buffer))),
    decreases s.buffer.len(),
{
    let lines = model::lines_of(s.buffer);
    let fields = laws::fields_of(lines);
    if model::has_line(s.buffer) {
        line::lemma_line_end(s.buffer);
        let behind = model::behind_first_line(s.buffer);
        let field = line::field_of(model::first_line(s.buffer));
        let (after, event) = model::line_taken(s);
        law_answers_line_by_line::<E>(after);
        assert(fields.drop_first() =~= laws::fields_of(model::lines_of(behind)));
        assert(fields.first() == field);
        lemma_answers_to_first::<E>(s, fields);
        laws::lemma_accepted_buffer(s, behind, field);
        let (kept, _) = model::accepted(s, field);
        lemma_answers_to_buffer::<E>(kept, behind, fields.drop_first());
        assert(made::<E>(event, after) =~= made::<E>(event, kept));
    } else {
        assert(fields =~= Seq::empty());
    }
}

/// The answers to `fields` are as many as the events that they make.
proof fn lemma_answers_to_len<E>(s: ParserState, fields: Seq<FieldView>)
    ensures
        answers_to::<E>(s, fields).len() == model::accepted_all(s, fields).1.len(),
    decreases fields.len(),
{
    if fields.len() > 0 {
        lemma_answers_to_len::<E>(s, fields.drop_last());
    }
}

/// The answers to the first `n` fields come first.
proof fn lemma_answers_to_take<E>(s: ParserState, fields: Seq<FieldView>, n: int)
    requires
        0 <= n <= fields.len(),
    ensures
        answers_to::<E>(s, fields.take(n)).is_prefix_of(answers_to::<E>(s, fields)),
    decreases fields.len(),
{
    if n == fields.len() {
        assert(fields.take(n) =~= fields);
    } else {
        lemma_answers_to_take::<E>(s, fields.drop_last(), n);
        assert(fields.drop_last().take(n) =~= fields.take(n));
    }
}

/// The last event ID after each event: if the line at `i` makes an event, then that event is
/// answered behind those of the lines in front of it, and the ID that shows after it is the
/// latest of the lines to `i`.
pub proof fn law_id_after_each_event<E>(s: ParserState, bytes: Seq<u8>, i: int)
    requires
        0 <= i < model::lines_of(s.buffer + bytes).len(),
    ensures
        ({
            let fields = laws::fields_of(model::lines_of(s.buffer + bytes));
            let (before, events) = model::accepted_all(s, fields.take(i));
            let list = stream_answers::<E>(s, bytes);
            let n = events.len() as int;
            model::accepted(before, fields[i]).1 matches Some(event) ==> n < list.len() && list[n]
                == (Answer {
                item: Some(Item::<E>::Event(event)),
                last_event_id: laws::latest_id(fields.take(i + 1), s.last_event_id),
            })
        }),
{
    let whole = model::received(s, bytes);
    let fields = laws::fields_of(model::lines_of(whole.buffer));
    law_answers_line_by_line::<E>(whole);
    lemma_answers_to_buffer::<E>(s, whole.buffer, fields);
    let front = fields.take(i);
    let upto = fields.take(i + 1);
    assert(upto.drop_last() =~= front);
    lemma_answers_to_take::<E>(s, fields, i + 1);
    lemma_answers_to_len::<E>(s, front);
    lemma_answers_to_len::<E>(s, upto);
    laws::law_last_event_id(s, upto);
    let n = answers_to::<E>(s, front).len() as int;
    if model::accepted(model::accepted_all(s, front).0, fields[i]).1 is Some {
        assert(answers_to::<E>(s, upto)[n] == answers_to::<E>(s, fields).subrange(0, n + 1)[n]);
    }
}

/// The last event ID at the end: once all complete lines have made their events, the answers
/// left are the event that the end of the stream may make and then the end, and after both the
/// ID is the latest of all complete lines.
pub proof fn law_id_at_the_end<E>(s: ParserState, bytes: Seq<u8>)
    ensures
        ({
            let whole = model::received(s, bytes);
            let fields = laws::fields_of(model::lines_of(whole.buffer));
            let (left, events) = model::drained(whole);
            let list = stream_answers::<E>(s, bytes);
            let latest = laws::latest_id(fields, s.last_event_id);
            list.skip(events.len() as int) == (match model::finished(left).1 {
                Some(event) => seq![
                    Answer { item: Some(Item::<E>::Event(event)), last_event_id: latest },
                ],
                None => Seq::empty(),
            }).push(Answer { item: None, last_event_id: latest })
        }),
{
    let whole = model::received(s, bytes);
    let fields = laws::fields_of(model::lines_of(whole.buffer));
    let start = ParserState { buffer: model::unterminated(whole.buffer), ..whole };
    law_answers_line_by_line::<E>(whole);
    lemma_answers_to_buffer::<E>(whole, start.buffer, fields);
    lemma_answers_to_len::<E>(start, fields);
    laws::law_line_by_line(whole);
    laws::law_last_event_id(start, fields);
    let (left, events) = model::drained(whole);
    assert(stream_answers::<E>(s, bytes).skip(events.len() as int) =~= ending::<E>(left));
}

/// Streams with the same lines have the same answers.
pub proof fn law_lines_decide<E>(s: ParserState, a: Seq<u8>, b: Seq<u8>)
    requires
        model::lines_of(s.buffer + a) == model::lines_of(s.buffer + b),
        model::unterminated(s.buffer + a) == model::unterminated(s.buffer + b),
    ensures
        stream_answers::<E>(s, a) == stream_answers::<E>(s, b),
        model::drained(model::received(s, a)) == model::drained(model::received(s, b)),
{
    let (x, y) = (model::received(s, a), model::received(s, b));
    let fields = laws::fields_of(model::lines_of(x.buffer));
    laws::law_line_by_line(x);
    laws::law_line_by_line(y);
    law_answers_line_by_line::<E>(x);
    law_answers_line_by_line::<E>(y);
    lemma_answers_to_buffer::<E>(x, y.buffer, fields);
}

/// CRLF and LF line endings, in any mixture, are the same to a consumer: the same answers come,
/// with the same last event ID after each, however the bytes are cut into chunks. An
/// unterminated line may come last. No line may have a carriage return of its own at its end,
/// which a bare line feed would take for a part of the line ending.
pub proof fn law_crlf_is_lf<E>(
    s: ParserState,
    lines: Seq<Seq<u8>>,
    crlf_a: Seq<bool>,
    crlf_b: Seq<bool>,
    tail: Seq<u8>,
    a: Seq<Input<E>>,
    b: Seq<Input<E>>,
)
    requires
        s.buffer.len() == 0,
        lines.len() == crlf_a.len(),
        lines.len() == crlf_b.len(),
        laws::without_line_feeds(lines),
        laws::without_last_crs(lines),
        !tail.contains(line::LF),
        failures_among(a).len() == 0,
        failures_among(b).len() == 0,
        bytes_of(a) == laws::sent(lines, crlf_a) + tail,
        bytes_of(b) == laws::sent(lines, crlf_b) + tail,
    ensures
        answers(s, a) == answers(s, b),
        model::drained(model::received(s, bytes_of(a))) == model::drained(
            model::received(s, bytes_of(b)),
        ),
{
    laws::law_lines_come_back(lines, crlf_a, tail);
    laws::law_lines_come_back(lines, crlf_b, tail);
    law_reassembly(s, a);
    law_reassembly(s, b);
    assert(s.buffer + bytes_of(a) =~= bytes_of(a));
    assert(s.buffer + bytes_of(b) =~= bytes_of(b));
    law_lines_decide::<E>(s, bytes_of(a), bytes_of(b));
}

/// A stream that holds no carriage return can have CRLF put in place of each of its line feeds:
/// the same answers come, with the same last event ID after each.
pub proof fn law_crlf_for_lf<E>(s: ParserState, a: Seq<Input<E>>, b: Seq<Input<E>>)
    requires
        s.buffer.len() == 0,
        failures_among(a).len() == 0,
        failures_among(b).len() == 0,
        !bytes_of(a).contains(line::CR),
        bytes_of(b) == laws::with_crlf(bytes_of(a)),
    ensures
        answers(s, a) == answers(s, b),
{
    laws::lemma_with_crlf(bytes_of(a));
    law_reassembly(s, a);
    law_reassembly(s, b);
    assert(s.buffer + bytes_of(a) =~= bytes_of(a));
    assert(s.buffer + bytes_of(b) =~= bytes_of(b));
    law_lines_decide::<E>(s, bytes_of(a), bytes_of(b));
}

/// What one poll of the parser comes to.
pub enum Reply<E> {
    Item(Item<E>),
    Ended,
    Pending,
}

/// One poll of the parser, in front of a source that has `inputs` to bring and then its end: the
/// state that is left, the reply, and the number of inputs that were taken.
pub open spec fn poll<E>(s: ParserState, inputs: Seq<Input<E>>) -> (ParserState, Reply<E>, nat)
    decreases inputs.len(),
{
    let (after, event) = model::next_event(s);
    match event {
        Some(e) => (after, Reply::Item(Item::Event(e)), 0),
        None => if inputs.len() == 0 {
            let (last, event) = model::finished(after);
            match event {
                Some(e) => (last, Reply::Item(Item::Event(e)), 0),
                None => (last, Reply::Ended, 0),
            }
        } else {
            match inputs.first() {
                Input::Chunk(bytes) => {
                    let (last, reply, taken) = poll(
                        model::received(after, bytes),
                        inputs.drop_first(),
                    );
                    (last, reply, taken + 1)
                },
                Input::Failed(error) => (after, Reply::Item(Item::Error(error)), 1),
                Input::Pending => (after, Reply::Pending, 1),
            }
        },
    }
}

/// How a poll answers. An event of the lines received before is the reply, and the source is
/// left alone. Otherwise chunks are taken until one completes an event, and the reply is that
/// the source is pending, has failed or has ended only if that is what it brought last; nothing
/// more is then asked of it.
pub proof fn law_poll_replies<E>(s: ParserState, inputs: Seq<Input<E>>)
    ensures
        ({
            let (_, reply, taken) = poll(s, inputs);
            let last = inputs[taken - 1];
            &&& taken <= inputs.len()
            &&& model::next_event(s).1 matches Some(event) ==> taken == 0 && reply == Reply::Item(
                Item::<E>::Event(event),
            )
            &&& forall|i: int| 0 <= i < taken - 1 ==> (#[trigger] inputs[i]) is Chunk
            &&& match reply {
                Reply::Pending => taken > 0 && last is Pending,
                Reply::Item(Item::Error(error)) => taken > 0 && last == Input::Failed(error),
                Reply::Item(Item::Event(_)) => taken > 0 ==> last is Chunk,
                Reply::Ended => taken == inputs.len() && (taken > 0 ==> last is Chunk),
            }
        }),
    decreases inputs.len(),
{
    let (after, event) = model::next_event(s);
    if event is None && inputs.len() > 0 {
        if let Input::Chunk(bytes) = inputs.first() {
            let rest = inputs.drop_first();
            let next = model::received(after, bytes);
            law_poll_replies(next, rest);
            let taken = poll(next, rest).2;
            assert forall|i: int| 0 <= i < taken implies (#[trigger] inputs[i]) is Chunk by {
                if i > 0 {
                    assert(rest[i - 1] is Chunk);
                }
            }
            assert(taken > 0 ==> rest[taken - 1] == inputs[taken as int]);
        }
    }
}

/// The answers that a consumer gets are the replies to one poll after the other, but for those
/// that the source is pending.
pub proof fn law_answers_are_replies<E>(s: ParserState, inputs: Seq<Input<E>>)
    ensures
        ({
            let (after, reply, taken) = poll(s, inputs);
            let others = answers(after, inputs.skip(taken as int));
            answers(s, inputs) == match reply {
                Reply::Item(item) => seq![
                    Answer { item: Some(item), last_event_id: after.last_event_id },
                ] + others,
                Reply::Pending => others,
                Reply::Ended => seq![Answer { item: None, last_event_id: after.last_event_id }],
            }
        }),
    decreases inputs.len(),
{
    let (after, event) = model::next_event(s);
    if event is Some {
        assert(inputs.skip(0) =~= inputs);
    } else if inputs.len() == 0 {
        let (last, event) = model::finished(after);
        laws::law_end_is_final(after);
        assert(inputs.skip(0) =~= inputs);
        let end = Answer::<E> { item: None, last_event_id: last.last_event_id };
        assert(ending::<E>(last) =~= seq![end]);
        assert(ending::<E>(after) =~= made::<E>(event, last) + seq![end]);
        if event is None {
            assert(ending::<E>(after) =~= seq![end]);
        }
    } else {
        let rest = inputs.drop_first();
        assert(inputs.skip(1) =~= rest);
        if let Input::Chunk(bytes) = inputs.first() {
            let next = model::received(after, bytes);
            law_answers_are_replies(next, rest);
            law_poll_replies(next, rest);
            let taken = poll(next, rest).2 as int;
            assert(inputs.skip(taken + 1) =~= rest.skip(taken));
        }
    }
}

} // verus!
