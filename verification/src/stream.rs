//! The stream parser.

use bytes::BytesMut;
use vstd::prelude::*;

use crate::buffer;
use crate::event;
use crate::event::{EventView, SseEvent};
use crate::laws;
use crate::line;
use crate::line::Field;
use crate::model;
use crate::model::ParserState;
use crate::text;
use crate::values;

verus! {

/// The capacity that the receive buffer starts with.
pub const INITIAL_CAPACITY: usize = 4096;

/// A Server-Sent Events (SSE) stream parser.
///
/// Holds the source of the bytes, `inner`, and turns the chunks that come out of it into
/// [`SseEvent`] values following the SSE dispatch algorithm: events are assembled across
/// multiple field lines and dispatched on the empty-line separator, not emitted line-by-line.
///
/// The parser does no I/O. Whoever drives it calls [`begin_poll`](LlmSseStream::begin_poll)
/// and, as long as the answer is [`Step::PollInner`], polls the source and hands what came of
/// it to [`resume_poll`](LlmSseStream::resume_poll).
///
/// After consuming events, call [`last_event_id`](LlmSseStream::last_event_id) to retrieve the
/// most recent `id:` field value. Pass this as the `Last-Event-ID` header when reconnecting to
/// resume the stream from where it left off.
pub struct LlmSseStream<S> {
    inner: S,
    buffer: BytesMut,
    pending_data: Vec<String>,
    pending_event_type: Option<String>,
    last_event_id: Option<String>,
}

/// What came of polling the source.
pub enum Polled<'a, E> {
    /// The next bytes of the stream.
    Chunk(&'a [u8]),
    /// The source reported an error.
    Failed(E),
    /// The source has ended.
    Ended,
    /// The source has nothing yet.
    Pending,
}

/// What whoever drives the parser is to do next.
pub enum Step<E> {
    /// Hand this item to the consumer; `None` is the end of the stream.
    Ready(Option<Result<SseEvent, E>>),
    /// Wait until the source has more.
    Pending,
    /// Poll the source, and go on with what comes of it.
    PollInner,
}

/// Whether the event that a step hands to the consumer, if it does, has tidy texts.
pub open spec fn tidy_step<E>(step: Step<E>) -> bool {
    step matches Step::Ready(Some(Ok(event))) ==> values::tidy_event(event@, true)
}

/// Whether an optional event has tidy texts.
pub open spec fn tidy_event(event: Option<SseEvent>) -> bool {
    event matches Some(e) ==> values::tidy_event(e@, true)
}

impl<S> View for LlmSseStream<S> {
    type V = ParserState;

    closed spec fn view(&self) -> ParserState {
        ParserState {
            buffer: buffer::contents(self.buffer),
            data: text::texts(self.pending_data@),
            event_type: text::optional(self.pending_event_type),
            last_event_id: text::optional(self.last_event_id),
        }
    }
}

impl<S> LlmSseStream<S> {
    /// The source of the bytes.
    pub closed spec fn source(self) -> S {
        self.inner
    }

    /// Whether the texts that the parser holds are trimmed and free of line feeds, and the last
    /// event ID is not empty. This holds of a new parser, and polling keeps it.
    pub open spec fn well_formed(self) -> bool {
        values::tidy_state(self@, true)
    }

    /// Create a new SSE parser wrapping the given byte stream.
    pub fn new(inner: S) -> (parser: Self)
        ensures
            parser@ == model::fresh(),
            parser.well_formed(),
            parser.source() == inner,
    {
        let parser = Self {
            inner,
            buffer: buffer::with_capacity(INITIAL_CAPACITY),
            pending_data: Vec::new(),
            pending_event_type: None,
            last_event_id: None,
        };
        assert(parser@ =~= model::fresh());
        parser
    }

    /// Consume the parser and return the underlying stream.
    pub fn into_inner(self) -> (inner: S)
        ensures
            inner == self.source(),
    {
        self.inner
    }

    /// The underlying stream, to be polled. What is done to it leaves the parser as it is.
    pub fn inner_mut(&mut self) -> (inner: &mut S)
        ensures
            *inner == old(self).source(),
            final(self).source() == *final(inner),
            final(self)@ == old(self)@,
    {
        &mut self.inner
    }

    /// Returns the value of the most recent `id:` field received from the server.
    ///
    /// Clients should send this value as the `Last-Event-ID` header when reconnecting, allowing
    /// the server to resume from where it left off. Returns `None` if no `id:` field has been
    /// received yet, or if the server sent an empty `id:` field to reset the ID.
    pub fn last_event_id(&self) -> (id: Option<&str>)
        ensures
            match id {
                Some(value) => self@.last_event_id == Some(value@),
                None => self@.last_event_id is None,
            },
            self.well_formed() ==> (id matches Some(value) ==> value@.len() > 0 && values::tidy(
                value@,
                true,
            )),
    {
        match &self.last_event_id {
            Some(value) => Some(value.as_str()),
            None => None,
        }
    }

    /// Flush the accumulated event block into an [`SseEvent`], if any data was buffered. A second
    /// flush finds nothing left.
    pub fn flush_pending(&mut self) -> (event: Option<SseEvent>)
        ensures
            (final(self)@, event::optional(event)) == model::dispatched(old(self)@),
            model::dispatched(final(self)@) == (final(self)@, None::<EventView>),
            event is Some <==> old(self)@.data.len() > 0,
            event matches Some(SseEvent::Data(data)) ==> old(self)@.event_type is None && data@
                == text::joined(old(self)@.data),
            event matches Some(SseEvent::NamedData { event_type: name, data: joined })
                ==> old(self)@.event_type == Some(name@) && joined@ == text::joined(
                old(self)@.data,
            ),
            event matches Some(SseEvent::Done) ==> text::joined(old(self)@.data) == "[DONE]"@,
            !(event matches Some(SseEvent::Comment(_))),
            old(self).well_formed() ==> final(self).well_formed() && tidy_event(event),
            final(self).source() == old(self).source(),
    {
        proof {
            laws::law_dispatched_once(self@);
            if self.well_formed() {
                values::lemma_dispatched_tidy(self@, true);
            }
        }
        if self.pending_data.is_empty() {
            self.pending_event_type = None;
            assert(self@ =~= model::dispatched(old(self)@).0);
            return None;
        }
        let data = text::join_lines(&self.pending_data);
        let event_type = self.pending_event_type.take();
        self.pending_data.clear();
        assert(self@ =~= model::dispatched(old(self)@).0);

        if text::same_text(data.as_str(), "[DONE]") {
            return Some(SseEvent::Done);
        }
        Some(
            match event_type {
                Some(event_type) => SseEvent::NamedData { event_type, data },
                None => SseEvent::Data(data),
            },
        )
    }

    /// Takes in one field. Comments make an event at once and leave the current block alone; an
    /// empty line ends the block; the other fields are kept for later.
    pub fn accept(&mut self, field: Field) -> (event: Option<SseEvent>)
        ensures
            (final(self)@, event::optional(event)) == model::accepted(old(self)@, field@),
            field matches Field::Id(value) ==> (final(self)@.last_event_id is None <==> value@.len()
                == 0),
            field matches Field::Id(value) ==> (value@.len() > 0 ==> final(self)@.last_event_id
                == Some(value@)),
            !(field is Id) ==> final(self)@.last_event_id == old(self)@.last_event_id,
            field matches Field::Data(value) ==> final(self)@.data == old(self)@.data + seq![
                value@,
            ],
            field matches Field::Event(value) ==> final(self)@.event_type == Some(value@),
            field matches Field::Comment(value) ==> event matches Some(SseEvent::Comment(c)) && c@
                == value@,
            old(self).well_formed() && values::tidy_field(field@, true)
                ==> final(self).well_formed() && tidy_event(event),
            final(self).source() == old(self).source(),
    {
        proof {
            if self.well_formed() && values::tidy_field(field@, true) {
                values::lemma_accepted_tidy(self@, field@, true);
            }
        }
        match field {
            Field::Blank => self.flush_pending(),
            Field::Data(value) => {
                self.pending_data.push(value);
                assert(self@ =~= model::accepted(old(self)@, field@).0);
                None
            },
            Field::Event(value) => {
                self.pending_event_type = Some(value);
                None
            },
            Field::Id(value) => {
                self.last_event_id = if value.as_str().is_empty() {
                    None
                } else {
                    Some(value)
                };
                None
            },
            Field::Comment(value) => Some(SseEvent::Comment(value)),
            Field::Ignored => None,
        }
    }

    /// Processes the complete lines in the buffer, up to the first that makes an event.
    pub fn next_buffered(&mut self) -> (event: Option<SseEvent>)
        ensures
            (final(self)@, event::optional(event)) == model::next_event(old(self)@),
            old(self).well_formed() ==> final(self).well_formed() && tidy_event(event),
            event is None ==> !model::has_line(final(self)@.buffer),
            final(self).source() == old(self).source(),
    {
        let ghost goal = model::next_event(self@);
        loop
            invariant
                model::next_event(self@) == goal,
                goal == model::next_event(old(self)@),
                self.source() == old(self).source(),
                old(self).well_formed() ==> self.well_formed(),
            decreases self@.buffer.len(),
        {
            let held = buffer::as_slice(&self.buffer);
            assert(held.len() == held@.len());
            let end = match line::find_line_end(held) {
                Some(end) => end,
                None => {
                    return None;
                },
            };
            let ghost before = self@;
            let head = buffer::split_to(&mut self.buffer, end + 1);
            let bytes = buffer::as_slice(&head);
            let field = line::read_line(line::trim_line(bytes, end));
            assert(bytes@.take(end as int) =~= before.buffer.take(end as int));
            proof {
                line::lemma_line_end(before.buffer);
                assert(!model::first_line(before.buffer).contains(line::LF));
            }
            assert(self@ =~= ParserState {
                buffer: model::behind_first_line(before.buffer),
                ..before
            });
            let event = self.accept(field);
            if event.is_some() {
                return event;
            }
        }
    }

    /// Ends the stream, given the text that the unterminated last line contributes.
    pub fn finish_with(&mut self, tail: Option<String>) -> (event: Option<SseEvent>)
        ensures
            (final(self)@, event::optional(event)) == model::finished_with(
                old(self)@,
                text::optional(tail),
            ),
            old(self).well_formed() && (tail matches Some(value) ==> values::tidy(value@, true))
                ==> final(self).well_formed() && tidy_event(event),
            final(self).source() == old(self).source(),
    {
        let len = buffer::as_slice(&self.buffer).len();
        let _ = buffer::split_to(&mut self.buffer, len);
        if let Some(value) = tail {
            self.pending_data.push(value);
        }
        proof {
            assert(self@.buffer =~= Seq::empty());
            assert(self@.data =~= match text::optional(tail) {
                Some(value) => old(self)@.data.push(value),
                None => old(self)@.data,
            });
        }
        self.flush_pending()
    }

    /// Ends the stream. What is left in the buffer is a last line that nothing terminated: it
    /// counts if it is a `data:` field that is not empty. The current block is then flushed.
    pub fn finish(&mut self) -> (event: Option<SseEvent>)
        ensures
            (final(self)@, event::optional(event)) == model::finished(old(self)@),
            old(self).well_formed() && !model::has_line(old(self)@.buffer)
                ==> final(self).well_formed() && tidy_event(event),
            final(self).source() == old(self).source(),
    {
        proof {
            line::lemma_line_end(self@.buffer);
            line::lemma_names();
        }
        let tail = match line::strip_data_name(buffer::as_slice(&self.buffer)) {
            Some(value) => {
                let value = line::decode_value(value);
                if value.as_str().is_empty() {
                    None
                } else {
                    Some(value)
                }
            },
            None => None,
        };
        self.finish_with(tail)
    }

    /// Whether the buffer can take in a chunk of `len` bytes.
    pub open spec fn room_for(self, len: nat) -> bool {
        buffer::fits(self@.buffer.len(), len)
    }

    /// There is room for whatever the buffer is sure to take in: any chunk, as long as it and
    /// twice what is held are no more than half of what an allocation can have.
    pub proof fn law_room(self, len: nat)
        ensures
            self.room_for(len) <==> self@.buffer.len() + self@.buffer.len() + len <= isize::MAX
                / 2,
    {
    }

    /// Tells whether the buffer can take in a chunk of `len` bytes, whatever the allocation
    /// behind it is by now. The bound covers the worst that a `BytesMut` may have: an actual
    /// buffer may have room for more.
    pub fn has_room(&self, len: usize) -> (room: bool)
        ensures
            room == self.room_for(len as nat),
    {
        let held = buffer::as_slice(&self.buffer).len();
        let limit = isize::MAX as usize / 2;
        held <= limit / 2 && len <= limit - 2 * held
    }

    /// Starts to look for the next item: an event of the lines that were received already, or
    /// else a poll of the source.
    pub fn begin_poll<E>(&mut self) -> (step: Step<E>)
        ensures
            final(self)@ == model::next_event(old(self)@).0,
            match model::next_event(old(self)@).1 {
                Some(event) => step matches Step::Ready(Some(Ok(e))) && e@ == event,
                None => step is PollInner,
            },
            old(self).well_formed() ==> final(self).well_formed() && tidy_step(step),
            step is PollInner ==> !model::has_line(final(self)@.buffer),
            final(self).source() == old(self).source(),
    {
        match self.next_buffered() {
            Some(event) => Step::Ready(Some(Ok(event))),
            None => Step::PollInner,
        }
    }

    /// Goes on after a poll of the source. That is asked for only once no complete line is left
    /// in the buffer.
    pub fn resume_poll<E>(&mut self, polled: Polled<E>) -> (step: Step<E>)
        requires
            polled matches Polled::Chunk(chunk) ==> old(self).room_for(chunk@.len()),
        ensures
            match polled {
                Polled::Chunk(chunk) => {
                    let (state, event) = model::next_event(model::received(old(self)@, chunk@));
                    &&& final(self)@ == state
                    &&& match event {
                        Some(event) => step matches Step::Ready(Some(Ok(e))) && e@ == event,
                        None => step is PollInner,
                    }
                },
                Polled::Failed(error) => {
                    &&& final(self)@ == old(self)@
                    &&& step == Step::Ready(Some(Err::<SseEvent, E>(error)))
                },
                Polled::Ended => {
                    let (state, event) = model::finished(old(self)@);
                    &&& final(self)@ == state
                    &&& match event {
                        Some(event) => step matches Step::Ready(Some(Ok(e))) && e@ == event,
                        None => step == Step::Ready(None::<Result<SseEvent, E>>),
                    }
                },
                Polled::Pending => final(self)@ == old(self)@ && step is Pending,
            },
            old(self).well_formed() && (polled is Ended ==> !model::has_line(old(self)@.buffer))
                ==> final(self).well_formed() && tidy_step(step),
            step is PollInner ==> !model::has_line(final(self)@.buffer),
            final(self).source() == old(self).source(),
    {
        match polled {
            Polled::Chunk(chunk) => {
                buffer::extend_from_slice(&mut self.buffer, chunk);
                assert(self@ =~= model::received(old(self)@, chunk@));
                self.begin_poll()
            },
            Polled::Failed(error) => Step::Ready(Some(Err(error))),
            Polled::Ended => match self.finish() {
                Some(event) => Step::Ready(Some(Ok(event))),
                None => Step::Ready(None),
            },
            Polled::Pending => Step::Pending,
        }
    }
}

/// Extension trait for easily wrapping byte streams.
pub trait LlmSseStreamExt: Sized {
    /// Wrap this byte stream as an SSE parser.
    fn into_sse_stream(self) -> (parser: LlmSseStream<Self>)
        ensures
            parser@ == model::fresh(),
            parser.well_formed(),
            parser.source() == self,
    ;
}

impl<S> LlmSseStreamExt for S {
    fn into_sse_stream(self) -> LlmSseStream<Self> {
        LlmSseStream::new(self)
    }
}

} // verus!
