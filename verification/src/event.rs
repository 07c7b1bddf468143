//! The events that a stream is made of.

use vstd::prelude::*;

verus! {

/// Events emitted during LLM SSE streaming.
#[derive(Debug, PartialEq, Eq, Clone)]
pub enum SseEvent {
    /// A data event with no event-type field.
    ///
    /// Multi-line `data:` fields within one event block are joined with `\n`.
    Data(String),
    /// A data event with an explicit `event:` field.
    NamedData {
        /// Value of the `event:` field.
        event_type: String,
        /// Joined `data:` field (multi-line values joined with `\n`).
        data: String,
    },
    /// Signal that the stream has finished (`data: [DONE]`).
    Done,
    /// Keep-alive or informational comment (line starts with `:`).
    Comment(String),
}

/// The texts of an [`SseEvent`].
pub enum EventView {
    Data(Seq<char>),
    NamedData { event_type: Seq<char>, data: Seq<char> },
    Done,
    Comment(Seq<char>),
}

impl View for SseEvent {
    type V = EventView;

    open spec fn view(&self) -> EventView {
        match *self {
            SseEvent::Data(data) => EventView::Data(data@),
            SseEvent::NamedData { event_type, data } => EventView::NamedData {
                event_type: event_type@,
                data: data@,
            },
            SseEvent::Done => EventView::Done,
            SseEvent::Comment(text) => EventView::Comment(text@),
        }
    }
}

/// The view of an optional event.
pub open spec fn optional(event: Option<SseEvent>) -> Option<EventView> {
    match event {
        Some(e) => Some(e@),
        None => None,
    }
}

/// The view of an event is of the same kind and has the same texts.
pub proof fn law_event_view(event: SseEvent)
    ensures
        event matches SseEvent::Data(data) ==> event@ == EventView::Data(data@),
        event matches SseEvent::NamedData { event_type, data } ==> event@ == (
        EventView::NamedData { event_type: event_type@, data: data@ }),
        event is Done ==> event@ is Done,
        event matches SseEvent::Comment(text) ==> event@ == EventView::Comment(text@),
        optional(Some(event)) == Some(event@),
        optional(None) == None::<EventView>,
{
}

} // verus!
