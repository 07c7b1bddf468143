//! SSE stream parser for LLM token streaming.
//!
//! Takes the chunks of a byte stream and emits structured [`SseEvent`] values. Implements the
//! SSE dispatch algorithm:
//! - Multi-line `data:` fields are joined with `\n` into one event
//! - `event:` field is captured and exposed via [`SseEvent::NamedData`]
//! - `id:` field is tracked via [`LlmSseStream::last_event_id`] for reconnect support
//! - Events are dispatched on the empty-line separator, not per line
//!
//! The parser is [`stream::LlmSseStream`]. What it does is stated over the definitions in
//! [`model`]; what follows from them for whole streams is proved in [`laws`], [`polls`],
//! [`values`] and [`roundtrip`]. The decisions of the command line tool are in [`cli`] and [`json`].

pub mod buffer;
pub mod cli;
pub mod event;
pub mod json;
pub mod laws;
pub mod line;
pub mod model;
pub mod polls;
pub mod roundtrip;
pub mod stream;
pub mod text;
pub mod values;

pub use event::SseEvent;
pub use stream::{LlmSseStream, LlmSseStreamExt, Polled, Step};
