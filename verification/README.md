# tokio-sse-llm

SSE stream parser for LLM token streaming, verified with Verus.

Implements the SSE dispatch algorithm: multi-line `data:` fields are assembled into one event,
the `event:` field is captured, the `id:` field is tracked for reconnects, and events are
dispatched on the empty-line separator. Works with OpenAI, Anthropic, Ollama, and any
standards-compliant SSE server.

## Layout

| Path | What it holds |
|------|---------------|
| `src/stream.rs` | `LlmSseStream`, the parser, driven by `begin_poll` and `resume_poll` |
| `src/event.rs` | `SseEvent` |
| `src/line.rs` | lines: their ends, their fields, the text of a field |
| `src/text.rs` | trimming, decoding, joining, comparing |
| `src/buffer.rs` | what is assumed of `bytes::BytesMut` |
| `src/model.rs` | the parser as a state machine over sequences |
| `src/laws.rs` | what holds of the parser as a whole: lines, blocks, line endings, IDs |
| `src/polls.rs` | what a consumer gets: chunks, errors, and the ID after each item |
| `src/values.rs` | what holds of every text that comes out |
| `src/roundtrip.rs` | what is read of a stream that was written |
| `src/json.rs` | the text in the payloads of the known services |
| `src/cli.rs` | options, request and output of the command line tool |
| `app/` | the asynchronous stream adapter and the `sse` tool |
| `tests/` | tests of the library |

## SseEvent variants

| Variant | When emitted |
|---------|-------------|
| `Data(String)` | Event block with `data:` but no `event:` field |
| `NamedData { event_type, data }` | Event block with both `data:` and `event:` field |
| `Done` | `data: [DONE]` received |
| `Comment(String)` | Line starting with `:` (keep-alive) |

## What is proved

- However a stream is cut into chunks, the same events come out, in the same order, and after
  each of them the parser shows the same last event ID.
- CRLF and LF line endings give the same events and IDs, unless a line has a carriage return of
  its own at its end.
- Within a block nothing is dispatched but comments; an empty line dispatches the block as one
  event, its data lines joined with `\n`, and leaves nothing behind for the next block.
- What comes behind an empty line makes the events that it would make alone.
- The last event ID is the value of the latest `id:` field of the lines used up; an empty one
  resets it.
- Values are trimmed of white space and hold no line feed, whatever the bytes are; no data is
  `[DONE]`.
- `retry:` and unknown lines change nothing.
- An ended stream stays ended. Errors of the source come out behind the events received before
  them, and leave the parser as it is.
- A stream of blocks that was written out is read back event by event.

Assumed, and not proved, is what `src/buffer.rs`, `src/text.rs`, `src/json.rs` and `src/cli.rs`
say in their contracts of `bytes`, `serde_json` and a few functions of the standard library.

## CLI

Options: `--url`, `--header`, `--data`, `--extract openai|anthropic|ollama|auto`, `--raw`,
`--verbose`, `--help`
