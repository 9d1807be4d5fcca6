# adaclaw

The core of a personal assistant that talks through chat services, remembers
what it was told and answers with the help of language models. The decisions it
makes are verified with [Verus](https://github.com/verus-lang/verus): the public
functions in `src/` carry contracts, which Verus proves for all that is not named
in the last section.

## Layout

| Where | What it holds |
|---|---|
| `src/model/` | the values that the parts exchange: messages, memory entries, chat turns, events |
| `src/channels/` | chat services: who may write, which requests are accepted, what is made of a message, how a reply is cut and formatted |
| `src/providers/` | language models: what a request looks like on the wire, how an answer or a stream is read, which provider is asked after a failure |
| `src/memory/` | remembering: SQLite and Markdown stores, ranking, query expansion, topics, consolidation, conversations |
| `src/text.rs`, `src/strmap.rs`, `src/json.rs`, `src/pattern.rs`, `src/crypto.rs` | text, maps keyed by text, JSON, regular expressions, digests |
| `app/` | sockets, HTTP, files, databases, clocks and floating point around the library |
| `tests/` | tests of the library, with the outside crates linked |

## How to read it

A type has a view, and contracts speak of views. Properties that concern more
than one function are public proof functions whose names begin with `law_`.

Where the work goes back and forth between a service and a decision, the library
says what is to be done next, `app/` does it and hands back what came of it: the
gateways of chat services, the chain of providers, a recall from SQLite and a run
of consolidation are state machines of this kind. A recall by several queries is
split around the two things that `app/` adds, the reply of a model and the scores
of the keys. Time is an argument, scores and vectors arrive as the bits
of floating-point numbers, and secrets are plain text inside the library.

## What is not proved

A few functions marked `external_body` call an outside crate or the standard
library: `serde_json`, `regex`, `mailparse`, `uuid`, the digests and encodings,
and conversions of text. Each says in its comment what is claimed of the
function it calls. The traits that users implement (`Memory`, `Channel` and
others) promise nothing by themselves; functions that call them say which calls
they make. What SQLite answers to a query is tested; `session_store.rs` and
`sqlite_laws.rs` in `src/memory/` state what the plain statements mean, without
the searches, and prove what follows from that.
