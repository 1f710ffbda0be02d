# relay_builder

A framework for Nostr relays whose logic is proved correct with Verus.

A Nostr relay stores signed events and hands them to clients that subscribe to them with filters.
This crate holds the decisions of such a relay: which subscriptions an event is delivered to, what
a client is told when something fails, who may publish a protected event, when an event has
expired, which events a deletion request may delete, how a client authenticates, how sets of events
are reconciled with another relay, and how the tools around the store read its keys and files.

## Layout

- `src/` is the verified library. Every function states what it returns or changes, and Verus
  proves it. Laws that relate several functions are the proof functions whose names begin with
  `law_`.
- `tests/` runs the library with the outside crates linked.
- `app/` is the relay program and its tools: sockets, tasks, files, the store, and the command line.

## Where to start

- `src/protocol.rs`: events, filters and messages, and what it means that a filter matches an event.
- `src/index_model.rs` and `src/subscription_index.rs`: the index of subscriptions. The first is the
  model in which its laws are stated, the second the index itself.
- `src/subscription_registry.rs`: the connections of a relay, and the isolation of its scopes.
- `src/active_subscriptions.rs`: what the changes that a registry reports add up to.
- `src/middleware_chain.rs`: the order in which messages pass through middlewares, and what ends
  their way.
- `src/relay_middleware.rs`: the core of the relay.
- `src/middlewares/`: what is decided about a message on its way in and out.
- `src/sdk.rs`: the calls into `nostr_sdk`. They are not proved; each says what is taken for granted.

## What is taken for granted

A function marked `#[verifier::external_body]` calls an outside crate or a function of the standard
library that has no specification yet. Its contract says what is relied on: nothing more is assumed.
Names without a definition (`pub uninterp spec fn`) stand for results that depend on the arguments
alone, such as what `nostr_sdk` makes of a JSON text.
