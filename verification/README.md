# fono

The decisions of a voice assistant that acts on a home, verified with Verus.

The library judges what a tool server answered, corrects what a model wrote
against what the home said of itself, learns which phrases may be replayed,
scores a suite of spoken commands against a real home, keeps conversations in
threads, and decides which models to fetch and what to say of it. Every public
function has a contract, and properties that span functions are public proof functions
whose names begin with `law_`.

## Layout

- `src/actions/` — tool calls: arguments, the ladder of evidence, the hint, the
  catalogue, learning, and what is known of one kind of server.
- `src/bench_actions/` — the suite: the home as it describes itself, fixtures,
  staging, scoring, running and summarising.
- `src/conversation_log.rs` — which thread a turn belongs to.
- `src/models.rs` — model downloads and their notifications.
- `src/text.rs`, `src/value.rs`, `src/json.rs`, `src/decimal.rs`,
  `src/order.rs` — text, JSON values, exact decimals and ordering.
- `tests/` — tests on concrete values.
- `app/` — what surrounds the library: servers, stores, clocks, files. It performs
  what the library decides.

## What is believed without proof

The contracts of a few functions of `std` and of outside crates: character
classes and case, `String::push`, the text of a quoted string, quoting and
reading JSON with `serde_json` (an object of one text reads back as it was
written), and guessing a language with `whatlang`. Each such item says above it
what is claimed of the outside function.

## Numbers

Amounts are exact decimals rather than binary floating point: a reading keeps up
to eighteen decimals, and a rate is a pair of whole numbers.
