# skipjackd

A multi-provider web search daemon with anti-blocking countermeasures, local caching and MCP
integration, whose decisions are proved correct with [Verus](https://github.com/verus-lang/verus).

## Layout

- `src/` is the verified library. Its functions state in `ensures` what they return or change,
  over mathematical models of their data. Functions whose names read like sentences
  (`no_window_sees_more_than_rpm_grants`, `written_messages_are_read_back`) are laws: proofs of
  what holds across functions.
- `app/` is the program around it: argument parsing, sockets, HTTP, SQLite, serde, signals, and
  floating-point arithmetic. It performs what the library decides and hands back what came of it.
- `tests/` runs the library.

## What is trusted

Calls into other crates stand behind small functions marked `#[verifier::external_body]`. The doc
comment of each names the outside function and says what is claimed of it. Results that take
pages to state (a digest, a parsed URL, the markdown of a page) have a name, a `spec fn` without a
body, and the contracts above them speak of that name.

## Numbers with a fraction

The library carries doubles by their bit pattern (`double::Double`), orders them, and rounds
reciprocals itself; it does no other arithmetic on them. A composite score leaves it as a list of
weighted terms for the program to add up. Rates are exact ratios of counts (`double::Ratio`).
