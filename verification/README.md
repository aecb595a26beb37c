# nexus-chat

The coordination rules of a role runtime for agent sessions, verified with Verus: declared
channels and the state machines their `steps:` describe, the consolidator's message shapes and the
boundary that keeps an answer from speaking as another, the addressees an id-free reply resolves
to, the return path a requester is told about, the working-copy anchor a handover records, and the
lines the status view prints.

## Layout

- `src/` — the verified library. Every public function states its result over spec functions in
  its `ensures`; the laws that relate several functions are public `proof fn`s named `lemma_*`.
  - `channel.rs`, `validate.rs`, `review.rs`, `reach.rs` — channel declarations, the checks at
    their point of use, the advisory review of a whole catalogue, and flow cycles.
  - `boundary.rs`, `consolidate.rs` — the block boundary no answer spells, and every message a
    round of answers is composed into.
  - `addressees.rs`, `awaiting.rs`, `quorum.rs` — who a caller may answer, and how it learns an
    answer.
  - `anchor.rs` — the anchor, its fingerprint (SHA-256 through `sha2`), and drift.
  - `report.rs`, `status.rs`, `tick.rs`, `withdraw.rs`, `resume.rs` — status lines, a verb's
    exit-code rule, and the receipts of a tick, a withdrawal and a resume.
  - `stream.rs` — who may follow a conversation, and the timings a follow runs on.
  - `text.rs`, `order.rs` — strings over `Seq<char>`, and the code-point order with its sort.
- `tests/` — the scenarios, run against the compiled library.
- `app/` — what cannot be verified: reading `channels.yaml`, asking git, reading the follow's
  timings as floating-point seconds, the serde forms of the library's types, and printing.

## Trusted items

- `String::push` (`assume_specification` in `text.rs`): appends the character.
- `debug_quoted` (`text.rs`): std's `{:?}` of a string, named `debug_str`.
- `sha256_digest` (`anchor.rs`): `sha2::Sha256` of a byte string, named `sha256_of`.
