# but-ai

Memory, budgeting and coordination primitives for coding agents, written in
Verus. The functions under `src/` are verified against `requires`/`ensures`
contracts; a handful of small wrappers around `std` string and character
functions are trusted, each with its contract stated where it is declared.
Laws that span several functions (manifest merge is commutative and
associative, vector clock merge, topological order, the "see also" graph's
link and walk properties, and others) are stated as public proof functions
next to the code they describe.

Layout:

- `src/` — the verified library:
  - `agent/` — budget modes and phase gates, the architect's planning, the
    implementer's shuttle passes, the validator's decisions and the
    orchestrator of a task run;
  - `budget/` — token tracking and provider shim discovery;
  - `catalog/` — the card catalogue: classification, controlled vocabulary,
    the "see also" graph and the basis of a search;
  - `circulation/` — checkouts, holds and the collection adapters;
  - `cohort/`, `colophon/`, `identity/` — agent identities, keys and
    authorisation;
  - `coordination/` — dependency graphs, an in-memory forge and message
    fences;
  - `fabric/` — diffs, patches and commit messages;
  - `manifest/` — manifest entries with a commutative, associative merge,
    vector clocks, gossip and tides;
  - `memory/` — memory entries and their three-state store, compaction
    tiers, lifecycle, call numbers, keyword extraction, the memory graph
    and the counting parts of retrieval;
  - `text.rs`, `parse.rs`, `strmap.rs`, `vocab.rs` — string and map
    building blocks with their specifications.
- `tests/` — ordinary Rust tests of the library.
- `app/` — what Verus does not check: JSON reading and writing, floating
  point scoring, and the task pipeline around the verified orchestrator.
