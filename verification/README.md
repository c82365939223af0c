# living_docs_core

The core of `living-docs`, a tool that keeps a bundle of decision records
(ADRs, PRDs, issues, research notes, architecture views and a constitution)
honest: it checks the bundle's invariants, regenerates each type's index,
canonicalizes frontmatter, scaffolds new records, and compiles the views an
agent reads (`effective`, `why`, `scorecard`).

The library is written in Verus. Its functions carry `requires`/`ensures`
contracts over a mathematical model of their inputs
(texts as `Seq<char>`, the bundle as a path-to-text store), and Verus proves
each body against it.

## Layout

- `src/store.rs` — the in-memory record store every check and command reads
  and writes.
- `src/text.rs`, `src/path.rs`, `src/order.rs` — texts, `/`-paths and the
  character order, with their specifications.
- `src/frontmatter.rs`, `src/record.rs`, `src/callout.rs` — reading a
  record's frontmatter, its canonical serialization, and the retired-record
  callout.
- `src/doc_type.rs`, `src/templates.rs` — the registry of record types.
- `src/check/` — every `check` pass, each stated as the findings it reports.
- `src/commands/` — the verbs: `index`, `fmt`, `brief`, `set`, `status`,
  `owner`, `supersede`, `effective`, `why`, `scorecard`.
- `src/pattern.rs`, `src/fingerprint.rs` — the calls into `regex` and `sha2`,
  behind trusted wrappers whose contracts name what those crates compute.
- `app/` — the command-line front: loading a bundle from disk, the clock,
  printing, JSON output.
- `tests/` — executable tests of the library.

Most laws the library promises stand in `src/` as public proof functions,
for example `lemma_reconciled_idempotent` (callout), `lemma_fmt_settles_a_record`
(fmt), `lemma_regenerating_twice_rewrites_nothing` (index),
`lemma_effective_shows_only_records_in_force` (effective) and
`lemma_fingerprint_order_independent` (fingerprint).
