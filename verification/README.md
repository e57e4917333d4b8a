# peek-codex

A read-only terminal browser for local Codex sessions, as a Verus-verified
library (`src/`) and a thin terminal program around it (`app/`).

## Layout

- `src/text.rs` — character classes, one-line sanitizing of terminal text
  (at most 240 characters), decimal rendering, substring search and the
  order of text.
- `src/domain.rs` — session identifiers, sessions and pages, the stable
  recency order with its proofs (ordered, a permutation, identifiers kept
  distinct), project labels and relative ages.
- `src/app.rs` — the browsing state machine: loading states, merging pages
  without duplicates, a selection that follows its session, live search
  that never looks at previews, and project overviews. Every operation keeps
  the state's invariant.
- `src/codex.rs` — the app-server protocol: reply lines read into JSON-RPC
  replies, thread records decoded into sessions, and the per-request
  deadline and cancellation decision.
- `src/tui.rs` — the front end's decisions: key routing, status and footer
  lines, row layout within a width of display cells, and when pagination
  stops.
- `src/cli.rs` — command-line parsing.
- `app/` — the program: process and pipe handling, reading result objects
  into thread records, the loader thread, the terminal event loop and
  drawing.
- `tests/` — tests on concrete values, run against the real outside crates.
