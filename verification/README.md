# kusage

A local CLI that shows Kiro CLI usage metrics (sessions, turns, requests,
tool uses and credits, broken down by model, project and day) as a compact
dashboard or as JSON. It reads the session files Kiro keeps under
`~/.kiro/sessions/cli/` (or `$KIRO_DIR/sessions/cli`), read-only.

## Layout

- `src/` is the library, verified with Verus:
  - `model.rs`: the session model and which metering entries count as credits;
  - `timestamp.rs`: RFC 3339 parsing and date printing, through the `time` crate;
  - `aggregate.rs`: statuses, session timestamps, project labels, the recent
    feed and the report as a whole;
  - `summary.rs`: the time window and the headline totals;
  - `grouping.rs`: the breakdowns by label (model, project) and by day;
  - `ranking.rs`: stable descending orderings and the credit ordering key;
  - `render.rs`, `style.rs`, `text.rs`: the dashboard layout, ANSI styling and
    text helpers;
  - `escapes.rs`: the proof that plain output adds no escape codes;
  - `output.rs`: names used by the JSON form;
  - `laws.rs`: properties that relate the functions above.
- `app/` is the program: command-line flags, reading the files, the
  fractional credit and duration figures (sums, shares, bar fills, their
  written form), and JSON output.
- `tests/` exercises the library.

Credit amounts are fractional; the library says, for every figure, which
sessions and turns make it up and in which order, and the program sums them.
