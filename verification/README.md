# map_analyzer

A beatmap analysis toolkit and the knowledge-base tool that documents it,
written in Verus. Every function in `src/` carries a contract that Verus
proves; `app/` is the command-line program around the library.

## Layout

- `src/okf/`: the knowledge-base tool's rules. Semantic documents (YAML
  front matter and a Markdown body) are validated field by field
  (`validate`, `fields`, `references`), against the relation and type
  registries (`registries`, `relations`, `contracts`) and as a graph
  (`edges`, `graph`). Semantic hashes are SHA-256 digests of canonical JSON
  (`canonical`, `projection`, `hash`, `body`), which `rehash` stores back
  into the front matter. `views`, `freshness` and `generated` build the
  read-only views and the generated files; `history`, `sources`, `github`,
  `handoff` and `draft` cover the remaining commands; the generated JSON
  files are written pretty by serde_json (`generated::json_bytes`), front
  matter by serde_yaml and a relation's selectors by serde_json
  (`serialized`), and the JSON reports of findings by serde_json
  (`diagnostics`).
- `src/rhythm_segmentation.rs`, `patterns.rs`, `transitions.rs`,
  `aim_control.rs`, `prototype.rs`: the integer core of the beatmap
  analyses (pattern boundaries, classification, transition tables and counters, aim
  volatility histograms). Distances and timings are measured by the caller;
  these modules take the resulting flags and buckets.
- `src/backend.rs`, `src/bot.rs`: the decisions of the analysis service and
  of the chat-bot front end, as step functions from state and event to
  action.
- `app/`: the knowledge-base command-line program (file and process I/O,
  YAML and JSON parsing), and, under `app/analysis/`, the service's
  floating-point jump and stream analyses, which the library cannot hold.
- `tests/`: tests on concrete values.

## What is proved

Besides the exact contract of each function (cycle detection, for
instance, is specified as the existence of a closed chain of edges), the
library proves these properties as proof functions:

- for front matter with distinct keys that projects without error, the
  hash projection of an object depends only on its entries outside the
  administrative fields, and those of its claims only on theirs, whatever
  administrative fields are changed, added, removed or moved, at once
  (`okf::projection`, stated over plain value changes in
  `okf::administrative`); an issue's payload ignores every field it does
  not cover, and succeeds exactly when its labels, assignees and comments
  are lists (`okf::github`);
- after a rehash the stored hashes equal the recomputed ones
  (`okf::rehash`);
- a normalized body (without carriage returns) has the body's lines with
  trailing blanks and trailing empty lines removed, ends in exactly one
  newline unless empty, and normalizes to itself, so such a body and its
  normalized form hash alike (`okf::body`, `okf::projection`);
- cycle detection depends only on which edges there are, not on their
  order or repetitions (`okf::graph`);
- lifecycles only move forward, and a durable ID deleted from the history
  is reported as reused whenever it is seen again (`okf::history`);
- the BPM-shift category of two snaps does not depend on their order
  (`transitions`).
