# scry

A League of Legends game tracker for your Discord, with its logic verified by
Verus. It watches a list of players, and when one of them finishes a game it
posts a package to a webhook: the stat line, the LP change, and two short replay
clips, the **Highlight** and the **Lowlight**, chosen by a deterministic analysis
of the match timeline.

## Layout

- `src/` is the library: what decides or computes over whole numbers and texts,
  each function with a contract that Verus proves.
  - `text`, `seqs`, `scan`, `table`, `json`: the vocabulary. Texts are sequences
    of characters, JSON values are trees.
  - `record`, `game`, `timeline`: a match and its timeline, read into plain values.
  - `moments`, `candidates`, `highlights`, `lowlights`, `picks`, `analysis`: the
    analysis, from fights and deaths to the joint assignment of clips, and from
    the raw event stream.
  - `storage`, `leaves`, `kinds`: the events of the journal and their encoding.
  - `journal`, `journal_laws`, `dump`, `import`: the fold of the events, what it
    keeps across renames and key swaps, and how the log is shown and backfilled.
  - `rank`, `riot`, `stats`, `discord`, `post`, `report`, `summary`: standings,
    routing, summaries and messages.
  - `tick`, `clip_pass`, `cli`: the watch list, the clip pass and the arguments.
  - `archive`, `charts`: what is kept of a match and what is drawn of it.
- `app/` is the program around it: arguments, files, the network, the SQLite
  journal, and what is floating point (rates, distances between coordinates
  that are no whole numbers, the drawing).
- `tests/` runs the library on concrete games and journals.

## What is trusted

The library believes a few facts about other crates without proof: what
`serde_json` reads and writes, what `riven` reads of a match record and knows of
champions and platforms, how `urlencoding` escapes, and std's case mapping and
UTF-8 decoding. Each is a small function marked `external_body`, with a comment
that says what it claims.
