# yara-worker

A YARA-X malware-scanning worker for DuckDB: compile YARA rules and scan
blobs/text for matches from SQL over Apache Arrow.

The logic is a Verus-verified library (`src/`):

- `scanning` — rule compilation and scanning over `yara-x`: compilation with
  the compiler's defaults (the outcome is specified for sources without
  `include` statements, which alone make the compiler read files), the 64 MiB
  bound on scanned data, and the conversion of a scan outcome into rule
  matches and per-pattern hits (a failed scan gives none; each hit shows the
  scanned bytes at its offset; the hits of one rule, and of one named pattern,
  stand together in ascending offset order). Which rules match is the
  engine's to say and is not specified.
- `text` — character classes (Unicode white space, control characters),
  trimming, JSON string escaping (quotes, backslashes and control
  characters), lowercase hex, and the rendering of matched
  bytes (printable UTF-8 text, else hex).
- `meta` — keyword lists encoded as JSON arrays of strings (with a proof that
  they read back as the keywords), the standard description tags, the version.
- `scalar` — per-row processing of the scalar functions: NULL propagation, a
  one-entry rule cache, the match/first-rule/count projections, rule
  validation.
- `table` — the compiled-in module list and the one-shot producers of the
  table functions.

`app/` holds the worker binary: the VGI function registrations, Arrow column
reading and building, and the catalog metadata.
