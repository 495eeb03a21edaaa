# kothic

MapCSS style processing for Organic Maps drawing rules, with the logic
verified by Verus.

- `src/` is the verified library: the native drules binary format (packing a
  family of colour variants, reading it back, the text dump), the MapCSS
  stylesheet tokens, conditions, declarations, variables and `eval(..)`
  expressions, the type mapping, the priorities files (reading and writing
  them back, kept in `indexmap::IndexMap` tables behind trusted wrappers),
  visibility checks, and merging styles by zoom range. Each public function
  states its result exactly over spec functions; laws such as the binary
  round trip (`family::lemma_binary_roundtrip`) are proof functions.
- `tests/` holds the tests, run against the compiled library.
- `app/` is the program around the library: command-line tools, file I/O,
  and the style evaluation, which works on floating-point values.
