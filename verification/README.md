# suricata-rule-parser

Parsers for the parts of Suricata rules, verified with Verus.

- `src/` is the library. Each parser's contract says exactly what it returns on every
  input; the modules `laws`, `rejections`, `array_laws`, `reading_back`, `number_laws` and
  `option_laws` prove what holds of the parsers together.
- What is not proved: the leaf parsers of `nom` (`src/leaf.rs`), `num_traits` and
  `str::parse` on integers (`src/integer.rs`), nom's names for its parsers
  (`src/error.rs`), and four functions of the standard library on strings
  (`src/text.rs`). Each stands behind a declaration whose comment says what is claimed of
  it.
- `tests/` runs the parsers on examples, and compares them with their grammar as written
  with nom's combinators.
- `app/` makes the parsers usable among nom's combinators.
