# break_eternity

Numbers up to `10^^9e15` (and down to its reciprocal) for incremental games.

- `src/` is the verified library (Verus). It holds what carries no floating-point value:
  the error types and integer constants, the illion and letter suffixes of the notations,
  the selectors (`Notation`, `TetrationMode`, `LambertBranch`), the arms of the
  random-value distribution (`strategy`), the text grammar of the parser (`parse::parse_plan`)
  and its choice of notation (`parse::decide`), and the text of tall towers
  (`format::tower_text`). `roundtrip` proves that the tower text reads back through the
  parser; `notation` proves that the letter suffixes are a bijection.
- `tests/` exercises the library on concrete values.
- `app/` is the `Decimal` type itself: `f64` arithmetic, tetration and its inverses,
  formatting, and the impls for `serde`, `schemars`, `proptest` and `thiserror`, calling the
  library for everything above.
