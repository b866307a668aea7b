# icu_pattern

Verified parsing, writing and interpolation of patterns.

- `src/datetime`: UTS 35 date/time patterns. `Pattern::from_bytes` parses a pattern
  string into fields and literals, `Pattern::from_bytes_combination` parses a pattern
  whose `{0}` and `{1}` stand for a time and a date pattern (a meaning that this
  library defines for itself; UTS 35 gives combination patterns none), and
  `Pattern::to_pattern_string` writes a pattern back. `laws.rs` and `roundtrip.rs`
  prove that parsing gives patterns in normal form, that writing then parsing gives a
  pattern back, and what the most granular time of a pattern is.
- `src/placeholder`: placeholder patterns such as `"{0}, {1}"`: a parser that hands out
  tokens, an interpolator that hands out the pieces of an interpolated pattern one at a
  time, and interpolation of a whole pattern with replacements held in a `Vec` (keys
  `0`, `1`, ...) or a `HashMap` of named keys. `roundtrip.rs` proves that text, quoted
  text and keys written as a pattern parse back as one token each; `laws.rs` states
  what interpolation gives and how it fails.
- `src/fields.rs`: the field symbols and lengths of date/time patterns.
- `app/`: serde, `Display` and `FromIterator` for the date/time pattern types, and
  interpolation into any `fmt::Write`.
