# fixed128

A signed fixed-point number, `Fixed128`, holding values with eighteen decimal
places (its parts, `DIV` = 10^18 of which make one), verified with Verus.

- `src/fixed_128.rs` — the type, its operations and their contracts, stated
  over the parts as mathematical integers.
- `src/arith.rs` — the model of `i128` arithmetic as Rust performs it
  (saturation, division toward zero) and the helpers that compute it.
- `src/wide.rs` — 256-bit intermediate values, computed by
  `primitive_types::U256` behind four trusted wrappers.
- `src/operand.rs` — the integer types a `Fixed128` multiplies and divides.
- `src/decimal.rs` — decimal text of `i128`, written and read back.
- `src/laws.rs` — properties relating the operations.
- `app/lib.rs` — a copy of the type with SCALE encoding, serde, `Saturating`, `Bounded`,
  conversion from per-things and its `Debug` form, built on the library.
