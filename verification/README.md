# wealthfolio

The logic of a portfolio tracker, verified with Verus.

- `src/` is the library. Each function states in its contract what it returns;
  Verus proves that it does. Functions named `law_*` state what holds of several
  functions together.
- `tests/` runs the library on concrete values.
- `app/` is what surrounds the library: processes, the keychain, the network,
  the database and JSON.

Amounts are decimals of at most 96 bits. Their arithmetic is `rust_decimal`'s;
the library knows it by name (`decimal_sum`, `decimal_product`, ...) and by the
few facts about rounding that `src/decimal.rs` states. Where a result is an
`Option` for no other reason, `None` says that an amount on the way to it does
not fit a decimal.

Floating-point numbers, in which banks give amounts, are carried as their bits
(`src/amounts.rs`).
