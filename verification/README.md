# bank_parser

A verified library of bank records and a stock-quote server, with the
programs around it.

- `src/` is the library, written in Verus: every function carries a
  contract, and the properties that relate functions (reading back what was
  written, what a command's text reads as, which subscriptions a quote
  reaches, the order of locks) are stated and proved as proof functions.
- `tests/` exercises the library on concrete values.
- `app/` holds the programs: the file converter and comparer, the quote
  server and client, and the vault monitor. They do the input and output,
  the floating-point work and the encodings of the outside crates, and call
  the library for every decision.
