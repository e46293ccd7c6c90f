# lot

Ticket rules for lottery and sports games, verified with Verus.

- `src/cons.rs` — error codes and messages, game and play tables, prize levels.
- `src/text.rs` — character-level helpers (splitting, integer parsing) with specs.
- `src/util/` — combinatorics (`get_c`, `get_a`, `get_detailc`, hit counts) and
  number helpers; digest and clock calls behind small trusted wrappers.
- `src/game/` — games, bet and play types, the ticket grammars, validation and
  amount counting, parlay counting, lottery draws and prize tallies, and the
  print format of sports tickets.
- `tests/` — unit tests on concrete tickets.
- `app/` — a small program around the library: JSON conversion and the sports
  draws that compute with odds in floating point.
