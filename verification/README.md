# Anglerfry

A small, readable UCI chess engine, with its logic verified by Verus.

- `src/` is the verified library: reading UCI command lines (`uci::parse`), what a session does
  with each command (`uci`), the limits and time budget of a search (`search`), the ways a move
  is picked (`strategy`, `strategy::random`, `strategy::two_ply`), and the text helpers they use
  (`text`, `span`). Chess rules come from `cozy_chess` (`chess`), the clock and the stop flag
  from `std` (`clock`), chance from `rand`.
- `app/main.rs` is the program around it: the stdin loop, the search threads, and the lines
  written to the GUI.
- `tests/` runs the library on concrete positions and command lines.
