# sudoku-rust

A sudoku toolkit written in Verus: the board, cell and known sets, house
layouts, puzzle formats and parsers, console drawings, the command parser of
the player, the rules of its full-screen input and the merging of deductions,
each with a contract that Verus proves.

- `src/` is the verified library. `layout/` holds cells, houses, knowns,
  values and the board; `io/` the packed, SudokuWiki and grid formats, their
  parsers and the console drawings; `commands/` the player's command parser,
  the input rules and text layout of the full-screen player, and the merging
  of deductions.
- `tests/` runs the library on concrete puzzles.
- `app/` is a small command-line front end that reads a puzzle and prints it.
