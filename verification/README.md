# blockstackers_core

Two block-stacking puzzle games, written in Verus and proved against their contracts:

- a falling-pairs colour matching game (`buyo_game`): pairs of blobs fall, turn and
  move; groups of four or more blobs of one colour pop, the blobs above fall, and chains
  of pops are scored;
- a falling-tetromino game (`tet`): pieces spawn from a randomizer, move, turn with
  wall kicks, and drop.

## Layout

- `src/` — the verified library.
  - `vectors`: grid vectors and their text.
  - `board`: a board, a finite map from positions to sprites.
  - `gravity`, `groups`, `pop`: blobs falling, connected groups, popping.
  - `ring_buffer`, `randomizer`: the remembered draws of a seeded generator.
  - `buyo_game`, `tet` (with `tet/enums`, `tet/tables`): the two games.
  - `blockstacker`, `input`: timing settings, game names, key handling.
  - `message`: the text messages by which players see each other's boards.
- `tests/` — tests that run the compiled library.
- `app/` — a terminal front end that plays either game from standard input.

Laws of the library stand in `src/` as public proof functions whose names begin with
`law_`.
