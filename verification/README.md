# bitchess

A bitboard chess engine whose move generation, position bookkeeping and search are written
in Verus and proved against their specifications.

- `src/`: the verified library.
  - `bits`, `position`, `piece`, `moving`: squares, pieces and moves.
  - `board_repr`, `board`: bitboards and the mailbox, making and taking back moves
    (`lemma_make_unmake`, `lemma_make_unmake_fitting`), how make keeps the mailbox, the
    bitboards and the kings' squares in agreement (`lemma_make_keeps_squares`), and when make
    keeps the full Zobrist hash (`lemma_make_keeps_full_hash`).
  - `fen`: reading FEN; the kings of a position read from FEN stand where they are recorded,
    and its mailbox and bitboards agree when no square is filled twice.
  - `zobrist`, `hashers`, `magic_bitboards`, `search_masks`, `tables`: Zobrist keys, the magic
    numbers and the lookup tables of move generation.
  - `search_data`, `search`: pins and checks, and legal move generation; `pseudo_moving`:
    pseudo-legal moves and attacks by walking rays.
  - `perft`, `perft_data`: counting the moves of every line, with the legal generator or
    the pseudo-legal one.
  - `engine`: evaluation (with the colour-swap and mirror laws of the material and
    positional scores, and the balanced starting position), the transposition table,
    incremental ratings, move ordering, the alpha-beta search with quiescence (at any depth,
    provided no won game it meets puts its score out of range, which holds below 100 plies),
    and games played with it.
  - `uci`: UCI commands and their text; `ffi`: the plain representations handed across a C
    interface.
- `tests/`: tests of the library.
- `app/`: the command line program: the engine's mate in one, self play, perft and
  pseudo-legal perft, and a UCI command stream.
