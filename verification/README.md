# rust_chess

A chess engine for the terminal whose rules and search are verified with Verus.

- `src/` is the verified library:
  - `bitboard.rs`: squares as single-bit boards, the lookup from a board to its square, rays.
  - `game.rs`: pieces, squares and the game state with its mathematical model (`Position`),
    FEN reading and writing, the board drawing, the game status and repetition counts.
  - `moves*.rs`: move generation per piece, attack and check detection, castling, en passant,
    promotions, the legality filter (a king moves only to squares the opponent does not attack;
    another piece moves only where its king stays unattacked), and making and taking back
    moves.
  - `move_laws.rs`: what a move does (the castling rights it leaves among it), that taking it
    back restores the position, that moves keep squares and pieces in agreement, that a move
    of a piece other than the king is legal exactly when it leaves the king unattacked, and
    that castling rights never grow.
  - `king_laws.rs`: every legal king move, castling included, puts the king on an unattacked
    square, and a generated move is legal exactly when it leaves the mover's king unattacked.
  - `fen_laws.rs`: a record with eight rows of eight squares is read as a consistent board.
  - `evaluation.rs`, `square_tables.rs`: material and positional evaluation, move ordering,
    alpha-beta search and iterative deepening.
  - `checked_search.rs`: the same search on any game, answering `None` where a position it
    visits cannot be played or a move in it cannot be taken back exactly.
  - `search_laws.rs`: alpha-beta search finds the plain minimax value.
  - `utils.rs`, `uci.rs`: coordinates, move notation, splitting and number parsing.
- `tests/` runs the library on concrete positions (perft counts among them).
- `app/` is the interactive game loop: input, output and the board printing.
