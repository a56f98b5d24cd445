# aster

A small chess engine that speaks UCI, written in Verus: the board, the move
generator, the FEN reader, the perft counter and the command handling are verified
against specifications over a mathematical model of the board.

## Layout

- `src/types/`: bitboards (a set of squares), squares (`a1` is 0, `h8` is 63),
  pieces, moves packed into 16 bits, and the 32-bit word of flags that a position
  carries besides its pieces (castling rights, en passant target, last capture,
  half-move clock).
- `src/geometry.rs`: what each piece attacks, stated square by square.
- `src/board/`: the board itself (`mod.rs`: making and taking back moves),
  its abstract model (`model.rs`), move generation (`move_gen.rs`, `generate.rs`),
  FEN (`fen.rs`), text output (`display.rs`), perft (`perft.rs`), and the laws
  that tie the operations together (`laws.rs`, `sanity.rs`).
- `src/bot.rs`: the engine behind the protocol.
- The engine's first generation, kept beside the current one:
  - `src/bitboard.rs`: bitboards where bit `8 * (7 - rank) + file` is a square, so a8
    is bit 0 and h1 bit 63;
  - `src/square.rs`: squares numbered `rank + 8 * file` (a1 is 0, a2 is 1, h1 is 56);
  - `src/legal_moves.rs`: the king table over the first-generation bitboards;
  - `src/pieces.rs`: move tables computed square by square over the current
    `types` layout (a1 is bit 0).
- `app/main.rs`: the UCI loop on standard input and output.

## Main guarantees

- `make_move` and `unmake_move` are exact over the model, and taking back a move
  right after making it restores the position (`lemma_unmake_undoes_make`).
- Move generation lists exactly the moves the model describes; `legal_moves`
  keeps those that leave the mover's king zone unattacked.
- On a consistent board, `legal_moves` and `perft` give the board back
  (`lemma_legal_moves_sane`, `lemma_perft_keeps_board`), and every listed move
  keeps the board consistent (`lemma_pseudo_make_sane`).
- Making a move passes the turn, advances the ply and never gives back a castling
  right (`lemma_make_rights`); a move of a piece leaves its origin empty and its
  piece on the target (`lemma_piece_move_lands`), and is flagged a capture exactly
  when an enemy holds the target (`lemma_piece_moves_shape`).
- perft counts the move kinds over the moves of the last ply, as the published
  perft tables do.
- perft's node count is the sum of the counts of the boards after each legal move,
  which are the counts `perft_divide` lists (`lemma_perft_children`); from a
  consistent board its preconditions can be met up to depth 7
  (`lemma_perft_callable`).
- After a move the en passant target is the square a double push passed over, and
  none otherwise (`lemma_make_ep_target`); taking squares out of a set one by one
  gives each set bit once, in increasing order (`lemma_squares_run`).
- Each value has a debugging text (`debug_text`): bit grids and hexadecimal words
  for sets and boards, binary words for moves, squares and flags.
