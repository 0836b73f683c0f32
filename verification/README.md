# chesskom

A chess client for Kobo e-readers (primary target: the Kobo Clara BW) with a
terminal front end for local two-player play, built as a library whose
behaviour is stated in contracts and proved with Verus.

## Layout

- `src/` — the verified library
  - `types`, `moves`, `rules`, `position` — squares, pieces, moves, the rules
    as spec functions, and legal move generation proved against them
  - `game`, `game_laws` — a game as position snapshots with a rewind cursor;
    status (checkmate, stalemate, fifty-move rule, threefold repetition,
    insufficient material); the proofs that every position is the start with
    the moves before it played out, and that no call alters the start
  - `fen`, `fen_laws` — FEN parsing and writing, and the proof that the text
    of a position reads back as that position
  - `history`, `history_laws` — saved games and their text format, and the
    proofs that a saved game replays to the game and that the history text
    reads back as the history
  - `layout`, `menu` — board, control bar and menu geometry shared by drawing
    and hit-testing
  - `canvas`, `board`, `png` — grayscale canvas, the painted board layer and
    the placement of the pieces on it, and a stored-block PNG encoder
  - `app` — the screen state machine: menus, tap-to-move, rewind controls
  - `terminal` — text board, status line, move list and typed-move reading
  - `session` — the terminal game's commands: which command a typed line
    names, what each does to the game and answers, and the screen before
    each prompt
  - `touch` — input records to taps, and raw touch to screen pixel calibration
  - `text` — small verified string helpers
- `app/` — the programs: the terminal game and the device app (FBInk output,
  evdev touch input, file-backed history), and the floating-point piece
  drawing
- `tests/` — tests of the library

`cargo run` starts the terminal game; `cargo run -- kobo --help` lists the
device app's modes.
