//! The rules of chess as spec functions over a board, a sequence of 64
//! optional pieces indexed `rank * 8 + file`.

use vstd::prelude::*;

use crate::moves::{Move, MoveFlag};
use crate::position::CastlingRights;
use crate::types::{on_board, square_at, Color, Piece, PieceKind, Square};

verus! {

/// The piece on `sq` of `board`.
pub open spec fn piece_on(board: Seq<Option<Piece>>, sq: Square) -> Option<Piece> {
    board[sq.0 as int]
}

/// `sq` holds a piece of color `c`.
pub open spec fn holds_color(board: Seq<Option<Piece>>, sq: Square, c: Color) -> bool {
    piece_on(board, sq) matches Some(p) && p.color == c
}

/// The square reached from `from` by the displacement `d`, if on the board.
pub open spec fn offset(from: Square, d: (int, int)) -> Option<Square> {
    square_at(from.spec_file() + d.0, from.spec_rank() + d.1)
}

/// The eight knight jumps.
pub open spec fn knight_delta(k: int) -> (int, int) {
    if k == 0 {
        (1, 2)
    } else if k == 1 {
        (2, 1)
    } else if k == 2 {
        (2, -1)
    } else if k == 3 {
        (1, -2)
    } else if k == 4 {
        (-1, -2)
    } else if k == 5 {
        (-2, -1)
    } else if k == 6 {
        (-2, 1)
    } else {
        (-1, 2)
    }
}

/// The eight king steps.
pub open spec fn king_delta(k: int) -> (int, int) {
    if k == 0 {
        (1, 0)
    } else if k == 1 {
        (-1, 0)
    } else if k == 2 {
        (0, 1)
    } else if k == 3 {
        (0, -1)
    } else if k == 4 {
        (1, 1)
    } else if k == 5 {
        (1, -1)
    } else if k == 6 {
        (-1, 1)
    } else {
        (-1, -1)
    }
}

/// The four rook directions.
pub open spec fn ortho_dir(k: int) -> (int, int) {
    if k == 0 {
        (1, 0)
    } else if k == 1 {
        (-1, 0)
    } else if k == 2 {
        (0, 1)
    } else {
        (0, -1)
    }
}

/// The four bishop directions.
pub open spec fn diag_dir(k: int) -> (int, int) {
    if k == 0 {
        (1, 1)
    } else if k == 1 {
        (1, -1)
    } else if k == 2 {
        (-1, 1)
    } else {
        (-1, -1)
    }
}

/// Coordinate `x` moved `n` steps in the direction of the sign of `d`.
pub open spec fn ray_coord(x: int, d: int, n: int) -> int {
    if d > 0 {
        x + n
    } else if d < 0 {
        x - n
    } else {
        x
    }
}

/// The square `n` steps from `from` along direction `dir`, if on the board.
pub open spec fn ray_sq(from: Square, dir: (int, int), n: int) -> Option<Square> {
    square_at(ray_coord(from.spec_file(), dir.0, n), ray_coord(from.spec_rank(), dir.1, n))
}

/// Every square strictly between `from` and distance `n` along `dir` is on the board and empty.
pub open spec fn ray_clear(board: Seq<Option<Piece>>, from: Square, dir: (int, int), n: int) -> bool {
    forall|i: int|
        1 <= i < n ==> (#[trigger] ray_sq(from, dir, i) matches Some(s) && piece_on(board, s) is None)
}

/// The first piece met walking from (`f`, `r`) along `dir`, starting at distance `n`.
pub open spec fn ray_first(board: Seq<Option<Piece>>, f: int, r: int, dir: (int, int), n: int) -> Option<Piece>
    decreases 10 - n,
{
    if n < 1 || n >= 10 {
        None
    } else if !on_board(ray_coord(f, dir.0, n), ray_coord(r, dir.1, n)) {
        None
    } else {
        let p = board[ray_coord(r, dir.1, n) * 8 + ray_coord(f, dir.0, n)];
        if p is Some {
            p
        } else {
            ray_first(board, f, r, dir, n + 1)
        }
    }
}

/// A piece at (`f`, `r`) equal to `p`.
pub open spec fn piece_at_coords(board: Seq<Option<Piece>>, f: int, r: int, p: Piece) -> bool {
    on_board(f, r) && board[r * 8 + f] == Some(p)
}

pub open spec fn pawn_attacks(board: Seq<Option<Piece>>, f: int, r: int, by: Color) -> bool {
    let pr = r - by.spec_pawn_dir();
    piece_at_coords(board, f - 1, pr, Piece { color: by, kind: PieceKind::Pawn })
        || piece_at_coords(board, f + 1, pr, Piece { color: by, kind: PieceKind::Pawn })
}

pub open spec fn knight_attack_from(board: Seq<Option<Piece>>, f: int, r: int, by: Color, k: int) -> bool {
    piece_at_coords(
        board,
        f + knight_delta(k).0,
        r + knight_delta(k).1,
        Piece { color: by, kind: PieceKind::Knight },
    )
}

pub open spec fn king_attack_from(board: Seq<Option<Piece>>, f: int, r: int, by: Color, k: int) -> bool {
    piece_at_coords(
        board,
        f + king_delta(k).0,
        r + king_delta(k).1,
        Piece { color: by, kind: PieceKind::King },
    )
}

/// `p` is a `by` piece that moves along a ray as `slider` does (the slider or a queen).
pub open spec fn slides_like(p: Option<Piece>, by: Color, slider: PieceKind) -> bool {
    p matches Some(q) && q.color == by && (q.kind == slider || q.kind == PieceKind::Queen)
}

pub open spec fn ortho_attack_from(board: Seq<Option<Piece>>, f: int, r: int, by: Color, k: int) -> bool {
    slides_like(ray_first(board, f, r, ortho_dir(k), 1), by, PieceKind::Rook)
}

pub open spec fn diag_attack_from(board: Seq<Option<Piece>>, f: int, r: int, by: Color, k: int) -> bool {
    slides_like(ray_first(board, f, r, diag_dir(k), 1), by, PieceKind::Bishop)
}

/// Square `sq` is attacked by some piece of color `by` on `board`.
pub open spec fn attacked(board: Seq<Option<Piece>>, sq: Square, by: Color) -> bool {
    let f = sq.spec_file();
    let r = sq.spec_rank();
    ||| pawn_attacks(board, f, r, by)
    ||| exists|k: int| 0 <= k < 8 && #[trigger] knight_attack_from(board, f, r, by, k)
    ||| exists|k: int| 0 <= k < 8 && #[trigger] king_attack_from(board, f, r, by, k)
    ||| exists|k: int| 0 <= k < 4 && #[trigger] ortho_attack_from(board, f, r, by, k)
    ||| exists|k: int| 0 <= k < 4 && #[trigger] diag_attack_from(board, f, r, by, k)
}

/// The first square, from index `i` upward, holding the king of `c`.
pub open spec fn king_from(board: Seq<Option<Piece>>, c: Color, i: int) -> Option<Square>
    decreases 64 - i,
{
    if i < 0 || i >= 64 {
        None
    } else if board[i] == Some(Piece { color: c, kind: PieceKind::King }) {
        Some(Square(i as u8))
    } else {
        king_from(board, c, i + 1)
    }
}

/// The lowest-indexed square holding the king of `c`.
pub open spec fn king_square_of(board: Seq<Option<Piece>>, c: Color) -> Option<Square> {
    king_from(board, c, 0)
}

/// At most one king of color `c` is on the board.
pub open spec fn single_king(board: Seq<Option<Piece>>, c: Color) -> bool {
    forall|i: int, j: int|
        0 <= i < 64 && 0 <= j < 64 && #[trigger] board[i] == Some(Piece { color: c, kind: PieceKind::King })
            && #[trigger] board[j] == Some(Piece { color: c, kind: PieceKind::King }) ==> i == j
}

/// The king of `c` stands on an attacked square (false when `c` has no king).
pub open spec fn in_check(board: Seq<Option<Piece>>, c: Color) -> bool {
    match king_square_of(board, c) {
        Some(k) => attacked(board, k, c.spec_opponent()),
        None => false,
    }
}

// ---- Move generation rules ------------------------------------------------

/// The rank a pawn of `c` promotes on.
pub open spec fn promo_rank(c: Color) -> int {
    match c {
        Color::White => 7,
        Color::Black => 0,
    }
}

/// The rank a pawn of `c` starts on (and may double-push from).
pub open spec fn pawn_start_rank(c: Color) -> int {
    match c {
        Color::White => 1,
        Color::Black => 6,
    }
}

/// The back rank of `c`, where its king and rooks start.
pub open spec fn home_rank(c: Color) -> int {
    match c {
        Color::White => 0,
        Color::Black => 7,
    }
}

/// A pawn move of `us` to `to` carries a promotion exactly when `to` is the
/// promotion rank, and then to a queen, rook, bishop or knight.
pub open spec fn promotion_ok(to: Square, us: Color, promotion: Option<PieceKind>) -> bool {
    if to.spec_rank() == promo_rank(us) {
        promotion matches Some(k) && (k == PieceKind::Queen || k == PieceKind::Rook || k
            == PieceKind::Bishop || k == PieceKind::Knight)
    } else {
        promotion is None
    }
}

/// A plain (non-promoting, unflagged) move from `from`.
pub open spec fn plain_from(m: Move, from: Square) -> bool {
    m.from == from && m.flag == MoveFlag::Normal && m.promotion is None
}

/// A single step by displacement `d` from `from` onto a square not holding a piece of `us`.
pub open spec fn step_move(board: Seq<Option<Piece>>, us: Color, from: Square, d: (int, int), m: Move) -> bool {
    plain_from(m, from) && offset(from, d) == Some(m.to) && !holds_color(board, m.to, us)
}

/// The step displacements of a king (`king`) or a knight (`!king`).
pub open spec fn step_delta(king: bool, k: int) -> (int, int) {
    if king {
        king_delta(k)
    } else {
        knight_delta(k)
    }
}

/// A knight (`!king`) or king (`king`) step move.
pub open spec fn step_any(board: Seq<Option<Piece>>, us: Color, from: Square, king: bool, m: Move) -> bool {
    exists|k: int| 0 <= k < 8 && #[trigger] step_move(board, us, from, step_delta(king, k), m)
}

/// A slide of `n` squares along `dir` over empty squares onto a square not holding a piece of `us`.
pub open spec fn slide_step(
    board: Seq<Option<Piece>>,
    us: Color,
    from: Square,
    dir: (int, int),
    n: int,
    m: Move,
) -> bool {
    &&& plain_from(m, from)
    &&& n >= 1
    &&& ray_sq(from, dir, n) == Some(m.to)
    &&& !holds_color(board, m.to, us)
    &&& ray_clear(board, from, dir, n)
}

/// The bishop (`diag`) or rook (`!diag`) directions.
pub open spec fn slide_dir(diag: bool, k: int) -> (int, int) {
    if diag {
        diag_dir(k)
    } else {
        ortho_dir(k)
    }
}

/// A slide along one of the bishop (`diag`) or rook (`!diag`) directions.
pub open spec fn slide_any(board: Seq<Option<Piece>>, us: Color, from: Square, diag: bool, m: Move) -> bool {
    exists|k: int, n: int| 0 <= k < 4 && #[trigger] slide_step(board, us, from, slide_dir(diag, k), n, m)
}

/// The two squares a pawn on `from` of `us` captures on, by side (`-1` or `1`).
pub open spec fn pawn_capture_sq(from: Square, us: Color, side: int) -> Option<Square> {
    square_at(from.spec_file() + side, from.spec_rank() + us.spec_pawn_dir())
}

/// A pawn move of `us` from `from`: a push, a double push from the start
/// rank, a capture, or an en-passant capture onto `ep`.
pub open spec fn pawn_move(board: Seq<Option<Piece>>, us: Color, ep: Option<Square>, from: Square, m: Move) -> bool {
    let f = from.spec_file();
    let r = from.spec_rank();
    let dir = us.spec_pawn_dir();
    let diag_to = pawn_capture_sq(from, us, -1) == Some(m.to) || pawn_capture_sq(from, us, 1) == Some(m.to);
    &&& m.from == from
    &&& {
        ||| {
            &&& square_at(f, r + dir) == Some(m.to)
            &&& piece_on(board, m.to) is None
            &&& m.flag == MoveFlag::Normal
            &&& promotion_ok(m.to, us, m.promotion)
        }
        ||| {
            &&& r == pawn_start_rank(us)
            &&& square_at(f, r + dir) matches Some(one)
            &&& piece_on(board, one) is None
            &&& square_at(f, r + 2 * dir) == Some(m.to)
            &&& piece_on(board, m.to) is None
            &&& m.flag == MoveFlag::DoublePawnPush
            &&& m.promotion is None
        }
        ||| {
            &&& diag_to
            &&& piece_on(board, m.to) matches Some(p)
            &&& p.color != us
            &&& m.flag == MoveFlag::Normal
            &&& promotion_ok(m.to, us, m.promotion)
        }
        ||| {
            &&& diag_to
            &&& piece_on(board, m.to) is None
            &&& ep == Some(m.to)
            &&& m.flag == MoveFlag::EnPassant
            &&& m.promotion is None
        }
    }
}

pub open spec fn kingside_right(rights: CastlingRights, us: Color) -> bool {
    match us {
        Color::White => rights.white_kingside,
        Color::Black => rights.black_kingside,
    }
}

pub open spec fn queenside_right(rights: CastlingRights, us: Color) -> bool {
    match us {
        Color::White => rights.white_queenside,
        Color::Black => rights.black_queenside,
    }
}

/// The square on `us`'s back rank at `file`.
pub open spec fn home_sq(us: Color, file: int) -> Square {
    Square((home_rank(us) * 8 + file) as u8)
}

/// Castling: `us`'s (first) king stands on the e-file of its back rank and is
/// not in check, the matching right is held, the squares between king and
/// rook are empty, and the squares the king crosses or lands on are not attacked.
pub open spec fn castle_move(board: Seq<Option<Piece>>, us: Color, rights: CastlingRights, m: Move) -> bool {
    let opp = us.spec_opponent();
    let e = home_sq(us, 4);
    &&& king_square_of(board, us) == Some(e)
    &&& !attacked(board, e, opp)
    &&& m.from == e
    &&& m.promotion is None
    &&& {
        ||| {
            &&& m.flag == MoveFlag::CastleKingside
            &&& kingside_right(rights, us)
            &&& m.to == home_sq(us, 6)
            &&& piece_on(board, home_sq(us, 5)) is None
            &&& piece_on(board, home_sq(us, 6)) is None
            &&& !attacked(board, home_sq(us, 5), opp)
            &&& !attacked(board, home_sq(us, 6), opp)
        }
        ||| {
            &&& m.flag == MoveFlag::CastleQueenside
            &&& queenside_right(rights, us)
            &&& m.to == home_sq(us, 2)
            &&& piece_on(board, home_sq(us, 3)) is None
            &&& piece_on(board, home_sq(us, 2)) is None
            &&& piece_on(board, home_sq(us, 1)) is None
            &&& !attacked(board, home_sq(us, 3), opp)
            &&& !attacked(board, home_sq(us, 2), opp)
        }
    }
}

/// The moves a piece of kind `kind` and color `us` on `from` may make, before
/// considering the safety of its own king.
pub open spec fn piece_move(
    board: Seq<Option<Piece>>,
    us: Color,
    rights: CastlingRights,
    ep: Option<Square>,
    kind: PieceKind,
    from: Square,
    m: Move,
) -> bool {
    match kind {
        PieceKind::Pawn => pawn_move(board, us, ep, from, m),
        PieceKind::Knight => step_any(board, us, from, false, m),
        PieceKind::King => step_any(board, us, from, true, m) || castle_move(board, us, rights, m),
        PieceKind::Bishop => slide_any(board, us, from, true, m),
        PieceKind::Rook => slide_any(board, us, from, false, m),
        PieceKind::Queen => slide_any(board, us, from, true, m) || slide_any(board, us, from, false, m),
    }
}

/// A move of a piece of the side to move `us` by its rules of movement
/// (pseudo-legal: its own king may be left in check).
pub open spec fn pseudo_move(
    board: Seq<Option<Piece>>,
    us: Color,
    rights: CastlingRights,
    ep: Option<Square>,
    m: Move,
) -> bool {
    &&& m.from.valid()
    &&& piece_on(board, m.from) matches Some(p)
    &&& p.color == us
    &&& piece_move(board, us, rights, ep, p.kind, m.from, m)
}

/// The board after `us` plays `m`: the piece (or its promotion) leaves
/// `m.from` for `m.to`, an en-passant capture removes the pawn beside `m.to`,
/// and castling also moves the rook from its corner to beside the king.
pub open spec fn after_board(board: Seq<Option<Piece>>, us: Color, m: Move) -> Seq<Option<Piece>> {
    let piece = piece_on(board, m.from).unwrap();
    let moved = match m.promotion {
        Some(k) => Piece { color: us, kind: k },
        None => piece,
    };
    let rank = m.from.spec_rank();
    let b1 = board.update(m.from.0 as int, None);
    let b2 = if m.flag == MoveFlag::EnPassant {
        b1.update(rank * 8 + m.to.spec_file(), None)
    } else {
        b1
    };
    let b3 = b2.update(m.to.0 as int, Some(moved));
    if m.flag == MoveFlag::CastleKingside {
        b3.update(rank * 8 + 7, None).update(rank * 8 + 5, b3[rank * 8 + 7])
    } else if m.flag == MoveFlag::CastleQueenside {
        b3.update(rank * 8, None).update(rank * 8 + 3, b3[rank * 8])
    } else {
        b3
    }
}

/// After the move, `us` still has a king and it is not attacked.
pub open spec fn king_safe(board: Seq<Option<Piece>>, us: Color) -> bool {
    king_square_of(board, us) matches Some(k) && !attacked(board, k, us.spec_opponent())
}

/// A legal move: pseudo-legal, and leaving the mover's king safe.
pub open spec fn legal_move(
    board: Seq<Option<Piece>>,
    us: Color,
    rights: CastlingRights,
    ep: Option<Square>,
    m: Move,
) -> bool {
    pseudo_move(board, us, rights, ep, m) && king_safe(after_board(board, us, m), us)
}

// ---- Effects of a move beyond the board -----------------------------------

/// The piece that stands on `m.to` after the move: the promotion piece, or the mover.
pub open spec fn moved_piece(board: Seq<Option<Piece>>, us: Color, m: Move) -> Piece {
    match m.promotion {
        Some(k) => Piece { color: us, kind: k },
        None => piece_on(board, m.from).unwrap(),
    }
}

/// The move starts or ends on the square with index `idx`.
pub open spec fn touches(m: Move, idx: int) -> bool {
    m.from.0 == idx || m.to.0 == idx
}

/// Castling rights after `us` plays `m` with the piece `moved` arriving: a king
/// move gives up both of `us`'s rights, and any move from or to a corner gives
/// up the right of the rook that starts there.
pub open spec fn rights_after(rights: CastlingRights, us: Color, moved: Piece, m: Move) -> CastlingRights {
    let white_king = moved.kind == PieceKind::King && us == Color::White;
    let black_king = moved.kind == PieceKind::King && us == Color::Black;
    CastlingRights {
        white_kingside: rights.white_kingside && !white_king && !touches(m, 7),
        white_queenside: rights.white_queenside && !white_king && !touches(m, 0),
        black_kingside: rights.black_kingside && !black_king && !touches(m, 63),
        black_queenside: rights.black_queenside && !black_king && !touches(m, 56),
    }
}

/// The en-passant target after `m`: the square passed over by a double push.
pub open spec fn ep_after(m: Move) -> Option<Square> {
    if m.flag == MoveFlag::DoublePawnPush {
        square_at(m.from.spec_file(), (m.from.spec_rank() + m.to.spec_rank()) / 2)
    } else {
        None
    }
}

/// The move restarts the fifty-move count: a pawn moves or something is captured.
pub open spec fn resets_clock(board: Seq<Option<Piece>>, m: Move) -> bool {
    ||| piece_on(board, m.from) matches Some(p) && p.kind == PieceKind::Pawn
    ||| piece_on(board, m.to) is Some
    ||| m.flag == MoveFlag::EnPassant
}

// ---- The starting position --------------------------------------------------

/// The piece kinds of the back rank, from the a-file: R N B Q K B N R.
pub open spec fn back_rank_kind(file: int) -> PieceKind {
    if file == 0 || file == 7 {
        PieceKind::Rook
    } else if file == 1 || file == 6 {
        PieceKind::Knight
    } else if file == 2 || file == 5 {
        PieceKind::Bishop
    } else if file == 3 {
        PieceKind::Queen
    } else {
        PieceKind::King
    }
}

/// The occupant of square index `i` in the standard starting position.
pub open spec fn start_piece(i: int) -> Option<Piece> {
    let file = i % 8;
    let rank = i / 8;
    if rank == 0 {
        Some(Piece { color: Color::White, kind: back_rank_kind(file) })
    } else if rank == 1 {
        Some(Piece { color: Color::White, kind: PieceKind::Pawn })
    } else if rank == 6 {
        Some(Piece { color: Color::Black, kind: PieceKind::Pawn })
    } else if rank == 7 {
        Some(Piece { color: Color::Black, kind: back_rank_kind(file) })
    } else {
        None
    }
}

/// All four castling rights.
pub open spec fn all_rights() -> CastlingRights {
    CastlingRights { white_kingside: true, white_queenside: true, black_kingside: true, black_queenside: true }
}

} // verus!
