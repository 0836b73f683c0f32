//! The order in which moves are generated: square by square from `a1`, each
//! piece's moves by its rules taken in a fixed order of directions, nearest
//! square first, and of the legal ones only those that keep the king safe.

use vstd::prelude::*;

use crate::moves::{Move, MoveFlag};
use crate::position::{CastlingRights, Position};
use crate::rules::{
    castle_move, holds_color, home_sq, offset, pawn_capture_sq, pawn_start_rank, piece_on, promo_rank, ray_sq, slide_dir, step_delta,
};
use crate::types::{square_at, Color, Piece, PieceKind, Square};

verus! {

/// The plain move `from` -> `to`.
pub open spec fn plain(from: Square, to: Square) -> Move {
    Move { from, to, promotion: None, flag: MoveFlag::Normal }
}

/// The step moves of a king (`king`) or knight (`!king`) on `from` through
/// the first `k` step displacements, in their order: each that stays on the
/// board and does not land on a piece of `us`.
pub open spec fn step_list(b: Seq<Option<Piece>>, us: Color, from: Square, king: bool, k: int) -> Seq<Move>
    decreases k,
{
    if k <= 0 {
        Seq::empty()
    } else {
        let before = step_list(b, us, from, king, k - 1);
        match offset(from, step_delta(king, k - 1)) {
            Some(to) => if holds_color(b, to, us) {
                before
            } else {
                before.push(plain(from, to))
            },
            None => before,
        }
    }
}

/// The slides from `from` along `dir` from distance `n` on, nearest first:
/// each empty square, then the first occupied one when it holds a piece of
/// the other side.
pub open spec fn ray_list(b: Seq<Option<Piece>>, us: Color, from: Square, dir: (int, int), n: int) -> Seq<Move>
    decreases 9 - n,
{
    if n < 1 || n > 8 {
        Seq::empty()
    } else {
        match ray_sq(from, dir, n) {
            None => Seq::empty(),
            Some(to) => match piece_on(b, to) {
                None => seq![plain(from, to)] + ray_list(b, us, from, dir, n + 1),
                Some(p) => if p.color == us {
                    Seq::empty()
                } else {
                    seq![plain(from, to)]
                },
            },
        }
    }
}

/// The slides of a bishop (`diag`) or rook (`!diag`) on `from` along the
/// first `k` of its directions, direction by direction.
pub open spec fn slide_list(b: Seq<Option<Piece>>, us: Color, from: Square, diag: bool, k: int) -> Seq<Move>
    decreases k,
{
    if k <= 0 {
        Seq::empty()
    } else {
        slide_list(b, us, from, diag, k - 1) + ray_list(b, us, from, slide_dir(diag, k - 1), 1)
    }
}

/// A pawn's move `from` -> `to` with `flag`: the four promotions, queen,
/// rook, bishop, knight, when `to` lies on rank `pr`, else the move itself.
pub open spec fn promo_list(from: Square, to: Square, pr: int, flag: MoveFlag) -> Seq<Move> {
    if to.spec_rank() == pr {
        seq![
            Move { from, to, promotion: Some(PieceKind::Queen), flag },
            Move { from, to, promotion: Some(PieceKind::Rook), flag },
            Move { from, to, promotion: Some(PieceKind::Bishop), flag },
            Move { from, to, promotion: Some(PieceKind::Knight), flag },
        ]
    } else {
        seq![Move { from, to, promotion: None, flag }]
    }
}

/// The capture toward `side` (`-1` toward the a-file, `1` toward the h-file)
/// of the pawn of `us` on `from`: onto a piece of the other side, or onto
/// the en-passant square `ep` when it is empty.
pub open spec fn pawn_capture_list(
    b: Seq<Option<Piece>>,
    us: Color,
    ep: Option<Square>,
    from: Square,
    side: int,
) -> Seq<Move> {
    match pawn_capture_sq(from, us, side) {
        None => Seq::empty(),
        Some(to) => match piece_on(b, to) {
            Some(p) => if p.color != us {
                promo_list(from, to, promo_rank(us), MoveFlag::Normal)
            } else {
                Seq::empty()
            },
            None => if ep == Some(to) {
                seq![Move { from, to, promotion: None, flag: MoveFlag::EnPassant }]
            } else {
                Seq::empty()
            },
        },
    }
}

/// The pushes of the pawn of `us` on `from`: one square forward onto an
/// empty square, then two from the starting rank when both are empty.
pub open spec fn pawn_push_list(b: Seq<Option<Piece>>, us: Color, from: Square) -> Seq<Move> {
    let f = from.spec_file();
    let r = from.spec_rank();
    let dir = us.spec_pawn_dir();
    match square_at(f, r + dir) {
        Some(one) => if piece_on(b, one) is None {
            promo_list(from, one, promo_rank(us), MoveFlag::Normal) + if r == pawn_start_rank(us) {
                match square_at(f, r + 2 * dir) {
                    Some(two) => if piece_on(b, two) is None {
                        seq![Move { from, to: two, promotion: None, flag: MoveFlag::DoublePawnPush }]
                    } else {
                        Seq::empty()
                    },
                    None => Seq::empty(),
                }
            } else {
                Seq::empty()
            }
        } else {
            Seq::empty()
        },
        None => Seq::empty(),
    }
}

/// The moves of the pawn of `us` on `from`: its pushes, then its capture
/// toward the a-file, then toward the h-file.
pub open spec fn pawn_list(b: Seq<Option<Piece>>, us: Color, ep: Option<Square>, from: Square) -> Seq<Move> {
    pawn_push_list(b, us, from) + pawn_capture_list(b, us, ep, from, -1) + pawn_capture_list(b, us, ep, from, 1)
}

/// The castling moves of `us`: kingside, then queenside, each when it is
/// allowed.
pub open spec fn castle_list(b: Seq<Option<Piece>>, us: Color, rights: CastlingRights) -> Seq<Move> {
    let mk = Move { from: home_sq(us, 4), to: home_sq(us, 6), promotion: None, flag: MoveFlag::CastleKingside };
    let mq = Move { from: home_sq(us, 4), to: home_sq(us, 2), promotion: None, flag: MoveFlag::CastleQueenside };
    (if castle_move(b, us, rights, mk) {
        seq![mk]
    } else {
        Seq::empty()
    }) + (if castle_move(b, us, rights, mq) {
        seq![mq]
    } else {
        Seq::empty()
    })
}

/// The moves of the piece of kind `kind` and side `us` on `from`, in the
/// order its rules take them: a king's steps then its castlings, a queen's
/// diagonal slides then its straight ones.
pub open spec fn piece_list(
    b: Seq<Option<Piece>>,
    us: Color,
    rights: CastlingRights,
    ep: Option<Square>,
    kind: PieceKind,
    from: Square,
) -> Seq<Move> {
    match kind {
        PieceKind::Pawn => pawn_list(b, us, ep, from),
        PieceKind::Knight => step_list(b, us, from, false, 8),
        PieceKind::King => step_list(b, us, from, true, 8) + castle_list(b, us, rights),
        PieceKind::Bishop => slide_list(b, us, from, true, 4),
        PieceKind::Rook => slide_list(b, us, from, false, 4),
        PieceKind::Queen => slide_list(b, us, from, true, 4) + slide_list(b, us, from, false, 4),
    }
}

/// The moves of the pieces of `us` on the first `i` squares, square by
/// square from `a1`, rank by rank.
pub open spec fn pseudo_list(b: Seq<Option<Piece>>, us: Color, rights: CastlingRights, ep: Option<Square>, i: int) -> Seq<
    Move,
>
    decreases i,
{
    if i <= 0 {
        Seq::empty()
    } else {
        pseudo_list(b, us, rights, ep, i - 1) + match b[i - 1] {
            Some(p) => if p.color == us {
                piece_list(b, us, rights, ep, p.kind, Square((i - 1) as u8))
            } else {
                Seq::empty()
            },
            None => Seq::empty(),
        }
    }
}

/// The legal moves of `pos` in the order they are generated: the moves of
/// the pieces of the side to move, square by square, keeping those that
/// leave its king safe.
pub open spec fn legal_list(pos: Position) -> Seq<Move> {
    pseudo_list(pos.board(), pos.side_to_move, pos.castling, pos.en_passant, 64).filter(legal_in(pos))
}

/// The test that keeps a move: it is legal in `pos`.
pub open spec fn legal_in(pos: Position) -> spec_fn(Move) -> bool {
    |m: Move| pos.is_legal(m)
}

} // verus!
