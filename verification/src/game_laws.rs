//! Laws of a game record: every position is the starting position with the
//! moves before it played out, and no call of a game's operations alters the
//! position the game started from; a lone minor piece cannot mate; a king
//! that moves gives up castling.

use vstd::prelude::*;

use crate::game::{
    has_legal_move, minor, minors_upto, move_outcome, one_call, repetitions, spec_status, Game, Status,
};
use crate::moves::Move;
use crate::position::{follows, lemma_follows_functional, Position};
use crate::rules::piece_on;
use crate::types::{Color, Piece, PieceKind};

verus! {

/// The position that playing `m` in `p` produces.
pub open spec fn after_move(p: Position, m: Move) -> Position {
    choose|q: Position| follows(p, m, q)
}

/// The position reached from `p` by playing the moves `ms` in turn.
pub open spec fn play_out(p: Position, ms: Seq<Move>) -> Position
    decreases ms.len(),
{
    if ms.len() == 0 {
        p
    } else {
        after_move(play_out(p, ms.drop_last()), ms.last())
    }
}

/// In a game, the position after `k` plies is the starting position with the
/// first `k` moves played out in turn.
pub proof fn law_positions_are_played_out(g: Game, k: int)
    requires
        g.wf(),
        0 <= k < g.positions().len(),
    ensures
        g.positions()[k] == play_out(g.positions()[0], g.played().take(k)),
    decreases k,
{
    let ps = g.positions();
    let ms = g.played();
    if k == 0 {
        assert(ms.take(0) =~= Seq::<Move>::empty());
    } else {
        let i = k - 1;
        law_positions_are_played_out(g, i);
        assert(ps[i].is_legal(ms[i]));
        assert(ms.take(k).drop_last() =~= ms.take(i));
        assert(ms.take(k).last() == ms[i]);
        let q = after_move(ps[i], ms[i]);
        assert(follows(ps[i], ms[i], q));
        lemma_follows_functional(ps[i], ms[i], q, ps[k]);
    }
}

/// The live position of a game is its starting position with all the moves
/// played out, and the viewed position is the starting position with the
/// moves before the rewind cursor played out.
pub proof fn law_live_and_viewed_are_played_out(g: Game)
    requires
        g.wf(),
    ensures
        g.live() == play_out(g.positions()[0], g.played()),
        g.positions()[g.cursor_index()] == play_out(g.positions()[0], g.played().take(g.cursor_index())),
{
    let n = g.played().len() as int;
    law_positions_are_played_out(g, n);
    assert(g.played().take(n) =~= g.played());
    law_positions_are_played_out(g, g.cursor_index());
}

/// One call of a game's operations keeps the starting position.
proof fn lemma_one_call_keeps_start(g: Game, g2: Game)
    requires
        g.wf(),
        one_call(g, g2),
    ensures
        g2.positions()[0] == g.positions()[0],
{
    if exists|req: Move| move_outcome(g.positions(), g.played(), req, g2.positions(), g2.played()) {
        let req = choose|req: Move| move_outcome(g.positions(), g.played(), req, g2.positions(), g2.played());
        assert(g2.positions()[0] == g.positions()[0]);
    }
}

/// Every game of a run of calls is well formed and has the first game's start.
proof fn lemma_run_keeps_start(run: Seq<Game>, i: int)
    requires
        0 <= i < run.len(),
        run[0].wf(),
        forall|j: int| 0 <= j < run.len() - 1 ==> one_call(#[trigger] run[j], run[j + 1]),
    ensures
        run[i].wf(),
        run[i].positions()[0] == run[0].positions()[0],
    decreases i,
{
    if i > 0 {
        lemma_run_keeps_start(run, i - 1);
        assert(one_call(run[i - 1], run[i]));
        lemma_one_call_keeps_start(run[i - 1], run[i]);
    }
}

/// Along any run of calls of a game's operations (moves accepted or refused,
/// steps and jumps of the view), the position the game started from never
/// changes, and at every point the live position is that start with all the
/// moves played out and the viewed one is that start with the moves before
/// the cursor played out.
pub proof fn law_calls_keep_the_start(run: Seq<Game>, i: int)
    requires
        0 <= i < run.len(),
        run[0].wf(),
        forall|j: int| 0 <= j < run.len() - 1 ==> one_call(#[trigger] run[j], run[j + 1]),
    ensures
        run[i].wf(),
        run[i].positions()[0] == run[0].positions()[0],
        run[i].live() == play_out(run[0].positions()[0], run[i].played()),
        run[i].positions()[run[i].cursor_index()] == play_out(
            run[0].positions()[0],
            run[i].played().take(run[i].cursor_index()),
        ),
{
    lemma_run_keeps_start(run, i);
    law_live_and_viewed_are_played_out(run[i]);
}

/// The square holds a knight or a bishop.
pub open spec fn knight_or_bishop(p: Option<Piece>) -> bool {
    p matches Some(q) && (q.kind == PieceKind::Knight || q.kind == PieceKind::Bishop)
}

/// No square below `n` holds a minor piece, so none is listed.
proof fn lemma_no_minors_listed(b: Seq<Option<Piece>>, n: int)
    requires
        forall|i: int| 0 <= i < n ==> !minor(#[trigger] b[i]),
    ensures
        minors_upto(b, n).len() == 0,
    decreases n,
{
    if n > 0 {
        lemma_no_minors_listed(b, n - 1);
    }
}

/// At most one square below `n` holds a minor piece, so at most one is listed.
proof fn lemma_one_minor_listed(b: Seq<Option<Piece>>, n: int)
    requires
        forall|i: int, j: int| 0 <= i < n && 0 <= j < n && minor(#[trigger] b[i]) && minor(#[trigger] b[j]) ==> i == j,
    ensures
        minors_upto(b, n).len() <= 1,
    decreases n,
{
    if n > 0 {
        if minor(b[n - 1]) {
            assert forall|i: int| 0 <= i < n - 1 implies !minor(#[trigger] b[i]) by {
                if minor(b[i]) {
                    assert(minor(b[n - 1]));
                }
            }
            lemma_no_minors_listed(b, n - 1);
        } else {
            lemma_one_minor_listed(b, n - 1);
        }
    }
}

/// Kings with at most one knight or bishop beside them cannot mate: when the
/// board holds nothing but kings and at most one knight or bishop, and the
/// game is not decided otherwise (the side to move can move, the fifty-move
/// count is below 100, the position has not occurred three times), the game
/// is drawn for insufficient material.
pub proof fn law_lone_minor_cannot_mate(ps: Seq<Position>)
    requires
        ps.len() > 0,
        forall|i: int|
            0 <= i < 64 ==> match #[trigger] ps.last().board()[i] {
                None => true,
                Some(p) => p.kind == PieceKind::King || p.kind == PieceKind::Knight || p.kind == PieceKind::Bishop,
            },
        forall|i: int, j: int|
            0 <= i < 64 && 0 <= j < 64 && knight_or_bishop(#[trigger] ps.last().board()[i]) && knight_or_bishop(
                #[trigger] ps.last().board()[j],
            ) ==> i == j,
        has_legal_move(ps.last()),
        ps.last().halfmove_clock < 100,
        repetitions(ps, ps.last()) < 3,
    ensures
        spec_status(ps) == Status::InsufficientMaterial,
{
    let b = ps.last().board();
    assert forall|i: int, j: int| 0 <= i < 64 && 0 <= j < 64 && minor(#[trigger] b[i]) && minor(#[trigger] b[j]) implies i == j by {
        assert(knight_or_bishop(b[i]) && knight_or_bishop(b[j]));
    }
    lemma_one_minor_listed(b, 64);
    assert forall|i: int| 0 <= i < 64 implies !crate::game::heavy(#[trigger] b[i]) by {
        assert(match b[i] {
            None => true,
            Some(p) => p.kind == PieceKind::King || p.kind == PieceKind::Knight || p.kind == PieceKind::Bishop,
        });
    }
}

/// A king that moves gives up castling: after any move of a king of the side
/// to move (not a promotion), that side holds neither castling right.
pub proof fn law_king_move_gives_up_castling(prev: Position, m: Move, next: Position)
    requires
        follows(prev, m, next),
        piece_on(prev.board(), m.from) == Some(Piece { color: prev.side_to_move, kind: PieceKind::King }),
        m.promotion is None,
    ensures
        prev.side_to_move == Color::White ==> !next.castling.white_kingside && !next.castling.white_queenside,
        prev.side_to_move == Color::Black ==> !next.castling.black_kingside && !next.castling.black_queenside,
{
}

/// Castling rights are only ever given up, never regained; a move from or to
/// a corner gives up the right of the rook that starts there; and a move that
/// is not a king's and touches no corner keeps every right.
pub proof fn law_castling_rights_only_shrink(prev: Position, m: Move, next: Position)
    requires
        follows(prev, m, next),
    ensures
        next.castling.white_kingside ==> prev.castling.white_kingside,
        next.castling.white_queenside ==> prev.castling.white_queenside,
        next.castling.black_kingside ==> prev.castling.black_kingside,
        next.castling.black_queenside ==> prev.castling.black_queenside,
        m.from.0 == 7 || m.to.0 == 7 ==> !next.castling.white_kingside,
        m.from.0 == 0 || m.to.0 == 0 ==> !next.castling.white_queenside,
        m.from.0 == 63 || m.to.0 == 63 ==> !next.castling.black_kingside,
        m.from.0 == 56 || m.to.0 == 56 ==> !next.castling.black_queenside,
        ({
            let kingless = m.promotion is None && (piece_on(prev.board(), m.from) matches Some(p) && p.kind
                != PieceKind::King);
            let cornerless = m.from.0 != 0 && m.to.0 != 0 && m.from.0 != 7 && m.to.0 != 7 && m.from.0 != 56
                && m.to.0 != 56 && m.from.0 != 63 && m.to.0 != 63;
            kingless && cornerless ==> next.castling == prev.castling
        }),
{
}

/// A pawn, rook or queen on the board leaves mating material: the game is
/// never drawn for insufficient material then.
pub proof fn law_heavy_piece_can_mate(ps: Seq<Position>, i: int)
    requires
        ps.len() > 0,
        0 <= i < 64,
        ps.last().board()[i] matches Some(p) && (p.kind == PieceKind::Pawn || p.kind == PieceKind::Rook
            || p.kind == PieceKind::Queen),
    ensures
        spec_status(ps) != Status::InsufficientMaterial,
{
    assert(crate::game::heavy(ps.last().board()[i]));
}

/// With minor pieces on exactly the squares `i < j`, the list of minor pieces
/// below `n` is those of them below `n`, in order.
proof fn lemma_two_minors_listed(b: Seq<Option<Piece>>, i: int, j: int, n: int)
    requires
        0 <= i < j < 64,
        0 <= n <= 64,
        minor(b[i]),
        minor(b[j]),
        forall|k: int| 0 <= k < 64 && k != i && k != j ==> !minor(#[trigger] b[k]),
    ensures
        n <= i ==> minors_upto(b, n).len() == 0,
        i < n <= j ==> minors_upto(b, n) == seq![(b[i].unwrap(), i)],
        j < n ==> minors_upto(b, n) == seq![(b[i].unwrap(), i), (b[j].unwrap(), j)],
    decreases n,
{
    if n > 0 {
        lemma_two_minors_listed(b, i, j, n - 1);
        if n - 1 == i {
            assert(minors_upto(b, n) =~= seq![(b[i].unwrap(), i)]);
        } else if n - 1 == j {
            assert(minors_upto(b, n) =~= seq![(b[i].unwrap(), i), (b[j].unwrap(), j)]);
        } else {
            assert(!minor(b[n - 1]));
        }
    }
}

/// Kings with exactly two knights or bishops beside them, on the squares `i`
/// and `j`, in a game not decided otherwise: the game is drawn for
/// insufficient material exactly when the two are bishops of opposite sides
/// standing on squares of the same shade.
pub proof fn law_two_minors(ps: Seq<Position>, i: int, j: int)
    requires
        ps.len() > 0,
        0 <= i < j < 64,
        knight_or_bishop(ps.last().board()[i]),
        knight_or_bishop(ps.last().board()[j]),
        forall|k: int|
            0 <= k < 64 && k != i && k != j ==> match #[trigger] ps.last().board()[k] {
                None => true,
                Some(p) => p.kind == PieceKind::King,
            },
        has_legal_move(ps.last()),
        ps.last().halfmove_clock < 100,
        repetitions(ps, ps.last()) < 3,
    ensures
        (spec_status(ps) == Status::InsufficientMaterial) <==> ({
            let p = ps.last().board()[i].unwrap();
            let q = ps.last().board()[j].unwrap();
            &&& p.kind == PieceKind::Bishop
            &&& q.kind == PieceKind::Bishop
            &&& p.color != q.color
            &&& (i % 8 + i / 8) % 2 == (j % 8 + j / 8) % 2
        }),
{
    let b = ps.last().board();
    assert forall|k: int| 0 <= k < 64 && k != i && k != j implies !minor(#[trigger] b[k]) by {
        assert(match b[k] {
            None => true,
            Some(p) => p.kind == PieceKind::King,
        });
    }
    lemma_two_minors_listed(b, i, j, 64);
    assert forall|k: int| 0 <= k < 64 implies !crate::game::heavy(#[trigger] b[k]) by {
        if k != i && k != j {
            assert(match b[k] {
                None => true,
                Some(p) => p.kind == PieceKind::King,
            });
        }
    }
}

} // verus!
