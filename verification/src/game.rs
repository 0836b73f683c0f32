//! A playable game: a sequence of positions plus a viewing cursor for rewind.
//!
//! A full snapshot of every position is kept rather than an undo stack, so
//! rewind is a simple index into history.

use vstd::prelude::*;

use crate::moves::Move;
use crate::move_order::legal_list;
use crate::position::{follows, lemma_request_determines_move, repeats_only_castles, squares_ascending, Position};
use crate::rules::{in_check, single_king};
use crate::types::{Color, Piece, PieceKind, Square};

verus! {

broadcast use crate::position::Position::lemma_board_len;

/// Outcome / status of a game.
#[derive(Debug, Clone, Copy, PartialEq, Eq, Structural)]
pub enum Status {
    Ongoing,
    /// The side to move is checkmated; the winner is the other color.
    Checkmate { winner: Color },
    Stalemate,
    /// 50-move rule (100 half-moves without pawn move or capture).
    FiftyMoveRule,
    /// Same position reached three times.
    ThreefoldRepetition,
    /// Neither side has sufficient material to checkmate.
    InsufficientMaterial,
}

impl Status {
    pub open spec fn spec_is_over(self) -> bool {
        !(self is Ongoing)
    }

    #[verifier::when_used_as_spec(spec_is_over)]
    pub fn is_over(self) -> (b: bool)
        ensures
            b == self.spec_is_over(),
    {
        !matches!(self, Status::Ongoing)
    }
}

/// Returned when an illegal move is attempted.
#[derive(Debug, Clone, Copy, PartialEq, Eq, Structural)]
pub struct IllegalMove;

impl IllegalMove {
    /// The message describing the error.
    pub fn message(&self) -> (s: String)
        ensures
            s@ == "illegal move"@,
    {
        "illegal move".to_owned()
    }
}

/// The side to move has at least one legal move.
pub open spec fn has_legal_move(pos: Position) -> bool {
    exists|m: Move| pos.is_legal(m)
}

/// Two positions agree on board, side to move, castling rights and en-passant target.
pub open spec fn same_state(p: Position, q: Position) -> bool {
    &&& p.side_to_move == q.side_to_move
    &&& p.castling == q.castling
    &&& p.en_passant == q.en_passant
    &&& p.board() == q.board()
}

/// How many positions of `s` are in the same state as `cur`.
pub open spec fn repetitions(s: Seq<Position>, cur: Position) -> nat
    decreases s.len(),
{
    if s.len() == 0 {
        0
    } else {
        repetitions(s.drop_last(), cur) + (if same_state(s.last(), cur) {
            1nat
        } else {
            0nat
        })
    }
}

/// A pawn, rook or queen.
pub open spec fn heavy(p: Option<Piece>) -> bool {
    p matches Some(q) && (q.kind == PieceKind::Pawn || q.kind == PieceKind::Rook || q.kind
        == PieceKind::Queen)
}

/// A knight or bishop.
pub open spec fn minor(p: Option<Piece>) -> bool {
    p matches Some(q) && (q.kind == PieceKind::Knight || q.kind == PieceKind::Bishop)
}

/// The minor pieces among the first `n` squares, with their square indices, in index order.
pub open spec fn minors_upto(board: Seq<Option<Piece>>, n: int) -> Seq<(Piece, int)>
    decreases n,
{
    if n <= 0 {
        Seq::empty()
    } else if minor(board[n - 1]) {
        minors_upto(board, n - 1).push((board[n - 1].unwrap(), n - 1))
    } else {
        minors_upto(board, n - 1)
    }
}

/// The color of the square with index `i`, as the parity of file + rank.
pub open spec fn square_shade(i: int) -> int {
    (i % 8 + i / 8) % 2
}

/// Neither side can mate: no pawn, rook or queen, and at most one minor piece,
/// or exactly two bishops of opposite colors standing on squares of the same shade.
pub open spec fn insufficient_material(board: Seq<Option<Piece>>) -> bool {
    let ms = minors_upto(board, 64);
    &&& forall|i: int| 0 <= i < 64 ==> !heavy(#[trigger] board[i])
    &&& {
        ||| ms.len() <= 1
        ||| {
            &&& ms.len() == 2
            &&& ms[0].0.kind == PieceKind::Bishop
            &&& ms[1].0.kind == PieceKind::Bishop
            &&& ms[0].0.color != ms[1].0.color
            &&& square_shade(ms[0].1) == square_shade(ms[1].1)
        }
    }
}

/// The status of a game whose positions so far are `positions`, judged on the last of them.
pub open spec fn spec_status(positions: Seq<Position>) -> Status {
    let cur = positions.last();
    if !has_legal_move(cur) {
        if in_check(cur.board(), cur.side_to_move) {
            Status::Checkmate { winner: cur.side_to_move.spec_opponent() }
        } else {
            Status::Stalemate
        }
    } else if cur.halfmove_clock >= 100 {
        Status::FiftyMoveRule
    } else if repetitions(positions, cur) >= 3 {
        Status::ThreefoldRepetition
    } else if insufficient_material(cur.board()) {
        Status::InsufficientMaterial
    } else {
        Status::Ongoing
    }
}

/// `m` names the same from-square, to-square and promotion as `req`.
pub open spec fn same_request(m: Move, req: Move) -> bool {
    m.from == req.from && m.to == req.to && m.promotion == req.promotion
}


/// The two boards hold the same piece on every square.
fn positions_same_board(a: &Position, b: &Position) -> (same: bool)
    ensures
        same == (a.board() == b.board()),
{
    let mut i: u8 = 0;
    while i < 64
        invariant
            0 <= i <= 64,
            forall|j: int| 0 <= j < i ==> a.board()[j] == b.board()[j],
        decreases 64 - i,
    {
        let pa = a.piece_at(Square(i));
        let pb = b.piece_at(Square(i));
        let eq = match (pa, pb) {
            (Some(x), Some(y)) => x.color == y.color && x.kind == y.kind,
            (None, None) => true,
            _ => false,
        };
        if !eq {
            return false;
        }
        i = i + 1;
    }
    assert(a.board() =~= b.board());
    true
}

/// True if neither side has enough material to force checkmate:
/// K vs K, K+minor vs K, and K+bishop vs K+bishop with same-colored bishops.
fn insufficient(pos: &Position) -> (r: bool)
    ensures
        r == insufficient_material(pos.board()),
{
    let ghost b = pos.board();
    let mut minors: Vec<(Piece, Square)> = Vec::new();
    let mut i: u8 = 0;
    while i < 64
        invariant
            b == pos.board(),
            0 <= i <= 64,
            forall|j: int| 0 <= j < i ==> !heavy(#[trigger] b[j]),
            minors@.len() == minors_upto(b, i as int).len(),
            forall|k: int|
                0 <= k < minors@.len() ==> (#[trigger] minors@[k]).0 == minors_upto(b, i as int)[k].0
                    && minors@[k].1.0 == minors_upto(b, i as int)[k].1 && minors@[k].1.valid(),
        decreases 64 - i,
    {
        let sq = Square(i);
        if let Some(p) = pos.piece_at(sq) {
            match p.kind {
                PieceKind::King => {},
                PieceKind::Knight | PieceKind::Bishop => {
                    minors.push((p, sq));
                },
                // Any pawn, rook, or queen means mate is possible.
                _ => {
                    assert(heavy(b[i as int]));
                    return false;
                },
            }
        }
        i = i + 1;
    }
    let n = minors.len();
    if n <= 1 {
        true
    } else if n == 2 {
        // Two bishops on the same color square (one each side) can't mate.
        let (p0, s0) = minors[0];
        let (p1, s1) = minors[1];
        p0.kind == PieceKind::Bishop && p1.kind == PieceKind::Bishop && p0.color != p1.color && (s0.file()
            + s0.rank()) % 2 == (s1.file() + s1.rank()) % 2
    } else {
        false
    }
}

/// What playing the request `req` does to a game with positions `ps` and moves
/// `ms`: while the game is not over and a legal move of the live position has
/// the requested from-square, to-square and promotion, that move is recorded
/// together with the position it leads to; otherwise nothing changes.
pub open spec fn move_outcome(
    ps: Seq<Position>,
    ms: Seq<Move>,
    req: Move,
    ps2: Seq<Position>,
    ms2: Seq<Move>,
) -> bool {
    if spec_status(ps) == Status::Ongoing && exists|m: Move| ps.last().is_legal(m) && same_request(m, req) {
        let chosen = ms2.last();
        &&& ms2 == ms.push(chosen)
        &&& ps2 == ps.push(ps2.last())
        &&& ps.last().is_legal(chosen)
        &&& same_request(chosen, req)
        &&& follows(ps.last(), chosen, ps2.last())
    } else {
        ps2 == ps && ms2 == ms
    }
}

/// `g2` is `g` viewed one ply earlier when there is one (`moved`), else as
/// it was; positions and moves are untouched.
pub open spec fn stepped_back(g: Game, g2: Game, moved: bool) -> bool {
    &&& g2.wf()
    &&& g2.positions() == g.positions()
    &&& g2.played() == g.played()
    &&& moved == (g.cursor_index() > 0)
    &&& g2.cursor_index() == (if moved {
        g.cursor_index() - 1
    } else {
        g.cursor_index()
    })
}

/// `g2` is `g` viewed one ply later when there is one (`moved`), else as it
/// was; positions and moves are untouched.
pub open spec fn stepped_forward(g: Game, g2: Game, moved: bool) -> bool {
    &&& g2.wf()
    &&& g2.positions() == g.positions()
    &&& g2.played() == g.played()
    &&& moved == (g.cursor_index() + 1 < g.positions().len())
    &&& g2.cursor_index() == (if moved {
        g.cursor_index() + 1
    } else {
        g.cursor_index()
    })
}

/// Rewinding is undone by stepping forward: after a step back that moved,
/// a step forward moves too and returns to the view it started from, with
/// positions and moves as they were.
pub proof fn law_step_back_then_forward(g: Game, g1: Game, back: bool, g2: Game, fwd: bool)
    requires
        g.wf(),
        stepped_back(g, g1, back),
        stepped_forward(g1, g2, fwd),
        back,
    ensures
        fwd,
        g2.positions() == g.positions(),
        g2.played() == g.played(),
        g2.cursor_index() == g.cursor_index(),
{
}

/// Stepping forward is undone by stepping back.
pub proof fn law_step_forward_then_back(g: Game, g1: Game, fwd: bool, g2: Game, back: bool)
    requires
        g.wf(),
        stepped_forward(g, g1, fwd),
        stepped_back(g1, g2, back),
        fwd,
    ensures
        back,
        g2.positions() == g.positions(),
        g2.played() == g.played(),
        g2.cursor_index() == g.cursor_index(),
{
}

/// `g2` is `g` after one call of an operation of [`Game`]: a move request,
/// accepted or refused, or a move of the view, which leaves the positions and
/// moves as they were.
pub open spec fn one_call(g: Game, g2: Game) -> bool {
    &&& g2.wf()
    &&& (exists|req: Move| move_outcome(g.positions(), g.played(), req, g2.positions(), g2.played()))
        || (g2.positions() == g.positions() && g2.played() == g.played())
}

/// `p` is the standard starting position.
pub open spec fn is_start(p: Position) -> bool {
    &&& p.board() == Seq::new(64, |i: int| crate::rules::start_piece(i))
    &&& p.side_to_move == Color::White
    &&& p.castling == crate::rules::all_rights()
    &&& p.en_passant is None
    &&& p.halfmove_clock == 0
    &&& p.fullmove_number == 1
}

/// A game in progress, with full move history and a rewind cursor.
#[derive(Debug)]
pub struct Game {
    /// `history[0]` is the initial position; `history[i]` is the state *after*
    /// `moves[i-1]`. Always non-empty.
    history: Vec<Position>,
    moves: Vec<Move>,
    /// Index into `history` currently being viewed. Equals `history.len() - 1`
    /// when viewing the live position.
    cursor: usize,
}

impl Game {
    /// The positions of the game so far, the initial one first.
    pub closed spec fn positions(&self) -> Seq<Position> {
        self.history@
    }

    /// The moves played so far.
    pub closed spec fn played(&self) -> Seq<Move> {
        self.moves@
    }

    /// The index of the viewed position in [`Game::positions`].
    pub closed spec fn cursor_index(&self) -> int {
        self.cursor as int
    }

    /// The game record is consistent: one more position than moves, each move
    /// legal in the position before it and leading to the position after it,
    /// and the cursor on one of the positions.
    pub open spec fn wf(&self) -> bool {
        let ps = self.positions();
        let ms = self.played();
        &&& ps.len() == ms.len() + 1
        &&& 0 <= self.cursor_index() < ps.len()
        &&& forall|i: int|
            0 <= i < ms.len() ==> (#[trigger] ps[i]).is_legal(ms[i]) && follows(ps[i], ms[i], ps[i + 1])
                && spec_status(ps.take(i + 1)) == Status::Ongoing
    }

    /// A new game from the standard starting position, nothing played yet.
    pub open spec fn fresh(&self) -> bool {
        &&& self.wf()
        &&& self.played().len() == 0
        &&& self.positions().len() == 1
        &&& self.cursor_index() == 0
        &&& is_start(self.positions()[0])
    }

    /// The live (latest) position.
    pub open spec fn live(&self) -> Position {
        self.positions().last()
    }

    /// New game from the standard starting position.
    pub fn new() -> (g: Game)
        ensures
            g.fresh(),
    {
        Game::from_position(Position::start())
    }

    /// New game from an arbitrary starting position (e.g. a FEN loaded from an API).
    pub fn from_position(pos: Position) -> (g: Game)
        ensures
            g.wf(),
            g.positions() == seq![pos],
            g.played().len() == 0,
            g.cursor_index() == 0,
    {
        let mut history = Vec::new();
        history.push(pos);
        let g = Game { history, moves: Vec::new(), cursor: 0 };
        assert(g.positions() =~= seq![pos]);
        g
    }

    /// The initial position the game started from.
    pub fn initial(&self) -> (p: &Position)
        requires
            self.wf(),
        ensures
            *p == self.positions()[0],
    {
        &self.history[0]
    }

    /// The live (latest) position, regardless of where the rewind cursor sits.
    pub fn current(&self) -> (p: &Position)
        requires
            self.wf(),
        ensures
            *p == self.live(),
    {
        &self.history[self.history.len() - 1]
    }

    /// The position currently being *viewed* (may be a rewound earlier state).
    pub fn viewed(&self) -> (p: &Position)
        requires
            self.wf(),
        ensures
            *p == self.positions()[self.cursor_index()],
    {
        &self.history[self.cursor]
    }

    /// The move that led to the viewed position, if any.
    pub fn viewed_last_move(&self) -> (m: Option<Move>)
        requires
            self.wf(),
        ensures
            m == (if self.cursor_index() == 0 {
                None
            } else {
                Some(self.played()[self.cursor_index() - 1])
            }),
    {
        if self.cursor == 0 {
            None
        } else {
            Some(self.moves[self.cursor - 1])
        }
    }

    /// The moves played so far.
    pub fn moves(&self) -> (ms: &[Move])
        ensures
            ms@ == self.played(),
    {
        self.moves.as_slice()
    }

    /// Number of half-moves played (the live ply).
    pub fn ply(&self) -> (n: usize)
        ensures
            n == self.played().len(),
    {
        self.moves.len()
    }

    /// Which ply the rewind cursor is currently viewing (0 = initial position).
    pub fn viewed_ply(&self) -> (n: usize)
        ensures
            n == self.cursor_index(),
    {
        self.cursor
    }

    /// True when the rewind cursor is on the live position.
    pub fn is_at_live(&self) -> (b: bool)
        requires
            self.wf(),
        ensures
            b == (self.cursor_index() == self.positions().len() - 1),
    {
        self.cursor == self.history.len() - 1
    }

    /// Legal moves in the *live* position, as [`Position::legal_moves`] lists
    /// them there.
    pub fn legal_moves(&self) -> (moves: Vec<Move>)
        requires
            self.wf(),
        ensures
            forall|m: Move| #[trigger] moves@.contains(m) <==> self.live().is_legal(m),
            single_king(self.live().board(), self.live().side_to_move) ==> moves@.no_duplicates(),
            single_king(self.live().board(), self.live().side_to_move) ==> squares_ascending(moves@),
            repeats_only_castles(moves@),
            moves@ == legal_list(self.live()),
    {
        self.current().legal_moves()
    }

    // ----- Rewind controls -------------------------------------------------

    /// Step the view back one half-move. Returns false if already at the start.
    pub fn step_back(&mut self) -> (moved: bool)
        requires
            old(self).wf(),
        ensures
            stepped_back(*old(self), *final(self), moved),
            one_call(*old(self), *final(self)),
    {
        if self.cursor > 0 {
            self.cursor = self.cursor - 1;
            true
        } else {
            false
        }
    }

    /// Step the view forward one half-move. Returns false if already at live.
    pub fn step_forward(&mut self) -> (moved: bool)
        requires
            old(self).wf(),
        ensures
            stepped_forward(*old(self), *final(self), moved),
            one_call(*old(self), *final(self)),
    {
        if self.cursor < self.history.len() - 1 {
            self.cursor = self.cursor + 1;
            true
        } else {
            false
        }
    }

    /// Jump the view to the initial position.
    pub fn rewind_to_start(&mut self)
        requires
            old(self).wf(),
        ensures
            final(self).wf(),
            final(self).positions() == old(self).positions(),
            final(self).played() == old(self).played(),
            final(self).cursor_index() == 0,
            one_call(*old(self), *final(self)),
    {
        self.cursor = 0;
    }

    /// Jump the view to the live position.
    pub fn forward_to_live(&mut self)
        requires
            old(self).wf(),
        ensures
            final(self).wf(),
            final(self).positions() == old(self).positions(),
            final(self).played() == old(self).played(),
            final(self).cursor_index() == old(self).positions().len() - 1,
            one_call(*old(self), *final(self)),
    {
        self.cursor = self.history.len() - 1;
    }

    /// Set the view to a specific ply (0 = initial). Clamped to valid range.
    pub fn seek(&mut self, ply: usize)
        requires
            old(self).wf(),
        ensures
            final(self).wf(),
            final(self).positions() == old(self).positions(),
            final(self).played() == old(self).played(),
            final(self).cursor_index() == (if ply < old(self).positions().len() - 1 {
                ply as int
            } else {
                old(self).positions().len() - 1
            }),
            one_call(*old(self), *final(self)),
    {
        let last = self.history.len() - 1;
        self.cursor = if ply < last {
            ply
        } else {
            last
        };
    }
    // ----- Status ----------------------------------------------------------

    /// Threefold repetition: same board layout, side to move, castling rights,
    /// and en-passant target occurring three times across history.
    fn is_threefold(&self) -> (r: bool)
        requires
            self.wf(),
        ensures
            r == (repetitions(self.positions(), self.live()) >= 3),
    {
        let cur = self.current();
        let mut count: usize = 0;
        let mut i: usize = 0;
        while i < self.history.len()
            invariant
                self.wf(),
                *cur == self.live(),
                0 <= i <= self.history@.len(),
                count == repetitions(self.history@.take(i as int), *cur),
                count <= i,
            decreases self.history@.len() - i,
        {
            let p = &self.history[i];
            assert(self.history@.take(i + 1).drop_last() =~= self.history@.take(i as int));
            if p.side_to_move == cur.side_to_move && p.castling == cur.castling && p.en_passant
                == cur.en_passant && positions_same_board(p, cur) {
                count = count + 1;
            }
            i = i + 1;
        }
        assert(self.history@.take(i as int) =~= self.history@);
        count >= 3
    }

    /// Compute the status of the *live* position.
    pub fn status(&self) -> (s: Status)
        requires
            self.wf(),
        ensures
            s == spec_status(self.positions()),
    {
        let pos = self.current();
        let moves = pos.legal_moves();
        let has_moves = moves.len() > 0;
        assert(has_moves == has_legal_move(*pos)) by {
            if has_moves {
                assert(moves@.contains(moves@[0]));
            }
            if has_legal_move(*pos) {
                let m = choose|m: Move| pos.is_legal(m);
                assert(moves@.contains(m));
            }
        }
        if !has_moves {
            return if pos.is_in_check() {
                Status::Checkmate { winner: pos.side_to_move.opponent() }
            } else {
                Status::Stalemate
            };
        }
        if pos.halfmove_clock >= 100 {
            return Status::FiftyMoveRule;
        }
        if self.is_threefold() {
            return Status::ThreefoldRepetition;
        }
        if insufficient(pos) {
            return Status::InsufficientMaterial;
        }
        Status::Ongoing
    }
    /// Attempt to play a move against the live position. Playing while viewing
    /// history discards nothing: it resumes from the true current state and
    /// moves the view to the new live position.
    ///
    /// The move is matched on from-square, to-square and promotion, so callers
    /// need not supply the flag; the legal move so matched is recorded.
    /// Returns `Err` if the game is over or no legal move matches.
    #[verifier::rlimit(40)]
    pub fn make_move(&mut self, mv: Move) -> (r: Result<(), IllegalMove>)
        requires
            old(self).wf(),
            spec_status(old(self).positions()) == Status::Ongoing && (exists|m: Move|
                old(self).live().is_legal(m) && same_request(m, mv)) && old(self).live().side_to_move
                == Color::Black ==> old(self).live().fullmove_number < u32::MAX,
        ensures
            final(self).wf(),
            move_outcome(
                old(self).positions(),
                old(self).played(),
                mv,
                final(self).positions(),
                final(self).played(),
            ),
            r is Ok <==> (spec_status(old(self).positions()) == Status::Ongoing && exists|m: Move|
                old(self).live().is_legal(m) && same_request(m, mv)),
            r is Ok ==> ({
                let n = old(self).played().len();
                let chosen = final(self).played()[n as int];
                &&& forall|m: Move| old(self).live().is_legal(m) && same_request(m, mv) ==> m == chosen
                &&& final(self).cursor_index() == n + 1
            }),
            r is Err ==> final(self).cursor_index() == old(self).cursor_index(),
            one_call(*old(self), *final(self)),
    {
        if self.status() != Status::Ongoing {
            return Err(IllegalMove);
        }
        let ghost cur = self.live();
        let legal = self.current().legal_moves();
        let mut chosen: Option<Move> = None;
        let mut i: usize = 0;
        while i < legal.len()
            invariant_except_break
                chosen is None,
            invariant
                0 <= i <= legal@.len(),
                forall|m: Move| #[trigger] legal@.contains(m) <==> cur.is_legal(m),
                forall|j: int| 0 <= j < i ==> !same_request(#[trigger] legal@[j], mv),
            ensures
                chosen matches Some(m) ==> legal@.contains(m) && same_request(m, mv),
                chosen is None ==> forall|j: int| 0 <= j < legal@.len() ==> !same_request(#[trigger] legal@[j], mv),
            decreases legal@.len() - i,
        {
            let m = legal[i];
            if m.from == mv.from && m.to == mv.to && m.promotion == mv.promotion {
                chosen = Some(m);
                assert(legal@.contains(m));
                break;
            }
            i = i + 1;
        }
        let chosen = match chosen {
            Some(m) => m,
            None => {
                assert forall|m: Move| cur.is_legal(m) implies !same_request(m, mv) by {
                    assert(legal@.contains(m));
                    let j = choose|j: int| 0 <= j < legal@.len() && legal@[j] == m;
                }
                return Err(IllegalMove);
            },
        };
        assert(cur.is_legal(chosen) && same_request(chosen, mv));
        assert forall|m: Move| cur.is_legal(m) && same_request(m, mv) implies m == chosen by {
            lemma_request_determines_move(cur.board(), cur.side_to_move, cur.castling, cur.en_passant, m, chosen);
        }
        let next = self.current().apply_unchecked(chosen);
        let ghost old_ps = self.history@;
        let ghost old_ms = self.moves@;
        self.history.push(next);
        self.moves.push(chosen);
        self.cursor = self.history.len() - 1;
        assert(self.positions() =~= old_ps.push(next));
        assert forall|j: int| 0 <= j < self.played().len() implies (#[trigger] self.positions()[j]).is_legal(
            self.played()[j],
        ) && follows(self.positions()[j], self.played()[j], self.positions()[j + 1]) && spec_status(
            self.positions().take(j + 1),
        ) == Status::Ongoing by {
            assert(self.positions().take(j + 1) =~= old_ps.take(j + 1));
            if j < old_ms.len() {
                assert(old_ps[j].is_legal(old_ms[j]));
            } else {
                assert(old_ps.take(j + 1) =~= old_ps);
            }
        }
        assert(self.played() =~= old_ms.push(chosen));
        assert(move_outcome(old_ps, old_ms, mv, self.positions(), self.played()));
        Ok(())
    }
}

impl Default for Game {
    fn default() -> (g: Game)
        ensures
            g.fresh(),
    {
        Game::new()
    }
}

} // verus!
