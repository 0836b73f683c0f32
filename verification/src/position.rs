//! Board position and legal move generation.
//!
//! Representation is a simple 64-square mailbox. Move generation is pseudo-legal
//! generation followed by a king-safety filter (make the move on a copy of the
//! board, reject it if our king is then attacked).

use vstd::prelude::*;

use crate::moves::{Move, MoveFlag};
use crate::move_order::{
    castle_list, legal_in, legal_list, pawn_capture_list, pawn_list, piece_list, pseudo_list, pawn_push_list, promo_list, ray_list, slide_list, step_list,
};
use crate::rules::{
    piece_on, offset, knight_delta, king_delta, ortho_dir, diag_dir, ray_coord, ray_sq, ray_clear,
    ray_first, piece_at_coords, knight_attack_from, king_attack_from, slides_like,
    ortho_attack_from, diag_attack_from, attacked, king_from, king_square_of, single_king, in_check,
    promo_rank, pawn_start_rank, home_rank, promotion_ok, step_move, step_delta, step_any,
    slide_step, slide_dir, slide_any, pawn_capture_sq, pawn_move, home_sq, castle_move, piece_move,
    pseudo_move, after_board, legal_move, moved_piece, rights_after, ep_after, resets_clock,
    start_piece, all_rights,
};
use crate::types::{on_board, square_at, Color, Piece, PieceKind, Square};

verus! {

/// Castling availability for both sides.
#[derive(Debug, Clone, Copy, PartialEq, Eq, Hash, Structural)]
pub struct CastlingRights {
    pub white_kingside: bool,
    pub white_queenside: bool,
    pub black_kingside: bool,
    pub black_queenside: bool,
}

impl CastlingRights {
    pub open spec fn spec_none() -> CastlingRights {
        CastlingRights {
            white_kingside: false,
            white_queenside: false,
            black_kingside: false,
            black_queenside: false,
        }
    }

    /// No castling rights for either side.
    #[verifier::when_used_as_spec(spec_none)]
    pub fn none() -> (c: CastlingRights)
        ensures
            c == CastlingRights::spec_none(),
    {
        CastlingRights {
            white_kingside: false,
            white_queenside: false,
            black_kingside: false,
            black_queenside: false,
        }
    }
}

/// A complete, self-contained board state.
#[derive(Debug, PartialEq, Eq)]
pub struct Position {
    /// The 64 squares, `a1` first (index `rank * 8 + file`).
    pub squares: [Option<Piece>; 64],
    pub side_to_move: Color,
    pub castling: CastlingRights,
    /// En-passant target square (the square a capturing pawn would move *to*).
    pub en_passant: Option<Square>,
    pub halfmove_clock: u32,
    pub fullmove_number: u32,
}

impl Clone for Position {
    fn clone(&self) -> (p: Position)
        ensures
            p == *self,
    {
        Position {
            squares: self.squares,
            side_to_move: self.side_to_move,
            castling: self.castling,
            en_passant: self.en_passant,
            halfmove_clock: self.halfmove_clock,
            fullmove_number: self.fullmove_number,
        }
    }
}

/// `o` is exactly `Some(p)`.
pub fn is_piece(o: Option<Piece>, p: Piece) -> (b: bool)
    ensures
        b == (o == Some(p)),
{
    match o {
        Some(q) => q.color == p.color && q.kind == p.kind,
        None => false,
    }
}

/// The eight knight jumps, by index.
pub fn knight_step(k: u8) -> (d: (i8, i8))
    requires
        k < 8,
    ensures
        (d.0 as int, d.1 as int) == knight_delta(k as int),
{
    if k == 0 {
        (1, 2)
    } else if k == 1 {
        (2, 1)
    } else if k == 2 {
        (2, -1)
    } else if k == 3 {
        (1, -2)
    } else if k == 4 {
        (-1, -2)
    } else if k == 5 {
        (-2, -1)
    } else if k == 6 {
        (-2, 1)
    } else {
        (-1, 2)
    }
}

/// The eight king steps, by index.
pub fn king_step(k: u8) -> (d: (i8, i8))
    requires
        k < 8,
    ensures
        (d.0 as int, d.1 as int) == king_delta(k as int),
{
    if k == 0 {
        (1, 0)
    } else if k == 1 {
        (-1, 0)
    } else if k == 2 {
        (0, 1)
    } else if k == 3 {
        (0, -1)
    } else if k == 4 {
        (1, 1)
    } else if k == 5 {
        (1, -1)
    } else if k == 6 {
        (-1, 1)
    } else {
        (-1, -1)
    }
}

/// The four rook directions, by index.
pub fn ortho_step(k: u8) -> (d: (i8, i8))
    requires
        k < 4,
    ensures
        (d.0 as int, d.1 as int) == ortho_dir(k as int),
{
    if k == 0 {
        (1, 0)
    } else if k == 1 {
        (-1, 0)
    } else if k == 2 {
        (0, 1)
    } else {
        (0, -1)
    }
}

/// The four bishop directions, by index.
pub fn diag_step(k: u8) -> (d: (i8, i8))
    requires
        k < 4,
    ensures
        (d.0 as int, d.1 as int) == diag_dir(k as int),
{
    if k == 0 {
        (1, 1)
    } else if k == 1 {
        (1, -1)
    } else if k == 2 {
        (-1, 1)
    } else {
        (-1, -1)
    }
}

/// A unit direction: each component in -1..=1, not both zero.
pub open spec fn unit_dir(d: (int, int)) -> bool {
    -1 <= d.0 <= 1 && -1 <= d.1 <= 1 && (d.0 != 0 || d.1 != 0)
}

/// `new` is `old` followed by further moves.
pub open spec fn extends(new: Seq<Move>, old: Seq<Move>) -> bool {
    new.len() >= old.len() && new.take(old.len() as int) == old
}

/// What `new` holds beyond the prefix `old`.
pub open spec fn appended(new: Seq<Move>, old: Seq<Move>) -> Seq<Move> {
    new.skip(old.len() as int)
}

/// Square indices map one to one onto on-board coordinates.
pub proof fn lemma_square_at_injective(f1: int, r1: int, f2: int, r2: int)
    requires
        square_at(f1, r1) is Some,
        square_at(f1, r1) == square_at(f2, r2),
    ensures
        f1 == f2 && r1 == r2,
{
}

pub proof fn lemma_push_contains(s: Seq<Move>, m: Move, x: Move)
    ensures
        s.push(m).contains(x) <==> (s.contains(x) || x == m),
{
    if s.push(m).contains(x) && x != m {
        let i = choose|i: int| 0 <= i < s.push(m).len() && s.push(m)[i] == x;
        assert(s[i] == x);
    }
    if s.contains(x) {
        let i = choose|i: int| 0 <= i < s.len() && s[i] == x;
        assert(s.push(m)[i] == x);
    }
    if x == m {
        assert(s.push(m)[s.len() as int] == x);
    }
}

pub proof fn lemma_push_no_dup(s: Seq<Move>, m: Move)
    requires
        s.no_duplicates(),
        !s.contains(m),
    ensures
        s.push(m).no_duplicates(),
{
    let t = s.push(m);
    assert forall|i: int, j: int| 0 <= i < t.len() && 0 <= j < t.len() && i != j implies t[i] != t[j] by {
        if i == s.len() {
            assert(s[j] == t[j]);
        } else if j == s.len() {
            assert(s[i] == t[i]);
        }
    }
}

/// Up to index `k`, some step displacement takes `from` to `x`.
pub open spec fn step_upto(b: Seq<Option<Piece>>, us: Color, from: Square, king: bool, k: int, x: Move) -> bool {
    exists|j: int| 0 <= j < k && #[trigger] step_move(b, us, from, step_delta(king, j), x)
}

proof fn lemma_step_upto_succ(b: Seq<Option<Piece>>, us: Color, from: Square, king: bool, k: int, x: Move)
    requires
        0 <= k,
    ensures
        step_upto(b, us, from, king, k + 1, x) <==> (step_upto(b, us, from, king, k, x) || step_move(
            b,
            us,
            from,
            step_delta(king, k),
            x,
        )),
{
    if step_upto(b, us, from, king, k + 1, x) {
        let j = choose|j: int| 0 <= j < k + 1 && #[trigger] step_move(b, us, from, step_delta(king, j), x);
        if j < k {
            assert(step_upto(b, us, from, king, k, x));
        }
    }
    if step_move(b, us, from, step_delta(king, k), x) {
        assert(step_upto(b, us, from, king, k + 1, x));
    }
}

/// Distinct step displacements from one square lead to distinct squares.
proof fn lemma_step_targets_distinct(from: Square, king: bool, j: int, k: int)
    requires
        0 <= j < k < 8,
        offset(from, step_delta(king, j)) is Some,
    ensures
        offset(from, step_delta(king, j)) != offset(from, step_delta(king, k)),
{
    let dj = step_delta(king, j);
    let dk = step_delta(king, k);
    if offset(from, dj) == offset(from, dk) {
        lemma_square_at_injective(
            from.spec_file() + dj.0,
            from.spec_rank() + dj.1,
            from.spec_file() + dk.0,
            from.spec_rank() + dk.1,
        );
        assert(dj == dk);
    }
}

/// Two rays from one square meet only when they are the same ray at the same distance.
pub proof fn lemma_ray_injective(from: Square, d1: (int, int), n1: int, d2: (int, int), n2: int)
    requires
        unit_dir(d1),
        unit_dir(d2),
        n1 >= 1,
        n2 >= 1,
        ray_sq(from, d1, n1) is Some,
        ray_sq(from, d1, n1) == ray_sq(from, d2, n2),
    ensures
        d1 == d2,
        n1 == n2,
{
    lemma_square_at_injective(
        ray_coord(from.spec_file(), d1.0, n1),
        ray_coord(from.spec_rank(), d1.1, n1),
        ray_coord(from.spec_file(), d2.0, n2),
        ray_coord(from.spec_rank(), d2.1, n2),
    );
}

/// Past a square that is off the board or occupied, a ray is not clear.
proof fn lemma_ray_blocked(b: Seq<Option<Piece>>, from: Square, dir: (int, int), n: int, i: int)
    requires
        1 <= n < i,
        ray_sq(from, dir, n) is None || piece_on(b, ray_sq(from, dir, n).unwrap()) is Some,
    ensures
        !ray_clear(b, from, dir, i),
{
    assert(1 <= n < i);
    if ray_clear(b, from, dir, i) {
        assert(ray_sq(from, dir, n) matches Some(s) && piece_on(b, s) is None);
    }
}

/// Up to direction index `k`, some slide reaches `x`.
pub open spec fn slide_upto(b: Seq<Option<Piece>>, us: Color, from: Square, diag: bool, k: int, x: Move) -> bool {
    exists|j: int, n: int| 0 <= j < k && #[trigger] slide_step(b, us, from, slide_dir(diag, j), n, x)
}

/// Along `dir`, some slide shorter than `n` reaches `x`.
pub open spec fn ray_upto(b: Seq<Option<Piece>>, us: Color, from: Square, dir: (int, int), n: int, x: Move) -> bool {
    exists|i: int| 1 <= i < n && #[trigger] slide_step(b, us, from, dir, i, x)
}

proof fn lemma_slide_dirs(diag: bool, j: int, k: int)
    requires
        0 <= j < 4,
        0 <= k < 4,
    ensures
        unit_dir(slide_dir(diag, j)),
        j != k ==> slide_dir(diag, j) != slide_dir(diag, k),
        unit_dir(diag_dir(j)),
        unit_dir(ortho_dir(k)),
        diag_dir(j) != ortho_dir(k),
{
}

pub proof fn lemma_concat_contains(a: Seq<Move>, b: Seq<Move>, x: Move)
    ensures
        (a + b).contains(x) <==> (a.contains(x) || b.contains(x)),
{
    if (a + b).contains(x) {
        let i = choose|i: int| 0 <= i < (a + b).len() && (a + b)[i] == x;
        if i < a.len() {
            assert(a[i] == x);
        } else {
            assert(b[i - a.len()] == x);
        }
    }
    if a.contains(x) {
        let i = choose|i: int| 0 <= i < a.len() && a[i] == x;
        assert((a + b)[i] == x);
    }
    if b.contains(x) {
        let i = choose|i: int| 0 <= i < b.len() && b[i] == x;
        assert((a + b)[i + a.len()] == x);
    }
}

/// `m` castles, to either side.
pub open spec fn is_castle(m: Move) -> bool {
    m.flag == MoveFlag::CastleKingside || m.flag == MoveFlag::CastleQueenside
}

/// No move other than a castling move occurs twice in `s`.
pub open spec fn repeats_only_castles(s: Seq<Move>) -> bool {
    forall|i: int, j: int| #![trigger s[i], s[j]] 0 <= i < j < s.len() && s[i] == s[j] ==> is_castle(s[i])
}

/// The moves of `s` leave their squares in ascending order of square index.
pub open spec fn squares_ascending(s: Seq<Move>) -> bool {
    forall|i: int, j: int| #![trigger s[i], s[j]] 0 <= i < j < s.len() ==> s[i].from.0 <= s[j].from.0
}

proof fn lemma_concat_ascending(a: Seq<Move>, b: Seq<Move>, v: u8)
    requires
        squares_ascending(a),
        forall|x: Move| a.contains(x) ==> x.from.0 < v,
        forall|x: Move| b.contains(x) ==> x.from.0 == v,
    ensures
        squares_ascending(a + b),
{
    let c = a + b;
    assert forall|i: int, j: int| 0 <= i < j < c.len() implies c[i].from.0 <= c[j].from.0 by {
        if j < a.len() {
            assert(a[i] == c[i] && a[j] == c[j]);
        } else if i < a.len() {
            assert(a[i] == c[i]);
            assert(a.contains(c[i]));
            assert(b[j - a.len()] == c[j]);
            assert(b.contains(c[j]));
        } else {
            assert(b[i - a.len()] == c[i]);
            assert(b[j - a.len()] == c[j]);
            assert(b.contains(c[i]) && b.contains(c[j]));
        }
    }
}

proof fn lemma_push_ascending(s: Seq<Move>, m: Move)
    requires
        squares_ascending(s),
        forall|x: Move| s.contains(x) ==> x.from.0 <= m.from.0,
    ensures
        squares_ascending(s.push(m)),
{
    let t = s.push(m);
    assert forall|i: int, j: int| 0 <= i < j < t.len() implies t[i].from.0 <= t[j].from.0 by {
        assert(t[i] == s[i]);
        if j == s.len() {
            assert(s.contains(s[i]));
        } else {
            assert(t[j] == s[j]);
        }
    }
}

proof fn lemma_push_repeats(s: Seq<Move>, m: Move)
    requires
        repeats_only_castles(s),
        s.contains(m) ==> is_castle(m),
    ensures
        repeats_only_castles(s.push(m)),
{
    let t = s.push(m);
    assert forall|i: int, j: int| 0 <= i < j < t.len() && t[i] == t[j] implies is_castle(t[i]) by {
        assert(t[i] == s[i]);
        if j == s.len() {
            assert(s.contains(m));
        } else {
            assert(t[j] == s[j]);
        }
    }
}

proof fn lemma_concat_repeats(a: Seq<Move>, b: Seq<Move>)
    requires
        repeats_only_castles(a),
        b.no_duplicates(),
        forall|x: Move| a.contains(x) && b.contains(x) ==> is_castle(x),
    ensures
        repeats_only_castles(a + b),
{
    let c = a + b;
    assert forall|i: int, j: int| 0 <= i < j < c.len() && c[i] == c[j] implies is_castle(c[i]) by {
        if j < a.len() {
            assert(a[i] == c[i] && a[j] == c[j]);
        } else if i < a.len() {
            assert(a[i] == c[i]);
            assert(a.contains(c[i]));
            assert(b[j - a.len()] == c[j]);
            assert(b.contains(c[j]));
        } else {
            assert(b[i - a.len()] == c[i]);
            assert(b[j - a.len()] == c[j]);
        }
    }
}

pub proof fn lemma_concat_no_dup(a: Seq<Move>, b: Seq<Move>)
    requires
        a.no_duplicates(),
        b.no_duplicates(),
        forall|x: Move| a.contains(x) ==> !b.contains(x),
    ensures
        (a + b).no_duplicates(),
{
    let c = a + b;
    assert forall|i: int, j: int| 0 <= i < c.len() && 0 <= j < c.len() && i != j implies c[i] != c[j] by {
        if i < a.len() && j >= a.len() {
            assert(a.contains(c[i]));
            assert(b[j - a.len()] == c[j]);
            assert(b.contains(c[j]));
        } else if j < a.len() && i >= a.len() {
            assert(a.contains(c[j]));
            assert(b[i - a.len()] == c[i]);
            assert(b.contains(c[i]));
        } else if i >= a.len() && j >= a.len() {
            assert(b[i - a.len()] == c[i]);
            assert(b[j - a.len()] == c[j]);
        } else {
            assert(a[i] == c[i]);
            assert(a[j] == c[j]);
        }
    }
}

/// Appending the moves `out` gained beyond `mid` to the ghost record `added`.
pub proof fn lemma_extend_record(start: Seq<Move>, added: Seq<Move>, mid: Seq<Move>, out: Seq<Move>)
    requires
        mid == start + added,
        extends(out, mid),
    ensures
        out == start + (added + appended(out, mid)),
{
    assert(out =~= mid + appended(out, mid));
    assert(out =~= start + (added + appended(out, mid)));
}

/// A pawn arriving on `to` promotes exactly when `to` is on rank `pr`.
pub open spec fn promo_fits(to: Square, pr: int, p: Option<PieceKind>) -> bool {
    if to.spec_rank() == pr {
        p matches Some(k) && (k == PieceKind::Queen || k == PieceKind::Rook || k == PieceKind::Bishop
            || k == PieceKind::Knight)
    } else {
        p is None
    }
}

/// The coordinates of the square at (`f`, `r`) are (`f`, `r`).
pub proof fn lemma_square_at_coords(f: int, r: int)
    requires
        on_board(f, r),
    ensures
        square_at(f, r) matches Some(s) && s.spec_file() == f && s.spec_rank() == r && s.valid(),
{
    assert((r * 8 + f) % 8 == f && (r * 8 + f) / 8 == r) by (nonlinear_arith)
        requires
            0 <= f < 8,
            0 <= r < 8,
    ;
}

/// A capture by the pawn of `us` on `from` toward `side`.
pub open spec fn pawn_capture(b: Seq<Option<Piece>>, us: Color, from: Square, side: int, m: Move) -> bool {
    &&& pawn_capture_sq(from, us, side) == Some(m.to)
    &&& piece_on(b, m.to) matches Some(p)
    &&& p.color != us
    &&& m.flag == MoveFlag::Normal
    &&& promotion_ok(m.to, us, m.promotion)
}

/// An en-passant capture by the pawn of `us` on `from` toward `side`.
pub open spec fn pawn_ep_capture(b: Seq<Option<Piece>>, us: Color, ep: Option<Square>, from: Square, side: int, m: Move) -> bool {
    &&& pawn_capture_sq(from, us, side) == Some(m.to)
    &&& piece_on(b, m.to) is None
    &&& ep == Some(m.to)
    &&& m.flag == MoveFlag::EnPassant
    &&& m.promotion is None
}

/// The king found by `king_from` holds the king.
pub proof fn lemma_king_from_holds(b: Seq<Option<Piece>>, c: Color, i: int)
    requires
        b.len() == 64,
    ensures
        king_from(b, c, i) matches Some(s) ==> (s.valid() && s.0 >= i && b[s.0 as int] == Some(
            Piece { color: c, kind: PieceKind::King },
        )),
    decreases 64 - i,
{
    if 0 <= i < 64 && b[i] != Some(Piece { color: c, kind: PieceKind::King }) {
        lemma_king_from_holds(b, c, i + 1);
    }
}

/// If a king of `c` stands on `k` (at or after `i`), `king_from` finds one at or before `k`.
pub proof fn lemma_king_from_finds(b: Seq<Option<Piece>>, c: Color, i: int, k: int)
    requires
        b.len() == 64,
        0 <= i <= k < 64,
        b[k] == Some(Piece { color: c, kind: PieceKind::King }),
    ensures
        king_from(b, c, i) matches Some(s) && s.0 <= k,
        single_king(b, c) ==> king_from(b, c, i) == Some(Square(k as u8)),
    decreases k - i,
{
    if b[i] != Some(Piece { color: c, kind: PieceKind::King }) {
        lemma_king_from_finds(b, c, i + 1, k);
    }
}

proof fn lemma_square_at_inj(f1: int, r1: int, f2: int, r2: int)
    ensures
        (square_at(f1, r1) is Some && square_at(f1, r1) == square_at(f2, r2)) ==> (f1 == f2 && r1 == r2),
{
    if square_at(f1, r1) is Some && square_at(f1, r1) == square_at(f2, r2) {
        lemma_square_at_injective(f1, r1, f2, r2);
    }
}

/// Among pseudo-legal moves, the from-square, to-square and promotion
/// determine the move: its flag follows from them and the board.
pub proof fn lemma_request_determines_move(
    b: Seq<Option<Piece>>,
    us: Color,
    rights: CastlingRights,
    ep: Option<Square>,
    m1: Move,
    m2: Move,
)
    requires
        b.len() == 64,
        pseudo_move(b, us, rights, ep, m1),
        pseudo_move(b, us, rights, ep, m2),
        m1.from == m2.from,
        m1.to == m2.to,
        m1.promotion == m2.promotion,
    ensures
        m1 == m2,
{
    let from = m1.from;
    let f = from.spec_file();
    let r = from.spec_rank();
    let d = us.spec_pawn_dir();
    lemma_square_at_inj(f, r + d, f, r + 2 * d);
    lemma_square_at_inj(f - 1, r + d, f, r + 2 * d);
    lemma_square_at_inj(f + 1, r + d, f, r + 2 * d);
    lemma_square_at_inj(f, r + d, f - 1, r + d);
    lemma_square_at_inj(f, r + d, f + 1, r + d);
    lemma_square_at_inj(f - 1, r + d, f + 1, r + d);
    let hr = home_rank(us);
    lemma_square_at_coords(4, hr);
    lemma_square_at_coords(6, hr);
    lemma_square_at_coords(2, hr);
    if castle_move(b, us, rights, m1) || castle_move(b, us, rights, m2) {
        assert(from == home_sq(us, 4));
        assert(f == 4 && r == hr);
    }
    if m1.flag != m2.flag {
        let p = piece_on(b, from).unwrap();
        if p.kind == PieceKind::King {
            if step_any(b, us, from, true, m1) {
                let k = choose|k: int| 0 <= k < 8 && #[trigger] step_move(b, us, from, step_delta(true, k), m1);
                assert(castle_move(b, us, rights, m2));
            } else if step_any(b, us, from, true, m2) {
                let k = choose|k: int| 0 <= k < 8 && #[trigger] step_move(b, us, from, step_delta(true, k), m2);
                assert(castle_move(b, us, rights, m1));
            }
        }
    }
}

impl Position {
    /// The 64 squares, `a1` first.
    pub open spec fn board(&self) -> Seq<Option<Piece>> {
        self.squares@
    }

    /// `m` is legal for the side to move in this position.
    pub open spec fn is_legal(&self, m: Move) -> bool {
        legal_move(self.board(), self.side_to_move, self.castling, self.en_passant, m)
    }

    pub broadcast proof fn lemma_board_len(p: &Position)
        ensures
            #[trigger] p.board().len() == 64,
    {
    }

    /// An empty board (white to move, no rights). Useful for tests and setups.
    pub fn empty() -> (p: Position)
        ensures
            forall|i: int| 0 <= i < 64 ==> #[trigger] p.board()[i] is None,
            p.board().len() == 64,
            p.side_to_move == Color::White,
            p.castling == CastlingRights::none(),
            p.en_passant is None,
            p.halfmove_clock == 0,
            p.fullmove_number == 1,
    {
        let squares: [Option<Piece>; 64] = [
            None, None, None, None, None, None, None, None,
            None, None, None, None, None, None, None, None,
            None, None, None, None, None, None, None, None,
            None, None, None, None, None, None, None, None,
            None, None, None, None, None, None, None, None,
            None, None, None, None, None, None, None, None,
            None, None, None, None, None, None, None, None,
            None, None, None, None, None, None, None, None,
        ];
        assert(forall|i: int| 0 <= i < 64 ==> #[trigger] squares@[i] is None);
        Position {
            squares,
            side_to_move: Color::White,
            castling: CastlingRights::none(),
            en_passant: None,
            halfmove_clock: 0,
            fullmove_number: 1,
        }
    }

    pub fn piece_at(&self, sq: Square) -> (p: Option<Piece>)
        requires
            sq.valid(),
        ensures
            p == piece_on(self.board(), sq),
    {
        self.squares[sq.index()]
    }

    pub fn set_piece(&mut self, sq: Square, piece: Option<Piece>)
        requires
            sq.valid(),
        ensures
            final(self).board() == old(self).board().update(sq.0 as int, piece),
            final(self).side_to_move == old(self).side_to_move,
            final(self).castling == old(self).castling,
            final(self).en_passant == old(self).en_passant,
            final(self).halfmove_clock == old(self).halfmove_clock,
            final(self).fullmove_number == old(self).fullmove_number,
    {
        self.squares[sq.index()] = piece;
    }

    /// The piece at (`f`, `r`) is `p`; false off the board.
    fn holds_at(&self, f: i8, r: i8, p: Piece) -> (b: bool)
        ensures
            b == piece_at_coords(self.board(), f as int, r as int, p),
    {
        match Square::from_file_rank(f, r) {
            Some(sq) => is_piece(self.piece_at(sq), p),
            None => false,
        }
    }

    /// Locate the king of the given color. `None` only on malformed positions.
    pub fn king_square(&self, color: Color) -> (k: Option<Square>)
        ensures
            k == king_square_of(self.board(), color),
            k matches Some(s) ==> s.valid(),
    {
        let ghost b = self.board();
        let mut i: u8 = 0;
        while i < 64
            invariant
                0 <= i <= 64,
                b == self.board(),
                king_from(b, color, 0) == king_from(b, color, i as int),
            decreases 64 - i,
        {
            if is_piece(self.piece_at(Square(i)), Piece { color, kind: PieceKind::King }) {
                return Some(Square(i));
            }
            i = i + 1;
        }
        None
    }

    /// Walk the ray from (`f`, `r`) along `dir`; true if the first piece met is a
    /// `by` piece that is either `slider` or a queen.
    fn ray_hits(&self, f: i8, r: i8, dir: (i8, i8), by: Color, slider: PieceKind) -> (h: bool)
        requires
            0 <= f < 8,
            0 <= r < 32,
            unit_dir((dir.0 as int, dir.1 as int)),
        ensures
            h == slides_like(
                ray_first(self.board(), f as int, r as int, (dir.0 as int, dir.1 as int), 1),
                by,
                slider,
            ),
    {
        let ghost b = self.board();
        let ghost d = (dir.0 as int, dir.1 as int);
        let (df, dr) = dir;
        let mut n: i8 = 1;
        let mut cf: i8 = f + df;
        let mut cr: i8 = r + dr;
        loop
            invariant
                b == self.board(),
                b.len() == 64,
                d == (df as int, dr as int),
                d == (dir.0 as int, dir.1 as int),
                0 <= f < 8,
                0 <= r < 32,
                unit_dir(d),
                1 <= n <= 9,
                cf == ray_coord(f as int, d.0, n as int),
                cr == ray_coord(r as int, d.1, n as int),
                n == 1 || on_board(ray_coord(f as int, d.0, 1), ray_coord(r as int, d.1, 1)),
                ray_first(b, f as int, r as int, d, 1) == ray_first(b, f as int, r as int, d, n as int),
            decreases 10 - n,
        {
            match Square::from_file_rank(cf, cr) {
                None => {
                    assert(!on_board(cf as int, cr as int));
                    assert(ray_first(b, f as int, r as int, d, n as int) is None);
                    return false;
                },
                Some(sq) => {
                    assert(sq.0 == cr * 8 + cf);
                    assert(piece_on(b, sq) == b[cr * 8 + cf]);
                    match self.piece_at(sq) {
                        Some(p) => {
                            return p.color == by && (p.kind == slider || p.kind == PieceKind::Queen);
                        },
                        None => {},
                    }
                },
            }
            assert(n < 9);
            n = n + 1;
            cf = cf + df;
            cr = cr + dr;
        }
    }

    /// Is `sq` attacked by any piece of `by` color? (Ignores whose turn it is.)
    pub fn is_attacked(&self, sq: Square, by: Color) -> (a: bool)
        ensures
            a == attacked(self.board(), sq, by),
    {
        let ghost b = self.board();
        let f = sq.file();
        let r = sq.rank();
        let ghost fi = f as int;
        let ghost ri = r as int;

        // Pawn attacks: a pawn of `by` attacks `sq` if it sits one rank behind it
        // (relative to its own advance direction) on an adjacent file.
        let pdir = by.pawn_dir();
        let pawn = Piece::new(by, PieceKind::Pawn);
        if self.holds_at(f - 1, r - pdir, pawn) || self.holds_at(f + 1, r - pdir, pawn) {
            return true;
        }

        // Knight attacks.
        let knight = Piece::new(by, PieceKind::Knight);
        let mut k: u8 = 0;
        while k < 8
            invariant
                b == self.board(),
                fi == sq.spec_file() && ri == sq.spec_rank(),
                f == fi && r == ri,
                knight == (Piece { color: by, kind: PieceKind::Knight }),
                0 <= k <= 8,
                forall|j: int| 0 <= j < k ==> !#[trigger] knight_attack_from(b, fi, ri, by, j),
            decreases 8 - k,
        {
            let (df, dr) = knight_step(k);
            if self.holds_at(f + df, r + dr, knight) {
                assert(knight_attack_from(b, fi, ri, by, k as int));
                return true;
            }
            k = k + 1;
        }

        // King attacks (adjacent squares).
        let king = Piece::new(by, PieceKind::King);
        let mut k: u8 = 0;
        while k < 8
            invariant
                b == self.board(),
                fi == sq.spec_file() && ri == sq.spec_rank(),
                f == fi && r == ri,
                king == (Piece { color: by, kind: PieceKind::King }),
                0 <= k <= 8,
                forall|j: int| 0 <= j < k ==> !#[trigger] king_attack_from(b, fi, ri, by, j),
            decreases 8 - k,
        {
            let (df, dr) = king_step(k);
            if self.holds_at(f + df, r + dr, king) {
                assert(king_attack_from(b, fi, ri, by, k as int));
                return true;
            }
            k = k + 1;
        }

        // Sliding attacks: rook/queen orthogonally, bishop/queen diagonally.
        let mut k: u8 = 0;
        while k < 4
            invariant
                b == self.board(),
                fi == sq.spec_file() && ri == sq.spec_rank(),
                f == fi && r == ri,
                0 <= fi < 8 && 0 <= ri < 32,
                0 <= k <= 4,
                forall|j: int| 0 <= j < k ==> !#[trigger] ortho_attack_from(b, fi, ri, by, j),
            decreases 4 - k,
        {
            if self.ray_hits(f, r, ortho_step(k), by, PieceKind::Rook) {
                assert(ortho_attack_from(b, fi, ri, by, k as int));
                return true;
            }
            k = k + 1;
        }
        let mut k: u8 = 0;
        while k < 4
            invariant
                b == self.board(),
                fi == sq.spec_file() && ri == sq.spec_rank(),
                f == fi && r == ri,
                0 <= fi < 8 && 0 <= ri < 32,
                0 <= k <= 4,
                forall|j: int| 0 <= j < k ==> !#[trigger] diag_attack_from(b, fi, ri, by, j),
            decreases 4 - k,
        {
            if self.ray_hits(f, r, diag_step(k), by, PieceKind::Bishop) {
                assert(diag_attack_from(b, fi, ri, by, k as int));
                return true;
            }
            k = k + 1;
        }
        false
    }

    /// Is the side to move currently in check?
    pub fn is_in_check(&self) -> (c: bool)
        ensures
            c == in_check(self.board(), self.side_to_move),
    {
        match self.king_square(self.side_to_move) {
            Some(k) => self.is_attacked(k, self.side_to_move.opponent()),
            None => false,
        }
    }


    /// Knight (`!king`) or king (`king`) steps from `from` onto squares not holding our own pieces.
    fn gen_steps(&self, from: Square, us: Color, king: bool, out: &mut Vec<Move>)
        requires
            from.valid(),
        ensures
            extends(final(out)@, old(out)@),
            forall|m: Move|
                #[trigger] appended(final(out)@, old(out)@).contains(m) <==> step_any(self.board(), us, from, king, m),
            appended(final(out)@, old(out)@).no_duplicates(),
            appended(final(out)@, old(out)@) == step_list(self.board(), us, from, king, 8),
    {
        let ghost b = self.board();
        let ghost start = out@;
        let ghost mut added: Seq<Move> = Seq::empty();
        let mut k: u8 = 0;
        while k < 8
            invariant
                b == self.board(),
                b.len() == 64,
                from.valid(),
                0 <= k <= 8,
                out@ == start + added,
                added.no_duplicates(),
                forall|m: Move| added.contains(m) <==> step_upto(b, us, from, king, k as int, m),
                added == step_list(b, us, from, king, k as int),
            decreases 8 - k,
        {
            let d = if king {
                king_step(k)
            } else {
                knight_step(k)
            };
            let ghost dk = step_delta(king, k as int);
            let target = Square::from_file_rank(from.file() + d.0, from.rank() + d.1);
            let ghost old_added = added;
            let own = match target {
                Some(to) => match self.piece_at(to) {
                    Some(p) => p.color == us,
                    None => false,
                },
                None => true,
            };
            if !own {
                let m = Move::normal(from, target.unwrap());
                assert(!old_added.contains(m)) by {
                    if old_added.contains(m) {
                        let j = choose|j: int|
                            0 <= j < k && #[trigger] step_move(b, us, from, step_delta(king, j), m);
                        lemma_step_targets_distinct(from, king, j, k as int);
                    }
                }
                out.push(m);
                proof {
                    lemma_push_no_dup(added, m);
                    added = added.push(m);
                    assert forall|x: Move| added.contains(x) <==> step_upto(b, us, from, king, k + 1, x) by {
                        lemma_push_contains(old_added, m, x);
                        lemma_step_upto_succ(b, us, from, king, k as int, x);
                    }
                }
            } else {
                proof {
                    assert forall|x: Move| added.contains(x) <==> step_upto(b, us, from, king, k + 1, x) by {
                        lemma_step_upto_succ(b, us, from, king, k as int, x);
                    }
                }
            }
            k = k + 1;
        }
        assert(appended(out@, start) =~= added);
        assert(out@.take(start.len() as int) =~= start);
        assert forall|m: Move| step_any(b, us, from, king, m) <==> step_upto(b, us, from, king, 8, m) by {
        }
    }

    /// Bishop (`diag`) or rook (`!diag`) slides from `from`: along each direction,
    /// over empty squares, stopping at the first piece (captured if it is not ours).
    fn gen_slides(&self, from: Square, us: Color, diag: bool, out: &mut Vec<Move>)
        requires
            from.valid(),
        ensures
            extends(final(out)@, old(out)@),
            forall|m: Move|
                #[trigger] appended(final(out)@, old(out)@).contains(m) <==> slide_any(self.board(), us, from, diag, m),
            appended(final(out)@, old(out)@).no_duplicates(),
            appended(final(out)@, old(out)@) == slide_list(self.board(), us, from, diag, 4),
    {
        let ghost b = self.board();
        let ghost start = out@;
        let ghost mut added: Seq<Move> = Seq::empty();
        let ff = from.file();
        let fr = from.rank();
        let mut k: u8 = 0;
        while k < 4
            invariant
                b == self.board(),
                b.len() == 64,
                from.valid(),
                ff == from.spec_file() && fr == from.spec_rank(),
                0 <= k <= 4,
                out@ == start + added,
                added.no_duplicates(),
                forall|m: Move| added.contains(m) <==> slide_upto(b, us, from, diag, k as int, m),
                added == slide_list(b, us, from, diag, k as int),
            decreases 4 - k,
        {
            let d = if diag {
                diag_step(k)
            } else {
                ortho_step(k)
            };
            let ghost dk = slide_dir(diag, k as int);
            proof {
                lemma_slide_dirs(diag, k as int, k as int);
            }
            let (df, dr) = d;
            assert(added + ray_list(b, us, from, dk, 1) == slide_list(b, us, from, diag, k + 1));
            let mut n: i8 = 1;
            let mut f: i8 = ff + df;
            let mut r: i8 = fr + dr;
            loop
                invariant_except_break
                    added + ray_list(b, us, from, dk, n as int) == slide_list(b, us, from, diag, k + 1),
                    forall|m: Move|
                        added.contains(m) <==> (slide_upto(b, us, from, diag, k as int, m) || ray_upto(
                            b,
                            us,
                            from,
                            dk,
                            n as int,
                            m,
                        )),
                invariant
                    b == self.board(),
                    b.len() == 64,
                    from.valid(),
                    ff == from.spec_file() && fr == from.spec_rank(),
                    0 <= k < 4,
                    dk == slide_dir(diag, k as int),
                    dk == (df as int, dr as int),
                    unit_dir(dk),
                    1 <= n <= 8,
                    f == ray_coord(ff as int, dk.0, n as int),
                    r == ray_coord(fr as int, dk.1, n as int),
                    ray_clear(b, from, dk, n as int),
                    out@ == start + added,
                    added.no_duplicates(),
                ensures
                    out@ == start + added,
                    added.no_duplicates(),
                    added == slide_list(b, us, from, diag, k + 1),
                    forall|m: Move|
                        added.contains(m) <==> (slide_upto(b, us, from, diag, k as int, m) || ray_upto(
                            b,
                            us,
                            from,
                            dk,
                            10,
                            m,
                        )),
                decreases 9 - n,
            {
                let ghost old_added = added;
                let target = Square::from_file_rank(f, r);
                assert(target == ray_sq(from, dk, n as int));
                match target {
                    None => {
                        proof {
                            assert(added + ray_list(b, us, from, dk, n as int) =~= added);
                            assert forall|m: Move|
                                ray_upto(b, us, from, dk, 10, m) <==> ray_upto(b, us, from, dk, n as int, m) by {
                                if ray_upto(b, us, from, dk, 10, m) {
                                    let i = choose|i: int| 1 <= i < 10 && #[trigger] slide_step(b, us, from, dk, i, m);
                                    if i > n {
                                        lemma_ray_blocked(b, from, dk, n as int, i);
                                    }
                                    assert(i < n);
                                }
                            }
                        }
                        break;
                    },
                    Some(to) => {
                        let occupant = self.piece_at(to);
                        let stop = occupant.is_some();
                        let own = match occupant {
                            Some(p) => p.color == us,
                            None => false,
                        };
                        if !own {
                            let m = Move::normal(from, to);
                            assert(slide_step(b, us, from, dk, n as int, m));
                            assert(!old_added.contains(m)) by {
                                if old_added.contains(m) {
                                    if slide_upto(b, us, from, diag, k as int, m) {
                                        let (j, i) = choose|j: int, i: int|
                                            0 <= j < k && #[trigger] slide_step(b, us, from, slide_dir(diag, j), i, m);
                                        lemma_slide_dirs(diag, j, k as int);
                                        lemma_ray_injective(from, dk, n as int, slide_dir(diag, j), i);
                                    } else {
                                        let i = choose|i: int| 1 <= i < n && #[trigger] slide_step(b, us, from, dk, i, m);
                                        lemma_ray_injective(from, dk, n as int, dk, i);
                                    }
                                }
                            }
                            out.push(m);
                            proof {
                                lemma_push_no_dup(added, m);
                                added = added.push(m);
                            }
                            assert forall|x: Move|
                                added.contains(x) <==> (slide_upto(b, us, from, diag, k as int, x) || ray_upto(
                                    b,
                                    us,
                                    from,
                                    dk,
                                    n + 1,
                                    x,
                                )) by {
                                lemma_push_contains(old_added, m, x);
                                if ray_upto(b, us, from, dk, n + 1, x) {
                                    let i = choose|i: int| 1 <= i < n + 1 && #[trigger] slide_step(b, us, from, dk, i, x);
                                    if i < n {
                                        assert(ray_upto(b, us, from, dk, n as int, x));
                                    } else {
                                        assert(x == m);
                                    }
                                }
                                if ray_upto(b, us, from, dk, n as int, x) {
                                    let i = choose|i: int| 1 <= i < n && #[trigger] slide_step(b, us, from, dk, i, x);
                                    assert(ray_upto(b, us, from, dk, n + 1, x));
                                }
                                if x == m {
                                    assert(ray_upto(b, us, from, dk, n + 1, x));
                                }
                            }
                        } else {
                            assert forall|x: Move|
                                ray_upto(b, us, from, dk, n + 1, x) <==> ray_upto(b, us, from, dk, n as int, x) by {
                                if ray_upto(b, us, from, dk, n + 1, x) {
                                    let i = choose|i: int| 1 <= i < n + 1 && #[trigger] slide_step(b, us, from, dk, i, x);
                                    assert(i != n);
                                }
                            }
                        }
                        proof {
                            if stop {
                                if own {
                                    assert(old_added + ray_list(b, us, from, dk, n as int) =~= added);
                                } else {
                                    assert(old_added + ray_list(b, us, from, dk, n as int) =~= added);
                                }
                            } else {
                                assert(old_added + ray_list(b, us, from, dk, n as int) =~= added + ray_list(
                                    b,
                                    us,
                                    from,
                                    dk,
                                    n + 1,
                                ));
                            }
                        }
                        if stop {
                            proof {
                                assert forall|x: Move|
                                    ray_upto(b, us, from, dk, 10, x) <==> ray_upto(b, us, from, dk, n + 1, x) by {
                                    if ray_upto(b, us, from, dk, 10, x) {
                                        let i = choose|i: int| 1 <= i < 10 && #[trigger] slide_step(b, us, from, dk, i, x);
                                        if i > n {
                                            lemma_ray_blocked(b, from, dk, n as int, i);
                                        }
                                        assert(ray_upto(b, us, from, dk, n + 1, x));
                                    }
                                }
                            }
                            break;
                        }
                        proof {
                            assert forall|i: int| 1 <= i < n + 1 implies (#[trigger] ray_sq(from, dk, i) matches Some(s)
                                && piece_on(b, s) is None) by {
                                if i < n {
                                    assert(ray_clear(b, from, dk, n as int));
                                }
                            }
                        }
                        assert(n < 8) by {
                            assert(on_board(f as int, r as int));
                        }
                        n = n + 1;
                        f = f + df;
                        r = r + dr;
                    },
                }
            }
            proof {
                let ghost old_k = k as int;
                assert forall|x: Move|
                    added.contains(x) <==> slide_upto(b, us, from, diag, old_k + 1, x) by {
                    if slide_upto(b, us, from, diag, old_k + 1, x) {
                        let (j, i) = choose|j: int, i: int|
                            0 <= j < old_k + 1 && #[trigger] slide_step(b, us, from, slide_dir(diag, j), i, x);
                        if j < old_k {
                            assert(slide_upto(b, us, from, diag, old_k, x));
                        } else {
                            assert(i < 10) by {
                                if i >= 10 {
                                    assert(ray_clear(b, from, dk, i));
                                    assert(ray_sq(from, dk, 9) matches Some(s) && piece_on(b, s) is None);
                                }
                            }
                            assert(ray_upto(b, us, from, dk, 10, x));
                        }
                    }
                    if added.contains(x) {
                        if slide_upto(b, us, from, diag, old_k, x) {
                            let (j, i) = choose|j: int, i: int|
                                0 <= j < old_k && #[trigger] slide_step(b, us, from, slide_dir(diag, j), i, x);
                            assert(slide_upto(b, us, from, diag, old_k + 1, x));
                        } else {
                            let i = choose|i: int| 1 <= i < 10 && #[trigger] slide_step(b, us, from, dk, i, x);
                            assert(slide_step(b, us, from, slide_dir(diag, old_k), i, x));
                            assert(slide_upto(b, us, from, diag, old_k + 1, x));
                        }
                    }
                }
            }
            k = k + 1;
        }
        assert(appended(out@, start) =~= added);
        assert(out@.take(start.len() as int) =~= start);
        assert forall|m: Move| slide_any(b, us, from, diag, m) <==> slide_upto(b, us, from, diag, 4, m) by {
        }
    }

    /// A pawn move `from` -> `to` with `flag`: the four promotions when `to` is
    /// on the promotion rank `promo_rank`, otherwise the plain move.
    fn push_pawn_move(&self, from: Square, to: Square, promo_rank: i8, flag: MoveFlag, out: &mut Vec<Move>)
        ensures
            extends(final(out)@, old(out)@),
            forall|m: Move|
                #[trigger] appended(final(out)@, old(out)@).contains(m) <==> (m.from == from && m.to == to && m.flag
                    == flag && promo_fits(to, promo_rank as int, m.promotion)),
            appended(final(out)@, old(out)@).no_duplicates(),
            appended(final(out)@, old(out)@) == promo_list(from, to, promo_rank as int, flag),
    {
        let ghost start = out@;
        if to.rank() == promo_rank {
            let m1 = Move { from, to, promotion: Some(PieceKind::Queen), flag };
            let m2 = Move { from, to, promotion: Some(PieceKind::Rook), flag };
            let m3 = Move { from, to, promotion: Some(PieceKind::Bishop), flag };
            let m4 = Move { from, to, promotion: Some(PieceKind::Knight), flag };
            out.push(m1);
            out.push(m2);
            out.push(m3);
            out.push(m4);
            let ghost seg = seq![m1, m2, m3, m4];
            assert(appended(out@, start) =~= seg);
            assert(out@.take(start.len() as int) =~= start);
            assert forall|m: Move|
                seg.contains(m) <==> (m.from == from && m.to == to && m.flag == flag && promo_fits(
                    to,
                    promo_rank as int,
                    m.promotion,
                )) by {
                if seg.contains(m) {
                    let i = choose|i: int| 0 <= i < 4 && seg[i] == m;
                }
                if m.from == from && m.to == to && m.flag == flag && promo_fits(to, promo_rank as int, m.promotion) {
                    if m.promotion == Some(PieceKind::Queen) {
                        assert(seg[0] == m);
                    } else if m.promotion == Some(PieceKind::Rook) {
                        assert(seg[1] == m);
                    } else if m.promotion == Some(PieceKind::Bishop) {
                        assert(seg[2] == m);
                    } else {
                        assert(seg[3] == m);
                    }
                }
            }
        } else {
            let m = Move { from, to, promotion: None, flag };
            out.push(m);
            assert(appended(out@, start) =~= seq![m]);
            assert(out@.take(start.len() as int) =~= start);
            assert forall|x: Move| seq![m].contains(x) <==> x == m by {
                if seq![m].contains(x) {
                    let i = choose|i: int| 0 <= i < 1 && seq![m][i] == x;
                }
                if x == m {
                    assert(seq![m][0] == x);
                }
            }
        }
    }


    /// The capture (or en-passant capture) of the pawn on `from` toward `side`.
    fn gen_pawn_capture(&self, from: Square, us: Color, side: i8, out: &mut Vec<Move>)
        requires
            from.valid(),
            side == -1 || side == 1,
        ensures
            extends(final(out)@, old(out)@),
            forall|m: Move|
                #[trigger] appended(final(out)@, old(out)@).contains(m) <==> (m.from == from && (pawn_capture(
                    self.board(),
                    us,
                    from,
                    side as int,
                    m,
                ) || pawn_ep_capture(self.board(), us, self.en_passant, from, side as int, m))),
            appended(final(out)@, old(out)@).no_duplicates(),
            forall|m: Move| #[trigger]
                appended(final(out)@, old(out)@).contains(m) ==> m.to.spec_file() == from.spec_file()
                    + side,
            appended(final(out)@, old(out)@) == pawn_capture_list(self.board(), us, self.en_passant, from, side as int),
    {
        let ghost b = self.board();
        let ghost start = out@;
        let dir = us.pawn_dir();
        let promo: i8 = if us == Color::White {
            7
        } else {
            0
        };
        match Square::from_file_rank(from.file() + side, from.rank() + dir) {
            Some(to) => {
                proof {
                    lemma_square_at_coords(from.spec_file() + side, from.spec_rank() + us.spec_pawn_dir());
                }
                match self.piece_at(to) {
                    Some(p) => {
                        if p.color != us {
                            self.push_pawn_move(from, to, promo, MoveFlag::Normal, out);
                        } else {
                            assert(appended(out@, start) =~= Seq::<Move>::empty());
                            assert(out@.take(start.len() as int) =~= start);
                        }
                    },
                    None => {
                        if self.en_passant == Some(to) {
                            let m = Move { from, to, promotion: None, flag: MoveFlag::EnPassant };
                            out.push(m);
                            assert(appended(out@, start) =~= seq![m]);
                            assert(out@.take(start.len() as int) =~= start);
                            assert forall|x: Move| seq![m].contains(x) <==> x == m by {
                                if seq![m].contains(x) {
                                    let i = choose|i: int| 0 <= i < 1 && seq![m][i] == x;
                                }
                                if x == m {
                                    assert(seq![m][0] == x);
                                }
                            }
                        } else {
                            assert(appended(out@, start) =~= Seq::<Move>::empty());
                            assert(out@.take(start.len() as int) =~= start);
                        }
                    },
                }
            },
            None => {
                assert(appended(out@, start) =~= Seq::<Move>::empty());
                assert(out@.take(start.len() as int) =~= start);
            },
        }
    }

    /// Pawn pushes, double pushes, captures and en-passant captures from `from`.
    #[verifier::rlimit(30)]
    fn gen_pawn(&self, from: Square, us: Color, out: &mut Vec<Move>)
        requires
            from.valid(),
        ensures
            extends(final(out)@, old(out)@),
            forall|m: Move|
                #[trigger] appended(final(out)@, old(out)@).contains(m) <==> pawn_move(
                    self.board(),
                    us,
                    self.en_passant,
                    from,
                    m,
                ),
            appended(final(out)@, old(out)@).no_duplicates(),
            appended(final(out)@, old(out)@) == pawn_list(self.board(), us, self.en_passant, from),
    {
        let ghost b = self.board();
        let ghost start = out@;
        let ghost mut added: Seq<Move> = Seq::empty();
        let dir = us.pawn_dir();
        let start_rank: i8 = if us == Color::White {
            1
        } else {
            6
        };
        let promo: i8 = if us == Color::White {
            7
        } else {
            0
        };
        let f = from.file();
        let r = from.rank();
        let ghost fi = f as int;
        let ghost ri = r as int;
        let ghost di = dir as int;
        assert(promo == promo_rank(us));
        assert(start_rank == pawn_start_rank(us));

        // Single push, then the double push from the starting rank.
        let ghost single = |m: Move|
            square_at(fi, ri + di) == Some(m.to) && piece_on(b, m.to) is None && m.flag == MoveFlag::Normal
                && promotion_ok(m.to, us, m.promotion);
        let ghost double = |m: Move|
            ri == pawn_start_rank(us) && (square_at(fi, ri + di) matches Some(one) && piece_on(b, one) is None)
                && square_at(fi, ri + 2 * di) == Some(m.to) && piece_on(b, m.to) is None && m.flag
                == MoveFlag::DoublePawnPush && m.promotion is None;
        if let Some(one) = Square::from_file_rank(f, r + dir) {
            if self.piece_at(one).is_none() {
                let ghost mid = out@;
                self.push_pawn_move(from, one, promo, MoveFlag::Normal, out);
                proof {
                    lemma_extend_record(start, added, mid, out@);
                    added = added + appended(out@, mid);
                    assert(added =~= appended(out@, mid));
                }
                if r == start_rank {
                    if let Some(two) = Square::from_file_rank(f, r + 2 * dir) {
                        if self.piece_at(two).is_none() {
                            let m = Move { from, to: two, promotion: None, flag: MoveFlag::DoublePawnPush };
                            let ghost before = added;
                            assert(!before.contains(m));
                            out.push(m);
                            proof {
                                lemma_push_no_dup(added, m);
                                added = added.push(m);
                                assert forall|x: Move| added.contains(x) <==> (x.from == from && (single(x) || double(x))) by {
                                    lemma_push_contains(before, m, x);
                                }
                            }
                        } else {
                            assert forall|x: Move| added.contains(x) <==> (x.from == from && (single(x) || double(x))) by {
                            }
                        }
                    } else {
                        assert forall|x: Move| added.contains(x) <==> (x.from == from && (single(x) || double(x))) by {
                        }
                    }
                } else {
                    assert forall|x: Move| added.contains(x) <==> (x.from == from && (single(x) || double(x))) by {
                    }
                }
            }
        }
        assert(out@ == start + added);
        assert(added.no_duplicates());
        assert(added == pawn_push_list(b, us, from));
        assert(forall|x: Move| added.contains(x) <==> (x.from == from && (single(x) || double(x))));
        assert forall|x: Move| #[trigger] added.contains(x) implies x.to.spec_file() == fi by {
            lemma_square_at_coords(fi, ri + di);
            if double(x) {
                lemma_square_at_coords(fi, ri + 2 * di);
            }
        }

        // Captures toward the a-file side, then the h-file side.
        let ghost pushes = added;
        let ghost mid = out@;
        self.gen_pawn_capture(from, us, -1, out);
        let ghost left = appended(out@, mid);
        proof {
            lemma_extend_record(start, added, mid, out@);
            assert forall|x: Move| pushes.contains(x) implies !left.contains(x) by {}
            lemma_concat_no_dup(pushes, left);
            added = added + left;
        }
        let ghost mid2 = out@;
        self.gen_pawn_capture(from, us, 1, out);
        let ghost right = appended(out@, mid2);
        proof {
            lemma_extend_record(start, added, mid2, out@);
            assert forall|x: Move| added.contains(x) implies !right.contains(x) by {
                lemma_concat_contains(pushes, left, x);
            }
            lemma_concat_no_dup(added, right);
            added = added + right;
            assert(appended(out@, start) =~= added);
            assert(out@.take(start.len() as int) =~= start);
            assert forall|x: Move| added.contains(x) <==> pawn_move(b, us, self.en_passant, from, x) by {
                lemma_concat_contains(pushes, left, x);
                lemma_concat_contains(pushes + left, right, x);
                assert(pushes.contains(x) <==> (x.from == from && (single(x) || double(x))));
                assert(left.contains(x) <==> (x.from == from && (pawn_capture(b, us, from, -1, x) || pawn_ep_capture(b, us, self.en_passant, from, -1, x))));
                assert(right.contains(x) <==> (x.from == from && (pawn_capture(b, us, from, 1, x) || pawn_ep_capture(b, us, self.en_passant, from, 1, x))));
                assert(added == pushes + left + right);
                assert(added.contains(x) <==> (pushes.contains(x) || left.contains(x) || right.contains(x)));
                assert(single(x) <==> (square_at(fi, ri + di) == Some(x.to) && piece_on(b, x.to) is None && x.flag == MoveFlag::Normal
                    && promotion_ok(x.to, us, x.promotion)));
                assert(pawn_move(b, us, self.en_passant, from, x) <==> (x.from == from && (single(x) || double(x)
                    || pawn_capture(b, us, from, -1, x) || pawn_capture(b, us, from, 1, x)
                    || pawn_ep_capture(b, us, self.en_passant, from, -1, x) || pawn_ep_capture(b, us, self.en_passant, from, 1, x))));
            }
        }
    }

    /// Castling for `us`: generated when the first king of `us` stands on the
    /// e-file of its back rank, out of check, with the right held, the path
    /// empty, and the king's path not attacked.
    fn gen_castles(&self, us: Color, out: &mut Vec<Move>)
        ensures
            extends(final(out)@, old(out)@),
            forall|m: Move|
                #[trigger] appended(final(out)@, old(out)@).contains(m) <==> castle_move(
                    self.board(),
                    us,
                    self.castling,
                    m,
                ),
            appended(final(out)@, old(out)@).no_duplicates(),
            appended(final(out)@, old(out)@) == castle_list(self.board(), us, self.castling),
    {
        let ghost b = self.board();
        let ghost start = out@;
        let ghost mut added: Seq<Move> = Seq::empty();
        proof {
            assert(out@.take(start.len() as int) =~= start);
            assert(appended(out@, start) =~= added);
        }
        // Can't castle out of check.
        let king_from = match self.king_square(us) {
            Some(k) => k,
            None => {
                assert(castle_list(b, us, self.castling) =~= Seq::<Move>::empty());
                return;
            },
        };
        let opp = us.opponent();
        if self.is_attacked(king_from, opp) {
            assert(castle_list(b, us, self.castling) =~= Seq::<Move>::empty());
            return;
        }
        let (rank, ks, qs) = match us {
            Color::White => (0i8, self.castling.white_kingside, self.castling.white_queenside),
            Color::Black => (7i8, self.castling.black_kingside, self.castling.black_queenside),
        };
        assert(rank == home_rank(us));
        // King always starts on e-file for standard castling.
        let e = Square::from_file_rank(4, rank).unwrap();
        if king_from != e {
            assert(castle_list(b, us, self.castling) =~= Seq::<Move>::empty());
            return;
        }
        // Kingside: f and g empty, king doesn't pass through/into attack.
        let fsq = Square::from_file_rank(5, rank).unwrap();
        let gsq = Square::from_file_rank(6, rank).unwrap();
        let ks_ok = ks && self.piece_at(fsq).is_none() && self.piece_at(gsq).is_none() && !self.is_attacked(
            fsq,
            opp,
        ) && !self.is_attacked(gsq, opp);
        let mk = Move { from: e, to: gsq, promotion: None, flag: MoveFlag::CastleKingside };
        if ks_ok {
            out.push(mk);
            proof {
                added = added.push(mk);
            }
        }
        // Queenside: b, c, d empty; king passes over d and c.
        let dsq = Square::from_file_rank(3, rank).unwrap();
        let csq = Square::from_file_rank(2, rank).unwrap();
        let bsq = Square::from_file_rank(1, rank).unwrap();
        let qs_ok = qs && self.piece_at(dsq).is_none() && self.piece_at(csq).is_none() && self.piece_at(
            bsq,
        ).is_none() && !self.is_attacked(dsq, opp) && !self.is_attacked(csq, opp);
        let mq = Move { from: e, to: csq, promotion: None, flag: MoveFlag::CastleQueenside };
        if qs_ok {
            let ghost before = added;
            out.push(mq);
            proof {
                lemma_push_contains(before, mq, mk);
                added = added.push(mq);
            }
        }
        proof {
            assert(added =~= (if ks_ok {
                seq![mk]
            } else {
                Seq::empty()
            }) + (if qs_ok {
                seq![mq]
            } else {
                Seq::empty()
            }));
            assert(out@ =~= start + added);
            assert(out@.take(start.len() as int) =~= start);
            assert(appended(out@, start) =~= added);
            assert forall|x: Move| added.contains(x) <==> castle_move(b, us, self.castling, x) by {
                if added.contains(x) {
                    let i = choose|i: int| 0 <= i < added.len() && added[i] == x;
                }
                if castle_move(b, us, self.castling, x) {
                    if x.flag == MoveFlag::CastleKingside {
                        assert(x == mk);
                        assert(added[0] == x);
                    } else {
                        assert(x == mq);
                        assert(added[added.len() - 1] == x);
                    }
                }
            }
            assert(castle_move(b, us, self.castling, mk) == ks_ok) by {
                if ks_ok {
                    assert(added[0] == mk);
                }
                if castle_move(b, us, self.castling, mk) {
                    assert(added.contains(mk));
                }
            }
            assert(castle_move(b, us, self.castling, mq) == qs_ok) by {
                if qs_ok {
                    assert(added[added.len() - 1] == mq);
                }
                if castle_move(b, us, self.castling, mq) {
                    assert(added.contains(mq));
                }
            }
            assert(added =~= castle_list(b, us, self.castling));
        }
    }

    /// The moves of the piece `p` (of the side to move) standing on `from`.
    fn gen_piece_moves(&self, from: Square, p: Piece, out: &mut Vec<Move>)
        requires
            from.valid(),
            p.color == self.side_to_move,
        ensures
            extends(final(out)@, old(out)@),
            forall|m: Move|
                #[trigger] appended(final(out)@, old(out)@).contains(m) <==> piece_move(
                    self.board(),
                    p.color,
                    self.castling,
                    self.en_passant,
                    p.kind,
                    from,
                    m,
                ),
            appended(final(out)@, old(out)@).no_duplicates(),
            appended(final(out)@, old(out)@) == piece_list(
                self.board(),
                p.color,
                self.castling,
                self.en_passant,
                p.kind,
                from,
            ),
    {
        let ghost b = self.board();
        let us = p.color;
        match p.kind {
            PieceKind::Pawn => self.gen_pawn(from, us, out),
            PieceKind::Knight => self.gen_steps(from, us, false, out),
            PieceKind::Bishop => self.gen_slides(from, us, true, out),
            PieceKind::Rook => self.gen_slides(from, us, false, out),
            PieceKind::King => {
                let ghost start = out@;
                self.gen_steps(from, us, true, out);
                let ghost mid = out@;
                let ghost steps = appended(mid, start);
                self.gen_castles(us, out);
                let ghost castles = appended(out@, mid);
                proof {
                    assert(mid =~= start + steps);
                    lemma_extend_record(start, steps, mid, out@);
                    assert forall|x: Move| steps.contains(x) implies !castles.contains(x) by {}
                    lemma_concat_no_dup(steps, castles);
                    assert(appended(out@, start) =~= steps + castles);
                    assert(out@.take(start.len() as int) =~= start);
                    assert forall|x: Move|
                        #[trigger] appended(out@, start).contains(x) <==> piece_move(
                            b,
                            us,
                            self.castling,
                            self.en_passant,
                            p.kind,
                            from,
                            x,
                        ) by {
                        lemma_concat_contains(steps, castles, x);
                    }
                }
            },
            PieceKind::Queen => {
                let ghost start = out@;
                self.gen_slides(from, us, true, out);
                let ghost mid = out@;
                let ghost diags = appended(mid, start);
                self.gen_slides(from, us, false, out);
                let ghost orthos = appended(out@, mid);
                proof {
                    assert(mid =~= start + diags);
                    lemma_extend_record(start, diags, mid, out@);
                    assert forall|x: Move| diags.contains(x) implies !orthos.contains(x) by {
                        if orthos.contains(x) {
                            let (k, n) = choose|k: int, n: int|
                                0 <= k < 4 && #[trigger] slide_step(b, us, from, slide_dir(true, k), n, x);
                            let (j, n2) = choose|j: int, n2: int|
                                0 <= j < 4 && #[trigger] slide_step(b, us, from, slide_dir(false, j), n2, x);
                            lemma_slide_dirs(true, k, k);
                            lemma_slide_dirs(false, j, j);
                            lemma_slide_dirs(true, k, j);
                            lemma_ray_injective(from, diag_dir(k), n, ortho_dir(j), n2);
                        }
                    }
                    lemma_concat_no_dup(diags, orthos);
                    assert(appended(out@, start) =~= diags + orthos);
                    assert(out@.take(start.len() as int) =~= start);
                    assert forall|x: Move|
                        #[trigger] appended(out@, start).contains(x) <==> piece_move(
                            b,
                            us,
                            self.castling,
                            self.en_passant,
                            p.kind,
                            from,
                            x,
                        ) by {
                        lemma_concat_contains(diags, orthos, x);
                    }
                }
            },
        }
    }

    /// All pseudo-legal moves for the side to move (own king safety not yet checked).
    fn pseudo_legal_moves(&self) -> (moves: Vec<Move>)
        ensures
            forall|m: Move|
                #[trigger] moves@.contains(m) <==> pseudo_move(
                    self.board(),
                    self.side_to_move,
                    self.castling,
                    self.en_passant,
                    m,
                ),
            single_king(self.board(), self.side_to_move) ==> moves@.no_duplicates(),
            single_king(self.board(), self.side_to_move) ==> squares_ascending(moves@),
            repeats_only_castles(moves@),
            moves@ == pseudo_list(self.board(), self.side_to_move, self.castling, self.en_passant, 64),
    {
        let ghost b = self.board();
        let us = self.side_to_move;
        let ghost rights = self.castling;
        let ghost ep = self.en_passant;
        let mut moves: Vec<Move> = Vec::new();
        let mut i: u8 = 0;
        while i < 64
            invariant
                b == self.board(),
                b.len() == 64,
                us == self.side_to_move,
                rights == self.castling,
                ep == self.en_passant,
                0 <= i <= 64,
                forall|m: Move| #[trigger] moves@.contains(m) <==> (m.from.0 < i && pseudo_move(b, us, rights, ep, m)),
                single_king(b, us) ==> moves@.no_duplicates(),
                single_king(b, us) ==> squares_ascending(moves@),
                repeats_only_castles(moves@),
                moves@ == pseudo_list(b, us, rights, ep, i as int),
            decreases 64 - i,
        {
            let sq = Square(i);
            let ghost before = moves@;
            match self.piece_at(sq) {
                Some(p) => {
                    if p.color == us {
                        self.gen_piece_moves(sq, p, &mut moves);
                        let ghost seg = appended(moves@, before);
                        proof {
                            assert(moves@ =~= before + seg);
                            assert(moves@ == pseudo_list(b, us, rights, ep, i + 1));
                            assert forall|m: Move| #[trigger] seg.contains(m) implies (m.from == sq || castle_move(b, us, rights, m)) by {}
                            assert forall|m: Move| #[trigger] moves@.contains(m) <==> (m.from.0 < i + 1 && pseudo_move(b, us, rights, ep, m)) by {
                                lemma_concat_contains(before, seg, m);
                                if castle_move(b, us, rights, m) {
                                    lemma_king_from_holds(b, us, 0);
                                    lemma_king_from_finds(b, us, 0, m.from.0 as int);
                                }
                                if p.kind == PieceKind::King {
                                    lemma_king_from_finds(b, us, 0, i as int);
                                }
                                if m.from.0 == i {
                                    assert(m.from == sq);
                                }
                            }
                            assert forall|m: Move| before.contains(m) && seg.contains(m) implies is_castle(m) by {
                                if m.from.0 == i {
                                    assert(before.contains(m));
                                }
                            }
                            lemma_concat_repeats(before, seg);
                            if single_king(b, us) {
                                assert forall|m: Move| seg.contains(m) implies m.from.0 == i by {
                                    if m.from != sq {
                                        lemma_king_from_finds(b, us, 0, i as int);
                                    }
                                }
                                lemma_concat_ascending(before, seg, i);
                                assert forall|m: Move| before.contains(m) implies !seg.contains(m) by {
                                    if seg.contains(m) && castle_move(b, us, rights, m) {
                                        lemma_king_from_finds(b, us, 0, i as int);
                                    }
                                }
                                lemma_concat_no_dup(before, seg);
                            }
                        }
                    } else {
                        assert(moves@ =~= pseudo_list(b, us, rights, ep, i + 1));
                        assert forall|m: Move| #[trigger] moves@.contains(m) <==> (m.from.0 < i + 1 && pseudo_move(b, us, rights, ep, m)) by {
                            if m.from.0 == i {
                                assert(m.from == sq);
                            }
                        }
                    }
                },
                None => {
                    assert(moves@ =~= pseudo_list(b, us, rights, ep, i + 1));
                    assert forall|m: Move| #[trigger] moves@.contains(m) <==> (m.from.0 < i + 1 && pseudo_move(b, us, rights, ep, m)) by {
                        if m.from.0 == i {
                            assert(m.from == sq);
                        }
                    }
                },
            }
            i = i + 1;
        }
        moves
    }

    /// This position with `mv` played on the board only (turn, rights and clocks unchanged).
    fn board_after(&self, mv: Move) -> (next: Position)
        requires
            mv.valid(),
            piece_on(self.board(), mv.from) is Some,
        ensures
            next.board() == after_board(self.board(), self.side_to_move, mv),
            next.side_to_move == self.side_to_move,
            next.castling == self.castling,
            next.en_passant == self.en_passant,
            next.halfmove_clock == self.halfmove_clock,
            next.fullmove_number == self.fullmove_number,
    {
        let mut next = self.clone();
        let us = self.side_to_move;
        let mut piece = self.piece_at(mv.from).unwrap();
        next.set_piece(mv.from, None);
        // En-passant removes the passed pawn, which sits beside the destination.
        if mv.flag == MoveFlag::EnPassant {
            let cap_sq = Square::from_file_rank(mv.to.file(), mv.from.rank()).unwrap();
            next.set_piece(cap_sq, None);
        }
        // Promotion swaps the pawn for the chosen piece.
        if let Some(kind) = mv.promotion {
            piece = Piece::new(us, kind);
        }
        next.set_piece(mv.to, Some(piece));
        // Move the rook when castling.
        let rank = mv.from.rank();
        if mv.flag == MoveFlag::CastleKingside {
            let rook_from = Square::from_file_rank(7, rank).unwrap();
            let rook_to = Square::from_file_rank(5, rank).unwrap();
            let rook = next.piece_at(rook_from);
            next.set_piece(rook_from, None);
            next.set_piece(rook_to, rook);
        } else if mv.flag == MoveFlag::CastleQueenside {
            let rook_from = Square::from_file_rank(0, rank).unwrap();
            let rook_to = Square::from_file_rank(3, rank).unwrap();
            let rook = next.piece_at(rook_from);
            next.set_piece(rook_from, None);
            next.set_piece(rook_to, rook);
        }
        assert(next.board() =~= after_board(self.board(), us, mv));
        next
    }

    /// All fully legal moves for the side to move: each move of a piece of the
    /// side to move by its rules of movement that leaves that side's king
    /// present and not attacked. No move appears twice when the side to move
    /// has at most one king; with more, a castling move is offered once for
    /// each of them, and no other move repeats. The moves come in the order
    /// [`legal_list`] gives: square by square from `a1`, each piece's moves in
    /// the order of its rules.
    pub fn legal_moves(&self) -> (moves: Vec<Move>)
        ensures
            forall|m: Move| #[trigger] moves@.contains(m) <==> self.is_legal(m),
            single_king(self.board(), self.side_to_move) ==> moves@.no_duplicates(),
            single_king(self.board(), self.side_to_move) ==> squares_ascending(moves@),
            repeats_only_castles(moves@),
            moves@ == legal_list(*self),
    {
        let ghost b = self.board();
        let us = self.side_to_move;
        let pseudo = self.pseudo_legal_moves();
        let mut out: Vec<Move> = Vec::new();
        let mut j: usize = 0;
        assert(pseudo@.take(0) =~= Seq::<Move>::empty());
        assert(out@ =~= pseudo@.take(0).filter(legal_in(*self))) by {
            reveal(Seq::filter);
        }
        while j < pseudo.len()
            invariant
                b == self.board(),
                us == self.side_to_move,
                0 <= j <= pseudo@.len(),
                forall|m: Move|
                    #[trigger] pseudo@.contains(m) <==> pseudo_move(b, us, self.castling, self.en_passant, m),
                single_king(b, us) ==> pseudo@.no_duplicates(),
                forall|m: Move|
                    #[trigger] out@.contains(m) <==> (pseudo@.take(j as int).contains(m) && self.is_legal(m)),
                single_king(b, us) ==> out@.no_duplicates(),
                repeats_only_castles(pseudo@),
                repeats_only_castles(out@),
                single_king(b, us) ==> squares_ascending(pseudo@),
                single_king(b, us) ==> squares_ascending(out@),
                pseudo@ == pseudo_list(b, us, self.castling, self.en_passant, 64),
                out@ == pseudo@.take(j as int).filter(legal_in(*self)),
            decreases pseudo@.len() - j,
        {
            let mv = pseudo[j];
            assert(pseudo@.contains(mv));
            let next = self.board_after(mv);
            // After our move it's the opponent's turn; verify *our* king is safe.
            let safe = match next.king_square(us) {
                Some(k) => !next.is_attacked(k, us.opponent()),
                None => false,
            };
            let ghost before = out@;
            proof {
                assert(pseudo@.take(j + 1) =~= pseudo@.take(j as int).push(mv));
            }
            if safe {
                proof {
                    if single_king(b, us) && before.contains(mv) {
                        let i = choose|i: int| 0 <= i < j && pseudo@.take(j as int)[i] == mv;
                        assert(pseudo@[i] == pseudo@[j as int]);
                    }
                }
                proof {
                    if before.contains(mv) {
                        let i = choose|i: int| 0 <= i < j && pseudo@.take(j as int)[i] == mv;
                        assert(pseudo@[i] == pseudo@[j as int]);
                    }
                }
                out.push(mv);
                proof {
                    if single_king(b, us) {
                        lemma_push_no_dup(before, mv);
                    }
                    lemma_push_repeats(before, mv);
                    if single_king(b, us) {
                        assert forall|x: Move| before.contains(x) implies x.from.0 <= mv.from.0 by {
                            let k = choose|k: int| 0 <= k < j && pseudo@.take(j as int)[k] == x;
                            assert(pseudo@[k] == x);
                        }
                        lemma_push_ascending(before, mv);
                    }
                }
            }
            proof {
                assert forall|m: Move|
                    #[trigger] out@.contains(m) <==> (pseudo@.take(j + 1).contains(m) && self.is_legal(m)) by {
                    lemma_push_contains(pseudo@.take(j as int), mv, m);
                    if safe {
                        lemma_push_contains(before, mv, m);
                    }
                }
                assert(pseudo@.take(j + 1).drop_last() =~= pseudo@.take(j as int));
                assert(safe == self.is_legal(mv));
                assert(out@ =~= pseudo@.take(j + 1).filter(legal_in(*self))) by {
                    reveal(Seq::filter);
                }
            }
            j = j + 1;
        }
        assert(pseudo@.take(pseudo@.len() as int) =~= pseudo@);
        out
    }

    /// Apply a move without checking legality, returning the resulting position.
    /// Assumes `mv` came from this position's generator (or is otherwise valid):
    /// its squares are on the board and a piece stands on `mv.from`.
    pub fn apply_unchecked(&self, mv: Move) -> (next: Position)
        requires
            mv.valid(),
            piece_on(self.board(), mv.from) is Some,
            !resets_clock(self.board(), mv) ==> self.halfmove_clock < u32::MAX,
            self.side_to_move == Color::Black ==> self.fullmove_number < u32::MAX,
        ensures
            follows(*self, mv, next),
    {
        let us = self.side_to_move;
        let moving = self.piece_at(mv.from).unwrap();
        let is_capture = self.piece_at(mv.to).is_some() || mv.flag == MoveFlag::EnPassant;
        let is_pawn = moving.kind == PieceKind::Pawn;
        let piece = match mv.promotion {
            Some(kind) => Piece::new(us, kind),
            None => moving,
        };
        let mut next = self.board_after(mv);

        // Update castling rights: king move revokes both sides; a rook leaving
        // its home square (moved or captured) revokes that side.
        if piece.kind == PieceKind::King {
            match us {
                Color::White => {
                    next.castling.white_kingside = false;
                    next.castling.white_queenside = false;
                },
                Color::Black => {
                    next.castling.black_kingside = false;
                    next.castling.black_queenside = false;
                },
            }
        }
        // Any move touching a corner square (as origin or destination) clears the
        // matching right: the rook moving away and the rook being captured.
        if mv.from.0 == 0 || mv.to.0 == 0 {
            next.castling.white_queenside = false;
        }
        if mv.from.0 == 7 || mv.to.0 == 7 {
            next.castling.white_kingside = false;
        }
        if mv.from.0 == 56 || mv.to.0 == 56 {
            next.castling.black_queenside = false;
        }
        if mv.from.0 == 63 || mv.to.0 == 63 {
            next.castling.black_kingside = false;
        }

        // En-passant target only after a double push.
        next.en_passant = if mv.flag == MoveFlag::DoublePawnPush {
            let mid_rank = (mv.from.rank() + mv.to.rank()) / 2;
            Square::from_file_rank(mv.from.file(), mid_rank)
        } else {
            None
        };

        // Halfmove clock: reset on pawn move or capture, else increment.
        next.halfmove_clock = if is_pawn || is_capture {
            0
        } else {
            self.halfmove_clock + 1
        };
        if us == Color::Black {
            next.fullmove_number = self.fullmove_number + 1;
        }
        next.side_to_move = us.opponent();
        next
    }

    /// The standard chess starting position.
    pub fn start() -> (p: Position)
        ensures
            p.board() == Seq::new(64, |i: int| start_piece(i)),
            p.side_to_move == Color::White,
            p.castling == all_rights(),
            p.en_passant is None,
            p.halfmove_clock == 0,
            p.fullmove_number == 1,
    {
        let mut pos = Position::empty();
        let mut file: u8 = 0;
        while file < 8
            invariant
                0 <= file <= 8,
                pos.board().len() == 64,
                forall|i: int|
                    0 <= i < 64 ==> #[trigger] pos.board()[i] == (if i % 8 < file {
                        start_piece(i)
                    } else {
                        None
                    }),
                pos.side_to_move == Color::White,
                pos.castling == CastlingRights::spec_none(),
                pos.en_passant is None,
                pos.halfmove_clock == 0,
                pos.fullmove_number == 1,
            decreases 8 - file,
        {
            let kind = if file == 0 || file == 7 {
                PieceKind::Rook
            } else if file == 1 || file == 6 {
                PieceKind::Knight
            } else if file == 2 || file == 5 {
                PieceKind::Bishop
            } else if file == 3 {
                PieceKind::Queen
            } else {
                PieceKind::King
            };
            pos.set_piece(Square(file), Some(Piece::new(Color::White, kind)));
            pos.set_piece(Square(8 + file), Some(Piece::new(Color::White, PieceKind::Pawn)));
            pos.set_piece(Square(48 + file), Some(Piece::new(Color::Black, PieceKind::Pawn)));
            pos.set_piece(Square(56 + file), Some(Piece::new(Color::Black, kind)));
            file = file + 1;
        }
        pos.castling = CastlingRights {
            white_kingside: true,
            white_queenside: true,
            black_kingside: true,
            black_queenside: true,
        };
        assert(pos.board() =~= Seq::new(64, |i: int| start_piece(i)));
        pos
    }
}

/// `next` is `prev` after the side to move plays `m`: the board as
/// [`after_board`] describes it, the turn passes, castling rights as
/// [`rights_after`], the en-passant target as [`ep_after`], the halfmove clock
/// restarts on a pawn move or capture and counts up otherwise, and the
/// fullmove number counts up after Black's move.
pub open spec fn follows(prev: Position, m: Move, next: Position) -> bool {
    let b = prev.board();
    let us = prev.side_to_move;
    &&& next.board() == after_board(b, us, m)
    &&& next.side_to_move == us.spec_opponent()
    &&& next.castling == rights_after(prev.castling, us, moved_piece(b, us, m), m)
    &&& next.en_passant == ep_after(m)
    &&& next.halfmove_clock == (if resets_clock(b, m) {
        0
    } else {
        prev.halfmove_clock + 1
    })
    &&& next.fullmove_number == (if us == Color::Black {
        prev.fullmove_number + 1
    } else {
        prev.fullmove_number as int
    })
}

/// A position and a move determine the position that follows.
pub proof fn lemma_follows_functional(p: Position, m: Move, a: Position, b: Position)
    requires
        follows(p, m, a),
        follows(p, m, b),
    ensures
        a == b,
{
    assert(a.squares =~= b.squares);
}

/// Every legal move leaves the mover's king on the board and not attacked in
/// the position it produces.
pub proof fn lemma_legal_move_keeps_king_safe(pos: Position, m: Move, next: Position)
    requires
        pos.is_legal(m),
        follows(pos, m, next),
    ensures
        king_square_of(next.board(), pos.side_to_move) matches Some(k) && !attacked(
            next.board(),
            k,
            next.side_to_move,
        ),
{
}

} // verus!
