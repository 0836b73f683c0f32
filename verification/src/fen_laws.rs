//! Proof that reading back the FEN text of a position gives that position.

use vstd::prelude::*;

use crate::fen::{
    castling_text, empty_board, ep_text, fen_pos, letter_if, place_chars, place_rows,
    placement_text, row_text, side_text, spec_parse_fen, spec_to_fen, FenFault, FenPos,
};
use crate::position::Position;
use crate::text::{
    all_digits, decimal_text, decimal_value, digit_char, digit_value, is_digit, is_sep, is_ws,
    nonempty, parse_u32_spec, split_seq, words, lemma_split_nonempty,
};
use crate::types::{spec_square_from_algebraic, spec_square_name, square_at, Color, Piece, Square};

verus! {

broadcast use crate::position::Position::lemma_board_len;

// ---- Splitting ----------------------------------------------------------------

/// Splitting at a separator splits the two sides independently.
pub proof fn lemma_split_concat(a: Seq<char>, c: char, b: Seq<char>, sep: Option<char>)
    requires
        is_sep(c, sep),
    ensures
        split_seq(a + seq![c] + b, sep) == split_seq(a, sep) + split_seq(b, sep),
    decreases b.len(),
{
    let s = a + seq![c] + b;
    if b.len() == 0 {
        assert(s.drop_last() =~= a);
        assert(split_seq(b, sep) =~= seq![Seq::<char>::empty()]);
        assert(split_seq(s, sep) =~= split_seq(a, sep) + split_seq(b, sep));
    } else {
        let b2 = b.drop_last();
        lemma_split_concat(a, c, b2, sep);
        assert(s.drop_last() =~= a + seq![c] + b2);
        assert(s.last() == b.last());
        lemma_split_nonempty(b2, sep);
        lemma_split_nonempty(a, sep);
        let l = split_seq(a, sep);
        let r = split_seq(b2, sep);
        if is_sep(b.last(), sep) {
            assert(split_seq(s, sep) =~= l + split_seq(b, sep));
        } else {
            assert((l + r).update((l + r).len() - 1, (l + r).last().push(b.last())) =~= l + r.update(
                r.len() - 1,
                r.last().push(b.last()),
            ));
            assert(split_seq(s, sep) =~= l + split_seq(b, sep));
        }
    }
}

/// A text without separators is a single piece.
pub proof fn lemma_split_single(t: Seq<char>, sep: Option<char>)
    requires
        forall|i: int| 0 <= i < t.len() ==> !is_sep(#[trigger] t[i], sep),
    ensures
        split_seq(t, sep) == seq![t],
    decreases t.len(),
{
    if t.len() > 0 {
        let t2 = t.drop_last();
        assert forall|i: int| 0 <= i < t2.len() implies !is_sep(#[trigger] t2[i], sep) by {
            assert(t2[i] == t[i]);
        }
        lemma_split_single(t2, sep);
        assert(!is_sep(t[t.len() - 1], sep));
        assert(t2.push(t.last()) =~= t);
        assert(split_seq(t, sep) =~= seq![t]);
    } else {
        assert(t =~= Seq::<char>::empty());
    }
}

/// Keeping the non-empty pieces of all-non-empty pieces keeps them all.
pub proof fn lemma_nonempty_all(ts: Seq<Seq<char>>)
    requires
        forall|i: int| 0 <= i < ts.len() ==> (#[trigger] ts[i]).len() > 0,
    ensures
        nonempty(ts) == ts,
    decreases ts.len(),
{
    if ts.len() > 0 {
        let t2 = ts.drop_last();
        assert forall|i: int| 0 <= i < t2.len() implies (#[trigger] t2[i]).len() > 0 by {
            assert(t2[i] == ts[i]);
        }
        lemma_nonempty_all(t2);
        assert(ts[ts.len() - 1].len() > 0);
        assert(t2.push(ts.last()) =~= ts);
    }
}

/// No character of `s` is whitespace.
pub open spec fn no_ws(s: Seq<char>) -> bool {
    forall|i: int| 0 <= i < s.len() ==> !is_ws(#[trigger] s[i])
}

/// No character of `s` is `/`.
pub open spec fn no_slash(s: Seq<char>) -> bool {
    forall|i: int| 0 <= i < s.len() ==> #[trigger] s[i] != '/'
}

pub proof fn lemma_no_ws_concat(a: Seq<char>, b: Seq<char>)
    requires
        no_ws(a),
        no_ws(b),
    ensures
        no_ws(a + b),
{
    assert forall|i: int| 0 <= i < (a + b).len() implies !is_ws(#[trigger] (a + b)[i]) by {
        if i < a.len() {
            assert((a + b)[i] == a[i]);
        } else {
            assert((a + b)[i] == b[i - a.len()]);
        }
    }
}

pub proof fn lemma_no_slash_concat(a: Seq<char>, b: Seq<char>)
    requires
        no_slash(a),
        no_slash(b),
    ensures
        no_slash(a + b),
{
    assert forall|i: int| 0 <= i < (a + b).len() implies #[trigger] (a + b)[i] != '/' by {
        if i < a.len() {
            assert((a + b)[i] == a[i]);
        } else {
            assert((a + b)[i] == b[i - a.len()]);
        }
    }
}

// ---- Characters -------------------------------------------------------------

/// A piece letter reads back as the piece, and is neither a digit, whitespace nor `/`.
pub proof fn lemma_piece_char(p: Piece)
    ensures
        Piece::spec_from_char(p.spec_to_char()) == Some(p),
        !is_digit(p.spec_to_char()),
        !is_ws(p.spec_to_char()),
        p.spec_to_char() != '/',
{
}

/// A digit 1..=9 is a digit character of that value.
pub proof fn lemma_digit_char(e: nat)
    requires
        1 <= e <= 9,
    ensures
        is_digit(digit_char(e)),
        digit_value(digit_char(e)) == e,
        !is_ws(digit_char(e)),
        digit_char(e) != '/',
{
}

/// The text of a rank holds no whitespace and no `/`, and is non-empty when
/// any file remains or an empty run is pending.
pub proof fn lemma_row_text_chars(b: Seq<Option<Piece>>, r: int, f: int, e: nat)
    requires
        0 <= r < 8,
        b.len() == 64,
        e + (if f < 8 { 8 - f } else { 0 }) <= 8,
        f <= 8,
    ensures
        no_ws(row_text(b, r, f, e)),
        no_slash(row_text(b, r, f, e)),
        (f < 8 || e > 0) ==> row_text(b, r, f, e).len() > 0,
    decreases 8 - f,
{
    let pending = if e > 0 {
        seq![digit_char(e)]
    } else {
        Seq::<char>::empty()
    };
    if e > 0 {
        lemma_digit_char(e);
    }
    assert(no_ws(pending) && no_slash(pending));
    if f < 8 {
        match b[r * 8 + f] {
            Some(p) => {
                lemma_row_text_chars(b, r, f + 1, 0);
                lemma_piece_char(p);
                let head = pending.push(p.spec_to_char());
                assert(no_ws(head) && no_slash(head));
                lemma_no_ws_concat(head, row_text(b, r, f + 1, 0));
                lemma_no_slash_concat(head, row_text(b, r, f + 1, 0));
            },
            None => {
                lemma_row_text_chars(b, r, f + 1, e + 1);
            },
        }
    }
}

/// The rank descriptions of ranks `rank` down to 1, in that order.
pub open spec fn rows_of(b: Seq<Option<Piece>>, rank: int) -> Seq<Seq<char>>
    decreases rank,
{
    if rank <= 0 {
        seq![row_text(b, 0, 0, 0)]
    } else {
        seq![row_text(b, rank, 0, 0)] + rows_of(b, rank - 1)
    }
}

/// The placement field splits at `/` into the rank descriptions; it holds no whitespace.
pub proof fn lemma_placement_split(b: Seq<Option<Piece>>, rank: int)
    requires
        b.len() == 64,
        0 <= rank < 8,
    ensures
        split_seq(placement_text(b, rank), Some('/')) == rows_of(b, rank),
        no_ws(placement_text(b, rank)),
        placement_text(b, rank).len() > 0,
        rows_of(b, rank).len() == rank + 1,
        forall|k: int| 0 <= k <= rank ==> #[trigger] rows_of(b, rank)[k] == row_text(b, rank - k, 0, 0),
    decreases rank,
{
    lemma_row_text_chars(b, rank, 0, 0);
    let row = row_text(b, rank, 0, 0);
    assert forall|i: int| 0 <= i < row.len() implies !is_sep(#[trigger] row[i], Some('/')) by {
        assert(row[i] != '/');
    }
    lemma_split_single(row, Some('/'));
    if rank > 0 {
        lemma_placement_split(b, rank - 1);
        lemma_split_concat(row, '/', placement_text(b, rank - 1), Some('/'));
        let slash = seq!['/'];
        assert(no_ws(slash));
        lemma_no_ws_concat(row, slash);
        lemma_no_ws_concat(row + slash, placement_text(b, rank - 1));
        assert forall|k: int| 0 <= k <= rank implies #[trigger] rows_of(b, rank)[k] == row_text(b, rank - k, 0, 0) by {
            if k > 0 {
                assert(rows_of(b, rank)[k] == rows_of(b, rank - 1)[k - 1]);
            }
        }
    }
}

// ---- Reading the placement back -----------------------------------------------

/// Placing a text that follows `x` is placing that text.
pub proof fn lemma_place_shift(board: Seq<Option<Piece>>, x: Seq<char>, y: Seq<char>, j: int, file: int, rank: int)
    requires
        0 <= j,
    ensures
        place_chars(board, x + y, x.len() + j, file, rank) == place_chars(board, y, j, file, rank),
    decreases y.len() - j,
{
    if j < y.len() {
        assert((x + y)[x.len() + j] == y[j]);
        let c = y[j];
        if is_digit(c) {
            lemma_place_shift(board, x, y, j + 1, file + digit_value(c), rank);
        } else {
            match Piece::spec_from_char(c) {
                None => {},
                Some(p) => match square_at(file, rank) {
                    None => {},
                    Some(sq) => {
                        lemma_place_shift(board.update(sq.0 as int, Some(p)), x, y, j + 1, file + 1, rank);
                    },
                },
            }
        }
    }
}

/// `board` with the squares of rank `r` from file `g` on taken from `b`.
pub open spec fn fill_row(board: Seq<Option<Piece>>, b: Seq<Option<Piece>>, r: int, g: int) -> Seq<Option<Piece>> {
    Seq::new(64, |i: int| if i / 8 == r && i % 8 >= g { b[i] } else { board[i] })
}

/// Reading the text of files `f..8` of rank `r` (with `e` empty squares
/// pending) onto a board empty there places `b`'s pieces of that rank.
pub proof fn lemma_place_row(board: Seq<Option<Piece>>, b: Seq<Option<Piece>>, r: int, f: int, e: nat)
    requires
        board.len() == 64,
        b.len() == 64,
        0 <= r < 8,
        0 <= f <= 8,
        e <= f,
        forall|x: int| f - e <= x < f ==> #[trigger] b[r * 8 + x] is None,
        forall|x: int| f - e <= x < 8 ==> #[trigger] board[r * 8 + x] is None,
    ensures
        place_chars(board, row_text(b, r, f, e), 0, f - e, r) == Ok::<(Seq<Option<Piece>>, int), FenFault>(
            (fill_row(board, b, r, f - e), 8),
        ),
    decreases 8 - f,
{
    let pending = if e > 0 {
        seq![digit_char(e)]
    } else {
        Seq::<char>::empty()
    };
    if e > 0 {
        lemma_digit_char(e);
    }
    if f >= 8 {
        assert forall|i: int| 0 <= i < 64 implies #[trigger] fill_row(board, b, r, f - e)[i] == board[i] by {
            if i / 8 == r && i % 8 >= f - e {
                let x = i % 8;
                assert(i == r * 8 + x);
            }
        }
        assert(fill_row(board, b, r, f - e) =~= board);
        if e > 0 {
            assert(row_text(b, r, f, e) == pending);
            assert(place_chars(board, pending, 1, 8, r) == Ok::<(Seq<Option<Piece>>, int), FenFault>((board, 8)));
        }
    } else {
        match b[r * 8 + f] {
            Some(p) => {
                lemma_piece_char(p);
                let head = pending.push(p.spec_to_char());
                let rest = row_text(b, r, f + 1, 0);
                assert(row_text(b, r, f, e) == head + rest);
                crate::position::lemma_square_at_coords(f, r);
                let sq = square_at(f, r).unwrap();
                assert(sq.0 == r * 8 + f);
                let board2 = board.update(sq.0 as int, Some(p));
                assert forall|x: int| f + 1 <= x < 8 implies #[trigger] board2[r * 8 + x] is None by {
                    assert(board2[r * 8 + x] == board[r * 8 + x]);
                }
                lemma_place_row(board2, b, r, f + 1, 0);
                lemma_place_shift(board2, head, rest, 0, f + 1, r);
                assert(head + rest == head + rest);
                // Walk over the pending digit (if any) and the piece letter.
                let text = head + rest;
                assert(text[pending.len() as int] == p.spec_to_char());
                if e > 0 {
                    assert(text[0] == digit_char(e));
                    assert(place_chars(board, text, 0, f - e, r) == place_chars(board, text, 1, f as int, r));
                }
                assert(place_chars(board, text, pending.len() as int, f as int, r) == place_chars(
                    board2,
                    text,
                    pending.len() + 1int,
                    f + 1,
                    r,
                ));
                assert(fill_row(board2, b, r, f + 1) =~= fill_row(board, b, r, f - e)) by {
                    assert forall|i: int| 0 <= i < 64 implies #[trigger] fill_row(board2, b, r, f + 1)[i]
                        == fill_row(board, b, r, f - e)[i] by {
                        if i / 8 == r && i % 8 >= f - e {
                            let x = i % 8;
                            assert(i == r * 8 + x);
                        }
                    }
                }
            },
            None => {
                lemma_place_row(board, b, r, f + 1, e + 1);
            },
        }
    }
}

/// The board with ranks `8 - k` and above taken from `b`, the rest empty.
pub open spec fn filled(b: Seq<Option<Piece>>, k: int) -> Seq<Option<Piece>> {
    Seq::new(64, |i: int| if i / 8 >= 8 - k { b[i] } else { None })
}

/// Reading the rank descriptions of `b` from the `k`-th on completes the board.
pub proof fn lemma_place_rows(b: Seq<Option<Piece>>, k: int)
    requires
        b.len() == 64,
        0 <= k <= 8,
    ensures
        place_rows(filled(b, k), rows_of(b, 7), k) == Ok::<Seq<Option<Piece>>, FenFault>(b),
    decreases 8 - k,
{
    lemma_placement_split(b, 7);
    if k == 8 {
        assert(filled(b, 8) =~= b);
    } else {
        let r = 7 - k;
        let board = filled(b, k);
        assert forall|x: int| 0 <= x < 8 implies #[trigger] board[r * 8 + x] is None by {}
        lemma_place_row(board, b, r, 0, 0);
        assert(rows_of(b, 7)[k] == row_text(b, r, 0, 0));
        assert(fill_row(board, b, r, 0) =~= filled(b, k + 1));
        lemma_place_rows(b, k + 1);
    }
}

// ---- The other fields ---------------------------------------------------------

/// Decimal text reads back as its number.
pub proof fn lemma_decimal_roundtrip(n: nat)
    ensures
        decimal_text(n).len() > 0,
        all_digits(decimal_text(n)),
        decimal_value(decimal_text(n)) == n,
        no_ws(decimal_text(n)),
        decimal_text(n)[0] != '+',
    decreases n,
{
    if n >= 10 {
        lemma_decimal_roundtrip(n / 10);
        let t = decimal_text(n / 10);
        let u = t.push(digit_char(n % 10));
        assert(u.drop_last() =~= t);
        assert(u[0] == t[0]);
        assert forall|i: int| 0 <= i < u.len() implies is_digit(#[trigger] u[i]) by {
            if i < t.len() {
                assert(u[i] == t[i]);
            }
        }
        assert forall|i: int| 0 <= i < u.len() implies !is_ws(#[trigger] u[i]) by {
            if i < t.len() {
                assert(u[i] == t[i]);
            }
        }
        assert(digit_value(digit_char(n % 10)) == n % 10);
        assert(u.last() == digit_char(n % 10));
        assert(decimal_value(u) == decimal_value(t) * 10 + digit_value(u.last()));
        assert((n / 10) * 10 + n % 10 == n);
        assert(decimal_text(n) == u);
        assert(decimal_value(decimal_text(n)) == n);
    } else {
        let u = seq![digit_char(n)];
        assert(u.drop_last() =~= Seq::<char>::empty());
        assert(digit_value(digit_char(n)) == n);
        assert(decimal_text(n) == u);
        assert(decimal_value(u) == decimal_value(u.drop_last()) * 10 + digit_value(u.last()));
        assert(decimal_value(decimal_text(n)) == n);
    }
}

pub proof fn lemma_parse_decimal(n: u32)
    ensures
        parse_u32_spec(decimal_text(n as nat)) == Some(n),
{
    lemma_decimal_roundtrip(n as nat);
}

pub proof fn lemma_contains_concat(a: Seq<char>, b: Seq<char>, x: char)
    ensures
        (a + b).contains(x) <==> (a.contains(x) || b.contains(x)),
{
    if (a + b).contains(x) {
        let i = choose|i: int| 0 <= i < (a + b).len() && (a + b)[i] == x;
        if i < a.len() {
            assert(a[i] == x);
        } else {
            assert(b[i - a.len()] == x);
        }
    }
    if a.contains(x) {
        let i = choose|i: int| 0 <= i < a.len() && a[i] == x;
        assert((a + b)[i] == x);
    }
    if b.contains(x) {
        let i = choose|i: int| 0 <= i < b.len() && b[i] == x;
        assert((a + b)[i + a.len()] == x);
    }
}

pub proof fn lemma_letter_if(b: bool, c: char, x: char)
    ensures
        letter_if(b, c).contains(x) <==> (b && x == c),
        no_ws(letter_if(b, c)) <== !is_ws(c),
{
    if b && x == c {
        assert(letter_if(b, c)[0] == x);
    }
}

/// The castling field reads back as the rights it was written from.
pub proof fn lemma_castling_roundtrip(c: crate::position::CastlingRights)
    ensures
        castling_text(c).contains('K') == c.white_kingside,
        castling_text(c).contains('Q') == c.white_queenside,
        castling_text(c).contains('k') == c.black_kingside,
        castling_text(c).contains('q') == c.black_queenside,
        castling_text(c).len() > 0,
        no_ws(castling_text(c)),
{
    let a = letter_if(c.white_kingside, 'K');
    let b = letter_if(c.white_queenside, 'Q');
    let d = letter_if(c.black_kingside, 'k');
    let e = letter_if(c.black_queenside, 'q');
    let t = a + b + d + e;
    lemma_letter_if(c.white_kingside, 'K', 'K');
    lemma_letter_if(c.white_queenside, 'Q', 'K');
    lemma_letter_if(c.black_kingside, 'k', 'K');
    lemma_letter_if(c.black_queenside, 'q', 'K');
    lemma_letter_if(c.white_kingside, 'K', 'Q');
    lemma_letter_if(c.white_queenside, 'Q', 'Q');
    lemma_letter_if(c.black_kingside, 'k', 'Q');
    lemma_letter_if(c.black_queenside, 'q', 'Q');
    lemma_letter_if(c.white_kingside, 'K', 'k');
    lemma_letter_if(c.white_queenside, 'Q', 'k');
    lemma_letter_if(c.black_kingside, 'k', 'k');
    lemma_letter_if(c.black_queenside, 'q', 'k');
    lemma_letter_if(c.white_kingside, 'K', 'q');
    lemma_letter_if(c.white_queenside, 'Q', 'q');
    lemma_letter_if(c.black_kingside, 'k', 'q');
    lemma_letter_if(c.black_queenside, 'q', 'q');
    lemma_no_ws_concat(a, b);
    lemma_no_ws_concat(a + b, d);
    lemma_no_ws_concat(a + b + d, e);
    assert forall|x: char| x == 'K' || x == 'Q' || x == 'k' || x == 'q' implies t.contains(x) == ((
    x == 'K' && c.white_kingside) || (x == 'Q' && c.white_queenside) || (x == 'k' && c.black_kingside)
        || (x == 'q' && c.black_queenside)) by {
        lemma_contains_concat(a, b, x);
        lemma_contains_concat(a + b, d, x);
        lemma_contains_concat(a + b + d, e, x);
    }
    if t.len() == 0 {
        let dash = seq!['-'];
        assert forall|x: char| x != '-' implies !dash.contains(x) by {}
        assert(no_ws(dash));
    }
}

/// A square's name reads back as the square.
pub proof fn lemma_square_name_roundtrip(sq: Square)
    requires
        sq.valid(),
    ensures
        spec_square_from_algebraic(spec_square_name(sq)) == Some(sq),
        spec_square_name(sq).len() == 2,
        no_ws(spec_square_name(sq)),
{
    let f = sq.0 % 8;
    let r = sq.0 / 8;
    assert(r * 8 + f == sq.0) by (nonlinear_arith)
        requires
            f == sq.0 % 8,
            r == sq.0 / 8,
    ;
}

// ---- The whole text -----------------------------------------------------------

/// Reading back the FEN text of a position gives back that position: its
/// board, side to move, castling rights, en-passant target and both clocks.
/// (The en-passant target must be a square of the board.)
pub proof fn law_fen_roundtrip(pos: Position)
    requires
        pos.en_passant matches Some(sq) ==> sq.valid(),
    ensures
        spec_parse_fen(spec_to_fen(pos)) == Ok::<FenPos, FenFault>(fen_pos(pos)),
{
    let b = pos.board();
    let p = placement_text(b, 7);
    let sd = side_text(pos.side_to_move);
    let c = castling_text(pos.castling);
    let e = ep_text(pos.en_passant);
    let h = decimal_text(pos.halfmove_clock as nat);
    let fm = decimal_text(pos.fullmove_number as nat);
    let sp = seq![' '];
    lemma_placement_split(b, 7);
    lemma_castling_roundtrip(pos.castling);
    lemma_decimal_roundtrip(pos.halfmove_clock as nat);
    lemma_decimal_roundtrip(pos.fullmove_number as nat);
    lemma_parse_decimal(pos.halfmove_clock);
    lemma_parse_decimal(pos.fullmove_number);
    match pos.en_passant {
        Some(sq) => lemma_square_name_roundtrip(sq),
        None => {},
    }
    assert(no_ws(sd));
    assert(no_ws(e));
    assert(e.len() > 0);
    // Each field is one whitespace-free, non-empty word.
    assert forall|t: Seq<char>| no_ws(t) implies split_seq(t, None) == seq![t] by {
        assert forall|i: int| 0 <= i < t.len() implies !is_sep(#[trigger] t[i], None) by {}
        lemma_split_single(t, None);
    }
    let t1 = p + sp + sd;
    let t2 = t1 + sp + c;
    let t3 = t2 + sp + e;
    let t4 = t3 + sp + h;
    let t5 = t4 + sp + fm;
    assert(spec_to_fen(pos) == t5);
    lemma_split_concat(p, ' ', sd, None);
    lemma_split_concat(t1, ' ', c, None);
    lemma_split_concat(t2, ' ', e, None);
    lemma_split_concat(t3, ' ', h, None);
    lemma_split_concat(t4, ' ', fm, None);
    let ws = seq![p, sd, c, e, h, fm];
    assert(split_seq(t5, None) =~= ws);
    lemma_nonempty_all(ws);
    assert(words(t5) == ws);
    lemma_place_rows(b, 0);
    assert(filled(b, 0) =~= empty_board());
    assert(place_rows(empty_board(), split_seq(p, Some('/')), 0) == Ok::<Seq<Option<Piece>>, FenFault>(b));
    assert(ws[1] == sd);
    assert(ws[3] == e);
    if pos.en_passant is None {
        assert(e =~= seq!['-']);
    } else {
        assert(e != seq!['-']) by {
            if e == seq!['-'] {
                assert(e[0] == '-');
            }
        }
    }
    if pos.side_to_move == Color::White {
        assert(sd =~= seq!['w']);
    } else {
        assert(sd =~= seq!['b']);
        assert(sd != seq!['w']) by {
            assert(sd[0] != 'w');
        }
    }
}

} // verus!
