//! FEN (Forsyth–Edwards Notation) parsing and serialization.

use vstd::prelude::*;

use crate::position::{CastlingRights, Position};
use crate::text::{
    decimal_text, digit_value, is_digit, parse_u32, parse_u32_spec, push_char, push_decimal,
    split_chars, split_seq, split_words, string_from_chars, words,
};
use crate::types::{spec_square_from_algebraic, spec_square_name, square_at, Color, Piece, Square};

verus! {

broadcast use crate::position::Position::lemma_board_len;

/// Reasons a FEN string can fail to parse.
#[derive(Debug, Clone, PartialEq, Eq)]
pub enum FenError {
    Missing(&'static str),
    BadPiece(char),
    BadColor(String),
    BadSquare(String),
    BadRankWidth(i8),
    BadRankCount,
    OutOfRange,
}

/// An integer in decimal, with a minus sign when negative.
pub open spec fn signed_text(n: int) -> Seq<char> {
    if n < 0 {
        seq!['-'] + crate::text::decimal_text((-n) as nat)
    } else {
        crate::text::decimal_text(n as nat)
    }
}

/// The message describing a FEN error.
pub open spec fn fen_error_text(e: FenError) -> Seq<char> {
    match e {
        FenError::Missing(field) => "missing FEN field: "@ + field@,
        FenError::BadPiece(c) => "invalid piece char: "@ + seq![c],
        FenError::BadColor(s) => "invalid active color: "@ + s@,
        FenError::BadSquare(s) => "invalid square: "@ + s@,
        FenError::BadRankWidth(r) => "rank "@ + signed_text(r as int) + " does not sum to 8 files"@,
        FenError::BadRankCount => "FEN must have exactly 8 ranks"@,
        FenError::OutOfRange => "square out of range"@,
    }
}

impl FenError {
    /// The message describing the error.
    pub fn message(&self) -> (s: String)
        ensures
            s@ == fen_error_text(*self),
    {
        match self {
            FenError::Missing(field) => {
                let mut s = "missing FEN field: ".to_owned();
                s.append(field);
                s
            },
            FenError::BadPiece(c) => {
                let mut s = "invalid piece char: ".to_owned();
                crate::text::push_char(&mut s, *c);
                s
            },
            FenError::BadColor(t) => {
                let mut s = "invalid active color: ".to_owned();
                s.append(t.as_str());
                s
            },
            FenError::BadSquare(t) => {
                let mut s = "invalid square: ".to_owned();
                s.append(t.as_str());
                s
            },
            FenError::BadRankWidth(r) => {
                let mut s = "rank ".to_owned();
                if *r < 0 {
                    crate::text::push_char(&mut s, '-');
                    crate::text::push_decimal(&mut s, (0 - (*r as i64)) as u64);
                } else {
                    crate::text::push_decimal(&mut s, *r as u64);
                }
                s.append(" does not sum to 8 files");
                s
            },
            FenError::BadRankCount => "FEN must have exactly 8 ranks".to_owned(),
            FenError::OutOfRange => "square out of range".to_owned(),
        }
    }
}

/// A [`FenError`] with its text as character sequences.
pub enum FenFault {
    Missing(Seq<char>),
    BadPiece(char),
    BadColor(Seq<char>),
    BadSquare(Seq<char>),
    BadRankWidth(i8),
    BadRankCount,
    OutOfRange,
}

pub open spec fn fault(e: FenError) -> FenFault {
    match e {
        FenError::Missing(s) => FenFault::Missing(s@),
        FenError::BadPiece(c) => FenFault::BadPiece(c),
        FenError::BadColor(s) => FenFault::BadColor(s@),
        FenError::BadSquare(s) => FenFault::BadSquare(s@),
        FenError::BadRankWidth(r) => FenFault::BadRankWidth(r),
        FenError::BadRankCount => FenFault::BadRankCount,
        FenError::OutOfRange => FenFault::OutOfRange,
    }
}

/// The content of a position as FEN describes it.
pub struct FenPos {
    pub board: Seq<Option<Piece>>,
    pub side_to_move: Color,
    pub castling: CastlingRights,
    pub en_passant: Option<Square>,
    pub halfmove_clock: u32,
    pub fullmove_number: u32,
}

pub open spec fn fen_pos(p: Position) -> FenPos {
    FenPos {
        board: p.board(),
        side_to_move: p.side_to_move,
        castling: p.castling,
        en_passant: p.en_passant,
        halfmove_clock: p.halfmove_clock,
        fullmove_number: p.fullmove_number,
    }
}

pub open spec fn empty_board() -> Seq<Option<Piece>> {
    Seq::new(64, |i: int| None)
}

/// Place the characters `row[j..]` of one rank's description on `board`,
/// starting at `file`: a digit skips that many files, a piece letter puts the
/// piece on the current square. Yields the board and the file reached.
pub open spec fn place_chars(board: Seq<Option<Piece>>, row: Seq<char>, j: int, file: int, rank: int) -> Result<
    (Seq<Option<Piece>>, int),
    FenFault,
>
    decreases row.len() - j,
{
    if j < 0 || j >= row.len() {
        Ok((board, file))
    } else {
        let c = row[j];
        if is_digit(c) {
            place_chars(board, row, j + 1, file + digit_value(c), rank)
        } else {
            match Piece::spec_from_char(c) {
                None => Err(FenFault::BadPiece(c)),
                Some(p) => match square_at(file, rank) {
                    None => Err(FenFault::OutOfRange),
                    Some(sq) => place_chars(board.update(sq.0 as int, Some(p)), row, j + 1, file + 1, rank),
                },
            }
        }
    }
}

/// Place the ranks `rows[k..]` (rank 8 first) on `board`. Each rank must
/// describe exactly eight files, and there must be exactly eight ranks; past
/// the 136th rank description the count is refused outright.
pub open spec fn place_rows(board: Seq<Option<Piece>>, rows: Seq<Seq<char>>, k: int) -> Result<
    Seq<Option<Piece>>,
    FenFault,
>
    decreases rows.len() - k,
{
    if k < 0 || k >= rows.len() {
        if rows.len() == 8 {
            Ok(board)
        } else {
            Err(FenFault::BadRankCount)
        }
    } else {
        match place_chars(board, rows[k], 0, 0, 7 - k) {
            Err(e) => Err(e),
            Ok((b2, file)) => if file != 8 {
                Err(FenFault::BadRankWidth((7 - k) as i8))
            } else if k >= 135 {
                Err(FenFault::BadRankCount)
            } else {
                place_rows(b2, rows, k + 1)
            },
        }
    }
}

/// What a full FEN string describes: piece placement, active color, castling
/// rights, en-passant target, and the optional halfmove clock (0 when absent
/// or unreadable) and fullmove number (1 when absent or unreadable), the
/// fields separated by whitespace.
pub open spec fn spec_parse_fen(s: Seq<char>) -> Result<FenPos, FenFault> {
    let w = words(s);
    if w.len() < 1 {
        Err(FenFault::Missing("piece placement"@))
    } else if w.len() < 2 {
        Err(FenFault::Missing("active color"@))
    } else if w.len() < 3 {
        Err(FenFault::Missing("castling"@))
    } else if w.len() < 4 {
        Err(FenFault::Missing("en passant"@))
    } else {
        match place_rows(empty_board(), split_seq(w[0], Some('/')), 0) {
            Err(e) => Err(e),
            Ok(board) => {
                let side = if w[1] == seq!['w'] {
                    Some(Color::White)
                } else if w[1] == seq!['b'] {
                    Some(Color::Black)
                } else {
                    None
                };
                let ep = if w[3] == seq!['-'] {
                    Some(None)
                } else {
                    match spec_square_from_algebraic(w[3]) {
                        Some(sq) => Some(Some(sq)),
                        None => None,
                    }
                };
                match side {
                    None => Err(FenFault::BadColor(w[1])),
                    Some(side) => match ep {
                        None => Err(FenFault::BadSquare(w[3])),
                        Some(ep) => Ok(
                            FenPos {
                                board,
                                side_to_move: side,
                                castling: CastlingRights {
                                    white_kingside: w[2].contains('K'),
                                    white_queenside: w[2].contains('Q'),
                                    black_kingside: w[2].contains('k'),
                                    black_queenside: w[2].contains('q'),
                                },
                                en_passant: ep,
                                halfmove_clock: if w.len() > 4 {
                                    match parse_u32_spec(w[4]) {
                                        Some(n) => n,
                                        None => 0,
                                    }
                                } else {
                                    0
                                },
                                fullmove_number: if w.len() > 5 {
                                    match parse_u32_spec(w[5]) {
                                        Some(n) => n,
                                        None => 1,
                                    }
                                } else {
                                    1
                                },
                            },
                        ),
                    },
                }
            },
        }
    }
}

fn contains_char(v: &Vec<char>, c: char) -> (b: bool)
    ensures
        b == v@.contains(c),
{
    let mut i: usize = 0;
    while i < v.len()
        invariant
            0 <= i <= v@.len(),
            forall|j: int| 0 <= j < i ==> v@[j] != c,
        decreases v@.len() - i,
    {
        if v[i] == c {
            assert(v@[i as int] == c);
            return true;
        }
        i = i + 1;
    }
    false
}

/// Place one rank's description on `pos` (see [`place_chars`]). The file is
/// counted up to 9 at most: past the board's edge only "beyond" matters.
fn place_rank(pos: &mut Position, row: &Vec<char>, rank: i8) -> (r: Result<u8, FenError>)
    ensures
        match place_chars(old(pos).board(), row@, 0, 0, rank as int) {
            Ok((b, file)) => r matches Ok(f) && final(pos).board() == b && f as int == (if file < 9 {
                file
            } else {
                9
            }),
            Err(e) => r matches Err(e2) && fault(e2) == e,
        },
        final(pos).side_to_move == old(pos).side_to_move,
        final(pos).castling == old(pos).castling,
        final(pos).en_passant == old(pos).en_passant,
        final(pos).halfmove_clock == old(pos).halfmove_clock,
        final(pos).fullmove_number == old(pos).fullmove_number,
{
    let ghost b0 = pos.board();
    let ghost mut sfile: int = 0;
    let mut file: u8 = 0;
    let mut j: usize = 0;
    while j < row.len()
        invariant
            b0 == old(pos).board(),
            0 <= j <= row@.len(),
            0 <= sfile,
            file as int == (if sfile < 9 {
                sfile
            } else {
                9
            }),
            place_chars(b0, row@, 0, 0, rank as int) == place_chars(pos.board(), row@, j as int, sfile, rank as int),
            pos.side_to_move == old(pos).side_to_move,
            pos.castling == old(pos).castling,
            pos.en_passant == old(pos).en_passant,
            pos.halfmove_clock == old(pos).halfmove_clock,
            pos.fullmove_number == old(pos).fullmove_number,
        decreases row@.len() - j,
    {
        let c = row[j];
        if '0' <= c && c <= '9' {
            let d: u8 = ((c as u32) - 48) as u8;
            proof {
                sfile = sfile + digit_value(c);
            }
            file = if file + d < 9 {
                file + d
            } else {
                9
            };
        } else {
            let piece = match Piece::from_char(c) {
                Some(p) => p,
                None => {
                    assert(place_chars(pos.board(), row@, j as int, sfile, rank as int) == Err::<
                        (Seq<Option<Piece>>, int),
                        FenFault,
                    >(FenFault::BadPiece(c)));
                    return Err(FenError::BadPiece(c));
                },
            };
            let sq = match Square::from_file_rank(file as i8, rank) {
                Some(s) => s,
                None => {
                    assert(square_at(sfile, rank as int) is None);
                    assert(place_chars(pos.board(), row@, j as int, sfile, rank as int) == Err::<
                        (Seq<Option<Piece>>, int),
                        FenFault,
                    >(FenFault::OutOfRange));
                    return Err(FenError::OutOfRange);
                },
            };
            pos.set_piece(sq, Some(piece));
            proof {
                sfile = sfile + 1;
            }
            file = if file < 9 {
                file + 1
            } else {
                9
            };
        }
        j = j + 1;
    }
    Ok(file)
}

/// Parse a full FEN string into a [`Position`].
pub fn parse_fen(fen: &str) -> (r: Result<Position, FenError>)
    ensures
        match r {
            Ok(p) => spec_parse_fen(fen@) == Ok::<FenPos, FenFault>(fen_pos(p)),
            Err(e) => spec_parse_fen(fen@) == Err::<FenPos, FenFault>(fault(e)),
        },
{
    let fields = split_words(fen);
    let ghost w = words(fen@);
    assert(fields.deep_view().len() == fields@.len());
    assert(w.len() == fields@.len());
    if fields.len() < 1 {
        return Err(FenError::Missing("piece placement"));
    }
    if fields.len() < 2 {
        return Err(FenError::Missing("active color"));
    }
    if fields.len() < 3 {
        return Err(FenError::Missing("castling"));
    }
    if fields.len() < 4 {
        return Err(FenError::Missing("en passant"));
    }
    assert(fields[0]@ == w[0] && fields[1]@ == w[1] && fields[2]@ == w[2] && fields[3]@ == w[3]);

    let mut pos = Position::empty();
    assert(pos.board() =~= empty_board());

    // Piece placement is given rank 8 down to rank 1.
    let rows = split_chars(&fields[0], Some('/'));
    let ghost rs = split_seq(w[0], Some('/'));
    let mut k: usize = 0;
    while k < rows.len()
        invariant
            0 <= k <= rows@.len(),
            k <= 135,
            rows.deep_view() == rs,
            w == words(fen@),
            w.len() >= 4,
            rs == split_seq(w[0], Some('/')),
            place_rows(empty_board(), rs, 0) == place_rows(pos.board(), rs, k as int),
            pos.side_to_move == Color::White,
            pos.castling == CastlingRights::spec_none(),
            pos.en_passant is None,
            pos.halfmove_clock == 0,
            pos.fullmove_number == 1,
        decreases rows@.len() - k,
    {
        let rank: i8 = (7i16 - k as i16) as i8;
        assert(rank as int == 7 - k);
        assert(rows[k as int]@ == rs[k as int]);
        let ghost before = pos.board();
        let file = match place_rank(&mut pos, &rows[k], rank) {
            Ok(f) => f,
            Err(e) => {
                assert(place_rows(before, rs, k as int) == Err::<Seq<Option<Piece>>, FenFault>(fault(e)));
                assert(place_rows(empty_board(), rs, 0) == Err::<Seq<Option<Piece>>, FenFault>(fault(e)));
                assert(spec_parse_fen(fen@) == Err::<FenPos, FenFault>(fault(e)));
                return Err(e);
            },
        };
        if file != 8 {
            assert(place_rows(before, rs, k as int) == Err::<Seq<Option<Piece>>, FenFault>(
                FenFault::BadRankWidth(rank),
            ));
            return Err(FenError::BadRankWidth(rank));
        }
        if k >= 135 {
            return Err(FenError::BadRankCount);
        }
        k = k + 1;
    }
    if rows.len() != 8 {
        return Err(FenError::BadRankCount);
    }
    let active = &fields[1];
    pos.side_to_move = if active.len() == 1 && active[0] == 'w' {
        assert(active@ =~= seq!['w']);
        Color::White
    } else if active.len() == 1 && active[0] == 'b' {
        assert(active@ =~= seq!['b']);
        Color::Black
    } else {
        assert(active@ != seq!['w'] && active@ != seq!['b']) by {
            if active@ == seq!['w'] || active@ == seq!['b'] {
                assert(active@[0] == 'w' || active@[0] == 'b');
            }
        }
        return Err(FenError::BadColor(string_from_chars(active)));
    };
    let castling = &fields[2];
    pos.castling = CastlingRights {
        white_kingside: contains_char(castling, 'K'),
        white_queenside: contains_char(castling, 'Q'),
        black_kingside: contains_char(castling, 'k'),
        black_queenside: contains_char(castling, 'q'),
    };
    let ep = &fields[3];
    pos.en_passant = if ep.len() == 1 && ep[0] == '-' {
        assert(ep@ =~= seq!['-']);
        None
    } else {
        assert(ep@ != seq!['-']) by {
            if ep@ == seq!['-'] {
                assert(ep@[0] == '-');
            }
        }
        let text = string_from_chars(ep);
        match Square::from_algebraic(text.as_str()) {
            Some(sq) => Some(sq),
            None => {
                return Err(FenError::BadSquare(text));
            },
        }
    };
    // Halfmove clock and fullmove number are optional (some sources omit them).
    pos.halfmove_clock = if fields.len() > 4 {
        assert(fields[4]@ == w[4]);
        match parse_u32(&fields[4]) {
            Some(n) => n,
            None => 0,
        }
    } else {
        0
    };
    pos.fullmove_number = if fields.len() > 5 {
        assert(fields[5]@ == w[5]);
        match parse_u32(&fields[5]) {
            Some(n) => n,
            None => 1,
        }
    } else {
        1
    };
    Ok(pos)
}

// ---- Serialization ----------------------------------------------------------

/// The FEN text of files `file..8` of `rank`, with `empty` empty squares pending
/// before them: runs of empty squares as a digit, pieces as their letters.
pub open spec fn row_text(board: Seq<Option<Piece>>, rank: int, file: int, empty: nat) -> Seq<char>
    decreases 8 - file,
{
    let pending = if empty > 0 {
        seq![crate::text::digit_char(empty)]
    } else {
        Seq::empty()
    };
    if file >= 8 {
        pending
    } else {
        match board[rank * 8 + file] {
            Some(p) => pending.push(p.spec_to_char()) + row_text(board, rank, file + 1, 0),
            None => row_text(board, rank, file + 1, empty + 1),
        }
    }
}

/// The placement field for ranks `rank` down to 1 (index 0), separated by `/`.
pub open spec fn placement_text(board: Seq<Option<Piece>>, rank: int) -> Seq<char>
    decreases rank,
{
    if rank <= 0 {
        row_text(board, 0, 0, 0)
    } else {
        row_text(board, rank, 0, 0) + seq!['/'] + placement_text(board, rank - 1)
    }
}

pub open spec fn letter_if(b: bool, c: char) -> Seq<char> {
    if b {
        seq![c]
    } else {
        Seq::empty()
    }
}

/// `KQkq` for the rights held, or `-` when none is.
pub open spec fn castling_text(c: CastlingRights) -> Seq<char> {
    let t = letter_if(c.white_kingside, 'K') + letter_if(c.white_queenside, 'Q') + letter_if(
        c.black_kingside,
        'k',
    ) + letter_if(c.black_queenside, 'q');
    if t.len() == 0 {
        seq!['-']
    } else {
        t
    }
}

pub open spec fn ep_text(ep: Option<Square>) -> Seq<char> {
    match ep {
        Some(sq) => spec_square_name(sq),
        None => seq!['-'],
    }
}

pub open spec fn side_text(c: Color) -> Seq<char> {
    match c {
        Color::White => seq!['w'],
        Color::Black => seq!['b'],
    }
}

/// The six FEN fields of `pos` separated by single spaces.
pub open spec fn spec_to_fen(pos: Position) -> Seq<char> {
    placement_text(pos.board(), 7) + seq![' '] + side_text(pos.side_to_move) + seq![' '] + castling_text(
        pos.castling,
    ) + seq![' '] + ep_text(pos.en_passant) + seq![' '] + decimal_text(pos.halfmove_clock as nat)
        + seq![' '] + decimal_text(pos.fullmove_number as nat)
}

/// Append the FEN text of one rank.
fn push_rank(out: &mut String, pos: &Position, rank: i8)
    requires
        0 <= rank < 8,
    ensures
        final(out)@ == old(out)@ + row_text(pos.board(), rank as int, 0, 0),
{
    let ghost b = pos.board();
    let ghost start = old(out)@;
    let mut empty: u8 = 0;
    let mut file: i8 = 0;
    while file < 8
        invariant
            b == pos.board(),
            0 <= rank < 8,
            0 <= file <= 8,
            0 <= empty <= file,
            start + row_text(b, rank as int, 0, 0) == out@ + row_text(b, rank as int, file as int, empty as nat),
        decreases 8 - file,
    {
        let sq = Square::from_file_rank(file, rank).unwrap();
        let ghost rest = row_text(b, rank as int, file as int, empty as nat);
        match pos.piece_at(sq) {
            Some(p) => {
                if empty > 0 {
                    push_char(out, crate::types::char_from_ascii(48 + empty as u32));
                    empty = 0;
                }
                push_char(out, p.to_char());
            },
            None => {
                empty = empty + 1;
            },
        }
        assert(start + row_text(b, rank as int, 0, 0) =~= out@ + row_text(b, rank as int, file + 1, empty as nat));
        file = file + 1;
    }
    if empty > 0 {
        push_char(out, crate::types::char_from_ascii(48 + empty as u32));
    }
    assert(start + row_text(b, rank as int, 0, 0) =~= out@);
}

/// Append the placement field.
fn push_placement(out: &mut String, pos: &Position)
    ensures
        final(out)@ == old(out)@ + placement_text(pos.board(), 7),
{
    let ghost b = pos.board();
    let ghost start = old(out)@;
    let mut rank: i8 = 7;
    loop
        invariant_except_break
            0 <= rank <= 7,
            out@ + placement_text(b, rank as int) == start + placement_text(b, 7),
        invariant
            b == pos.board(),
            start == old(out)@,
        ensures
            out@ == start + placement_text(b, 7),
        decreases rank,
    {
        let ghost before = out@;
        push_rank(out, pos, rank);
        if rank == 0 {
            assert(out@ =~= before + placement_text(b, 0));
            break;
        }
        push_char(out, '/');
        assert(out@ + placement_text(b, rank - 1) =~= before + placement_text(b, rank as int));
        rank = rank - 1;
    }
}

/// Append the castling field.
fn push_castling(out: &mut String, c: CastlingRights)
    ensures
        final(out)@ == old(out)@ + castling_text(c),
{
    let ghost start = old(out)@;
    let mut any = false;
    if c.white_kingside {
        push_char(out, 'K');
        any = true;
    }
    if c.white_queenside {
        push_char(out, 'Q');
        any = true;
    }
    if c.black_kingside {
        push_char(out, 'k');
        any = true;
    }
    if c.black_queenside {
        push_char(out, 'q');
        any = true;
    }
    if !any {
        push_char(out, '-');
    }
    assert(out@ =~= start + castling_text(c));
}

/// Serialize a [`Position`] back to a FEN string.
pub fn to_fen(pos: &Position) -> (s: String)
    ensures
        s@ == spec_to_fen(*pos),
{
    let mut out = String::new();
    push_placement(&mut out, pos);
    let ghost p1 = out@;
    push_char(&mut out, ' ');
    push_char(
        &mut out,
        match pos.side_to_move {
            Color::White => 'w',
            Color::Black => 'b',
        },
    );
    assert(out@ =~= p1 + seq![' '] + side_text(pos.side_to_move));
    let ghost p2 = out@;
    push_char(&mut out, ' ');
    push_castling(&mut out, pos.castling);
    let ghost p3 = out@;
    push_char(&mut out, ' ');
    match pos.en_passant {
        Some(sq) => {
            let name = sq.to_algebraic();
            out.append(name.as_str());
        },
        None => push_char(&mut out, '-'),
    }
    assert(out@ =~= p3 + seq![' '] + ep_text(pos.en_passant));
    let ghost p4 = out@;
    push_char(&mut out, ' ');
    push_decimal(&mut out, pos.halfmove_clock as u64);
    push_char(&mut out, ' ');
    push_decimal(&mut out, pos.fullmove_number as u64);
    assert(out@ =~= spec_to_fen(*pos));
    out
}

} // verus!
