//! Fundamental chess value types: colors, pieces, and squares.

use vstd::prelude::*;

verus! {

/// The two sides.
#[derive(Debug, Clone, Copy, PartialEq, Eq, Hash, Structural)]
pub enum Color {
    White,
    Black,
}

impl Color {
    pub open spec fn spec_opponent(self) -> Color {
        match self {
            Color::White => Color::Black,
            Color::Black => Color::White,
        }
    }

    /// Direction a pawn of this color advances along the rank axis.
    pub open spec fn spec_pawn_dir(self) -> int {
        match self {
            Color::White => 1,
            Color::Black => -1,
        }
    }

    #[verifier::when_used_as_spec(spec_opponent)]
    pub fn opponent(self) -> (c: Color)
        ensures
            c == self.spec_opponent(),
    {
        match self {
            Color::White => Color::Black,
            Color::Black => Color::White,
        }
    }

    /// Direction a pawn of this color advances along the rank axis (+1 for white, -1 for black).
    pub fn pawn_dir(self) -> (d: i8)
        ensures
            d == self.spec_pawn_dir(),
    {
        match self {
            Color::White => 1,
            Color::Black => -1,
        }
    }
}

} // verus!

verus! {

/// The six piece kinds, colorless.
#[derive(Debug, Clone, Copy, PartialEq, Eq, Hash, Structural)]
pub enum PieceKind {
    Pawn,
    Knight,
    Bishop,
    Rook,
    Queen,
    King,
}

/// ASCII lowercase folding, as `char::to_ascii_lowercase` does it.
pub open spec fn ascii_lower(c: char) -> char {
    if 'A' <= c <= 'Z' {
        ((c as u32) + 32) as char
    } else {
        c
    }
}

pub open spec fn ascii_upper(c: char) -> char {
    if 'a' <= c <= 'z' {
        ((c as u32) - 32) as char
    } else {
        c
    }
}

pub fn to_ascii_lower(c: char) -> (r: char)
    ensures
        r == ascii_lower(c),
{
    if 'A' <= c && c <= 'Z' {
        let v: u32 = (c as u32) + 32;
        char_from_ascii(v)
    } else {
        c
    }
}

pub fn to_ascii_upper(c: char) -> (r: char)
    ensures
        r == ascii_upper(c),
{
    if 'a' <= c && c <= 'z' {
        let v: u32 = (c as u32) - 32;
        char_from_ascii(v)
    } else {
        c
    }
}

/// The character whose code is the given ASCII value.
pub fn char_from_ascii(v: u32) -> (c: char)
    requires
        v < 128,
    ensures
        c == v as char,
        c as u32 == v,
{
    let b: u8 = v as u8;
    b as char
}

impl PieceKind {
    pub open spec fn spec_to_char(self) -> char {
        match self {
            PieceKind::Pawn => 'p',
            PieceKind::Knight => 'n',
            PieceKind::Bishop => 'b',
            PieceKind::Rook => 'r',
            PieceKind::Queen => 'q',
            PieceKind::King => 'k',
        }
    }

    pub open spec fn spec_from_char(c: char) -> Option<PieceKind> {
        let l = ascii_lower(c);
        if l == 'p' {
            Some(PieceKind::Pawn)
        } else if l == 'n' {
            Some(PieceKind::Knight)
        } else if l == 'b' {
            Some(PieceKind::Bishop)
        } else if l == 'r' {
            Some(PieceKind::Rook)
        } else if l == 'q' {
            Some(PieceKind::Queen)
        } else if l == 'k' {
            Some(PieceKind::King)
        } else {
            None
        }
    }

    /// Lowercase letter used in FEN / algebraic notation (`p`, `n`, `b`, `r`, `q`, `k`).
    #[verifier::when_used_as_spec(spec_to_char)]
    pub fn to_char(self) -> (c: char)
        ensures
            c == self.spec_to_char(),
    {
        match self {
            PieceKind::Pawn => 'p',
            PieceKind::Knight => 'n',
            PieceKind::Bishop => 'b',
            PieceKind::Rook => 'r',
            PieceKind::Queen => 'q',
            PieceKind::King => 'k',
        }
    }

    /// The kind named by a letter, in either case.
    pub fn from_char(c: char) -> (k: Option<PieceKind>)
        ensures
            k == PieceKind::spec_from_char(c),
    {
        let l = to_ascii_lower(c);
        if l == 'p' {
            Some(PieceKind::Pawn)
        } else if l == 'n' {
            Some(PieceKind::Knight)
        } else if l == 'b' {
            Some(PieceKind::Bishop)
        } else if l == 'r' {
            Some(PieceKind::Rook)
        } else if l == 'q' {
            Some(PieceKind::Queen)
        } else if l == 'k' {
            Some(PieceKind::King)
        } else {
            None
        }
    }
}

/// A colored piece.
#[derive(Debug, Clone, Copy, PartialEq, Eq, Hash, Structural)]
pub struct Piece {
    pub color: Color,
    pub kind: PieceKind,
}

impl Piece {
    pub fn new(color: Color, kind: PieceKind) -> (p: Piece)
        ensures
            p == (Piece { color, kind }),
    {
        Piece { color, kind }
    }

    pub open spec fn spec_to_char(self) -> char {
        let c = self.kind.spec_to_char();
        match self.color {
            Color::White => ascii_upper(c),
            Color::Black => c,
        }
    }

    pub open spec fn spec_from_char(c: char) -> Option<Piece> {
        match PieceKind::spec_from_char(c) {
            Some(kind) => Some(
                Piece { color: if 'A' <= c <= 'Z' { Color::White } else { Color::Black }, kind },
            ),
            None => None,
        }
    }

    /// FEN letter: uppercase for white, lowercase for black.
    #[verifier::when_used_as_spec(spec_to_char)]
    pub fn to_char(self) -> (c: char)
        ensures
            c == self.spec_to_char(),
    {
        let c = self.kind.to_char();
        match self.color {
            Color::White => to_ascii_upper(c),
            Color::Black => c,
        }
    }

    /// The piece named by a FEN letter (uppercase white, lowercase black).
    pub fn from_char(c: char) -> (p: Option<Piece>)
        ensures
            p == Piece::spec_from_char(c),
    {
        let kind = match PieceKind::from_char(c) {
            Some(k) => k,
            None => return None,
        };
        let color = if 'A' <= c && c <= 'Z' {
            Color::White
        } else {
            Color::Black
        };
        Some(Piece { color, kind })
    }
}

/// A board square, indexed 0..=63 with `a1 = 0`, `b1 = 1`, ..., `h8 = 63`.
///
/// `rank = index / 8` (0 = rank 1), `file = index % 8` (0 = file a).
#[derive(Debug, Clone, Copy, PartialEq, Eq, Hash, Structural)]
pub struct Square(pub u8);

/// Both coordinates lie on the 8x8 board.
pub open spec fn on_board(file: int, rank: int) -> bool {
    0 <= file < 8 && 0 <= rank < 8
}

/// The square at (file, rank), when that lies on the board.
pub open spec fn square_at(file: int, rank: int) -> Option<Square> {
    if on_board(file, rank) {
        Some(Square((rank * 8 + file) as u8))
    } else {
        None
    }
}

/// The square named by two characters such as `e4`: a file letter
/// `a`..=`h` followed by a rank digit `1`..=`8`; anything else names none.
pub open spec fn spec_square_from_algebraic(s: Seq<char>) -> Option<Square> {
    if s.len() == 2 && 'a' <= s[0] <= 'h' && '1' <= s[1] <= '8' {
        square_at((s[0] as int) - 97, (s[1] as int) - 49)
    } else {
        None
    }
}

/// Two-character coordinate name of a square, `a1` .. `h8`.
pub open spec fn spec_square_name(sq: Square) -> Seq<char> {
    seq![((97 + sq.0 % 8) as u8) as char, ((49 + sq.0 / 8) as u8) as char]
}

impl Square {
    /// The square lies on the board (index below 64).
    pub open spec fn valid(self) -> bool {
        self.0 < 64
    }

    pub open spec fn spec_file(self) -> int {
        (self.0 % 8) as int
    }

    pub open spec fn spec_rank(self) -> int {
        (self.0 / 8) as int
    }

    /// Build from file (0=a..7=h) and rank (0=rank1..7=rank8). Returns `None` if out of range.
    pub fn from_file_rank(file: i8, rank: i8) -> (s: Option<Square>)
        ensures
            s == square_at(file as int, rank as int),
            s matches Some(q) ==> q.valid() && q.spec_file() == file && q.spec_rank() == rank,
    {
        if 0 <= file && file < 8 && 0 <= rank && rank < 8 {
            let v: u8 = (rank as u8) * 8 + (file as u8);
            Some(Square(v))
        } else {
            None
        }
    }

    pub fn file(self) -> (f: i8)
        ensures
            f == self.spec_file(),
    {
        (self.0 % 8) as i8
    }

    pub fn rank(self) -> (r: i8)
        ensures
            r == self.spec_rank(),
    {
        (self.0 / 8) as i8
    }

    pub fn index(self) -> (i: usize)
        ensures
            i == self.0,
    {
        self.0 as usize
    }

    /// Parse algebraic square coordinate like `e4`.
    pub fn from_algebraic(s: &str) -> (r: Option<Square>)
        ensures
            r == spec_square_from_algebraic(s@),
            r matches Some(q) ==> q.valid(),
    {
        let n = s.unicode_len();
        if n != 2 {
            return None;
        }
        let file_c = s.get_char(0);
        let rank_c = s.get_char(1);
        if !('a' <= file_c && file_c <= 'h' && '1' <= rank_c && rank_c <= '8') {
            return None;
        }
        let file: u32 = (file_c as u32) - 97;
        let rank: u32 = (rank_c as u32) - 49;
        Square::from_file_rank(file as i8, rank as i8)
    }

    /// The two-character coordinate name, e.g. `e4`.
    pub fn to_algebraic(self) -> (s: String)
        ensures
            s@ == spec_square_name(self),
    {
        let f: u32 = (self.0 % 8) as u32;
        let r: u32 = (self.0 / 8) as u32;
        let mut out = String::new();
        crate::text::push_char(&mut out, char_from_ascii(97 + f));
        crate::text::push_char(&mut out, char_from_ascii(49 + r));
        out
    }
}

} // verus!
