//! Text rendering of a game for a terminal: the board as a grid of chess
//! glyphs, a status line, and the move list.

use vstd::prelude::*;

use crate::game::{spec_status, Game, Status};
use crate::moves::{spec_uci, Move};
use crate::move_order::legal_list;
use crate::position::Position;
use crate::rules::in_check;
use crate::moves::MoveFlag;
use crate::text::{decimal_text, push_char, push_decimal, str_chars, string_from_chars, sub_chars};
use crate::types::{
    char_from_ascii, spec_square_from_algebraic, spec_square_name, Color, Piece, PieceKind, Square,
};

verus! {

/// The chess glyph of a piece: the "white" glyphs for White, the filled ones for Black.
pub open spec fn glyph_of(piece: Piece) -> char {
    match (piece.color, piece.kind) {
        (Color::White, PieceKind::King) => '\u{2654}',
        (Color::White, PieceKind::Queen) => '\u{2655}',
        (Color::White, PieceKind::Rook) => '\u{2656}',
        (Color::White, PieceKind::Bishop) => '\u{2657}',
        (Color::White, PieceKind::Knight) => '\u{2658}',
        (Color::White, PieceKind::Pawn) => '\u{2659}',
        (Color::Black, PieceKind::King) => '\u{265A}',
        (Color::Black, PieceKind::Queen) => '\u{265B}',
        (Color::Black, PieceKind::Rook) => '\u{265C}',
        (Color::Black, PieceKind::Bishop) => '\u{265D}',
        (Color::Black, PieceKind::Knight) => '\u{265E}',
        (Color::Black, PieceKind::Pawn) => '\u{265F}',
    }
}

fn glyph(piece: Piece) -> (c: char)
    ensures
        c == glyph_of(piece),
{
    match (piece.color, piece.kind) {
        (Color::White, PieceKind::King) => '\u{2654}',
        (Color::White, PieceKind::Queen) => '\u{2655}',
        (Color::White, PieceKind::Rook) => '\u{2656}',
        (Color::White, PieceKind::Bishop) => '\u{2657}',
        (Color::White, PieceKind::Knight) => '\u{2658}',
        (Color::White, PieceKind::Pawn) => '\u{2659}',
        (Color::Black, PieceKind::King) => '\u{265A}',
        (Color::Black, PieceKind::Queen) => '\u{265B}',
        (Color::Black, PieceKind::Rook) => '\u{265C}',
        (Color::Black, PieceKind::Bishop) => '\u{265D}',
        (Color::Black, PieceKind::Knight) => '\u{265E}',
        (Color::Black, PieceKind::Pawn) => '\u{265F}',
    }
}

/// The `k`-th rank shown, top to bottom: the oriented side's first rank last.
pub open spec fn shown_rank(orient: Color, k: int) -> int {
    match orient {
        Color::White => 7 - k,
        Color::Black => k,
    }
}

/// The `k`-th file shown, left to right.
pub open spec fn shown_file(orient: Color, k: int) -> int {
    match orient {
        Color::White => k,
        Color::Black => 7 - k,
    }
}

/// The character shown for the square (file, rank): its piece's glyph, else a
/// middle dot on dark squares and a space on light ones.
pub open spec fn square_char(board: Seq<Option<Piece>>, file: int, rank: int) -> char {
    match board[rank * 8 + file] {
        Some(p) => glyph_of(p),
        None => if (file + rank) % 2 == 0 {
            '\u{00B7}'
        } else {
            ' '
        },
    }
}

/// The square (file, rank) is one of the two squares of `last`.
pub open spec fn marked(last: Option<Move>, file: int, rank: int) -> bool {
    match last {
        Some(m) => m.from.0 == rank * 8 + file || m.to.0 == rank * 8 + file,
        None => false,
    }
}

/// The three characters of a square: bracketed when marked.
pub open spec fn cell_text(board: Seq<Option<Piece>>, last: Option<Move>, file: int, rank: int) -> Seq<char> {
    if marked(last, file, rank) {
        seq!['[', square_char(board, file, rank), ']']
    } else {
        seq![' ', square_char(board, file, rank), ' ']
    }
}

/// The first `n` cells of a rank, left to right.
pub open spec fn cells_text(board: Seq<Option<Piece>>, orient: Color, last: Option<Move>, rank: int, n: int) -> Seq<
    char,
>
    decreases n,
{
    if n <= 0 {
        Seq::empty()
    } else {
        cells_text(board, orient, last, rank, n - 1) + cell_text(board, last, shown_file(orient, n - 1), rank)
    }
}

/// One row of the grid: the rank digit, a bar, the eight cells, a bar.
pub open spec fn rank_row(board: Seq<Option<Piece>>, orient: Color, last: Option<Move>, rank: int) -> Seq<char> {
    seq![(('1' as int) + rank) as char, ' ', '|'] + cells_text(board, orient, last, rank, 8) + seq!['|', '\n']
}

/// The first `n` rows of the grid, top to bottom.
pub open spec fn rows_text(board: Seq<Option<Piece>>, orient: Color, last: Option<Move>, n: int) -> Seq<char>
    decreases n,
{
    if n <= 0 {
        Seq::empty()
    } else {
        rows_text(board, orient, last, n - 1) + rank_row(board, orient, last, shown_rank(orient, n - 1))
    }
}

/// The first `n` file letters under the grid, each padded by spaces.
pub open spec fn file_labels(orient: Color, n: int) -> Seq<char>
    decreases n,
{
    if n <= 0 {
        Seq::empty()
    } else {
        file_labels(orient, n - 1) + seq![' ', (('a' as int) + shown_file(orient, n - 1)) as char, ' ']
    }
}

/// The frame line above and below the grid.
pub open spec fn border_line() -> Seq<char> {
    "  +------------------------+\n"@
}

/// The whole board text.
pub open spec fn board_text(board: Seq<Option<Piece>>, orient: Color, last: Option<Move>) -> Seq<char> {
    border_line() + rows_text(board, orient, last, 8) + border_line() + "   "@ + file_labels(orient, 8)
        + seq!['\n']
}

/// Render the position as an 8x8 grid of glyphs seen from `orient`, with the
/// squares of `last` in brackets.
pub fn board(pos: &Position, orient: Color, last: Option<Move>) -> (s: String)
    ensures
        s@ == board_text(pos.board(), orient, last),
{
    let (from_hl, to_hl) = match last {
        Some(m) => (Some(m.from), Some(m.to)),
        None => (None, None),
    };
    let mut out = String::new();
    out.append("  +------------------------+\n");
    let mut k: i8 = 0;
    while k < 8
        invariant
            0 <= k <= 8,
            from_hl == (match last {
                Some(m) => Some(m.from),
                None => None,
            }),
            to_hl == (match last {
                Some(m) => Some(m.to),
                None => None,
            }),
            out@ == border_line() + rows_text(pos.board(), orient, last, k as int),
        decreases 8 - k,
    {
        let r: i8 = match orient {
            Color::White => 7 - k,
            Color::Black => k,
        };
        let ghost row_start = out@;
        push_char(&mut out, char_from_ascii(49 + r as u32));
        push_char(&mut out, ' ');
        push_char(&mut out, '|');
        let mut j: i8 = 0;
        while j < 8
            invariant
                0 <= j <= 8,
                0 <= r < 8,
                r == shown_rank(orient, k as int),
                from_hl == (match last {
                    Some(m) => Some(m.from),
                    None => None,
                }),
                to_hl == (match last {
                    Some(m) => Some(m.to),
                    None => None,
                }),
                out@ == row_start + seq![(('1' as int) + r) as char, ' ', '|'] + cells_text(
                    pos.board(),
                    orient,
                    last,
                    r as int,
                    j as int,
                ),
            decreases 8 - j,
        {
            let f: i8 = match orient {
                Color::White => j,
                Color::Black => 7 - j,
            };
            let sq = Square((r * 8 + f) as u8);
            let ch = match pos.piece_at(sq) {
                Some(p) => glyph(p),
                None => {
                    // Checkerboard using middot / space for empty squares.
                    if (f + r) % 2 == 0 {
                        '\u{00B7}'
                    } else {
                        ' '
                    }
                },
            };
            let is_from = match from_hl {
                Some(x) => x == sq,
                None => false,
            };
            let is_to = match to_hl {
                Some(x) => x == sq,
                None => false,
            };
            if is_from || is_to {
                push_char(&mut out, '[');
                push_char(&mut out, ch);
                push_char(&mut out, ']');
            } else {
                push_char(&mut out, ' ');
                push_char(&mut out, ch);
                push_char(&mut out, ' ');
            }
            assert(out@ =~= row_start + seq![(('1' as int) + r) as char, ' ', '|'] + cells_text(
                pos.board(),
                orient,
                last,
                r as int,
                j + 1,
            ));
            j = j + 1;
        }
        push_char(&mut out, '|');
        push_char(&mut out, '\n');
        assert(out@ =~= border_line() + rows_text(pos.board(), orient, last, k + 1));
        k = k + 1;
    }
    out.append("  +------------------------+\n");
    out.append("   ");
    let ghost labels_start = out@;
    let mut j: i8 = 0;
    while j < 8
        invariant
            0 <= j <= 8,
            out@ == labels_start + file_labels(orient, j as int),
        decreases 8 - j,
    {
        let f: i8 = match orient {
            Color::White => j,
            Color::Black => 7 - j,
        };
        push_char(&mut out, ' ');
        push_char(&mut out, char_from_ascii(97 + f as u32));
        push_char(&mut out, ' ');
        assert(out@ =~= labels_start + file_labels(orient, j + 1));
        j = j + 1;
    }
    push_char(&mut out, '\n');
    assert(out@ =~= board_text(pos.board(), orient, last));
    out
}

/// The name of a side in the status line.
pub open spec fn side_name(c: Color) -> Seq<char> {
    match c {
        Color::White => "White"@,
        Color::Black => "Black"@,
    }
}

/// Whose turn it is (with a check warning), or the game's result.
pub open spec fn status_line_of(g: Game) -> Seq<char> {
    match spec_status(g.positions()) {
        Status::Ongoing => side_name(g.live().side_to_move) + " to move"@ + (if in_check(
            g.live().board(),
            g.live().side_to_move,
        ) {
            "  (check!)"@
        } else {
            ""@
        }),
        Status::Checkmate { winner } => "Checkmate \u{2014} "@ + side_name(winner) + " wins"@,
        Status::Stalemate => "Draw \u{2014} stalemate"@,
        Status::FiftyMoveRule => "Draw \u{2014} fifty-move rule"@,
        Status::ThreefoldRepetition => "Draw \u{2014} threefold repetition"@,
        Status::InsufficientMaterial => "Draw \u{2014} insufficient material"@,
    }
}

/// A one-line status/prompt describing whose turn it is and any game result.
pub fn status_line(game: &Game) -> (s: String)
    requires
        game.wf(),
    ensures
        s@ == status_line_of(*game),
{
    let mut out = String::new();
    match game.status() {
        Status::Ongoing => {
            let side = match game.current().side_to_move {
                Color::White => "White",
                Color::Black => "Black",
            };
            out.append(side);
            out.append(" to move");
            if game.current().is_in_check() {
                out.append("  (check!)");
            } else {
                proof {
                    reveal_strlit("");
                }
                assert(out@ =~= out@ + ""@);
            }
        },
        Status::Checkmate { winner } => {
            let w = match winner {
                Color::White => "White",
                Color::Black => "Black",
            };
            out.append("Checkmate \u{2014} ");
            out.append(w);
            out.append(" wins");
        },
        Status::Stalemate => out.append("Draw \u{2014} stalemate"),
        Status::FiftyMoveRule => out.append("Draw \u{2014} fifty-move rule"),
        Status::ThreefoldRepetition => out.append("Draw \u{2014} threefold repetition"),
        Status::InsufficientMaterial => out.append("Draw \u{2014} insufficient material"),
    }
    out
}

/// The first `n` moves as a compact list: a move number before each White
/// move (`1. e2e4 e7e5 2. g1f3 `), each move followed by a space.
pub open spec fn move_list_text(ms: Seq<Move>, n: int) -> Seq<char>
    decreases n,
{
    if n <= 0 {
        Seq::empty()
    } else {
        let i = n - 1;
        move_list_text(ms, i) + (if i % 2 == 0 {
            decimal_text((i / 2 + 1) as nat) + ". "@
        } else {
            Seq::empty()
        }) + spec_uci(ms[i]) + seq![' ']
    }
}

/// A compact move list (pairs of half-moves), for the sidebar/footer.
pub fn move_list(game: &Game) -> (s: String)
    ensures
        s@ == move_list_text(game.played(), game.played().len() as int),
{
    let mut out = String::new();
    let moves = game.moves();
    let mut i: usize = 0;
    while i < moves.len()
        invariant
            0 <= i <= moves@.len(),
            moves@ == game.played(),
            out@ == move_list_text(moves@, i as int),
        decreases moves@.len() - i,
    {
        let ghost before = out@;
        if i % 2 == 0 {
            push_decimal(&mut out, (i / 2 + 1) as u64);
            out.append(". ");
        }
        let u = moves[i].to_uci();
        out.append(u.as_str());
        push_char(&mut out, ' ');
        assert(out@ =~= move_list_text(moves@, i + 1));
        i = i + 1;
    }
    out
}

// ---- Reading a typed move -----------------------------------------------------

/// The characters of a typed move that count: separators `-`, ` ` and `x` dropped.
pub open spec fn move_chars(s: Seq<char>) -> Seq<char>
    decreases s.len(),
{
    if s.len() == 0 {
        Seq::empty()
    } else {
        let r = move_chars(s.drop_last());
        let c = s.last();
        if c == '-' || c == ' ' || c == 'x' {
            r
        } else {
            r.push(c)
        }
    }
}

/// Bytes a character takes in UTF-8.
pub open spec fn utf8_len(c: char) -> int {
    if (c as u32) < 0x80 {
        1
    } else if (c as u32) < 0x800 {
        2
    } else if (c as u32) < 0x1_0000 {
        3
    } else {
        4
    }
}

/// Bytes the text `s` takes in UTF-8.
pub open spec fn byte_len(s: Seq<char>) -> int
    decreases s.len(),
{
    if s.len() == 0 {
        0
    } else {
        byte_len(s.drop_last()) + utf8_len(s.last())
    }
}

/// A character of `s` starts at byte `k` (or `k` is the end).
pub open spec fn char_boundary(s: Seq<char>, k: int) -> bool {
    exists|n: int| 0 <= n <= s.len() && #[trigger] byte_len(s.take(n)) == k
}

/// How many leading characters of `s` take the first `k` bytes.
pub open spec fn chars_before_byte(s: Seq<char>, k: int) -> int {
    choose|n: int| 0 <= n <= s.len() && #[trigger] byte_len(s.take(n)) == k
}

/// The prompt given for input too short to be a move.
pub open spec fn short_move_message(input: Seq<char>) -> Seq<char> {
    "Enter a move like 'e2e4' (or 'e7e8q' to promote). Got: "@ + input
}

/// The message for a bad from-square.
pub open spec fn bad_from_message(input: Seq<char>) -> Seq<char> {
    "Bad from-square in '"@ + input + "'"@
}

/// The message for a bad to-square.
pub open spec fn bad_to_message(input: Seq<char>) -> Seq<char> {
    "Bad to-square in '"@ + input + "'"@
}

/// A typed move's text, separators dropped, starts characters at bytes 2
/// and 4 when it is at least four bytes long, as slicing it there needs.
pub open spec fn move_text_sliceable(input: Seq<char>) -> bool {
    let c = move_chars(input);
    byte_len(c) >= 4 ==> char_boundary(c, 2) && char_boundary(c, 4)
}

proof fn lemma_byte_len_step(s: Seq<char>, n: int)
    requires
        0 <= n < s.len(),
    ensures
        byte_len(s.take(n + 1)) == byte_len(s.take(n)) + utf8_len(s[n]),
        utf8_len(s[n]) >= 1,
{
    assert(s.take(n + 1).drop_last() =~= s.take(n));
}

/// Longer prefixes take more bytes.
proof fn lemma_byte_len_grows(s: Seq<char>, n1: int, n2: int)
    requires
        0 <= n1 < n2 <= s.len(),
    ensures
        byte_len(s.take(n1)) < byte_len(s.take(n2)),
    decreases n2 - n1,
{
    lemma_byte_len_step(s, n2 - 1);
    if n1 < n2 - 1 {
        lemma_byte_len_grows(s, n1, n2 - 1);
    }
}

/// The number of leading characters that take the first `k` bytes, where a
/// character starts at byte `k`.
fn char_index_at_byte(s: &Vec<char>, k: usize) -> (n: usize)
    requires
        char_boundary(s@, k as int),
        k <= 4,
    ensures
        n == chars_before_byte(s@, k as int),
        n <= s@.len(),
        byte_len(s@.take(n as int)) == k,
{
    let ghost target = chars_before_byte(s@, k as int);
    assert(0 <= target <= s@.len() && byte_len(s@.take(target)) == k);
    let mut n: usize = 0;
    let mut b: usize = 0;
    let len = s.len();
    assert(s@.take(0) =~= Seq::<char>::empty());
    while b < k
        invariant
            len == s@.len(),
            0 <= n <= target,
            target <= s@.len(),
            byte_len(s@.take(target)) == k,
            b == byte_len(s@.take(n as int)),
            k <= 4,
        decreases target - n,
    {
        proof {
            if n as int == target {
                assert(false);
            }
            lemma_byte_len_step(s@, n as int);
        }
        let c = s[n];
        let w: usize = if (c as u32) < 0x80 {
            1
        } else if (c as u32) < 0x800 {
            2
        } else if (c as u32) < 0x1_0000 {
            3
        } else {
            4
        };
        b = b + w;
        n = n + 1;
    }
    proof {
        if (n as int) < target {
            lemma_byte_len_grows(s@, n as int, target);
        }
    }
    n
}

/// Whether the typed move `input` can be read, that is, its text without
/// separators starts characters at bytes 2 and 4 when it is that long.
pub fn move_text_readable(input: &str) -> (b: bool)
    ensures
        b == move_text_sliceable(input@),
{
    let chars = str_chars(input);
    let mut cleaned: Vec<char> = Vec::new();
    let mut i: usize = 0;
    while i < chars.len()
        invariant
            chars@ == input@,
            0 <= i <= chars@.len(),
            cleaned@ == move_chars(chars@.take(i as int)),
        decreases chars@.len() - i,
    {
        assert(chars@.take(i + 1).drop_last() =~= chars@.take(i as int));
        let c = chars[i];
        if !(c == '-' || c == ' ' || c == 'x') {
            cleaned.push(c);
        }
        i = i + 1;
    }
    assert(chars@.take(chars@.len() as int) =~= chars@);
    let ghost cs = cleaned@;
    let mut n: usize = 0;
    let mut b: usize = 0;
    let mut at2 = false;
    let mut at4 = false;
    assert(cs.take(0) =~= Seq::<char>::empty());
    while n < cleaned.len() && b < 4
        invariant
            cs == cleaned@,
            0 <= n <= cs.len(),
            b == byte_len(cs.take(n as int)),
            b <= 7,
            at2 == exists|k: int| 0 <= k <= n && #[trigger] byte_len(cs.take(k)) == 2,
            at4 == exists|k: int| 0 <= k <= n && #[trigger] byte_len(cs.take(k)) == 4,
        decreases cs.len() - n,
    {
        proof {
            lemma_byte_len_step(cs, n as int);
        }
        let c = cleaned[n];
        let w: usize = if (c as u32) < 0x80 {
            1
        } else if (c as u32) < 0x800 {
            2
        } else if (c as u32) < 0x1_0000 {
            3
        } else {
            4
        };
        b = b + w;
        n = n + 1;
        if b == 2 {
            at2 = true;
        }
        if b == 4 {
            at4 = true;
        }
    }
    if b < 4 {
        assert(cs.take(cs.len() as int) =~= cs);
        return true;
    }
    proof {
        if (n as int) < cs.len() {
            lemma_byte_len_grows(cs, n as int, cs.len() as int);
        }
        assert(cs.take(cs.len() as int) =~= cs);
        assert(char_boundary(cs, 2) == at2) by {
            if char_boundary(cs, 2) {
                let k = choose|k: int| 0 <= k <= cs.len() && #[trigger] byte_len(cs.take(k)) == 2;
                if k > n {
                    lemma_byte_len_grows(cs, n as int, k);
                }
            }
        }
        assert(char_boundary(cs, 4) == at4) by {
            if char_boundary(cs, 4) {
                let k = choose|k: int| 0 <= k <= cs.len() && #[trigger] byte_len(cs.take(k)) == 4;
                if k > n {
                    lemma_byte_len_grows(cs, n as int, k);
                }
            }
        }
    }
    at2 && at4
}

/// What reading the typed move `input` gives: the move (flag `Normal`), or
/// the message for the first thing wrong with it.
pub open spec fn move_read(input: Seq<char>) -> Result<Move, Seq<char>> {
    let c = move_chars(input);
    if byte_len(c) < 4 {
        Err(short_move_message(input))
    } else {
        let i2 = chars_before_byte(c, 2);
        let i4 = chars_before_byte(c, 4);
        match spec_square_from_algebraic(c.subrange(0, i2)) {
            None => Err(bad_from_message(input)),
            Some(from) => match spec_square_from_algebraic(c.subrange(i2, i4)) {
                None => Err(bad_to_message(input)),
                Some(to) => Ok(
                    Move {
                        from,
                        to,
                        promotion: if c.len() > 4 {
                            PieceKind::spec_from_char(c[4])
                        } else {
                            None
                        },
                        flag: MoveFlag::Normal,
                    },
                ),
            },
        }
    }
}

/// Dropping separators twice drops nothing more.
proof fn lemma_move_chars_settled(s: Seq<char>)
    ensures
        move_chars(move_chars(s)) == move_chars(s),
    decreases s.len(),
{
    if s.len() > 0 {
        lemma_move_chars_settled(s.drop_last());
        let r = move_chars(s.drop_last());
        let c = s.last();
        if !(c == '-' || c == ' ' || c == 'x') {
            assert(r.push(c).drop_last() =~= r);
        }
    }
}

/// Separators do not change what a typed move reads as: a text reads as a
/// move exactly when the text with every `-`, ` ` and `x` dropped does, and
/// then as the same move.
pub proof fn law_separators_do_not_change_the_move(t: Seq<char>)
    ensures
        (move_read(t) is Ok) == (move_read(move_chars(t)) is Ok),
        move_read(t) is Ok ==> move_read(t) == move_read(move_chars(t)),
{
    lemma_move_chars_settled(t);
}

/// In an all-ASCII text, the first `n` characters take `n` bytes.
proof fn lemma_ascii_bytes(s: Seq<char>, n: int)
    requires
        0 <= n <= s.len(),
        forall|i: int| 0 <= i < s.len() ==> (#[trigger] s[i] as u32) < 0x80,
    ensures
        byte_len(s.take(n)) == n,
    decreases n,
{
    if n > 0 {
        lemma_ascii_bytes(s, n - 1);
        lemma_byte_len_step(s, n - 1);
    }
}

/// The names of two squares followed by a piece letter read as the move
/// between those squares, promoting to the piece the letter names.
pub proof fn law_promotion_letter_is_read(from: Square, to: Square, p: char)
    requires
        from.valid(),
        to.valid(),
        p == 'q' || p == 'r' || p == 'b' || p == 'n' || p == 'Q' || p == 'R' || p == 'B' || p == 'N',
    ensures
        move_read(spec_square_name(from) + spec_square_name(to) + seq![p]) == Ok::<Move, Seq<char>>(
            Move { from, to, promotion: PieceKind::spec_from_char(p), flag: MoveFlag::Normal },
        ),
{
    let t = spec_square_name(from) + spec_square_name(to) + seq![p];
    crate::fen_laws::lemma_square_name_roundtrip(from);
    crate::fen_laws::lemma_square_name_roundtrip(to);
    assert(t.len() == 5);
    assert forall|i: int| 0 <= i < 5 implies !(t[i] == '-' || t[i] == ' ' || t[i] == 'x') && (#[trigger] t[i] as u32) < 0x80 by {
        assert(from.0 % 8 < 8 && from.0 / 8 < 8 && to.0 % 8 < 8 && to.0 / 8 < 8);
    }
    assert(move_chars(t) == t) by {
        assert forall|k: int| 0 <= k <= 5 implies move_chars(#[trigger] t.take(k)) == t.take(k) by {
            lemma_move_chars_prefix(t, k);
        }
        assert(t.take(5) =~= t);
    }
    lemma_ascii_bytes(t, 5);
    lemma_ascii_bytes(t, 2);
    lemma_ascii_bytes(t, 4);
    assert(t.take(5) =~= t);
    assert(byte_len(t) == 5);
    let i2 = chars_before_byte(t, 2);
    let i4 = chars_before_byte(t, 4);
    assert(0 <= i2 <= t.len() && byte_len(t.take(i2)) == 2);
    assert(0 <= i4 <= t.len() && byte_len(t.take(i4)) == 4);
    lemma_ascii_bytes(t, i2);
    lemma_ascii_bytes(t, i4);
    assert(t.subrange(0, 2) =~= spec_square_name(from));
    assert(t.subrange(2, 4) =~= spec_square_name(to));
}

/// The names of two squares read as the plain move between those squares.
pub proof fn law_square_names_are_read(from: Square, to: Square)
    requires
        from.valid(),
        to.valid(),
    ensures
        move_read(spec_square_name(from) + spec_square_name(to)) == Ok::<Move, Seq<char>>(
            Move { from, to, promotion: None, flag: MoveFlag::Normal },
        ),
{
    let t = spec_square_name(from) + spec_square_name(to);
    crate::fen_laws::lemma_square_name_roundtrip(from);
    crate::fen_laws::lemma_square_name_roundtrip(to);
    assert(t.len() == 4);
    assert forall|i: int| 0 <= i < 4 implies !(t[i] == '-' || t[i] == ' ' || t[i] == 'x') && (#[trigger] t[i] as u32) < 0x80 by {
        assert(from.0 % 8 < 8 && from.0 / 8 < 8 && to.0 % 8 < 8 && to.0 / 8 < 8);
    }
    assert(move_chars(t) == t) by {
        lemma_move_chars_prefix(t, 4);
        assert(t.take(4) =~= t);
    }
    lemma_ascii_bytes(t, 4);
    assert(t.take(4) =~= t);
    let i2 = chars_before_byte(t, 2);
    let i4 = chars_before_byte(t, 4);
    lemma_ascii_bytes(t, 2);
    assert(0 <= i2 <= t.len() && byte_len(t.take(i2)) == 2);
    assert(0 <= i4 <= t.len() && byte_len(t.take(i4)) == 4);
    lemma_ascii_bytes(t, i2);
    lemma_ascii_bytes(t, i4);
    assert(t.subrange(0, 2) =~= spec_square_name(from));
    assert(t.subrange(2, 4) =~= spec_square_name(to));
}

/// A text none of whose first `k` characters is a separator keeps them all.
proof fn lemma_move_chars_prefix(t: Seq<char>, k: int)
    requires
        0 <= k <= t.len(),
        forall|i: int| 0 <= i < t.len() ==> !(#[trigger] t[i] == '-' || t[i] == ' ' || t[i] == 'x'),
    ensures
        move_chars(t.take(k)) == t.take(k),
    decreases k,
{
    if k > 0 {
        lemma_move_chars_prefix(t, k - 1);
        assert(t.take(k).drop_last() =~= t.take(k - 1));
        assert(t.take(k - 1).push(t[k - 1]) =~= t.take(k));
    }
}

/// Parse a move in coordinate form: `e2e4`, `e7e8q`, or with a separator
/// `e2-e4`; the flag is `Normal`.
pub fn parse_move(input: &str) -> (r: Result<Move, String>)
    requires
        move_text_sliceable(input@),
    ensures
        match move_read(input@) {
            Ok(m) => r == Ok::<Move, String>(m),
            Err(e) => r matches Err(x) && x@ == e,
        },
{
    let chars = str_chars(input);
    let mut cleaned: Vec<char> = Vec::new();
    let mut bytes: usize = 0;
    let mut i: usize = 0;
    while i < chars.len()
        invariant
            0 <= i <= chars@.len(),
            chars@ == input@,
            cleaned@ == move_chars(chars@.take(i as int)),
            bytes < 4 ==> bytes == byte_len(cleaned@),
            bytes >= 4 ==> byte_len(cleaned@) >= 4,
            bytes <= 8,
        decreases chars@.len() - i,
    {
        assert(chars@.take(i + 1).drop_last() =~= chars@.take(i as int));
        let c = chars[i];
        if !(c == '-' || c == ' ' || c == 'x') {
            let w: usize = if (c as u32) < 0x80 {
                1
            } else if (c as u32) < 0x800 {
                2
            } else if (c as u32) < 0x1_0000 {
                3
            } else {
                4
            };
            let ghost before = cleaned@;
            cleaned.push(c);
            assert(cleaned@.drop_last() =~= before);
            if bytes < 4 {
                bytes = bytes + w;
            }
        }
        i = i + 1;
    }
    assert(chars@.take(chars@.len() as int) =~= chars@);
    if bytes < 4 {
        let mut msg = "Enter a move like 'e2e4' (or 'e7e8q' to promote). Got: ".to_owned();
        msg.append(input);
        return Err(msg);
    }
    let i2 = char_index_at_byte(&cleaned, 2);
    let i4 = char_index_at_byte(&cleaned, 4);
    proof {
        // A character starts at byte 2 before the one at byte 4.
        if i4 < i2 {
            lemma_byte_len_grows(cleaned@, i4 as int, i2 as int);
        }
    }
    let a = string_from_chars(&sub_chars(&cleaned, 0, i2));
    let from = match Square::from_algebraic(a.as_str()) {
        Some(q) => q,
        None => {
            let mut msg = "Bad from-square in '".to_owned();
            msg.append(input);
            msg.append("'");
            return Err(msg);
        },
    };
    let b = string_from_chars(&sub_chars(&cleaned, i2, i4));
    let to = match Square::from_algebraic(b.as_str()) {
        Some(q) => q,
        None => {
            let mut msg = "Bad to-square in '".to_owned();
            msg.append(input);
            msg.append("'");
            return Err(msg);
        },
    };
    let promotion = if cleaned.len() > 4 {
        PieceKind::from_char(cleaned[4])
    } else {
        None
    };
    Ok(Move { from, to, promotion, flag: MoveFlag::Normal })
}

/// The footer of a still board: whose turn it is.
pub fn turn_text(pos: &Position) -> (s: String)
    ensures
        s@ == (match pos.side_to_move {
            Color::White => "WHITE TO MOVE"@,
            Color::Black => "BLACK TO MOVE"@,
        }),
{
    match pos.side_to_move {
        Color::White => "WHITE TO MOVE".to_owned(),
        Color::Black => "BLACK TO MOVE".to_owned(),
    }
}

// ---- Listing legal moves ---------------------------------------------------------

/// The order moves are listed in: by from-square, then by to-square.
pub open spec fn move_key(m: Move) -> int {
    m.from.0 * 64 + m.to.0
}

/// The moves of `ms` whose key is below `k`, ordered by key, moves with equal
/// keys in the order of `ms`.
pub open spec fn sorted_below(ms: Seq<Move>, k: int) -> Seq<Move>
    decreases k,
{
    if k <= 0 {
        Seq::empty()
    } else {
        sorted_below(ms, k - 1) + ms.filter(|m: Move| move_key(m) == k - 1)
    }
}

/// `ms` sorted by from-square and then to-square, stably.
pub open spec fn sorted_by_squares(ms: Seq<Move>) -> Seq<Move> {
    sorted_below(ms, 4096)
}

/// The coordinate texts of moves separated by single spaces.
pub open spec fn spaced_ucis(ms: Seq<Move>) -> Seq<char> {
    crate::history::joined_ucis(ms)
}

/// The line listing the moves `ms`: their count, then their texts.
pub open spec fn legal_moves_line_of(ms: Seq<Move>) -> Seq<char> {
    "legal moves ("@ + decimal_text(ms.len()) + "): "@ + spaced_ucis(ms)
}

proof fn lemma_filter_push(ms: Seq<Move>, m: Move, k: int)
    ensures
        ms.push(m).filter(|x: Move| move_key(x) == k) == (if move_key(m) == k {
            ms.filter(|x: Move| move_key(x) == k).push(m)
        } else {
            ms.filter(|x: Move| move_key(x) == k)
        }),
{
    let f = |x: Move| move_key(x) == k;
    ms.lemma_filter_push(m, f);
}

/// The moves of `ms` with keys below `k` are those `sorted_below` lists.
proof fn lemma_sorted_contains(ms: Seq<Move>, k: int, m: Move)
    requires
        0 <= k,
    ensures
        sorted_below(ms, k).contains(m) <==> (ms.contains(m) && 0 <= move_key(m) < k),
    decreases k,
{
    if k > 0 {
        lemma_sorted_contains(ms, k - 1, m);
        let f = |x: Move| move_key(x) == k - 1;
        let part = ms.filter(f);
        if part.contains(m) {
            ms.lemma_filter_contains_rev(f, m);
            let i = choose|i: int| 0 <= i < part.len() && part[i] == m;
            ms.lemma_filter_pred(f, i);
        }
        if ms.contains(m) && move_key(m) == k - 1 {
            let i = choose|i: int| 0 <= i < ms.len() && ms[i] == m;
            ms.lemma_filter_contains(f, i);
        }
        crate::position::lemma_concat_contains(sorted_below(ms, k - 1), part, m);
        assert(0 <= move_key(m));
    }
}

/// Sorting moves by their squares keeps exactly the moves whose squares are
/// on the board.
pub proof fn law_sorting_keeps_moves(ms: Seq<Move>, m: Move)
    ensures
        m.valid() ==> (sorted_by_squares(ms).contains(m) <==> ms.contains(m)),
{
    lemma_sorted_contains(ms, 4096, m);
}

/// The legal moves of the live position, sorted by from-square and then
/// to-square (moves sharing both in the order they are generated), as a line
/// with their count.
pub fn legal_moves_line(game: &Game) -> (s: String)
    requires
        game.wf(),
    ensures
        s@ == legal_moves_line_of(sorted_by_squares(legal_list(game.live()))),
{
    let moves = game.legal_moves();
    let mut sorted: Vec<Move> = Vec::new();
    let mut k: u32 = 0;
    while k < 64 * 64
        invariant
            0 <= k <= 64 * 64,
            sorted@ == sorted_below(moves@, k as int),
        decreases 64 * 64 - k,
    {
        let ghost before = sorted@;
        let ghost f = |x: Move| move_key(x) == k as int;
        let mut i: usize = 0;
        while i < moves.len()
            invariant
                0 <= i <= moves@.len(),
                k < 64 * 64,
                f == (|x: Move| move_key(x) == k as int),
                sorted@ == before + moves@.take(i as int).filter(f),
            decreases moves@.len() - i,
        {
            let m = moves[i];
            proof {
                assert(moves@.take(i + 1) =~= moves@.take(i as int).push(m));
                lemma_filter_push(moves@.take(i as int), m, k as int);
            }
            if (m.from.0 as u32) * 64 + (m.to.0 as u32) == k {
                sorted.push(m);
            }
            i = i + 1;
        }
        assert(moves@.take(moves@.len() as int) =~= moves@);
        k = k + 1;
    }
    let mut out = "legal moves (".to_owned();
    push_decimal(&mut out, sorted.len() as u64);
    out.append("): ");
    let ghost head = out@;
    let mut j: usize = 0;
    while j < sorted.len()
        invariant
            0 <= j <= sorted@.len(),
            out@ == head + spaced_ucis(sorted@.take(j as int)),
        decreases sorted@.len() - j,
    {
        if j > 0 {
            push_char(&mut out, ' ');
        }
        let u = sorted[j].to_uci();
        out.append(u.as_str());
        assert(sorted@.take(j + 1).drop_last() =~= sorted@.take(j as int));
        if j == 0 {
            assert(sorted@.take(1) =~= seq![sorted@[0]]);
        }
        assert(out@ =~= head + spaced_ucis(sorted@.take(j + 1)));
        j = j + 1;
    }
    assert(sorted@.take(sorted@.len() as int) =~= sorted@);
    assert(out@ == legal_moves_line_of(sorted_by_squares(moves@)));
    out
}

/// The moves of `ms` from the square `from`, in order.
pub open spec fn moves_from(ms: Seq<Move>, from: Square) -> Seq<Move>
    decreases ms.len(),
{
    if ms.len() == 0 {
        Seq::empty()
    } else {
        let r = moves_from(ms.drop_last(), from);
        if ms.last().from == from {
            r.push(ms.last())
        } else {
            r
        }
    }
}

/// Where a move goes: the to-square's name, and the promotion letter if any.
pub open spec fn dest_text(m: Move) -> Seq<char> {
    match m.promotion {
        Some(k) => spec_square_name(m.to).push(k.spec_to_char()),
        None => spec_square_name(m.to),
    }
}

/// The destinations of `ms` separated by single spaces.
pub open spec fn dests_joined(ms: Seq<Move>) -> Seq<char>
    decreases ms.len(),
{
    if ms.len() == 0 {
        Seq::empty()
    } else if ms.len() == 1 {
        dest_text(ms[0])
    } else {
        dests_joined(ms.drop_last()) + seq![' '] + dest_text(ms.last())
    }
}

/// The line answering which moves the legal moves `ms` offer from the square
/// named `name`.
pub open spec fn moves_from_line_of(ms: Seq<Move>, name: Seq<char>) -> Seq<char> {
    match spec_square_from_algebraic(name) {
        None => "Not a square: "@ + name,
        Some(sq) => if moves_from(ms, sq).len() == 0 {
            "No legal moves from "@ + spec_square_name(sq) + "."@
        } else {
            "from "@ + spec_square_name(sq) + ": "@ + dests_joined(moves_from(ms, sq))
        },
    }
}

/// The legal moves of the live position from the square named `sq_str`, as
/// a line of destinations in the order the moves are generated.
pub fn moves_from_line(game: &Game, sq_str: &str) -> (s: String)
    requires
        game.wf(),
    ensures
        s@ == moves_from_line_of(legal_list(game.live()), sq_str@),
{
    let moves = game.legal_moves();
    let sq = match Square::from_algebraic(sq_str) {
        Some(q) => q,
        None => {
            let mut out = "Not a square: ".to_owned();
            out.append(sq_str);
            assert(out@ == moves_from_line_of(moves@, sq_str@));
            return out;
        },
    };
    let mut dests = String::new();
    let mut count: usize = 0;
    let mut i: usize = 0;
    while i < moves.len()
        invariant
            0 <= i <= moves@.len(),
            count == moves_from(moves@.take(i as int), sq).len(),
            count <= i,
            dests@ == dests_joined(moves_from(moves@.take(i as int), sq)),
        decreases moves@.len() - i,
    {
        let m = moves[i];
        assert(moves@.take(i + 1).drop_last() =~= moves@.take(i as int));
        if m.from == sq {
            let ghost prev = moves_from(moves@.take(i as int), sq);
            if count > 0 {
                push_char(&mut dests, ' ');
            }
            let t = m.to.to_algebraic();
            dests.append(t.as_str());
            if let Some(p) = m.promotion {
                push_char(&mut dests, p.to_char());
            }
            let ghost now = moves_from(moves@.take(i + 1), sq);
            assert(now == prev.push(m));
            assert(now.drop_last() =~= prev);
            if count == 0 {
                assert(now =~= seq![m]);
            }
            assert(dests@ =~= dests_joined(now));
            count = count + 1;
        }
        i = i + 1;
    }
    assert(moves@.take(moves@.len() as int) =~= moves@);
    let name = sq.to_algebraic();
    let mut out = String::new();
    if count == 0 {
        out.append("No legal moves from ");
        out.append(name.as_str());
        out.append(".");
    } else {
        out.append("from ");
        out.append(name.as_str());
        out.append(": ");
        out.append(dests.as_str());
    }
    assert(out@ == moves_from_line_of(moves@, sq_str@));
    out
}

} // verus!
