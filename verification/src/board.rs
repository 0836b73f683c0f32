//! Look and layout of a rendered board, and the painting of its squares.
//!
//! The squares, the last-move highlight and the frame are integer geometry and
//! are painted here; where each piece goes, over which shade and which way up,
//! is decided here too, and the front end draws the pieces and text on top.

use vstd::prelude::*;

use crate::canvas::{in_span, max_int, min_int, Canvas};
use crate::layout::{
    bar_fits, board_geometry, cell_of, coords_of, first_control, law_hit_finds_square, layout_hit, HitTarget, Layout,
};
use crate::position::Position;
use crate::types::{Color, Piece, Square};

verus! {

/// Which piece artwork to draw.
#[derive(Debug, Clone, Copy, PartialEq, Eq, Structural)]
pub enum PieceStyle {
    /// Classic raster set; falls back to `Vector` if the asset is unavailable.
    Classic,
    /// Anti-aliased vector silhouettes (no asset needed).
    Vector,
}

/// Look and layout of a rendered board. Defaults target the Kobo Clara BW
/// (1072x1448 portrait, grayscale).
#[derive(Clone)]
pub struct RenderOptions {
    pub width: u32,
    pub height: u32,
    /// Which side sits at the bottom.
    pub orient: Color,
    /// Grayscale values for the two square colors and the page background.
    pub light_sq: u8,
    pub dark_sq: u8,
    pub bg: u8,
    /// Draw file/rank labels around the board.
    pub coords: bool,
    /// Optional lines of text above and below the board.
    pub header: Option<String>,
    pub footer: Option<String>,
    /// Highlight the from/to squares of the last move.
    pub highlight: Option<(Square, Square)>,
    /// Which piece artwork to draw.
    pub piece_style: PieceStyle,
    /// "Over the board" mode: the far side's pieces are drawn rotated 180° so
    /// two players facing each other each read their own pieces upright.
    pub over_the_board: bool,
    /// Show the control bar along the bottom.
    pub controls: bool,
    /// The square of the selected piece, if any.
    pub selected: Option<Square>,
    /// Squares the selected piece may move to.
    pub targets: Vec<Square>,
}

impl RenderOptions {
    /// Full-screen defaults for the Clara BW.
    pub fn clara_bw() -> (o: RenderOptions)
        ensures
            o.width == 1072,
            o.height == 1448,
            o.orient == Color::White,
            o.light_sq == 255,
            o.dark_sq == 168,
            o.bg == 255,
            o.coords,
            o.header is None,
            o.footer is None,
            o.highlight is None,
            o.piece_style == PieceStyle::Classic,
            !o.over_the_board,
            !o.controls,
            o.selected is None,
            o.targets@.len() == 0,
    {
        RenderOptions {
            width: 1072,
            height: 1448,
            orient: Color::White,
            light_sq: 255,
            dark_sq: 168,
            bg: 255,
            coords: true,
            header: None,
            footer: None,
            highlight: None,
            piece_style: PieceStyle::Classic,
            over_the_board: false,
            controls: false,
            selected: None,
            targets: Vec::new(),
        }
    }

    /// The geometry these options draw with, which is also what taps are
    /// hit-tested against.
    pub fn layout(&self) -> (l: Layout)
        requires
            self.controls ==> bar_fits(self.width as int, self.height as int),
        ensures
            l.wf(),
            l.width == self.width,
            l.height == self.height,
            l.orient == self.orient,
            l.margin == self.width / 24,
            l.label == (if self.coords {
                self.width / 18
            } else {
                0
            }),
            l.header_h == (if self.header is Some {
                self.width / 12
            } else {
                self.width / 24
            }),
            l.board_x == l.margin + l.label,
            l.board_y == l.header_h + l.margin,
            l.square == (self.width - 2 * l.margin - l.label) / 8,
            l.board_px == 8 * l.square,
            l.controls@ == (if self.controls {
                crate::layout::bar_rects(self.width as int, self.height as int, (self.width / 24) as int)
            } else {
                Seq::empty()
            }),
    {
        Layout::new(self.width, self.height, self.orient, self.coords, self.header.is_some(), self.controls)
    }
}

/// The pixel (x, y) lies inside a canvas whose sides are taken as `i32`, as
/// the fills clip them.
pub open spec fn visible(width: u32, height: u32, x: int, y: int) -> bool {
    0 <= x < (width as i32) as int && 0 <= y < (height as i32) as int
}

/// The board square (file, rank) under the pixel (x, y), if the pixel lies on
/// the board of these options.
pub open spec fn board_cell(o: RenderOptions, x: int, y: int) -> Option<(int, int)> {
    let geo = board_geometry(o.width as int, o.coords, o.header is Some);
    let (bx, by, sq) = geo;
    if bx <= x < bx + 8 * sq && by <= y < by + 8 * sq {
        Some(coords_of(o.orient, (x - bx) / sq, (y - by) / sq))
    } else {
        None
    }
}

/// The shade of the square (file, rank): dark where file + rank is even, a
/// notch darker when it is a square of the highlighted move.
pub open spec fn cell_shade(o: RenderOptions, file: int, rank: int) -> u8 {
    let v = if (file + rank) % 2 == 0 {
        o.dark_sq
    } else {
        o.light_sq
    };
    match o.highlight {
        Some((from, to)) => if from.0 == rank * 8 + file || to.0 == rank * 8 + file {
            if v >= 48 {
                (v - 48) as u8
            } else {
                0
            }
        } else {
            v
        },
        None => v,
    }
}

/// The pixel (x, y) lies on the two-pixel frame around the board of these options.
pub open spec fn on_frame(o: RenderOptions, x: int, y: int) -> bool {
    let geo = board_geometry(o.width as int, o.coords, o.header is Some);
    let (bx, by, sq) = geo;
    let size = 8 * sq;
    ||| (bx - 2 <= x < bx + size + 2 && by - 2 <= y < by)
    ||| (bx - 2 <= x < bx + size + 2 && by + size <= y < by + size + 2)
    ||| (bx - 2 <= x < bx && by <= y < by + size)
    ||| (bx + size <= x < bx + size + 2 && by <= y < by + size)
}

/// The painted board's pixel (x, y): black on the frame, the square's shade
/// on the board, the background elsewhere.
pub open spec fn board_pixel(o: RenderOptions, x: int, y: int) -> u8 {
    if visible(o.width, o.height, x, y) && on_frame(o, x, y) {
        0
    } else if visible(o.width, o.height, x, y) && board_cell(o, x, y) is Some {
        cell_shade(o, board_cell(o, x, y).unwrap().0, board_cell(o, x, y).unwrap().1)
    } else {
        o.bg
    }
}

/// A pixel after the squares before (file, rank), in rank order and then
/// file order, are painted: the square's shade if it is one of those, else
/// the background.
pub open spec fn squares_upto(o: RenderOptions, x: int, y: int, rank: int, file: int) -> u8 {
    if visible(o.width, o.height, x, y) {
        match board_cell(o, x, y) {
            Some((f, r)) => if r < rank || (r == rank && f < file) {
                cell_shade(o, f, r)
            } else {
                o.bg
            },
            None => o.bg,
        }
    } else {
        o.bg
    }
}

/// The board and its frame fit in `i32` pixel coordinates.
pub open spec fn board_fits(o: RenderOptions) -> bool {
    let geo = board_geometry(o.width as int, o.coords, o.header is Some);
    &&& geo.0 + 8 * geo.2 + 2 <= i32::MAX
    &&& geo.1 + 8 * geo.2 + 2 <= i32::MAX
    &&& 8 * geo.2 + 4 <= i32::MAX
}

/// A board pixel's square has coordinates on the board.
proof fn lemma_board_cell_bounds(o: RenderOptions, x: int, y: int)
    ensures
        board_cell(o, x, y) matches Some((f, r)) ==> 0 <= f < 8 && 0 <= r < 8,
{
    let geo = board_geometry(o.width as int, o.coords, o.header is Some);
    if board_cell(o, x, y) is Some {
        assert(geo.2 > 0);
        lemma_axis_bounds(geo.0, geo.2, x);
        lemma_axis_bounds(geo.1, geo.2, y);
    }
}

/// The column and row of a pixel index of a canvas `width` wide.
pub proof fn lemma_pixel_coords(i: int, width: int, height: int)
    requires
        0 <= i < width * height,
        width >= 0,
        height >= 0,
    ensures
        width > 0,
        0 <= i % width < width,
        0 <= i / width,
{
    if width == 0 {
        assert(width * height == 0) by (nonlinear_arith)
            requires
                width == 0,
        ;
    }
    vstd::arithmetic::div_mod::lemma_fundamental_div_mod(i, width);
    assert(0 <= i / width) by (nonlinear_arith)
        requires
            width > 0,
            i >= 0,
            i == width * (i / width) + i % width,
            i % width < width,
    ;
}

/// A square-sized cell at (`bx` + `col` * `sq`, `by` + `row` * `sq`) holds exactly
/// the board pixels whose cell is (col, row).
proof fn lemma_cell_span(bx: int, by: int, sq: int, col: int, row: int, x: int, y: int)
    requires
        sq > 0,
        0 <= col < 8,
        0 <= row < 8,
    ensures
        (bx + col * sq <= x < bx + col * sq + sq && by + row * sq <= y < by + row * sq + sq) <==> (bx <= x < bx
            + 8 * sq && by <= y < by + 8 * sq && (x - bx) / sq == col && (y - by) / sq == row),
{
    lemma_axis_span(bx, sq, col, x);
    lemma_axis_span(by, sq, row, y);
}

proof fn lemma_axis_span(b: int, sq: int, c: int, x: int)
    requires
        sq > 0,
        0 <= c < 8,
    ensures
        (b + c * sq <= x < b + c * sq + sq) <==> (b <= x < b + 8 * sq && (x - b) / sq == c),
{
    assert(0 <= c * sq && c * sq + sq <= 8 * sq) by (nonlinear_arith)
        requires
            sq > 0,
            0 <= c < 8,
    ;
    if b + c * sq <= x < b + c * sq + sq {
        vstd::arithmetic::div_mod::lemma_fundamental_div_mod_converse(x - b, sq, c, x - b - c * sq);
    }
    if b <= x < b + 8 * sq && (x - b) / sq == c {
        vstd::arithmetic::div_mod::lemma_fundamental_div_mod(x - b, sq);
        assert((x - b) == sq * c + (x - b) % sq);
        assert(sq * c == c * sq) by (nonlinear_arith);
    }
}

/// Paint the page background, the board's squares (the last move's squares
/// a notch darker) and the board's frame: the layer under the pieces and text.
pub fn paint_board(o: &RenderOptions) -> (c: Canvas)
    requires
        o.width * o.height <= u32::MAX,
        board_fits(*o),
    ensures
        c.wf(),
        c.width == o.width,
        c.height == o.height,
        forall|i: int|
            0 <= i < c.pixels@.len() ==> #[trigger] c.pixels@[i] == board_pixel(
                *o,
                i % (o.width as int),
                i / (o.width as int),
            ),
{
    let mut c = Canvas::new(o.width, o.height, o.bg);
    let ghost wd = o.width as int;

    // Layout, as the board geometry gives it.
    let margin = o.width / 24;
    let label = if o.coords {
        o.width / 18
    } else {
        0
    };
    let header_h = if o.header.is_some() {
        o.width / 12
    } else {
        margin
    };
    assert(2 * (o.width / 24) + o.width / 18 <= o.width) by (nonlinear_arith);
    let avail_w = o.width - 2 * margin - label;
    let square = avail_w / 8;
    let board_px = square * 8;
    let board_x = margin + label;
    let board_y = header_h + margin;
    let ghost geo = board_geometry(o.width as int, o.coords, o.header is Some);
    assert(geo == (board_x as int, board_y as int, square as int));

    assert forall|i: int| 0 <= i < c.pixels@.len() implies #[trigger] c.pixels@[i] == squares_upto(
        *o,
        i % wd,
        i / wd,
        0,
        0,
    ) by {
        lemma_board_cell_bounds(*o, i % wd, i / wd);
    }
    // Squares + highlight, rank by rank.
    let mut rank: i8 = 0;
    while rank < 8
        invariant
            0 <= rank <= 8,
            c.wf(),
            c.width == o.width,
            c.height == o.height,
            wd == o.width,
            board_fits(*o),
            geo == board_geometry(o.width as int, o.coords, o.header is Some),
            geo == (board_x as int, board_y as int, square as int),
            board_px == 8 * square,
            forall|i: int|
                0 <= i < c.pixels@.len() ==> #[trigger] c.pixels@[i] == squares_upto(*o, i % wd, i / wd, rank as int, 0),
        decreases 8 - rank,
    {
        let mut file: i8 = 0;
        while file < 8
            invariant
                0 <= rank < 8,
                0 <= file <= 8,
                c.wf(),
                c.width == o.width,
                c.height == o.height,
                wd == o.width,
                board_fits(*o),
                geo == board_geometry(o.width as int, o.coords, o.header is Some),
                geo == (board_x as int, board_y as int, square as int),
                board_px == 8 * square,
                forall|i: int|
                    0 <= i < c.pixels@.len() ==> #[trigger] c.pixels@[i] == squares_upto(
                        *o,
                        i % wd,
                        i / wd,
                        rank as int,
                        file as int,
                    ),
            decreases 8 - file,
        {
            let (col, row) = to_screen(file, rank, o.orient);
            assert(col * square <= 7 * square && row * square <= 7 * square) by (nonlinear_arith)
                requires
                    col < 8,
                    row < 8,
            ;
            let x = board_x + col * square;
            let y = board_y + row * square;
            let mut v = if (file + rank) % 2 == 0 {
                o.dark_sq
            } else {
                o.light_sq
            };
            // Darken highlighted squares a notch so they read on e-ink.
            let idx: u8 = (rank * 8 + file) as u8;
            if let Some((from, to)) = o.highlight {
                if from.0 == idx || to.0 == idx {
                    v = if v >= 48 {
                        v - 48
                    } else {
                        0
                    };
                }
            }
            assert(v == cell_shade(*o, file as int, rank as int));
            let ghost before = c.pixels@;
            c.fill_rect(x as i32, y as i32, square as i32, square as i32, v);
            assert forall|i: int| 0 <= i < c.pixels@.len() implies #[trigger] c.pixels@[i] == squares_upto(
                *o,
                i % wd,
                i / wd,
                rank as int,
                file + 1,
            ) by {
                let px = i % wd;
                let py = i / wd;
                lemma_pixel_coords(i, wd, c.height as int);
                lemma_board_cell_bounds(*o, px, py);
                let span = in_span(
                    max_int(x as int, 0),
                    min_int(x + square, (o.width as i32) as int),
                    max_int(y as int, 0),
                    min_int(y + square, (o.height as i32) as int),
                    px,
                    py,
                );
                if square > 0 {
                    lemma_cell_span(board_x as int, board_y as int, square as int, col as int, row as int, px, py);
                }
                let here = visible(o.width, o.height, px, py) && board_cell(*o, px, py) == Some(
                    (file as int, rank as int),
                );
                assert(span == here) by {
                    if board_cell(*o, px, py) == Some((file as int, rank as int)) {
                        assert(square > 0);
                        let cc = (px - board_x) / (square as int);
                        let rr = (py - board_y) / (square as int);
                        assert(coords_of(o.orient, cc, rr) == (file as int, rank as int));
                        assert(0 <= cc < 8 && 0 <= rr < 8) by {
                            lemma_axis_bounds(board_x as int, square as int, px);
                            lemma_axis_bounds(board_y as int, square as int, py);
                        }
                        assert(cc == col && rr == row);
                    }
                }
                assert(c.pixels@[i] == (if span {
                    v
                } else {
                    before[i]
                }));
            }
            file = file + 1;
        }
        assert forall|i: int| 0 <= i < c.pixels@.len() implies #[trigger] c.pixels@[i] == squares_upto(
            *o,
            i % wd,
            i / wd,
            rank + 1,
            0,
        ) by {
            lemma_board_cell_bounds(*o, i % wd, i / wd);
            assert(c.pixels@[i] == squares_upto(*o, i % wd, i / wd, rank as int, 8));
        }
        rank = rank + 1;
    }

    // Board frame.
    let ghost squares_done = c.pixels@;
    draw_frame(&mut c, board_x as i32, board_y as i32, board_px as i32, 2, 0);
    assert forall|i: int| 0 <= i < c.pixels@.len() implies #[trigger] c.pixels@[i] == board_pixel(*o, i % wd, i / wd)
        by {
        let px = i % wd;
        let py = i / wd;
        lemma_pixel_coords(i, wd, c.height as int);
        lemma_board_cell_bounds(*o, px, py);
        assert(c.pixels@[i] == (if visible(o.width, o.height, px, py) && frame_at(
            board_x as int,
            board_y as int,
            board_px as int,
            px,
            py,
        ) {
            0u8
        } else {
            squares_done[i]
        }));
        assert(squares_done[i] == squares_upto(*o, px, py, 8, 0));
    }
    c
}

/// A pixel on the board lies in one of its eight columns.
proof fn lemma_axis_bounds(b: int, sq: int, x: int)
    requires
        sq > 0,
        b <= x < b + 8 * sq,
    ensures
        0 <= (x - b) / sq < 8,
{
    vstd::arithmetic::div_mod::lemma_fundamental_div_mod(x - b, sq);
    assert(0 <= (x - b) / sq < 8) by (nonlinear_arith)
        requires
            x - b == sq * ((x - b) / sq) + (x - b) % sq,
            0 <= (x - b) % sq < sq,
            0 <= x - b < 8 * sq,
    ;
}

/// Map (file, rank) board coordinates to (col, row) screen cells for an orientation.
fn to_screen(file: i8, rank: i8, orient: Color) -> (c: (u32, u32))
    requires
        0 <= file < 8,
        0 <= rank < 8,
    ensures
        c.0 == cell_of(orient, file as int, rank as int).0,
        c.1 == cell_of(orient, file as int, rank as int).1,
        c.0 < 8 && c.1 < 8,
{
    match orient {
        Color::White => (file as u32, (7 - rank) as u32),
        Color::Black => ((7 - file) as u32, rank as u32),
    }
}

/// Draw a hollow square border of the given thickness around the square of
/// side `size` at (x, y).
fn draw_frame(c: &mut Canvas, x: i32, y: i32, size: i32, thick: i32, v: u8)
    requires
        old(c).wf(),
        x >= 0,
        y >= 0,
        size >= 0,
        thick == 2,
        size + 4 <= i32::MAX,
        x + size + 2 <= i32::MAX,
        y + size + 2 <= i32::MAX,
    ensures
        final(c).wf(),
        final(c).width == old(c).width,
        final(c).height == old(c).height,
        forall|i: int|
            0 <= i < final(c).pixels@.len() ==> #[trigger] final(c).pixels@[i] == (if visible(
                old(c).width,
                old(c).height,
                i % (old(c).width as int),
                i / (old(c).width as int),
            ) && frame_at(x as int, y as int, size as int, i % (old(c).width as int), i / (old(c).width as int)) {
                v
            } else {
                old(c).pixels@[i]
            }),
{
    let ghost wd = c.width as int;
    let ghost p0 = c.pixels@;
    c.fill_rect(x - thick, y - thick, size + 2 * thick, thick, v);  // top
    c.fill_rect(x - thick, y + size, size + 2 * thick, thick, v);  // bottom
    c.fill_rect(x - thick, y, thick, size, v);  // left
    c.fill_rect(x + size, y, thick, size, v);  // right
    assert forall|i: int| 0 <= i < c.pixels@.len() implies #[trigger] c.pixels@[i] == (if visible(
        c.width,
        c.height,
        i % wd,
        i / wd,
    ) && frame_at(x as int, y as int, size as int, i % wd, i / wd) {
        v
    } else {
        p0[i]
    }) by {
        lemma_pixel_coords(i, wd, c.height as int);
    }
}

/// (px, py) lies on the two-pixel border around the square of side `size` at (x, y).
pub open spec fn frame_at(x: int, y: int, size: int, px: int, py: int) -> bool {
    ||| (x - 2 <= px < x + size + 2 && y - 2 <= py < y)
    ||| (x - 2 <= px < x + size + 2 && y + size <= py < y + size + 2)
    ||| (x - 2 <= px < x && y <= py < y + size)
    ||| (x + size <= px < x + size + 2 && y <= py < y + size)
}

/// A piece to draw: the top-left corner and side of its square, the shade of
/// that square under it, and whether it is drawn turned half a turn.
#[derive(Debug, Clone, Copy, PartialEq, Eq, Structural)]
pub struct PieceDraw {
    pub piece: Piece,
    pub x: u32,
    pub y: u32,
    pub size: u32,
    pub bg: u8,
    pub flip: bool,
}

/// How the piece `p` on the square (`file`, `rank`) is drawn under the options
/// `o`: at the corner of the square's cell on the board that `o` places, over
/// the dark shade when `file + rank` is even and the light one otherwise, and
/// turned when the board is set for two players facing each other and the
/// piece belongs to the side at the top.
pub open spec fn piece_draw_at(o: RenderOptions, file: int, rank: int, p: Piece) -> PieceDraw {
    let g = board_geometry(o.width as int, o.coords, o.header is Some);
    PieceDraw {
        piece: p,
        x: (g.0 + cell_of(o.orient, file, rank).0 * g.2) as u32,
        y: (g.1 + cell_of(o.orient, file, rank).1 * g.2) as u32,
        size: g.2 as u32,
        bg: if (file + rank) % 2 == 0 {
            o.dark_sq
        } else {
            o.light_sq
        },
        flip: o.over_the_board && p.color == o.orient.spec_opponent(),
    }
}

/// The pieces of the first `k` squares of `board` (`a1` first, rank by rank)
/// as the options `o` draw them.
pub open spec fn piece_draws_upto(board: Seq<Option<Piece>>, o: RenderOptions, k: int) -> Seq<PieceDraw>
    decreases k,
{
    if k <= 0 {
        Seq::empty()
    } else {
        let before = piece_draws_upto(board, o, k - 1);
        match board[k - 1] {
            Some(p) => before.push(piece_draw_at(o, (k - 1) % 8, (k - 1) / 8, p)),
            None => before,
        }
    }
}

/// The pieces of `pos` as the options `o` draw them, square by square from
/// `a1`, rank by rank: each at its square's corner in the layout of `o`, over
/// that square's shade, turned when `o` is set for two players facing each
/// other and the piece is the far side's.
pub fn piece_draws(pos: &Position, o: &RenderOptions) -> (v: Vec<PieceDraw>)
    requires
        o.controls ==> bar_fits(o.width as int, o.height as int),
        ({
            let g = board_geometry(o.width as int, o.coords, o.header is Some);
            g.1 + 7 * g.2 <= u32::MAX
        }),
    ensures
        v@ == piece_draws_upto(pos.board(), *o, 64),
{
    let l = o.layout();
    assert(2 * (o.width / 24) + o.width / 18 <= o.width) by (nonlinear_arith);
    assert(l.board_x + l.board_px <= o.width) by (nonlinear_arith)
        requires
            l.board_x == l.margin + l.label,
            l.square == (o.width - 2 * l.margin - l.label) / 8,
            l.board_px == 8 * l.square,
            2 * l.margin + l.label <= o.width,
    ;
    let ghost g = board_geometry(o.width as int, o.coords, o.header is Some);
    assert(g == (l.board_x as int, l.board_y as int, l.square as int));
    let mut out: Vec<PieceDraw> = Vec::new();
    let mut k: u8 = 0;
    while k < 64
        invariant
            0 <= k <= 64,
            g == board_geometry(o.width as int, o.coords, o.header is Some),
            g == (l.board_x as int, l.board_y as int, l.square as int),
            l.orient == o.orient,
            l.board_x + l.board_px <= u32::MAX,
            l.board_y + 7 * l.square <= u32::MAX,
            l.board_px == 8 * l.square,
            pos.board().len() == 64,
            out@ == piece_draws_upto(pos.board(), *o, k as int),
        decreases 64 - k,
    {
        let sq = Square(k);
        let file: i8 = (k % 8) as i8;
        let rank: i8 = (k / 8) as i8;
        match pos.piece_at(sq) {
            Some(p) => {
                let ghost cr = cell_of(o.orient, file as int, rank as int);
                assert(0 <= cr.0 < 8 && 0 <= cr.1 < 8);
                assert(0 <= cr.0 * l.square <= 7 * l.square && 0 <= cr.1 * l.square <= 7 * l.square) by (nonlinear_arith)
                    requires
                        0 <= cr.0 < 8,
                        0 <= cr.1 < 8,
                ;
                assert((cr.0 as u32) as int == cr.0 && (cr.1 as u32) as int == cr.1);
                let (x, y) = l.square_origin(file, rank);
                let bg = if (file + rank) % 2 == 0 {
                    o.dark_sq
                } else {
                    o.light_sq
                };
                let flip = o.over_the_board && p.color == o.orient.opponent();
                out.push(PieceDraw { piece: p, x, y, size: l.square, bg, flip });
            },
            None => {},
        }
        k = k + 1;
    }
    out
}

/// A tap on any pixel of the square a piece is drawn on finds that piece's
/// board square, unless a control button covers the pixel: the pieces are
/// drawn on the cells that taps are tested against.
pub proof fn law_tap_on_drawn_piece(o: RenderOptions, l: Layout, sq: Square, p: Piece, x: int, y: int)
    requires
        l.wf(),
        l.orient == o.orient,
        (l.board_x as int, l.board_y as int, l.square as int) == board_geometry(
            o.width as int,
            o.coords,
            o.header is Some,
        ),
        l.board_y + 7 * l.square <= u32::MAX,
        sq.valid(),
        piece_draw_at(o, sq.spec_file(), sq.spec_rank(), p).x <= x < piece_draw_at(
            o,
            sq.spec_file(),
            sq.spec_rank(),
            p,
        ).x + piece_draw_at(o, sq.spec_file(), sq.spec_rank(), p).size,
        piece_draw_at(o, sq.spec_file(), sq.spec_rank(), p).y <= y < piece_draw_at(
            o,
            sq.spec_file(),
            sq.spec_rank(),
            p,
        ).y + piece_draw_at(o, sq.spec_file(), sq.spec_rank(), p).size,
        first_control(l.controls@, x, y) is None,
    ensures
        layout_hit(l, x, y) == Some(HitTarget::Square(sq)),
{
    let w = o.width as int;
    let margin = w / 24;
    let label = if o.coords {
        w / 18
    } else {
        0
    };
    assert(2 * margin + label <= w) by (nonlinear_arith)
        requires
            margin == w / 24,
            label == w / 18 || label == 0,
            w >= 0,
    ;
    let rest = w - 2 * margin - label;
    assert(l.board_x == margin + label);
    assert(l.square == rest / 8);
    assert(8 * (rest / 8) <= rest) by (nonlinear_arith)
        requires
            rest >= 0,
    ;
    let cr = cell_of(o.orient, sq.spec_file(), sq.spec_rank());
    assert(0 <= cr.0 < 8 && 0 <= cr.1 < 8);
    assert(0 <= cr.0 * l.square <= 7 * l.square && 0 <= cr.1 * l.square <= 7 * l.square) by (nonlinear_arith)
        requires
            0 <= cr.0 < 8,
            0 <= cr.1 < 8,
    ;
    law_hit_finds_square(l, sq, x, y);
}

} // verus!
