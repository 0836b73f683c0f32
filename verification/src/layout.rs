//! Shared board/control geometry and hit-testing.
//!
//! The same `Layout` drives both drawing (where squares and buttons go) and
//! input (which square or button a tap landed on), so the two cannot drift
//! apart: see [`law_hit_finds_square`].

use vstd::prelude::*;

use crate::types::{square_at, Color, Square};

verus! {

/// On-screen control buttons in the bottom bar.
#[derive(Debug, Clone, Copy, PartialEq, Eq, Structural)]
pub enum Control {
    /// Jump the view to the initial position.
    First,
    /// Step back one half-move.
    Prev,
    /// Step forward one half-move.
    Next,
    /// Jump the view to the current position.
    Live,
    /// Flip the board orientation.
    Flip,
    /// Start a new game.
    New,
    /// Exit.
    Quit,
}

/// The caption of a control button.
pub open spec fn control_label(c: Control) -> Seq<char> {
    match c {
        Control::First => "FIRST"@,
        Control::Prev => "PREV"@,
        Control::Next => "NEXT"@,
        Control::Live => "LIVE"@,
        Control::Flip => "FLIP"@,
        Control::New => "NEW"@,
        Control::Quit => "QUIT"@,
    }
}

/// The bar's buttons, left to right.
pub open spec fn bar_controls() -> Seq<Control> {
    seq![
        Control::First,
        Control::Prev,
        Control::Next,
        Control::Live,
        Control::Flip,
        Control::New,
        Control::Quit,
    ]
}

impl Control {
    pub fn label(self) -> (s: &'static str)
        ensures
            s@ == control_label(self),
    {
        proof {
            reveal_strlit("FIRST");
            reveal_strlit("PREV");
            reveal_strlit("NEXT");
            reveal_strlit("LIVE");
            reveal_strlit("FLIP");
            reveal_strlit("NEW");
            reveal_strlit("QUIT");
        }
        match self {
            Control::First => "FIRST",
            Control::Prev => "PREV",
            Control::Next => "NEXT",
            Control::Live => "LIVE",
            Control::Flip => "FLIP",
            Control::New => "NEW",
            Control::Quit => "QUIT",
        }
    }

    /// The bar's buttons, left to right.
    pub fn bar() -> (b: [Control; 7])
        ensures
            b@ == bar_controls(),
    {
        let b = [
            Control::First,
            Control::Prev,
            Control::Next,
            Control::Live,
            Control::Flip,
            Control::New,
            Control::Quit,
        ];
        assert(b@ =~= bar_controls());
        b
    }
}

/// A pixel rectangle.
#[derive(Debug, Clone, Copy, PartialEq, Eq, Structural)]
pub struct Rect {
    pub x: u32,
    pub y: u32,
    pub w: u32,
    pub h: u32,
}

/// The pixel (x, y) lies inside `r` (left/top edges inclusive, right/bottom exclusive).
pub open spec fn rect_contains(r: Rect, x: int, y: int) -> bool {
    r.x <= x < r.x + r.w && r.y <= y < r.y + r.h
}

impl Rect {
    pub fn contains(&self, x: u32, y: u32) -> (b: bool)
        ensures
            b == rect_contains(*self, x as int, y as int),
    {
        x >= self.x && x - self.x < self.w && y >= self.y && y - self.y < self.h
    }
}

/// What a tap landed on.
#[derive(Debug, Clone, Copy, PartialEq, Eq, Structural)]
pub enum HitTarget {
    Square(Square),
    Button(Control),
}

/// Screen cell (column, row) of board coordinates (file, rank) under an
/// orientation: the oriented side's first rank is the bottom row.
pub open spec fn cell_of(orient: Color, file: int, rank: int) -> (int, int) {
    match orient {
        Color::White => (file, 7 - rank),
        Color::Black => (7 - file, rank),
    }
}

/// Board coordinates (file, rank) shown in screen cell (column, row): the
/// inverse of [`cell_of`].
pub open spec fn coords_of(orient: Color, col: int, row: int) -> (int, int) {
    match orient {
        Color::White => (col, 7 - row),
        Color::Black => (7 - col, row),
    }
}

/// The first control whose rectangle contains (x, y), in bar order.
pub open spec fn first_control(cs: Seq<(Control, Rect)>, x: int, y: int) -> Option<Control>
    decreases cs.len(),
{
    if cs.len() == 0 {
        None
    } else if rect_contains(cs[0].1, x, y) {
        Some(cs[0].0)
    } else {
        first_control(cs.skip(1), x, y)
    }
}

/// Height of the control bar for a screen width.
pub open spec fn bar_height(width: int) -> int {
    width / 8
}

/// The control bar's rectangles: seven equal buttons across the bottom,
/// separated by small gaps, inside the side margins.
pub open spec fn bar_rects(width: int, height: int, margin: int) -> Seq<(Control, Rect)> {
    let bar_h = bar_height(width);
    let bar_y = height - margin - bar_h;
    let gap = width / 120;
    let usable = width - 2 * margin - gap * 6;
    let bw = usable / 7;
    Seq::new(
        7,
        |i: int|
            (
                bar_controls()[i],
                Rect { x: (margin + i * (bw + gap)) as u32, y: bar_y as u32, w: bw as u32, h: bar_h as u32 },
            ),
    )
}

/// Computed geometry for a given screen size and orientation.
pub struct Layout {
    pub width: u32,
    pub height: u32,
    pub orient: Color,
    pub margin: u32,
    pub label: u32,
    pub header_h: u32,
    pub board_x: u32,
    pub board_y: u32,
    pub square: u32,
    pub board_px: u32,
    /// Present only when a control bar is requested.
    pub controls: Vec<(Control, Rect)>,
}

/// What a tap at (x, y) lands on, for a control bar `controls` and a board of
/// `square`-pixel cells at (`board_x`, `board_y`) spanning `board_px` pixels:
/// a control whose rectangle contains it, else the board square under it,
/// else nothing.
pub open spec fn hit_at(
    controls: Seq<(Control, Rect)>,
    orient: Color,
    board_x: int,
    board_y: int,
    square: int,
    board_px: int,
    x: int,
    y: int,
) -> Option<HitTarget> {
    match first_control(controls, x, y) {
        Some(c) => Some(HitTarget::Button(c)),
        None => {
            if board_x <= x < board_x + board_px && board_y <= y < board_y + board_px {
                let fr = coords_of(orient, (x - board_x) / square, (y - board_y) / square);
                match square_at(fr.0, fr.1) {
                    Some(sq) => Some(HitTarget::Square(sq)),
                    None => None,
                }
            } else {
                None
            }
        },
    }
}

/// What a tap at (x, y) lands on under the layout `l`.
pub open spec fn layout_hit(l: Layout, x: int, y: int) -> Option<HitTarget> {
    hit_at(
        l.controls@,
        l.orient,
        l.board_x as int,
        l.board_y as int,
        l.square as int,
        l.board_px as int,
        x,
        y,
    )
}

/// Board placement (left, top, cell size) on a screen of this width, with or
/// without the label column and the header.
pub open spec fn board_geometry(width: int, coords: bool, header: bool) -> (int, int, int) {
    let margin = width / 24;
    let label = if coords {
        width / 18
    } else {
        0
    };
    let header_h = if header {
        width / 12
    } else {
        margin
    };
    (margin + label, header_h + margin, (width - 2 * margin - label) / 8)
}

/// Room left on a screen of this size for the control bar below the margin.
pub open spec fn bar_fits(width: int, height: int) -> bool {
    height >= width / 24 + bar_height(width)
}

impl Layout {
    /// The board is `square` pixels per cell, eight cells a side.
    pub open spec fn wf(&self) -> bool {
        self.board_px == 8 * self.square
    }

    /// The board's right and bottom edges are pixel coordinates.
    pub open spec fn fits(&self) -> bool {
        &&& self.board_x + self.board_px <= u32::MAX
        &&& self.board_y + self.board_px <= u32::MAX
    }

    /// Geometry for a screen: margins of 1/24 of the width, an optional label
    /// column of 1/18, an optional header of 1/12, the largest board that fits
    /// across, and optionally the control bar along the bottom.
    pub fn new(width: u32, height: u32, orient: Color, coords: bool, header: bool, controls: bool) -> (l:
        Layout)
        requires
            controls ==> bar_fits(width as int, height as int),
        ensures
            l.wf(),
            l.width == width,
            l.height == height,
            l.orient == orient,
            l.margin == width / 24,
            l.label == (if coords {
                width / 18
            } else {
                0
            }),
            l.header_h == (if header {
                width / 12
            } else {
                width / 24
            }),
            l.board_x == l.margin + l.label,
            l.board_y == l.header_h + l.margin,
            l.square == (width - 2 * l.margin - l.label) / 8,
            l.board_px == 8 * l.square,
            l.controls@ == (if controls {
                bar_rects(width as int, height as int, (width / 24) as int)
            } else {
                Seq::<(Control, Rect)>::empty()
            }),
    {
        let margin = width / 24;
        let label = if coords {
            width / 18
        } else {
            0
        };
        let header_h = if header {
            width / 12
        } else {
            margin
        };
        assert(2 * (width / 24) + width / 18 <= width) by (nonlinear_arith);
        let avail_w = width - 2 * margin - label;
        let square = avail_w / 8;
        let board_px = square * 8;
        let board_x = margin + label;
        let board_y = header_h + margin;
        assert(board_px <= avail_w) by (nonlinear_arith)
            requires
                square == avail_w / 8,
                board_px == square * 8,
        ;
        let controls = if controls {
            Self::control_rects(width, height, margin)
        } else {
            Vec::new()
        };
        Layout {
            width,
            height,
            orient,
            margin,
            label,
            header_h,
            board_x,
            board_y,
            square,
            board_px,
            controls,
        }
    }

    fn control_rects(width: u32, height: u32, margin: u32) -> (out: Vec<(Control, Rect)>)
        requires
            margin == width / 24,
            bar_fits(width as int, height as int),
        ensures
            out@ == bar_rects(width as int, height as int, margin as int),
    {
        let bar = Control::bar();
        let n: u32 = 7;
        let bar_h = width / 8;
        let bar_y = height - margin - bar_h;
        let gap = width / 120;
        assert(2 * (width / 24) + (width / 120) * 6 <= width) by (nonlinear_arith);
        let usable = width - 2 * margin - gap * (n - 1);
        let bw = usable / n;
        let mut out: Vec<(Control, Rect)> = Vec::with_capacity(7);
        let mut i: u32 = 0;
        while i < 7
            invariant
                0 <= i <= 7,
                bar@ == bar_controls(),
                bar_h == width / 8,
                bar_y == height - margin - bar_h,
                gap == width / 120,
                usable == width - 2 * margin - gap * 6,
                bw == usable / 7,
                margin == width / 24,
                out@ == bar_rects(width as int, height as int, margin as int).take(i as int),
            decreases 7 - i,
        {
            assert(margin + i * (bw + gap) <= width) by (nonlinear_arith)
                requires
                    i <= 6,
                    bw == usable / 7,
                    usable == width - 2 * margin - gap * 6,
                    gap >= 0,
                    usable >= 0,
            ;
            let x = margin + i * (bw + gap);
            out.push((bar[i as usize], Rect { x, y: bar_y, w: bw, h: bar_h }));
            assert(out@ =~= bar_rects(width as int, height as int, margin as int).take(i + 1));
            i = i + 1;
        }
        assert(out@ =~= bar_rects(width as int, height as int, margin as int));
        out
    }

    /// Screen cell (col, row) for board (file, rank) under the orientation;
    /// coordinates off the board wrap as `u32` conversions do.
    pub fn cell_for(&self, file: i8, rank: i8) -> (c: (u32, u32))
        requires
            match self.orient {
                Color::White => rank >= -120,
                Color::Black => file >= -120,
            },
        ensures
            c == (cell_of(self.orient, file as int, rank as int).0 as u32, cell_of(
                self.orient,
                file as int,
                rank as int,
            ).1 as u32),
    {
        match self.orient {
            Color::White => (file as u32, (7 - rank) as u32),
            Color::Black => ((7 - file) as u32, rank as u32),
        }
    }

    /// Pixel top-left of a board square.
    pub fn square_origin(&self, file: i8, rank: i8) -> (o: (u32, u32))
        requires
            match self.orient {
                Color::White => rank >= -120,
                Color::Black => file >= -120,
            },
            self.board_x + (cell_of(self.orient, file as int, rank as int).0 as u32) * self.square
                <= u32::MAX,
            self.board_y + (cell_of(self.orient, file as int, rank as int).1 as u32) * self.square
                <= u32::MAX,
        ensures
            o.0 == self.board_x + (cell_of(self.orient, file as int, rank as int).0 as u32) * self.square,
            o.1 == self.board_y + (cell_of(self.orient, file as int, rank as int).1 as u32) * self.square,
    {
        let (col, row) = self.cell_for(file, rank);
        (self.board_x + col * self.square, self.board_y + row * self.square)
    }

    /// Map a tap at (x, y) to a control button or a square, if any.
    pub fn hit(&self, x: u32, y: u32) -> (r: Option<HitTarget>)
        requires
            self.wf(),
            self.fits(),
        ensures
            r == layout_hit(*self, x as int, y as int),
    {
        let mut i: usize = 0;
        assert(self.controls@.skip(0) =~= self.controls@);
        while i < self.controls.len()
            invariant
                0 <= i <= self.controls@.len(),
                first_control(self.controls@, x as int, y as int) == first_control(
                    self.controls@.skip(i as int),
                    x as int,
                    y as int,
                ),
            decreases self.controls@.len() - i,
        {
            let (c, r) = self.controls[i];
            assert(self.controls@.skip(i as int)[0] == self.controls@[i as int]);
            assert(self.controls@.skip(i as int).skip(1) =~= self.controls@.skip(i + 1));
            if r.contains(x, y) {
                return Some(HitTarget::Button(c));
            }
            i = i + 1;
        }
        assert(self.controls@.skip(i as int).len() == 0);
        if x >= self.board_x && y >= self.board_y && x < self.board_x + self.board_px && y < self.board_y
            + self.board_px {
            let col = (x - self.board_x) / self.square;
            let row = (y - self.board_y) / self.square;
            assert(col < 8 && row < 8) by (nonlinear_arith)
                requires
                    x - self.board_x < 8 * self.square,
                    y - self.board_y < 8 * self.square,
                    col == (x - self.board_x) as int / (self.square as int),
                    row == (y - self.board_y) as int / (self.square as int),
                    self.square > 0,
            ;
            // Invert cell_for.
            let (file, rank) = match self.orient {
                Color::White => (col as i8, 7 - row as i8),
                Color::Black => (7 - col as i8, row as i8),
            };
            return match Square::from_file_rank(file, rank) {
                Some(sq) => Some(HitTarget::Square(sq)),
                None => None,
            };
        }
        None
    }
}

/// A pixel inside the cell of board square `sq` hits `sq` when no control
/// covers it, for a board of `s`-pixel cells at (`bx`, `by`).
pub proof fn lemma_hit_at_square(
    controls: Seq<(Control, Rect)>,
    orient: Color,
    bx: int,
    by: int,
    s: int,
    sq: Square,
    x: int,
    y: int,
)
    requires
        sq.valid(),
        bx + cell_of(orient, sq.spec_file(), sq.spec_rank()).0 * s <= x,
        x < bx + cell_of(orient, sq.spec_file(), sq.spec_rank()).0 * s + s,
        by + cell_of(orient, sq.spec_file(), sq.spec_rank()).1 * s <= y,
        y < by + cell_of(orient, sq.spec_file(), sq.spec_rank()).1 * s + s,
        first_control(controls, x, y) is None,
    ensures
        hit_at(controls, orient, bx, by, s, 8 * s, x, y) == Some(HitTarget::Square(sq)),
{
    let cr = cell_of(orient, sq.spec_file(), sq.spec_rank());
    let col = cr.0;
    let row = cr.1;
    assert(0 <= col < 8 && 0 <= row < 8);
    assert(s > 0);
    let dx = x - bx - col * s;
    let dy = y - by - row * s;
    assert((col * s + dx) / s == col) by (nonlinear_arith)
        requires
            0 <= dx < s,
            s > 0,
    ;
    assert((row * s + dy) / s == row) by (nonlinear_arith)
        requires
            0 <= dy < s,
            s > 0,
    ;
    assert(x - bx == col * s + dx);
    assert(y - by == row * s + dy);
    assert(col * s + s <= 8 * s && row * s + s <= 8 * s) by (nonlinear_arith)
        requires
            col < 8,
            row < 8,
            s > 0,
    ;
    assert(0 <= col * s && 0 <= row * s) by (nonlinear_arith)
        requires
            col >= 0,
            row >= 0,
            s > 0,
    ;
    assert(coords_of(orient, col, row) == (sq.spec_file(), sq.spec_rank()));
    assert(sq.0 == sq.spec_rank() * 8 + sq.spec_file());
}

/// A pixel inside a board square's cell — at or right of and below its
/// origin, less than a square's side away — hits that square, unless a
/// control button covers the pixel: drawing and input share one geometry.
pub proof fn law_hit_finds_square(l: Layout, sq: Square, x: int, y: int)
    requires
        l.wf(),
        sq.valid(),
        l.board_x + cell_of(l.orient, sq.spec_file(), sq.spec_rank()).0 * l.square <= x,
        x < l.board_x + cell_of(l.orient, sq.spec_file(), sq.spec_rank()).0 * l.square + l.square,
        l.board_y + cell_of(l.orient, sq.spec_file(), sq.spec_rank()).1 * l.square <= y,
        y < l.board_y + cell_of(l.orient, sq.spec_file(), sq.spec_rank()).1 * l.square + l.square,
        first_control(l.controls@, x, y) is None,
    ensures
        layout_hit(l, x, y) == Some(HitTarget::Square(sq)),
{
    lemma_hit_at_square(
        l.controls@,
        l.orient,
        l.board_x as int,
        l.board_y as int,
        l.square as int,
        sq,
        x,
        y,
    );
}

/// The first control containing a pixel is the one at index `i` when the
/// control at `i` contains it and none before it does.
proof fn lemma_first_control_at(cs: Seq<(Control, Rect)>, i: int, x: int, y: int)
    requires
        0 <= i < cs.len(),
        rect_contains(cs[i].1, x, y),
        forall|j: int| 0 <= j < i ==> !rect_contains(#[trigger] cs[j].1, x, y),
    ensures
        first_control(cs, x, y) == Some(cs[i].0),
    decreases i,
{
    if i > 0 {
        assert(!rect_contains(cs[0].1, x, y));
        let rest = cs.skip(1);
        assert forall|j: int| 0 <= j < i - 1 implies !rect_contains(#[trigger] rest[j].1, x, y) by {
            assert(rest[j] == cs[j + 1]);
        }
        assert(rest[i - 1] == cs[i]);
        lemma_first_control_at(rest, i - 1, x, y);
    }
}

/// Button `i` of the control bar spans the columns from `margin + i * (bw +
/// gap)` for `bw` pixels, where `bw` and `gap` are the bar's button width and
/// gap, and the rows of the bar.
proof fn lemma_bar_rect(width: int, height: int, i: int)
    requires
        0 <= width <= u32::MAX,
        0 <= height <= u32::MAX,
        bar_fits(width, height),
        0 <= i < 7,
    ensures
        ({
            let margin = width / 24;
            let gap = width / 120;
            let bw = (width - 2 * margin - gap * 6) / 7;
            let r = bar_rects(width, height, margin)[i].1;
            &&& gap >= 0
            &&& bw >= 0
            &&& r.x == margin + i * (bw + gap)
            &&& r.w == bw
            &&& r.y == height - margin - bar_height(width)
            &&& r.h == bar_height(width)
        }),
{
    let margin = width / 24;
    let gap = width / 120;
    let usable = width - 2 * margin - gap * 6;
    let bw = usable / 7;
    assert(usable >= 0);
    assert(7 * bw <= usable);
    assert(0 <= margin + i * (bw + gap) && margin + i * (bw + gap) + bw <= width) by (nonlinear_arith)
        requires
            0 <= i < 7,
            bw >= 0,
            gap >= 0,
            margin >= 0,
            7 * bw <= usable,
            usable == width - 2 * margin - gap * 6,
    ;
}

/// The buttons of the control bar do not overlap, and a tap on a pixel inside
/// button `i` finds that button, whatever lies under it: a layout built with
/// the control bar answers the bar's `i`-th control there.
pub proof fn law_hit_finds_button(l: Layout, i: int, x: int, y: int)
    requires
        l.controls@ == bar_rects(l.width as int, l.height as int, (l.width / 24) as int),
        bar_fits(l.width as int, l.height as int),
        0 <= i < 7,
        rect_contains(l.controls@[i].1, x, y),
    ensures
        forall|j: int| 0 <= j < 7 && j != i ==> !rect_contains(#[trigger] l.controls@[j].1, x, y),
        layout_hit(l, x, y) == Some(HitTarget::Button(bar_controls()[i])),
{
    let w = l.width as int;
    let h = l.height as int;
    let cs = l.controls@;
    let margin = w / 24;
    let gap = w / 120;
    let bw = (w - 2 * margin - gap * 6) / 7;
    lemma_bar_rect(w, h, i);
    assert forall|j: int| 0 <= j < 7 && j != i implies !rect_contains(#[trigger] cs[j].1, x, y) by {
        lemma_bar_rect(w, h, j);
        if j < i {
            assert(margin + j * (bw + gap) + bw <= margin + i * (bw + gap)) by (nonlinear_arith)
                requires
                    j < i,
                    bw >= 0,
                    gap >= 0,
            ;
        } else {
            assert(margin + i * (bw + gap) + bw <= margin + j * (bw + gap)) by (nonlinear_arith)
                requires
                    i < j,
                    bw >= 0,
                    gap >= 0,
            ;
        }
    }
    lemma_first_control_at(cs, i, x, y);
}

} // verus!
