//! A simple vertical list menu: a title and a stack of tappable buttons.
//!
//! Like the board's `Layout`, one `MenuLayout` drives both drawing and
//! hit-testing, so a button is always exactly where a tap expects it.

use vstd::prelude::*;

use crate::board::{lemma_pixel_coords, visible};
use crate::canvas::{filled_pixels, in_span, max_int, min_int, Canvas};
use crate::layout::{rect_contains, Rect};

verus! {

/// Button width: three quarters of the screen width.
pub open spec fn menu_button_w(width: int) -> int {
    width * 3 / 4
}

/// Height of one button.
pub open spec fn menu_button_h(width: int) -> int {
    width / 9
}

/// Vertical gap between buttons.
pub open spec fn menu_gap(width: int) -> int {
    width / 30
}

/// Height of a stack of `n` buttons with gaps between them.
pub open spec fn menu_block(width: int, n: int) -> int {
    n * menu_button_h(width) + (if n > 0 {
        n - 1
    } else {
        0
    }) * menu_gap(width)
}

/// Top of the first button: the stack is centred in the area below the
/// title, which takes the top quarter of the screen.
pub open spec fn menu_start(width: int, height: int, n: int) -> int {
    let title_area = height / 4;
    let avail = height - title_area;
    let block = menu_block(width, n);
    title_area + (if avail > block {
        avail - block
    } else {
        0
    }) / 2
}

/// The `i`-th button of a menu of `n` buttons.
pub open spec fn menu_item(width: int, height: int, n: int, i: int) -> Rect {
    Rect {
        x: ((width - menu_button_w(width)) / 2) as u32,
        y: (menu_start(width, height, n) + i * (menu_button_h(width) + menu_gap(width))) as u32,
        w: menu_button_w(width) as u32,
        h: menu_button_h(width) as u32,
    }
}

/// The menu's sizes are pixel coordinates: the button width, the stack's
/// height and the last button's top.
pub open spec fn menu_fits(width: int, height: int, n: int) -> bool {
    &&& width * 3 <= u32::MAX
    &&& menu_block(width, n) <= u32::MAX
    &&& n > 0 ==> menu_start(width, height, n) + (n - 1) * (menu_button_h(width) + menu_gap(width))
        <= u32::MAX
}

/// The first of the `n` menu items on a `width` x `height` screen, from item
/// `i` on, whose button contains the pixel (x, y).
pub open spec fn menu_pick(width: int, height: int, n: int, x: int, y: int, i: int) -> Option<int>
    decreases n - i,
{
    if i >= n {
        None
    } else if rect_contains(menu_item(width, height, n, i), x, y) {
        Some(i)
    } else {
        menu_pick(width, height, n, x, y, i + 1)
    }
}

/// The first item, from `i` on, whose button contains (x, y) is `k`; none is
/// when no button from `i` on contains it.
pub proof fn lemma_menu_pick(width: int, height: int, n: int, x: int, y: int, i: int, k: Option<int>)
    requires
        0 <= i,
        k matches Some(j) ==> i <= j < n && rect_contains(menu_item(width, height, n, j), x, y) && forall|q: int|
            i <= q < j ==> !rect_contains(#[trigger] menu_item(width, height, n, q), x, y),
        k is None ==> forall|q: int| i <= q < n ==> !rect_contains(#[trigger] menu_item(width, height, n, q), x, y),
    ensures
        menu_pick(width, height, n, x, y, i) == k,
    decreases n - i,
{
    if i < n {
        if k != Some(i) {
            assert(!rect_contains(menu_item(width, height, n, i), x, y));
            lemma_menu_pick(width, height, n, x, y, i + 1, k);
        }
    }
}

/// A tap inside a menu button picks that button: the buttons are stacked
/// top to bottom without overlapping, so no earlier one contains the pixel.
pub proof fn law_menu_pick_finds_item(width: int, height: int, n: int, i: int, x: int, y: int)
    requires
        0 <= width <= u32::MAX,
        0 <= height <= u32::MAX,
        menu_fits(width, height, n),
        0 <= i < n,
        rect_contains(menu_item(width, height, n, i), x, y),
    ensures
        menu_pick(width, height, n, x, y, 0) == Some(i),
{
    let bh = menu_button_h(width);
    let gap = menu_gap(width);
    let start = menu_start(width, height, n);
    assert(0 <= start) by {
        assert(0 <= menu_block(width, n)) by (nonlinear_arith)
            requires
                n >= 0,
                width >= 0,
        ;
    }
    assert forall|q: int| 0 <= q < i implies !rect_contains(#[trigger] menu_item(width, height, n, q), x, y) by {
        assert(start + q * (bh + gap) + bh <= start + i * (bh + gap)) by (nonlinear_arith)
            requires
                q < i,
                bh >= 0,
                gap >= 0,
        ;
        assert(0 <= q * (bh + gap) <= i * (bh + gap) <= (n - 1) * (bh + gap)) by (nonlinear_arith)
            requires
                0 <= q < i < n,
                bh >= 0,
                gap >= 0,
        ;
    }
    lemma_menu_pick(width, height, n, x, y, 0, Some(i));
}

/// The menu's buttons are one column of equal buttons, centred across the
/// screen, each the button height plus the gap below the one before it, the
/// first at or below the top quarter kept for the title; a tap at the centre
/// of button `i` picks button `i` when the buttons have an inside.
pub proof fn law_menu_stacks_buttons(width: int, height: int, n: int, i: int)
    requires
        0 <= width <= u32::MAX,
        0 <= height <= u32::MAX,
        menu_fits(width, height, n),
        0 <= i < n,
    ensures
        menu_item(width, height, n, i).x == (width - menu_button_w(width)) / 2,
        menu_item(width, height, n, i).w == menu_button_w(width),
        menu_item(width, height, n, i).h == menu_button_h(width),
        menu_item(width, height, n, i).y == menu_item(width, height, n, 0).y + i * (menu_button_h(width)
            + menu_gap(width)),
        menu_item(width, height, n, 0).y >= height / 4,
        width >= 9 ==> ({
            let r = menu_item(width, height, n, i);
            menu_pick(width, height, n, r.x + r.w / 2, r.y + r.h / 2, 0) == Some(i)
        }),
{
    let bh = menu_button_h(width);
    let gap = menu_gap(width);
    let start = menu_start(width, height, n);
    assert(0 <= menu_block(width, n)) by (nonlinear_arith)
        requires
            n >= 0,
            width >= 0,
    ;
    assert(0 <= i * (bh + gap) <= (n - 1) * (bh + gap)) by (nonlinear_arith)
        requires
            0 <= i < n,
            bh >= 0,
            gap >= 0,
    ;
    assert(0 <= (width - menu_button_w(width)) / 2 <= width);
    if width >= 9 {
        let r = menu_item(width, height, n, i);
        assert(r.w > 0 && r.h > 0);
        law_menu_pick_finds_item(width, height, n, i, r.x + r.w / 2, r.y + r.h / 2);
    }
}

pub struct MenuLayout {
    pub width: u32,
    pub height: u32,
    pub title_scale: u32,
    pub item_scale: u32,
    pub items: Vec<Rect>,
}

impl MenuLayout {
    /// Layout of a menu with `n` buttons (counted as a `u32`).
    pub fn new(width: u32, height: u32, n: usize) -> (m: MenuLayout)
        requires
            menu_fits(width as int, height as int, (n as u32) as int),
        ensures
            m.width == width,
            m.height == height,
            m.title_scale == (if width / 90 > 3 {
                width / 90
            } else {
                3
            }),
            m.item_scale == (if width / 260 > 2 {
                width / 260
            } else {
                2
            }),
            m.items@.len() == n as u32,
            forall|i: int|
                0 <= i < m.items@.len() ==> #[trigger] m.items@[i] == menu_item(
                    width as int,
                    height as int,
                    (n as u32) as int,
                    i,
                ),
    {
        let bw = width * 3 / 4;
        let bh = width / 9;
        let gap = width / 30;
        let x = (width - bw) / 2;
        let n_u = n as u32;
        assert(n_u * bh <= menu_block(width as int, n_u as int)) by (nonlinear_arith)
            requires
                gap >= 0,
                n_u >= 0,
                menu_block(width as int, n_u as int) == n_u * bh + (if n_u > 0 {
                    n_u - 1
                } else {
                    0
                }) * gap,
        ;
        assert(0 <= (if n_u > 0 { n_u - 1 } else { 0 }) * gap) by (nonlinear_arith)
            requires
                n_u >= 0,
                gap >= 0,
        ;
        let block = n_u * bh + n_u.saturating_sub(1) * gap;
        // Center the block in the area below the title.
        let title_area = height / 4;
        let avail = height.saturating_sub(title_area);
        let start = title_area + avail.saturating_sub(block) / 2;
        let mut items: Vec<Rect> = Vec::with_capacity(n);
        let mut i: u32 = 0;
        while i < n_u
            invariant
                0 <= i <= n_u,
                n_u == n as u32,
                menu_fits(width as int, height as int, n_u as int),
                bw == menu_button_w(width as int),
                bh == menu_button_h(width as int),
                gap == menu_gap(width as int),
                x == (width - bw) / 2,
                start == menu_start(width as int, height as int, n_u as int),
                items@.len() == i,
                forall|j: int|
                    0 <= j < i ==> #[trigger] items@[j] == menu_item(width as int, height as int, n_u as int, j),
            decreases n_u - i,
        {
            assert(start + i * (bh + gap) <= start + (n_u - 1) * (bh + gap)) by (nonlinear_arith)
                requires
                    i <= n_u - 1,
                    bh + gap >= 0,
            ;
            assert(0 <= i * (bh + gap)) by (nonlinear_arith)
                requires
                    i >= 0,
                    bh + gap >= 0,
            ;
            items.push(Rect { x, y: start + i * (bh + gap), w: bw, h: bh });
            i = i + 1;
        }
        MenuLayout {
            width,
            height,
            title_scale: if width / 90 > 3 {
                width / 90
            } else {
                3
            },
            item_scale: if width / 260 > 2 {
                width / 260
            } else {
                2
            },
            items,
        }
    }

    /// Which item (if any) a tap at (x, y) landed on: the first containing it.
    pub fn hit(&self, x: u32, y: u32) -> (r: Option<usize>)
        ensures
            r matches Some(i) ==> i < self.items@.len() && rect_contains(self.items@[i as int], x as int, y as int)
                && forall|j: int| 0 <= j < i ==> !rect_contains(#[trigger] self.items@[j], x as int, y as int),
            r is None ==> forall|j: int|
                0 <= j < self.items@.len() ==> !rect_contains(#[trigger] self.items@[j], x as int, y as int),
    {
        let mut i: usize = 0;
        while i < self.items.len()
            invariant
                0 <= i <= self.items@.len(),
                forall|j: int| 0 <= j < i ==> !rect_contains(#[trigger] self.items@[j], x as int, y as int),
            decreases self.items@.len() - i,
        {
            if self.items[i].contains(x, y) {
                return Some(i);
            }
            i = i + 1;
        }
        None
    }
}

/// (x, y) lies in the box at (bx, by) of size (w, h).
pub open spec fn in_box(bx: int, by: int, w: int, h: int, x: int, y: int) -> bool {
    bx <= x < bx + w && by <= y < by + h
}

/// (x, y) lies on the three-pixel inset border of `r`.
pub open spec fn on_border(r: Rect, x: int, y: int) -> bool {
    let (bx, by, w, h) = (r.x as int, r.y as int, r.w as int, r.h as int);
    ||| in_box(bx, by, w, 3, x, y)
    ||| in_box(bx, by + h - 3, w, 3, x, y)
    ||| in_box(bx, by, 3, h, x, y)
    ||| in_box(bx + w - 3, by, 3, h, x, y)
}

/// The menu page's pixel (x, y) after painting the first `k` buttons of
/// `items` in order: black on a button's border, light gray on its face,
/// white elsewhere; a later button is painted over an earlier one.
pub open spec fn menu_pixel(items: Seq<Rect>, k: int, width: u32, height: u32, x: int, y: int) -> u8
    decreases k,
{
    if k <= 0 {
        255
    } else if visible(width, height, x, y) && on_border(items[k - 1], x, y) {
        0
    } else if visible(width, height, x, y) && rect_contains(items[k - 1], x, y) {
        244
    } else {
        menu_pixel(items, k - 1, width, height, x, y)
    }
}

/// A box's span, clipped as a fill clips it, holds exactly its visible pixels.
proof fn lemma_box_span(width: u32, height: u32, bx: int, by: int, w: int, h: int, x: int, y: int)
    requires
        0 <= x,
        0 <= y,
    ensures
        in_span(
            max_int(bx, 0),
            min_int(bx + w, (width as i32) as int),
            max_int(by, 0),
            min_int(by + h, (height as i32) as int),
            x,
            y,
        ) == (visible(width, height, x, y) && in_box(bx, by, w, h, x, y)),
{
}

/// Draw the three-pixel inset border of `r` in `v`.
fn outline(c: &mut Canvas, r: &Rect, v: u8)
    requires
        old(c).wf(),
        r.x + r.w <= i32::MAX,
        r.y + r.h <= i32::MAX,
        r.x + 3 <= i32::MAX,
        r.y + 3 <= i32::MAX,
    ensures
        final(c).wf(),
        final(c).width == old(c).width,
        final(c).height == old(c).height,
        forall|i: int|
            0 <= i < final(c).pixels@.len() ==> #[trigger] final(c).pixels@[i] == (if visible(
                old(c).width,
                old(c).height,
                i % (old(c).width as int),
                i / (old(c).width as int),
            ) && on_border(*r, i % (old(c).width as int), i / (old(c).width as int)) {
                v
            } else {
                old(c).pixels@[i]
            }),
{
    let ghost wd = c.width as int;
    let ghost p0 = c.pixels@;
    let (x, y, w, h) = (r.x as i32, r.y as i32, r.w as i32, r.h as i32);
    let ghost p1 = filled_pixels(p0, c.width, c.height, x as int, y as int, w as int, 3, v);
    c.fill_rect(x, y, w, 3, v);
    let ghost p2 = c.pixels@;
    c.fill_rect(x, y + h - 3, w, 3, v);
    let ghost p3 = c.pixels@;
    c.fill_rect(x, y, 3, h, v);
    let ghost p4 = c.pixels@;
    c.fill_rect(x + w - 3, y, 3, h, v);
    assert forall|i: int| 0 <= i < c.pixels@.len() implies #[trigger] c.pixels@[i] == (if visible(
        c.width,
        c.height,
        i % wd,
        i / wd,
    ) && on_border(*r, i % wd, i / wd) {
        v
    } else {
        p0[i]
    }) by {
        let px = i % wd;
        let py = i / wd;
        lemma_pixel_coords(i, wd, c.height as int);
        lemma_box_span(c.width, c.height, x as int, y as int, w as int, 3, px, py);
        lemma_box_span(c.width, c.height, x as int, y + h - 3, w as int, 3, px, py);
        lemma_box_span(c.width, c.height, x as int, y as int, 3, h as int, px, py);
        lemma_box_span(c.width, c.height, x + w - 3, y as int, 3, h as int, px, py);
    }
}

impl MenuLayout {
    /// Paint the menu page: white, with the first `count` buttons as light gray
    /// faces inside black three-pixel borders; the title and labels are drawn
    /// on top by the front end.
    pub fn paint(&self, count: usize) -> (c: Canvas)
        requires
            self.width * self.height <= u32::MAX,
            forall|i: int|
                0 <= i < self.items@.len() ==> (#[trigger] self.items@[i]).x + self.items@[i].w <= i32::MAX
                    && self.items@[i].y + self.items@[i].h <= i32::MAX && self.items@[i].x + 3 <= i32::MAX
                    && self.items@[i].y + 3 <= i32::MAX,
        ensures
            c.wf(),
            c.width == self.width,
            c.height == self.height,
            forall|i: int|
                0 <= i < c.pixels@.len() ==> #[trigger] c.pixels@[i] == menu_pixel(
                    self.items@,
                    if count < self.items@.len() {
                        count as int
                    } else {
                        self.items@.len() as int
                    },
                    self.width,
                    self.height,
                    i % (self.width as int),
                    i / (self.width as int),
                ),
    {
        let mut c = Canvas::new(self.width, self.height, 255);
        let ghost wd = self.width as int;
        let n = if count < self.items.len() {
            count
        } else {
            self.items.len()
        };
        let mut k: usize = 0;
        while k < n
            invariant
                0 <= k <= n,
                n <= self.items@.len(),
                c.wf(),
                c.width == self.width,
                c.height == self.height,
                wd == self.width,
                forall|i: int|
                    0 <= i < self.items@.len() ==> (#[trigger] self.items@[i]).x + self.items@[i].w <= i32::MAX
                        && self.items@[i].y + self.items@[i].h <= i32::MAX && self.items@[i].x + 3 <= i32::MAX
                        && self.items@[i].y + 3 <= i32::MAX,
                forall|i: int|
                    0 <= i < c.pixels@.len() ==> #[trigger] c.pixels@[i] == menu_pixel(
                        self.items@,
                        k as int,
                        self.width,
                        self.height,
                        i % wd,
                        i / wd,
                    ),
            decreases n - k,
        {
            let r = self.items[k];
            assert(r == self.items@[k as int]);
            // Button face + inset border.
            let ghost before = c.pixels@;
            c.fill_rect(r.x as i32, r.y as i32, r.w as i32, r.h as i32, 244);
            let ghost faced = c.pixels@;
            outline(&mut c, &r, 0);
            assert forall|i: int| 0 <= i < c.pixels@.len() implies #[trigger] c.pixels@[i] == menu_pixel(
                self.items@,
                k + 1,
                self.width,
                self.height,
                i % wd,
                i / wd,
            ) by {
                let px = i % wd;
                let py = i / wd;
                lemma_pixel_coords(i, wd, c.height as int);
                lemma_box_span(c.width, c.height, r.x as int, r.y as int, r.w as int, r.h as int, px, py);
                assert(faced[i] == (if visible(self.width, self.height, px, py) && rect_contains(r, px, py) {
                    244u8
                } else {
                    before[i]
                }));
            }
            k = k + 1;
        }
        c
    }
}

} // verus!
