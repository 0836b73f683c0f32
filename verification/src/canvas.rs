//! An 8-bit grayscale drawing surface and a boolean coverage mask.
//!
//! e-ink is grayscale, so a single 8-bit channel is used throughout (0 = black,
//! 255 = white). Pieces are drawn as silhouette masks at a supersampled scale;
//! the mask's erosion carves a silhouette's interior so that an outline can be
//! drawn around it.

use vstd::prelude::*;

verus! {

broadcast use vstd::arithmetic::div_mod::lemma_fundamental_div_mod_converse_mod,
    vstd::arithmetic::div_mod::lemma_fundamental_div_mod_converse_div;

/// A grayscale image, row-major, one byte per pixel.
#[derive(Clone)]
pub struct Canvas {
    pub width: u32,
    pub height: u32,
    pub pixels: Vec<u8>,
}

/// Pixel (px, py) lies in the clipped rectangle `[x0, x1) x [y0, y1)`.
pub open spec fn in_span(x0: int, x1: int, y0: int, y1: int, px: int, py: int) -> bool {
    x0 <= px < x1 && y0 <= py < y1
}

/// The larger of two integers.
pub open spec fn max_int(a: int, b: int) -> int {
    if a >= b {
        a
    } else {
        b
    }
}

/// The smaller of two integers.
pub open spec fn min_int(a: int, b: int) -> int {
    if a <= b {
        a
    } else {
        b
    }
}

/// A pixel buffer after filling the rectangle at (x, y) of size (w, h),
/// clipped to the canvas, with `v`; a side as `i32` bounds the clip as the
/// fill computes it.
pub open spec fn filled_pixels(
    old: Seq<u8>,
    width: u32,
    height: u32,
    x: int,
    y: int,
    w: int,
    h: int,
    v: u8,
) -> Seq<u8> {
    let x0 = max_int(x, 0);
    let y0 = max_int(y, 0);
    let x1 = min_int(x + w, (width as i32) as int);
    let y1 = min_int(y + h, (height as i32) as int);
    Seq::new(
        old.len(),
        |i: int|
            if in_span(x0, x1, y0, y1, i % (width as int), i / (width as int)) {
                v
            } else {
                old[i]
            },
    )
}

impl Canvas {
    /// One byte per pixel, and the pixel count is a `u32`.
    pub open spec fn wf(&self) -> bool {
        &&& self.width * self.height <= u32::MAX
        &&& self.pixels@.len() == self.width * self.height
    }

    pub fn new(width: u32, height: u32, fill: u8) -> (c: Canvas)
        requires
            width * height <= u32::MAX,
        ensures
            c.wf(),
            c.width == width,
            c.height == height,
            c.pixels@ == Seq::new((width * height) as nat, |i: int| fill),
    {
        let pixels = vec![fill; (width * height) as usize];
        let c = Canvas { width, height, pixels };
        assert(c.pixels@ =~= Seq::new((width * height) as nat, |i: int| fill));
        c
    }

    /// Write pixel (x, y); a no-op outside the canvas.
    pub fn set(&mut self, x: u32, y: u32, v: u8)
        requires
            old(self).wf(),
        ensures
            final(self).wf(),
            final(self).width == old(self).width,
            final(self).height == old(self).height,
            final(self).pixels@ == (if x < old(self).width && y < old(self).height {
                old(self).pixels@.update(y * old(self).width + x, v)
            } else {
                old(self).pixels@
            }),
    {
        if x < self.width && y < self.height {
            assert(y * self.width + x < self.width * self.height) by (nonlinear_arith)
                requires
                    x < self.width,
                    y < self.height,
            ;
            self.pixels.set((y * self.width + x) as usize, v);
        }
    }

    /// Read pixel (x, y) at index `y * width + x`.
    pub fn get(&self, x: u32, y: u32) -> (p: u8)
        requires
            y * self.width + x <= u32::MAX,
            y * self.width + x < self.pixels@.len(),
        ensures
            p == self.pixels@[y * self.width + x],
    {
        self.pixels[(y * self.width + x) as usize]
    }

    /// Fill an axis-aligned rectangle (clipped to bounds) with a solid value.
    pub fn fill_rect(&mut self, x: i32, y: i32, w: i32, h: i32, v: u8)
        requires
            old(self).wf(),
            i32::MIN <= x + w <= i32::MAX,
            i32::MIN <= y + h <= i32::MAX,
        ensures
            final(self).wf(),
            final(self).width == old(self).width,
            final(self).height == old(self).height,
            final(self).pixels@ == filled_pixels(
                old(self).pixels@,
                old(self).width,
                old(self).height,
                x as int,
                y as int,
                w as int,
                h as int,
                v,
            ),
    {
        let ghost old_px = self.pixels@;
        let ghost wd = self.width as int;
        let x0 = if x > 0 {
            x
        } else {
            0
        };
        let y0 = if y > 0 {
            y
        } else {
            0
        };
        let x1 = if x + w < self.width as i32 {
            x + w
        } else {
            self.width as i32
        };
        let y1 = if y + h < self.height as i32 {
            y + h
        } else {
            self.height as i32
        };
        let ghost target = filled_pixels(old_px, self.width, self.height, x as int, y as int, w as int, h as int, v);
        let mut yy = y0;
        while yy < y1
            invariant
                self.wf(),
                self.width == wd,
                self.height == old(self).height,
                old_px == old(self).pixels@,
                old_px.len() == self.pixels@.len(),
                x0 == max_int(x as int, 0),
                y0 == max_int(y as int, 0),
                x1 == min_int(x + w, (self.width as i32) as int),
                y1 == min_int(y + h, (self.height as i32) as int),
                y0 <= yy,
                yy <= y1 || y1 < y0,
                target == filled_pixels(old_px, self.width, self.height, x as int, y as int, w as int, h as int, v),
                forall|i: int|
                    0 <= i < self.pixels@.len() ==> #[trigger] self.pixels@[i] == (if i / wd < yy {
                        target[i]
                    } else {
                        old_px[i]
                    }),
            decreases y1 - yy,
        {
            assert forall|i: int| 0 <= i < self.pixels@.len() implies #[trigger] self.pixels@[i] == (if i / wd
                < yy || (i / wd == yy && i % wd < x0) {
                target[i]
            } else {
                old_px[i]
            }) by {
                if i / wd == yy && i % wd < x0 {
                    assert(!in_span(x0 as int, x1 as int, y0 as int, y1 as int, i % wd, i / wd));
                }
            }
            let mut xx = x0;
            while xx < x1
                invariant
                    self.wf(),
                    self.width == wd,
                    self.height == old(self).height,
                    old_px == old(self).pixels@,
                    old_px.len() == self.pixels@.len(),
                old_px.len() == self.pixels@.len(),
                    x0 == max_int(x as int, 0),
                    x1 == min_int(x + w, (self.width as i32) as int),
                    y0 == max_int(y as int, 0),
                    y1 == min_int(y + h, (self.height as i32) as int),
                    y0 <= yy < y1,
                    x0 <= xx,
                    xx <= x1 || x1 < x0,
                    target == filled_pixels(old_px, self.width, self.height, x as int, y as int, w as int, h as int, v),
                    forall|i: int|
                        0 <= i < self.pixels@.len() ==> #[trigger] self.pixels@[i] == (if i / wd < yy || (i / wd == yy
                            && i % wd < xx) {
                            target[i]
                        } else {
                            old_px[i]
                        }),
                decreases x1 - xx,
            {
                assert(0 <= xx < self.width && 0 <= yy < self.height);
                let ghost idx = yy * wd + xx;
                assert(yy * wd + xx < wd * self.height) by (nonlinear_arith)
                    requires
                        0 <= xx < wd,
                        0 <= yy < self.height,
                ;
                assert(idx % wd == xx && idx / wd == yy);
                let ghost before = self.pixels@;
                self.pixels.set((yy as u32 * self.width + xx as u32) as usize, v);
                assert(self.pixels@ == before.update(idx, v));
                assert(target[idx] == v) by {
                    assert(in_span(x0 as int, x1 as int, y0 as int, y1 as int, idx % wd, idx / wd));
                }
                assert forall|i: int| 0 <= i < self.pixels@.len() implies #[trigger] self.pixels@[i] == (if i / wd
                    < yy || (i / wd == yy && i % wd < xx + 1) {
                    target[i]
                } else {
                    old_px[i]
                }) by {
                    if i != idx {
                        assert(!(i / wd == yy && i % wd == xx)) by {
                            if i / wd == yy && i % wd == xx {
                                vstd::arithmetic::div_mod::lemma_fundamental_div_mod(i, wd);
                                assert(i == wd * (i / wd) + i % wd);
                                assert(i == yy * wd + xx) by (nonlinear_arith)
                                    requires
                                        i == wd * (i / wd) + i % wd,
                                        i / wd == yy,
                                        i % wd == xx,
                                ;
                            }
                        }
                    }
                }
                xx = xx + 1;
            }
            assert forall|i: int| 0 <= i < self.pixels@.len() implies #[trigger] self.pixels@[i] == (if i / wd
                < yy + 1 {
                target[i]
            } else {
                old_px[i]
            }) by {
                if i / wd == yy {
                    assert(0 <= i % wd < wd);
                    if !(i % wd < xx) {
                        assert(!in_span(x0 as int, x1 as int, y0 as int, y1 as int, i % wd, i / wd));
                    }
                }
            }
            yy = yy + 1;
        }
        assert forall|i: int| 0 <= i < self.pixels@.len() implies #[trigger] self.pixels@[i] == target[i] by {
            if !(i / wd < yy) {
                assert(!in_span(x0 as int, x1 as int, y0 as int, y1 as int, i % wd, i / wd));
            }
        }
        assert(self.pixels@ =~= target);
    }
}

/// A boolean coverage mask used to build piece silhouettes at supersampled scale.
pub struct Mask {
    pub w: u32,
    pub h: u32,
    pub bits: Vec<bool>,
}

/// `x` lies in `[0, n)` where the bound is the side taken as an `i32`, as the
/// mask's bounds checks compare it.
pub open spec fn below_side(x: int, n: u32) -> bool {
    0 <= x < (n as i32) as int
}

/// A pixel of `m` survives erosion by `r`: it is set, and so is every pixel
/// within the square neighbourhood of radius `r` around it.
pub open spec fn survives(m: Mask, r: int, x: int, y: int) -> bool {
    &&& m.spec_get(x, y)
    &&& forall|dx: int, dy: int| -r <= dx <= r && -r <= dy <= r ==> #[trigger] m.spec_get(x + dx, y + dy)
}

/// A side taken as an `i32` is at most the side itself.
proof fn lemma_side_as_i32(n: u32)
    ensures
        (n as i32) as int <= n as int,
{
    assert((n as i32) as int <= n as int) by (bit_vector);
}

impl Mask {
    /// One flag per pixel, and the pixel count is a `u32`.
    pub open spec fn wf(&self) -> bool {
        &&& self.w * self.h <= u32::MAX
        &&& self.bits@.len() == self.w * self.h
    }

    /// Pixel (x, y), unset outside the mask.
    pub open spec fn spec_get(&self, x: int, y: int) -> bool {
        if below_side(x, self.w) && below_side(y, self.h) {
            self.bits@[y * self.w + x]
        } else {
            false
        }
    }

    pub fn new(w: u32, h: u32) -> (m: Mask)
        requires
            w * h <= u32::MAX,
        ensures
            m.wf(),
            m.w == w,
            m.h == h,
            m.bits@ == Seq::new((w * h) as nat, |i: int| false),
    {
        let bits = vec![false; (w * h) as usize];
        let m = Mask { w, h, bits };
        assert(m.bits@ =~= Seq::new((w * h) as nat, |i: int| false));
        m
    }

    pub fn get(&self, x: i32, y: i32) -> (b: bool)
        requires
            self.wf(),
        ensures
            b == self.spec_get(x as int, y as int),
    {
        if x < 0 || y < 0 || x >= self.w as i32 || y >= self.h as i32 {
            false
        } else {
            proof {
                lemma_side_as_i32(self.w);
                lemma_side_as_i32(self.h);
            }
            assert(y * self.w + x < self.w * self.h) by (nonlinear_arith)
                requires
                    0 <= x < self.w,
                    0 <= y < self.h,
            ;
            self.bits[(y as u32 * self.w + x as u32) as usize]
        }
    }

    /// Set pixel (x, y); a no-op outside the mask.
    pub fn set(&mut self, x: i32, y: i32)
        requires
            old(self).wf(),
        ensures
            final(self).wf(),
            final(self).w == old(self).w,
            final(self).h == old(self).h,
            final(self).bits@ == (if below_side(x as int, old(self).w) && below_side(y as int, old(self).h) {
                old(self).bits@.update(y * old(self).w + x, true)
            } else {
                old(self).bits@
            }),
    {
        if x >= 0 && y >= 0 && x < self.w as i32 && y < self.h as i32 {
            proof {
                lemma_side_as_i32(self.w);
                lemma_side_as_i32(self.h);
            }
            assert(y * self.w + x < self.w * self.h) by (nonlinear_arith)
                requires
                    0 <= x < self.w,
                    0 <= y < self.h,
            ;
            self.bits.set((y as u32 * self.w + x as u32) as usize, true);
        }
    }

    /// Erode the mask by `r` pixels (Chebyshev): a pixel survives only if every
    /// pixel within the square neighbourhood of radius `r` is also set.
    pub fn erode(&self, r: i32) -> (out: Mask)
        requires
            self.wf(),
            r > i32::MIN,
            (self.w as i32) as int - 1 + r <= i32::MAX,
            (self.h as i32) as int - 1 + r <= i32::MAX,
        ensures
            out.wf(),
            out.w == self.w,
            out.h == self.h,
            forall|i: int|
                0 <= i < out.bits@.len() ==> #[trigger] out.bits@[i] == survives(
                    *self,
                    r as int,
                    i % (self.w as int),
                    i / (self.w as int),
                ),
    {
        let mut out = Mask::new(self.w, self.h);
        let ghost wd = self.w as int;
        let hi = self.h as i32;
        let wi = self.w as i32;
        proof {
            lemma_side_as_i32(self.w);
            lemma_side_as_i32(self.h);
        }
        let mut y: i32 = 0;
        while y < hi
            invariant
                self.wf(),
                out.wf(),
                out.w == self.w,
                out.h == self.h,
                wd == self.w,
                hi == self.h as i32,
                wi == self.w as i32,
                hi <= self.h,
                wi <= self.w,
                0 <= y,
                y <= hi || hi < 0,
                r > i32::MIN,
                wi - 1 + r <= i32::MAX,
                hi - 1 + r <= i32::MAX,
                forall|i: int|
                    0 <= i < out.bits@.len() ==> #[trigger] out.bits@[i] == (i / wd < y && survives(
                        *self,
                        r as int,
                        i % wd,
                        i / wd,
                    )),
            decreases hi - y,
        {
            let mut x: i32 = 0;
            while x < wi
                invariant
                    self.wf(),
                    out.wf(),
                    out.w == self.w,
                    out.h == self.h,
                    wd == self.w,
                    hi == self.h as i32,
                    wi == self.w as i32,
                    hi <= self.h,
                    wi <= self.w,
                    0 <= y < hi,
                    0 <= x,
                    x <= wi || wi < 0,
                    r > i32::MIN,
                    wi - 1 + r <= i32::MAX,
                    hi - 1 + r <= i32::MAX,
                    forall|i: int|
                        0 <= i < out.bits@.len() ==> #[trigger] out.bits@[i] == ((i / wd < y || (i / wd == y && i
                            % wd < x)) && survives(*self, r as int, i % wd, i / wd)),
                decreases wi - x,
            {
                let keep = self.survives_at(x, y, r);
                let ghost idx = y * wd + x;
                assert(y * wd + x < wd * self.h) by (nonlinear_arith)
                    requires
                        0 <= x < wd,
                        0 <= y < self.h,
                ;
                assert(idx % wd == x && idx / wd == y);
                if keep {
                    out.set(x, y);
                }
                assert forall|i: int| 0 <= i < out.bits@.len() implies #[trigger] out.bits@[i] == ((i / wd < y || (i
                    / wd == y && i % wd < x + 1)) && survives(*self, r as int, i % wd, i / wd)) by {
                    if i != idx {
                        assert(!(i / wd == y && i % wd == x)) by {
                            if i / wd == y && i % wd == x {
                                vstd::arithmetic::div_mod::lemma_fundamental_div_mod(i, wd);
                                assert(i == y * wd + x) by (nonlinear_arith)
                                    requires
                                        i == wd * (i / wd) + i % wd,
                                        i / wd == y,
                                        i % wd == x,
                                ;
                            }
                        }
                    }
                }
                x = x + 1;
            }
            assert forall|i: int| 0 <= i < out.bits@.len() implies #[trigger] out.bits@[i] == (i / wd < y + 1
                && survives(*self, r as int, i % wd, i / wd)) by {
                if i / wd == y && !(i % wd < x) {
                    assert(!self.spec_get(i % wd, i / wd));
                }
            }
            y = y + 1;
        }
        assert forall|i: int| 0 <= i < out.bits@.len() implies #[trigger] out.bits@[i] == survives(
            *self,
            r as int,
            i % wd,
            i / wd,
        ) by {
            if !(i / wd < y) {
                assert(!self.spec_get(i % wd, i / wd));
            }
        }
        out
    }

    /// The pixel (x, y) is set and so is its whole neighbourhood of radius `r`.
    fn survives_at(&self, x: i32, y: i32, r: i32) -> (keep: bool)
        requires
            self.wf(),
            0 <= x < (self.w as i32),
            0 <= y < (self.h as i32),
            r > i32::MIN,
            (self.w as i32) as int - 1 + r <= i32::MAX,
            (self.h as i32) as int - 1 + r <= i32::MAX,
        ensures
            keep == survives(*self, r as int, x as int, y as int),
    {
        if !self.get(x, y) {
            return false;
        }
        let lo: i64 = -(r as i64);
        let hi: i64 = r as i64;
        let mut keep = true;
        let mut dy: i64 = lo;
        while keep && dy <= hi
            invariant
                self.wf(),
                lo == -r,
                hi == r,
                0 <= x < (self.w as i32),
                0 <= y < (self.h as i32),
                (self.w as i32) as int - 1 + r <= i32::MAX,
                (self.h as i32) as int - 1 + r <= i32::MAX,
                lo <= dy,
                dy <= hi + 1 || hi < lo,
                keep ==> forall|dx: int, ey: int|
                    lo <= dx <= hi && lo <= ey < dy ==> #[trigger] self.spec_get(x + dx, y + ey),
                !keep ==> exists|dx: int, ey: int|
                    lo <= dx <= hi && lo <= ey <= hi && !#[trigger] self.spec_get(x + dx, y + ey),
            decreases hi + 1 - dy, (if keep { 1int } else { 0int }),
        {
            let mut dx: i64 = lo;
            while keep && dx <= hi
                invariant
                    self.wf(),
                    lo == -r,
                    hi == r,
                    0 <= x < (self.w as i32),
                    0 <= y < (self.h as i32),
                    (self.w as i32) as int - 1 + r <= i32::MAX,
                    (self.h as i32) as int - 1 + r <= i32::MAX,
                    lo <= dy <= hi,
                    lo <= dx,
                    dx <= hi + 1,
                    keep ==> forall|ex: int, ey: int|
                        lo <= ex <= hi && lo <= ey < dy ==> #[trigger] self.spec_get(x + ex, y + ey),
                    keep ==> forall|ex: int| lo <= ex < dx ==> #[trigger] self.spec_get(x + ex, y + dy),
                    !keep ==> exists|ex: int, ey: int|
                        lo <= ex <= hi && lo <= ey <= hi && !#[trigger] self.spec_get(x + ex, y + ey),
                decreases hi + 1 - dx, (if keep { 1int } else { 0int }),
            {
                let px = (x as i64 + dx) as i32;
                let py = (y as i64 + dy) as i32;
                if !self.get(px, py) {
                    keep = false;
                } else {
                    dx = dx + 1;
                }
            }
            if keep {
                assert forall|ex: int, ey: int| lo <= ex <= hi && lo <= ey < dy + 1 implies #[trigger] self.spec_get(
                    x + ex,
                    y + ey,
                ) by {
                    if ey == dy {
                        assert(self.spec_get(x + ex, y + dy));
                    }
                }
                dy = dy + 1;
            }
        }
        keep
    }
}

} // verus!
