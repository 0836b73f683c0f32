//! Reading taps from touchscreen input events, and mapping raw touchscreen
//! coordinates to screen pixels.
//!
//! A tap is found in the stream of input events: positions update the finger's
//! last coordinates, and a finger lifting off reports them.
//!
//! Touch panels differ in axis orientation and raw coordinate range, so the
//! mapping is a calibration: an optional axis swap, a scale from the raw
//! range to the screen, optional inversion of each axis, and a clamp to the
//! screen.

use vstd::prelude::*;

verus! {

/// Calibration mapping from raw touch coordinates to screen pixels.
#[derive(Clone, Copy)]
pub struct Calibration {
    pub screen_w: u32,
    pub screen_h: u32,
    pub max_x: u32,
    pub max_y: u32,
    pub swap: bool,
    pub inv_x: bool,
    pub inv_y: bool,
}

/// Integer division rounding toward zero, as machine division does.
pub open spec fn trunc_div(a: int, b: int) -> int {
    if a >= 0 {
        a / b
    } else {
        -((-a) / b)
    }
}

/// A raw coordinate scaled from the raw range `[0, max)` (at least 1) to the
/// screen's `[0, screen)`, taken as an `i32`.
pub open spec fn scaled(r: int, screen: u32, max: u32) -> int {
    (trunc_div(r * screen, if max > 1 {
        max as int
    } else {
        1
    }) as i32) as int
}

/// A scaled coordinate, inverted when asked.
pub open spec fn oriented(r: int, screen: u32, max: u32, inv: bool) -> int {
    if inv {
        screen - 1 - scaled(r, screen, max)
    } else {
        scaled(r, screen, max)
    }
}

/// `v` clamped to `[0, hi]`.
pub open spec fn clamp_to(v: int, hi: int) -> int {
    if v < 0 {
        0
    } else if v > hi {
        hi
    } else {
        v
    }
}

/// One screen coordinate of a raw one.
pub open spec fn axis_pixel(r: int, screen: u32, max: u32, inv: bool) -> u32 {
    clamp_to(oriented(r, screen, max, inv), screen - 1) as u32
}

/// Inverting the axis stays within `i32`.
pub open spec fn inversion_fits(r: int, screen: u32, max: u32, inv: bool) -> bool {
    inv ==> screen - 1 - scaled(r, screen, max) <= i32::MAX
}

fn map_axis(r: i32, screen: u32, max: u32, inv: bool) -> (p: u32)
    requires
        1 <= screen <= i32::MAX,
        inversion_fits(r as int, screen, max, inv),
    ensures
        p == axis_pixel(r as int, screen, max, inv),
{
    let m: u32 = if max > 1 {
        max
    } else {
        1
    };
    assert(-0x8000_0000 * 0x7fff_ffff <= r * screen <= 0x7fff_ffff * 0x7fff_ffff) by (nonlinear_arith)
        requires
            -0x8000_0000 <= r <= 0x7fff_ffff,
            1 <= screen <= 0x7fff_ffff,
    ;
    let prod: i64 = r as i64 * screen as i64;
    let q: i64 = prod / m as i64;
    assert(q == trunc_div(prod as int, m as int)) by {
        if prod < 0 {
            assert((-prod) / (m as int) >= 0);
        }
    }
    let mut s: i32 = q as i32;
    if inv {
        s = screen as i32 - 1 - s;
    }
    let hi: i32 = screen as i32 - 1;
    let c: i32 = if s < 0 {
        0
    } else if s > hi {
        hi
    } else {
        s
    };
    c as u32
}

impl Calibration {
    /// Map a raw touch (rx, ry) to screen pixels (clamped to bounds).
    pub fn map(&self, rx: i32, ry: i32) -> (p: (u32, u32))
        requires
            1 <= self.screen_w <= i32::MAX,
            1 <= self.screen_h <= i32::MAX,
            inversion_fits(
                (if self.swap {
                    ry
                } else {
                    rx
                }) as int,
                self.screen_w,
                self.max_x,
                self.inv_x,
            ),
            inversion_fits(
                (if self.swap {
                    rx
                } else {
                    ry
                }) as int,
                self.screen_h,
                self.max_y,
                self.inv_y,
            ),
        ensures
            p == (
                axis_pixel(
                    (if self.swap {
                        ry
                    } else {
                        rx
                    }) as int,
                    self.screen_w,
                    self.max_x,
                    self.inv_x,
                ),
                axis_pixel(
                    (if self.swap {
                        rx
                    } else {
                        ry
                    }) as int,
                    self.screen_h,
                    self.max_y,
                    self.inv_y,
                ),
            ),
    {
        let (rx, ry) = if self.swap {
            (ry, rx)
        } else {
            (rx, ry)
        };
        (map_axis(rx, self.screen_w, self.max_x, self.inv_x), map_axis(ry, self.screen_h, self.max_y, self.inv_y))
    }
}

/// Event type: end of a batch of updates.
pub const EV_SYN: u16 = 0x00;
/// Event type: a key or button changed.
pub const EV_KEY: u16 = 0x01;
/// Event type: an absolute axis changed.
pub const EV_ABS: u16 = 0x03;
/// `EV_SYN` code: the batch is complete.
pub const SYN_REPORT: u16 = 0x00;
/// `EV_KEY` code: the panel is touched (1) or released (0).
pub const BTN_TOUCH: u16 = 0x14a;
/// `EV_ABS` code: single-touch X.
pub const ABS_X: u16 = 0x00;
/// `EV_ABS` code: single-touch Y.
pub const ABS_Y: u16 = 0x01;
/// `EV_ABS` code: multi-touch X.
pub const ABS_MT_POSITION_X: u16 = 0x35;
/// `EV_ABS` code: multi-touch Y.
pub const ABS_MT_POSITION_Y: u16 = 0x36;
/// `EV_ABS` code: multi-touch contact id; -1 when the contact ends.
pub const ABS_MT_TRACKING_ID: u16 = 0x39;

/// One input event: its type, code and value.
#[derive(Debug, Clone, Copy, PartialEq, Eq, Structural)]
pub struct InputEvent {
    pub etype: u16,
    pub code: u16,
    pub value: i32,
}

/// The little-endian number in `b[at..at + n]`.
pub open spec fn le_number(b: Seq<u8>, at: int, n: nat) -> nat
    decreases n,
{
    if n == 0 {
        0
    } else {
        b[at] as nat + 256 * le_number(b, at + 1, (n - 1) as nat)
    }
}

/// The event a record carries in its last eight bytes, whatever time stamp
/// stands in front of them: type and code as little-endian 16-bit numbers,
/// value as a little-endian 32-bit two's-complement number.
pub open spec fn record_event(rec: Seq<u8>) -> InputEvent {
    let base = rec.len() - 8;
    InputEvent {
        etype: le_number(rec, base, 2) as u16,
        code: le_number(rec, base + 2, 2) as u16,
        value: le_number(rec, base + 4, 4) as u32 as i32,
    }
}

/// Read the event out of an input record.
pub fn decode_event(rec: &[u8]) -> (e: InputEvent)
    requires
        rec@.len() >= 8,
    ensures
        e == record_event(rec@),
{
    let base = rec.len() - 8;
    let etype: u16 = (rec[base] as u16) + 256 * (rec[base + 1] as u16);
    let code: u16 = (rec[base + 2] as u16) + 256 * (rec[base + 3] as u16);
    let raw: u32 = (rec[base + 4] as u32) + 256 * ((rec[base + 5] as u32) + 256 * ((rec[base + 6] as u32) + 256
        * (rec[base + 7] as u32)));
    proof {
        let b = rec@;
        let at = base as int;
        assert(le_number(b, at, 2) == b[at] + 256 * b[at + 1]) by {
            assert(le_number(b, at + 2, 0) == 0);
            assert(le_number(b, at + 1, 1) == b[at + 1]);
        }
        assert(le_number(b, at + 2, 2) == b[at + 2] + 256 * b[at + 3]) by {
            assert(le_number(b, at + 4, 0) == 0);
            assert(le_number(b, at + 3, 1) == b[at + 3]);
        }
        assert(le_number(b, at + 4, 4) == b[at + 4] + 256 * (b[at + 5] + 256 * (b[at + 6] + 256 * b[at + 7]))) by {
            assert(le_number(b, at + 8, 0) == 0);
            assert(le_number(b, at + 7, 1) == b[at + 7]);
            assert(le_number(b, at + 6, 2) == b[at + 6] + 256 * b[at + 7]);
            assert(le_number(b, at + 5, 3) == b[at + 5] + 256 * (b[at + 6] + 256 * b[at + 7]));
        }
    }
    InputEvent { etype, code, value: #[verifier::truncate] (raw as i32) }
}

/// What the tap detector has seen of the current touch: the finger's last
/// coordinates, and whether any position has arrived yet.
#[derive(Debug, Clone, Copy, PartialEq, Eq, Structural)]
pub struct TapState {
    pub x: i32,
    pub y: i32,
    pub have_pos: bool,
}

/// The detector's state after the event `e`, and the tap it reports, if any:
/// an X or Y position (single- or multi-touch) records that coordinate; the
/// end of a contact (tracking id -1) or the release of the touch button
/// reports the last coordinates, once any position has arrived.
pub open spec fn tap_step(s: TapState, e: InputEvent) -> (TapState, Option<(i32, i32)>) {
    let lifted = (e.etype == EV_ABS && e.code == ABS_MT_TRACKING_ID && e.value == -1) || (e.etype == EV_KEY
        && e.code == BTN_TOUCH && e.value == 0);
    if e.etype == EV_ABS && (e.code == ABS_X || e.code == ABS_MT_POSITION_X) {
        (TapState { x: e.value, have_pos: true, ..s }, None)
    } else if e.etype == EV_ABS && (e.code == ABS_Y || e.code == ABS_MT_POSITION_Y) {
        (TapState { y: e.value, have_pos: true, ..s }, None)
    } else if lifted && s.have_pos {
        (s, Some((s.x, s.y)))
    } else {
        (s, None)
    }
}

impl TapState {
    /// Nothing seen yet.
    pub fn new() -> (s: TapState)
        ensures
            s == (TapState { x: 0, y: 0, have_pos: false }),
    {
        TapState { x: 0, y: 0, have_pos: false }
    }

    /// Take in one event; returns the tap it completes, if any.
    pub fn step(&mut self, e: InputEvent) -> (tap: Option<(i32, i32)>)
        ensures
            (*final(self), tap) == tap_step(*old(self), e),
    {
        if e.etype == EV_ABS {
            if e.code == ABS_X || e.code == ABS_MT_POSITION_X {
                self.x = e.value;
                self.have_pos = true;
                return None;
            }
            if e.code == ABS_Y || e.code == ABS_MT_POSITION_Y {
                self.y = e.value;
                self.have_pos = true;
                return None;
            }
            if e.code == ABS_MT_TRACKING_ID && e.value == -1 && self.have_pos {
                return Some((self.x, self.y));
            }
            return None;
        }
        if e.etype == EV_KEY && e.code == BTN_TOUCH && e.value == 0 && self.have_pos {
            return Some((self.x, self.y));
        }
        None
    }
}

} // verus!
