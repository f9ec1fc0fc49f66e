//! Sampling of the window edges inside a captured frame.

use vstd::prelude::*;

verus! {

/// Geometry of the target window in *physical* (buffer) pixels.
#[derive(Clone, Copy, Debug)]
pub struct WinRectPx {
    pub x: i32,
    pub y: i32,
    pub w: u32,
    pub h: u32,
}

impl WinRectPx {
    /// Right edge: `x + (w as i32)`.
    pub open spec fn spec_x1(self) -> int {
        self.x + (self.w as i32)
    }

    /// Bottom edge: `y + (h as i32)`.
    pub open spec fn spec_y1(self) -> int {
        self.y + (self.h as i32)
    }

    pub fn x1(&self) -> (r: i32)
        requires
            i32::MIN <= self.spec_x1() <= i32::MAX,
        ensures
            r == self.spec_x1(),
    {
        self.x + self.w as i32
    }

    pub fn y1(&self) -> (r: i32)
        requires
            i32::MIN <= self.spec_y1() <= i32::MAX,
        ensures
            r == self.spec_y1(),
    {
        self.y + self.h as i32
    }
}


/// A screen capture frame (ARGB8888/XRGB8888 bytes: B, G, R, A/x in memory).
pub struct Frame<'a> {
    pub buf: &'a [u8],
    pub width: u32,
    pub height: u32,
    pub stride: usize,
    pub y_invert: bool,
}

#[derive(Clone, Copy, Debug, PartialEq, Eq, Structural)]
pub enum Side {
    Top,
    Right,
    Bottom,
    Left,
}

/// Integer channel totals of the pixels sampled from one rectangle, and how
/// many pixels were sampled. The average color of the rectangle is
/// `(r / n, g / n, b / n) / 255` (zero when `n == 0`).
#[derive(Clone, Copy, Debug, PartialEq, Eq, Structural)]
pub struct PixelSum {
    pub r: u64,
    pub g: u64,
    pub b: u64,
    pub n: u64,
}

/// Channel totals (r, g, b) and sample count as mathematical integers.
pub type Tally = (int, int, int, int);

pub open spec fn tally_add(a: Tally, b: Tally) -> Tally {
    (a.0 + b.0, a.1 + b.1, a.2 + b.2, a.3 + b.3)
}

impl PixelSum {
    pub open spec fn tally(self) -> Tally {
        (self.r as int, self.g as int, self.b as int, self.n as int)
    }
}

/// Buffer row that holds image row `y` (frames may be stored bottom-up).
pub open spec fn frame_row(frame: &Frame, y: int) -> int {
    if frame.y_invert {
        frame.height - 1 - y
    } else {
        y
    }
}

/// Byte offset of pixel (x, y) in the frame buffer.
pub open spec fn pixel_offset(frame: &Frame, x: int, y: int) -> int {
    frame_row(frame, y) * frame.stride + x * 4
}

/// Contribution of pixel (x, y): its R, G, B bytes and a count of one when its
/// four bytes lie inside the buffer, nothing otherwise.
pub open spec fn pixel_tally(frame: &Frame, x: int, y: int) -> Tally {
    let p = pixel_offset(frame, x, y);
    if p + 3 < frame.buf@.len() {
        (frame.buf@[p + 2] as int, frame.buf@[p + 1] as int, frame.buf@[p] as int, 1)
    } else {
        (0, 0, 0, 0)
    }
}

/// Pixels x, x + step, x + 2*step, ... below `x1` of row `y`.
pub open spec fn row_tally(frame: &Frame, y: int, x: int, x1: int, step: int) -> Tally
    decreases max_int(x1 - x, 0),
{
    if x >= x1 || step <= 0 {
        (0, 0, 0, 0)
    } else {
        tally_add(pixel_tally(frame, x, y), row_tally(frame, y, x + step, x1, step))
    }
}

/// Rows y, y + step, ... below `y1`, each sampled from `x0` up to `x1`.
pub open spec fn grid_tally(frame: &Frame, y: int, y1: int, x0: int, x1: int, step: int) -> Tally
    decreases max_int(y1 - y, 0),
{
    if y >= y1 || step <= 0 {
        (0, 0, 0, 0)
    } else {
        tally_add(row_tally(frame, y, x0, x1, step), grid_tally(frame, y + step, y1, x0, x1, step))
    }
}

pub open spec fn max_int(a: int, b: int) -> int {
    if a >= b { a } else { b }
}

pub open spec fn min_int(a: int, b: int) -> int {
    if a <= b { a } else { b }
}

/// What sampling the rectangle [x0, x1) x [y0, y1) every `step` pixels
/// yields: the rectangle is first clipped to the frame; an empty clip or a
/// frame without a sampled pixel gives zero totals.
pub open spec fn rect_tally(frame: &Frame, x0: int, y0: int, x1: int, y1: int, step: int) -> Tally {
    let cx0 = max_int(x0, 0);
    let cy0 = max_int(y0, 0);
    let cx1 = min_int(x1, frame.width as int);
    let cy1 = min_int(y1, frame.height as int);
    if cx1 <= cx0 || cy1 <= cy0 {
        (0, 0, 0, 0)
    } else {
        grid_tally(frame, cy0, cy1, cx0, cx1, max_int(step, 1))
    }
}

/// The frame's size fits the signed coordinates used for sampling, its byte
/// offsets fit in `usize`, and its channel totals fit in `u64`.
pub open spec fn frame_fits(frame: &Frame) -> bool {
    &&& frame.width <= i32::MAX
    &&& frame.height <= i32::MAX
    &&& frame.height as int * frame.stride as int + frame.width as int * 4 + 4 <= usize::MAX
    &&& frame.width as int * frame.height as int * 255 <= u64::MAX
}

proof fn lemma_row_bounds(frame: &Frame, y: int, x: int, x1: int, step: int)
    ensures
        0 <= row_tally(frame, y, x, x1, step).3 <= max_int(x1 - x, 0),
        0 <= row_tally(frame, y, x, x1, step).0 <= 255 * row_tally(frame, y, x, x1, step).3,
        0 <= row_tally(frame, y, x, x1, step).1 <= 255 * row_tally(frame, y, x, x1, step).3,
        0 <= row_tally(frame, y, x, x1, step).2 <= 255 * row_tally(frame, y, x, x1, step).3,
    decreases max_int(x1 - x, 0),
{
    if x < x1 && step > 0 {
        lemma_row_bounds(frame, y, x + step, x1, step);
    }
}

proof fn lemma_grid_bounds(frame: &Frame, y: int, y1: int, x0: int, x1: int, step: int)
    requires
        x0 <= x1,
    ensures
        0 <= grid_tally(frame, y, y1, x0, x1, step).3 <= max_int(y1 - y, 0) * (x1 - x0),
        0 <= grid_tally(frame, y, y1, x0, x1, step).0 <= 255 * grid_tally(frame, y, y1, x0, x1, step).3,
        0 <= grid_tally(frame, y, y1, x0, x1, step).1 <= 255 * grid_tally(frame, y, y1, x0, x1, step).3,
        0 <= grid_tally(frame, y, y1, x0, x1, step).2 <= 255 * grid_tally(frame, y, y1, x0, x1, step).3,
    decreases max_int(y1 - y, 0),
{
    if y < y1 && step > 0 {
        lemma_grid_bounds(frame, y + step, y1, x0, x1, step);
        lemma_row_bounds(frame, y, x0, x1, step);
        let rest = max_int(y1 - y - step, 0);
        assert(rest * (x1 - x0) + (x1 - x0) <= (y1 - y) * (x1 - x0)) by (nonlinear_arith)
            requires
                rest <= y1 - y - 1,
                0 <= rest,
                x0 <= x1,
        ;
    }
}

/// Totals of the pixels sampled from [x0, x1) x [y0, y1) every `step` pixels,
/// reading bytes B, G, R of each pixel whose four bytes lie in the buffer.
pub fn rect_sum(frame: &Frame, x0: i32, y0: i32, x1: i32, y1: i32, step: i32) -> (s: PixelSum)
    requires
        frame_fits(frame),
        frame.width as int + max_int(step as int, 1) <= i32::MAX + 1,
        frame.height as int + max_int(step as int, 1) <= i32::MAX + 1,
    ensures
        s.tally() == rect_tally(frame, x0 as int, y0 as int, x1 as int, y1 as int, step as int),
{
    let fw = frame.width as i32;
    let fh = frame.height as i32;
    let cx0 = if x0 > 0 { x0 } else { 0 };
    let cy0 = if y0 > 0 { y0 } else { 0 };
    let cx1 = if x1 < fw { x1 } else { fw };
    let cy1 = if y1 < fh { y1 } else { fh };
    if cx1 <= cx0 || cy1 <= cy0 {
        return PixelSum { r: 0, g: 0, b: 0, n: 0 };
    }
    let step = if step > 1 { step } else { 1 };
    let ghost total = grid_tally(frame, cy0 as int, cy1 as int, cx0 as int, cx1 as int, step as int);
    proof {
        lemma_grid_bounds(frame, cy0 as int, cy1 as int, cx0 as int, cx1 as int, step as int);
        assert(total.3 <= frame.width as int * frame.height as int) by (nonlinear_arith)
            requires
                total.3 <= max_int(cy1 - cy0, 0) * (cx1 - cx0),
                0 <= cx1 - cx0 <= frame.width,
                0 <= cy1 - cy0 <= frame.height,
        ;
    }
    let mut r: u64 = 0;
    let mut g: u64 = 0;
    let mut b: u64 = 0;
    let mut n: u64 = 0;
    let mut y: i32 = cy0;
    while y < cy1
        invariant
            frame_fits(frame),
            fw == frame.width,
            fh == frame.height,
            0 <= cy0 <= y,
            y < cy1 ==> y < fh,
            cy1 <= fh,
            0 <= cx0 < cx1 <= fw,
            1 <= step,
            fw + step <= i32::MAX + 1,
            fh + step <= i32::MAX + 1,
            total == grid_tally(frame, cy0 as int, cy1 as int, cx0 as int, cx1 as int, step as int),
            0 <= total.0 <= u64::MAX,
            0 <= total.1 <= u64::MAX,
            0 <= total.2 <= u64::MAX,
            0 <= total.3 <= u64::MAX,
            tally_add((r as int, g as int, b as int, n as int),
                grid_tally(frame, y as int, cy1 as int, cx0 as int, cx1 as int, step as int)) == total,
        decreases max_int(cy1 - y, 0),
    {
        proof {
            lemma_grid_bounds(frame, y as int + step, cy1 as int, cx0 as int, cx1 as int, step as int);
            lemma_row_bounds(frame, y as int, cx0 as int, cx1 as int, step as int);
        }
        let row: usize = if frame.y_invert { (fh - 1 - y) as usize } else { y as usize };
        assert(row * frame.stride <= frame.height as int * frame.stride) by (nonlinear_arith)
            requires row < frame.height;
        let base: usize = row * frame.stride;
        let ghost row_total = row_tally(frame, y as int, cx0 as int, cx1 as int, step as int);
        let ghost acc0 = (r as int, g as int, b as int, n as int);
        let mut x: i32 = cx0;
        while x < cx1
            invariant
                frame_fits(frame),
                fw == frame.width,
                fh == frame.height,
                0 <= y < fh,
                row == frame_row(frame, y as int),
                0 <= row < frame.height,
                base == row * frame.stride,
                base as int <= frame.height as int * frame.stride as int,
                0 <= cx0 <= x,
                cx1 <= fw,
                1 <= step,
                fw + step <= i32::MAX + 1,
                acc0.0 + row_total.0 <= total.0,
                acc0.1 + row_total.1 <= total.1,
                acc0.2 + row_total.2 <= total.2,
                acc0.3 + row_total.3 <= total.3,
                0 <= total.0 <= u64::MAX,
                0 <= total.1 <= u64::MAX,
                0 <= total.2 <= u64::MAX,
                0 <= total.3 <= u64::MAX,
                row_total == row_tally(frame, y as int, cx0 as int, cx1 as int, step as int),
                tally_add((r as int, g as int, b as int, n as int),
                    row_tally(frame, y as int, x as int, cx1 as int, step as int))
                    == tally_add(acc0, row_total),
            decreases max_int(cx1 - x, 0),
        {
            proof {
                lemma_row_bounds(frame, y as int, x as int + step, cx1 as int, step as int);
            }
            let p: usize = base + (x as usize) * 4;
            if p + 3 < frame.buf.len() {
                b = b + frame.buf[p] as u64;
                g = g + frame.buf[p + 1] as u64;
                r = r + frame.buf[p + 2] as u64;
                n = n + 1;
            }
            x = x + step;
        }
        y = y + step;
    }
    PixelSum { r, g, b, n }
}


/// Per-edge segment counts and the geometry of the sampled bands.
#[derive(Clone, Copy, Debug)]
pub struct Sampler {
    pub top_segments: u32,
    pub right_segments: u32,
    pub bottom_segments: u32,
    pub left_segments: u32,
    /// Band thickness in physical px.
    pub band: u32,
    /// Skip distance from the window border in physical px.
    pub skip: u32,
    /// Sampling stride in physical px.
    pub stride: u32,
}

/// A sampled rectangle [x0, x1) x [y0, y1) as mathematical integers.
pub type Span = (int, int, int, int);

pub open spec fn clamp_int(v: int, lo: int, hi: int) -> int {
    if v < lo {
        lo
    } else if v > hi {
        hi
    } else {
        v
    }
}

/// The window clipped to a `fw` x `fh` frame, or `None` when nothing of it is
/// left (or it has no area to begin with).
pub open spec fn clip_window(fw: int, fh: int, win: WinRectPx) -> Option<Span> {
    let x0 = clamp_int(win.x as int, 0, fw);
    let y0 = clamp_int(win.y as int, 0, fh);
    let x1 = clamp_int(win.spec_x1(), 0, fw);
    let y1 = clamp_int(win.spec_y1(), 0, fh);
    if win.w == 0 || win.h == 0 || x1 <= x0 || y1 <= y0 {
        None
    } else {
        Some((x0, y0, x1, y1))
    }
}

pub open spec fn max_nat1(v: u32) -> int {
    if v == 0 { 1 } else { v as int }
}

/// Segment k of n of the interval [a, b): [a + (b-a)*k/n, a + (b-a)*(k+1)/n).
pub open spec fn seg_lo(a: int, b: int, k: int, n: int) -> int {
    a + (b - a) * k / n
}

impl Sampler {
    /// Band thickness inside a window `h` pixels high: at most half the
    /// height, at least one pixel.
    pub open spec fn spec_band(self, h: int) -> int {
        max_int(min_int(self.band as int, h / 2), 1)
    }

    /// Distance kept from the window border: less than the band.
    pub open spec fn spec_skip(self, h: int) -> int {
        min_int(self.skip as int, self.spec_band(h) - 1)
    }

    /// Step handed to the rectangle sampler (`max(stride, 1)` as `i32`).
    pub open spec fn spec_step(self) -> int {
        (max_nat1(self.stride) as i32) as int
    }

    /// Top segment k of n: a band of rows right below the top border.
    pub open spec fn top_span(self, c: Span, k: int, n: int) -> Span {
        let band = self.spec_band(c.3 - c.1);
        let skip = self.spec_skip(c.3 - c.1);
        (seg_lo(c.0, c.2, k, n), c.1 + skip, seg_lo(c.0, c.2, k + 1, n), min_int(c.1 + skip + band, c.3))
    }

    /// Right segment k of n: a band of columns just left of the right border.
    pub open spec fn right_span(self, c: Span, k: int, n: int) -> Span {
        let band = self.spec_band(c.3 - c.1);
        let skip = self.spec_skip(c.3 - c.1);
        (max_int(c.2 - skip - band, c.0), seg_lo(c.1, c.3, k, n), max_int(c.2 - skip, c.0), seg_lo(c.1, c.3, k + 1, n))
    }

    /// Bottom segment k of n: a band of rows right above the bottom border.
    pub open spec fn bottom_span(self, c: Span, k: int, n: int) -> Span {
        let band = self.spec_band(c.3 - c.1);
        let skip = self.spec_skip(c.3 - c.1);
        (seg_lo(c.0, c.2, k, n), max_int(c.3 - skip - band, c.1), seg_lo(c.0, c.2, k + 1, n), max_int(c.3 - skip, c.1))
    }

    /// Left segment k of n: a band of columns just right of the left border.
    pub open spec fn left_span(self, c: Span, k: int, n: int) -> Span {
        let band = self.spec_band(c.3 - c.1);
        let skip = self.spec_skip(c.3 - c.1);
        (c.0 + skip, seg_lo(c.1, c.3, k, n), min_int(c.0 + skip + band, c.2), seg_lo(c.1, c.3, k + 1, n))
    }

    pub open spec fn span_tally(self, frame: &Frame, r: Span) -> Tally {
        rect_tally(frame, r.0, r.1, r.2, r.3, self.spec_step())
    }

    /// The integer arithmetic of sampling `win` in `frame` stays in range.
    pub open spec fn fits(self, frame: &Frame, win: WinRectPx) -> bool {
        &&& frame_fits(frame)
        &&& frame.width as int + max_int(self.spec_step(), 1) <= i32::MAX + 1
        &&& frame.height as int + max_int(self.spec_step(), 1) <= i32::MAX + 1
        &&& i32::MIN <= win.spec_x1() <= i32::MAX
        &&& i32::MIN <= win.spec_y1() <= i32::MAX
        &&& match clip_window(frame.width as int, frame.height as int, win) {
            Some(c) => {
                &&& (c.2 - c.0) * max_nat1(self.top_segments) <= u32::MAX
                &&& (c.2 - c.0) * max_nat1(self.bottom_segments) <= u32::MAX
                &&& (c.3 - c.1) * max_nat1(self.right_segments) <= u32::MAX
                &&& (c.3 - c.1) * max_nat1(self.left_segments) <= u32::MAX
                &&& c.0 + self.spec_skip(c.3 - c.1) + self.spec_band(c.3 - c.1) <= i32::MAX
            },
            None => true,
        }
    }
}

/// Raw per-segment totals of one sampling pass, in ring order (clockwise from
/// the top-left corner): top left->right, right top->bottom, bottom
/// right->left, left bottom->top.
pub struct EdgeSums {
    pub top: Vec<PixelSum>,
    pub right: Vec<PixelSum>,
    pub bottom: Vec<PixelSum>,
    pub left: Vec<PixelSum>,
}


fn clamp_i32(v: i32, lo: i32, hi: i32) -> (r: i32)
    requires
        lo <= hi,
    ensures
        r == clamp_int(v as int, lo as int, hi as int),
{
    if v < lo {
        lo
    } else if v > hi {
        hi
    } else {
        v
    }
}

proof fn lemma_seg(a: int, k: int, n: int)
    requires
        0 <= a,
        0 <= k <= n,
        0 < n,
    ensures
        0 <= a * k <= a * n,
        0 <= a * k / n <= a,
{
    assert(0 <= a * k <= a * n) by (nonlinear_arith)
        requires
            0 <= a,
            0 <= k <= n,
    ;
    vstd::arithmetic::div_mod::lemma_div_is_ordered(a * k, a * n, n);
    vstd::arithmetic::div_mod::lemma_div_multiples_vanish(a, n);
    assert(a * n == n * a) by (nonlinear_arith);
    assert(a * n / n == a);
    vstd::arithmetic::div_mod::lemma_div_pos_is_pos(a * k, n);
}

/// Bounds of segment `k` of `n` along an edge of length `len` starting at `a`.
fn seg_bounds(a: i32, len: u32, k: u32, n: u32) -> (r: (i32, i32))
    requires
        0 <= a,
        a + len <= i32::MAX,
        k < n,
        len * n <= u32::MAX,
    ensures
        r.0 == seg_lo(a as int, a + len, k as int, n as int),
        r.1 == seg_lo(a as int, a + len, k + 1, n as int),
        a <= r.0 <= r.1 <= a + len,
{
    proof {
        lemma_seg(len as int, k as int, n as int);
        lemma_seg(len as int, k + 1, n as int);
        assert(len * k <= len * (k + 1)) by (nonlinear_arith)
            requires
                0 <= len,
                0 <= k,
        ;
        vstd::arithmetic::div_mod::lemma_div_is_ordered(len * k, len * (k + 1), n as int);
    }
    let lo = a + ((len * k / n) as i32);
    let hi = a + ((len * (k + 1) / n) as i32);
    (lo, hi)
}

fn clamp_i64(v: i64, lo: i64, hi: i64) -> (r: i64)
    requires
        lo <= hi,
    ensures
        r == clamp_int(v as int, lo as int, hi as int),
{
    if v < lo {
        lo
    } else if v > hi {
        hi
    } else {
        v
    }
}

impl Sampler {
    /// Whether sampling `win` in `frame` stays within the machine's integer
    /// ranges, i.e. whether `sample` may be called.
    pub fn can_sample(&self, frame: &Frame, win: &WinRectPx) -> (r: bool)
        ensures
            r == self.fits(frame, *win),
    {
        let wd = frame.width as u128;
        let ht = frame.height as u128;
        if frame.width > i32::MAX as u32 || frame.height > i32::MAX as u32 {
            return false;
        }
        let sd = frame.stride as u128;
        assert(ht * sd <= 0x8000_0000u128 * 0x1_0000_0000_0000_0000u128) by (nonlinear_arith)
            requires
                ht <= 0x8000_0000u128,
                sd <= 0x1_0000_0000_0000_0000u128,
        ;
        assert(wd * ht * 255 <= 0x8000_0000u128 * 0x8000_0000u128 * 255) by (nonlinear_arith)
            requires
                ht <= 0x8000_0000u128,
                wd <= 0x8000_0000u128,
        ;
        if ht * sd + wd * 4 + 4 > usize::MAX as u128 {
            return false;
        }
        if wd * ht * 255 > u64::MAX as u128 {
            return false;
        }
        let step = (if self.stride > 1 { self.stride } else { 1 }) as i32;
        assert(step == self.spec_step());
        let st: i64 = if step > 1 { step as i64 } else { 1 };
        if frame.width as i64 + st > i32::MAX as i64 + 1 || frame.height as i64 + st > i32::MAX as i64 + 1 {
            return false;
        }
        let wx1 = win.x as i64 + (win.w as i32) as i64;
        let wy1 = win.y as i64 + (win.h as i32) as i64;
        if wx1 < i32::MIN as i64 || wx1 > i32::MAX as i64 || wy1 < i32::MIN as i64 || wy1 > i32::MAX as i64 {
            return false;
        }
        let fw = frame.width as i64;
        let fh = frame.height as i64;
        let x0 = clamp_i64(win.x as i64, 0, fw);
        let y0 = clamp_i64(win.y as i64, 0, fh);
        let x1 = clamp_i64(wx1, 0, fw);
        let y1 = clamp_i64(wy1, 0, fh);
        if win.w == 0 || win.h == 0 || x1 <= x0 || y1 <= y0 {
            return true;
        }
        let cw = (x1 - x0) as u64;
        let ch = (y1 - y0) as u64;
        let nt = (if self.top_segments > 1 { self.top_segments } else { 1 }) as u64;
        let nb = (if self.bottom_segments > 1 { self.bottom_segments } else { 1 }) as u64;
        let nr = (if self.right_segments > 1 { self.right_segments } else { 1 }) as u64;
        let nl = (if self.left_segments > 1 { self.left_segments } else { 1 }) as u64;
        assert(cw * nt <= 0x8000_0000u64 * 0x1_0000_0000u64 && cw * nb <= 0x8000_0000u64 * 0x1_0000_0000u64)
            by (nonlinear_arith)
            requires
                cw <= 0x8000_0000u64,
                nt <= 0x1_0000_0000u64,
                nb <= 0x1_0000_0000u64,
        ;
        assert(ch * nr <= 0x8000_0000u64 * 0x1_0000_0000u64 && ch * nl <= 0x8000_0000u64 * 0x1_0000_0000u64)
            by (nonlinear_arith)
            requires
                ch <= 0x8000_0000u64,
                nr <= 0x1_0000_0000u64,
                nl <= 0x1_0000_0000u64,
        ;
        let half = ch / 2;
        let band0 = if (self.band as u64) < half { self.band as u64 } else { half };
        let band = if band0 > 1 { band0 } else { 1 };
        let skip = if (self.skip as u64) < band - 1 { self.skip as u64 } else { band - 1 };
        assert(band == self.spec_band(y1 - y0));
        assert(skip == self.spec_skip(y1 - y0));
        cw * nt <= u32::MAX as u64 && cw * nb <= u32::MAX as u64 && ch * nr <= u32::MAX as u64
            && ch * nl <= u32::MAX as u64 && x0 as u64 + skip + band <= i32::MAX as u64
    }
}

impl Sampler {
    /// Sample all edges, producing the raw (integer) totals of every segment.
    /// `None` when the window has no area inside the frame.
    pub fn sample(&self, frame: &Frame, win: &WinRectPx) -> (res: Option<EdgeSums>)
        requires
            self.fits(frame, *win),
        ensures
            res is None <==> clip_window(frame.width as int, frame.height as int, *win) is None,
            res matches Some(e) ==> {
                let c = clip_window(frame.width as int, frame.height as int, *win)->0;
                let nt = max_nat1(self.top_segments);
                let nr = max_nat1(self.right_segments);
                let nb = max_nat1(self.bottom_segments);
                let nl = max_nat1(self.left_segments);
                &&& e.top@.len() == nt
                &&& e.right@.len() == nr
                &&& e.bottom@.len() == nb
                &&& e.left@.len() == nl
                &&& forall|k: int| 0 <= k < nt ==>
                    #[trigger] e.top@[k].tally() == self.span_tally(frame, self.top_span(c, k, nt))
                &&& forall|k: int| 0 <= k < nr ==>
                    #[trigger] e.right@[k].tally() == self.span_tally(frame, self.right_span(c, k, nr))
                &&& forall|k: int| 0 <= k < nb ==>
                    #[trigger] e.bottom@[k].tally() == self.span_tally(frame, self.bottom_span(c, nb - 1 - k, nb))
                &&& forall|k: int| 0 <= k < nl ==>
                    #[trigger] e.left@[k].tally() == self.span_tally(frame, self.left_span(c, nl - 1 - k, nl))
            },
    {
        if win.w == 0 || win.h == 0 {
            return None;
        }
        let fw = frame.width as i32;
        let fh = frame.height as i32;
        let wx1 = win.x1();
        let wy1 = win.y1();
        let x0 = clamp_i32(win.x, 0, fw);
        let y0 = clamp_i32(win.y, 0, fh);
        let x1 = clamp_i32(wx1, 0, fw);
        let y1 = clamp_i32(wy1, 0, fh);
        if x1 <= x0 || y1 <= y0 {
            return None;
        }
        let ghost c: Span = (x0 as int, y0 as int, x1 as int, y1 as int);
        let cw = (x1 - x0) as u32;
        let ch = (y1 - y0) as u32;
        let half = ch / 2;
        let band0 = if self.band < half { self.band } else { half };
        let band = if band0 > 1 { band0 } else { 1 };
        let skip = if self.skip < band - 1 { self.skip } else { band - 1 };
        assert(band == self.spec_band(c.3 - c.1));
        assert(skip == self.spec_skip(c.3 - c.1));
        assert(skip + band <= ch);
        let step = (if self.stride > 1 { self.stride } else { 1 }) as i32;
        assert(step == self.spec_step());
        let nt = if self.top_segments > 1 { self.top_segments } else { 1 };
        let nr = if self.right_segments > 1 { self.right_segments } else { 1 };
        let nb = if self.bottom_segments > 1 { self.bottom_segments } else { 1 };
        let nl = if self.left_segments > 1 { self.left_segments } else { 1 };
        let skip_i = skip as i32;
        let band_i = band as i32;
        assert(cw * nt <= u32::MAX);
        assert(cw * nb <= u32::MAX);
        assert(ch * nr <= u32::MAX);
        assert(ch * nl <= u32::MAX);
        assert(x0 + skip + band <= i32::MAX);

        let mut top: Vec<PixelSum> = Vec::new();
        let mut k: u32 = 0;
        while k < nt
            invariant
                self.fits(frame, *win),
                c == clip_window(frame.width as int, frame.height as int, *win)->0,
                c == (x0 as int, y0 as int, x1 as int, y1 as int),
                cw == c.2 - c.0,
                ch == c.3 - c.1,
                0 <= x0 < x1 <= i32::MAX,
                0 <= y0 < y1 <= i32::MAX,
                band == self.spec_band(c.3 - c.1),
                skip == self.spec_skip(c.3 - c.1),
                skip_i == skip,
                band_i == band,
                skip + band <= ch,
                step == self.spec_step(),
                cw * nt <= u32::MAX,
                cw * nb <= u32::MAX,
                ch * nr <= u32::MAX,
                ch * nl <= u32::MAX,
                x0 + skip + band <= i32::MAX,
                nt == max_nat1(self.top_segments),
                k <= nt,
                top@.len() == k,
                forall|j: int| 0 <= j < k ==>
                    #[trigger] top@[j].tally() == self.span_tally(frame, self.top_span(c, j, nt as int)),
            decreases nt - k,
        {
            let (sx0, sx1) = seg_bounds(x0, cw, k, nt);
            let ya = y0 + skip_i;
            let yb0 = ya + band_i;
            let yb = if yb0 < y1 { yb0 } else { y1 };
            top.push(rect_sum(frame, sx0, ya, sx1, yb, step));
            k = k + 1;
        }

        let mut right: Vec<PixelSum> = Vec::new();
        let mut k: u32 = 0;
        while k < nr
            invariant
                self.fits(frame, *win),
                c == clip_window(frame.width as int, frame.height as int, *win)->0,
                c == (x0 as int, y0 as int, x1 as int, y1 as int),
                cw == c.2 - c.0,
                ch == c.3 - c.1,
                0 <= x0 < x1 <= i32::MAX,
                0 <= y0 < y1 <= i32::MAX,
                band == self.spec_band(c.3 - c.1),
                skip == self.spec_skip(c.3 - c.1),
                skip_i == skip,
                band_i == band,
                skip + band <= ch,
                step == self.spec_step(),
                cw * nt <= u32::MAX,
                cw * nb <= u32::MAX,
                ch * nr <= u32::MAX,
                ch * nl <= u32::MAX,
                x0 + skip + band <= i32::MAX,
                nr == max_nat1(self.right_segments),
                k <= nr,
                right@.len() == k,
                forall|j: int| 0 <= j < k ==>
                    #[trigger] right@[j].tally() == self.span_tally(frame, self.right_span(c, j, nr as int)),
            decreases nr - k,
        {
            let (sy0, sy1) = seg_bounds(y0, ch, k, nr);
            let xa0 = x1 - skip_i - band_i;
            let xa = if xa0 > x0 { xa0 } else { x0 };
            let xb0 = x1 - skip_i;
            let xb = if xb0 > x0 { xb0 } else { x0 };
            right.push(rect_sum(frame, xa, sy0, xb, sy1, step));
            k = k + 1;
        }

        let mut bottom: Vec<PixelSum> = Vec::new();
        let mut k: u32 = 0;
        while k < nb
            invariant
                self.fits(frame, *win),
                c == clip_window(frame.width as int, frame.height as int, *win)->0,
                c == (x0 as int, y0 as int, x1 as int, y1 as int),
                cw == c.2 - c.0,
                ch == c.3 - c.1,
                0 <= x0 < x1 <= i32::MAX,
                0 <= y0 < y1 <= i32::MAX,
                band == self.spec_band(c.3 - c.1),
                skip == self.spec_skip(c.3 - c.1),
                skip_i == skip,
                band_i == band,
                skip + band <= ch,
                step == self.spec_step(),
                cw * nt <= u32::MAX,
                cw * nb <= u32::MAX,
                ch * nr <= u32::MAX,
                ch * nl <= u32::MAX,
                x0 + skip + band <= i32::MAX,
                nb == max_nat1(self.bottom_segments),
                k <= nb,
                bottom@.len() == k,
                forall|j: int| 0 <= j < k ==>
                    #[trigger] bottom@[j].tally() == self.span_tally(frame, self.bottom_span(c, nb - 1 - j, nb as int)),
            decreases nb - k,
        {
            // sampled right-to-left so the ring stays clockwise
            let (sx0, sx1) = seg_bounds(x0, cw, nb - 1 - k, nb);
            let ya0 = y1 - skip_i - band_i;
            let ya = if ya0 > y0 { ya0 } else { y0 };
            let yb0 = y1 - skip_i;
            let yb = if yb0 > y0 { yb0 } else { y0 };
            bottom.push(rect_sum(frame, sx0, ya, sx1, yb, step));
            k = k + 1;
        }

        let mut left: Vec<PixelSum> = Vec::new();
        let mut k: u32 = 0;
        while k < nl
            invariant
                self.fits(frame, *win),
                c == clip_window(frame.width as int, frame.height as int, *win)->0,
                c == (x0 as int, y0 as int, x1 as int, y1 as int),
                cw == c.2 - c.0,
                ch == c.3 - c.1,
                0 <= x0 < x1 <= i32::MAX,
                0 <= y0 < y1 <= i32::MAX,
                band == self.spec_band(c.3 - c.1),
                skip == self.spec_skip(c.3 - c.1),
                skip_i == skip,
                band_i == band,
                skip + band <= ch,
                step == self.spec_step(),
                cw * nt <= u32::MAX,
                cw * nb <= u32::MAX,
                ch * nr <= u32::MAX,
                ch * nl <= u32::MAX,
                x0 + skip + band <= i32::MAX,
                nl == max_nat1(self.left_segments),
                k <= nl,
                left@.len() == k,
                forall|j: int| 0 <= j < k ==>
                    #[trigger] left@[j].tally() == self.span_tally(frame, self.left_span(c, nl - 1 - j, nl as int)),
            decreases nl - k,
        {
            // sampled bottom-to-top so the ring stays clockwise
            let (sy0, sy1) = seg_bounds(y0, ch, nl - 1 - k, nl);
            let xa = x0 + skip_i;
            let xb0 = xa + band_i;
            let xb = if xb0 < x1 { xb0 } else { x1 };
            left.push(rect_sum(frame, xa, sy0, xb, sy1, step));
            k = k + 1;
        }
        Some(EdgeSums { top, right, bottom, left })
    }
}


proof fn lemma_seg_ends(a: int, b: int, n: int)
    requires
        a <= b,
        n >= 1,
    ensures
        seg_lo(a, b, 0, n) == a,
        seg_lo(a, b, n, n) == b,
{
    vstd::arithmetic::div_mod::lemma_div_multiples_vanish(b - a, n);
    assert((b - a) * n == n * (b - a)) by (nonlinear_arith);
    assert((b - a) * 0 == 0) by (nonlinear_arith);
}

/// The segments of each edge tile it: the first starts at the window's
/// first column (row), each ends where the next starts, the last ends at the
/// window's far side.
pub proof fn law_segments_tile_edges(s: Sampler, c: Span, n: int, k: int)
    requires
        c.0 < c.2,
        c.1 < c.3,
        n >= 1,
        0 <= k < n - 1,
    ensures
        s.top_span(c, 0, n).0 == c.0,
        s.top_span(c, n - 1, n).2 == c.2,
        s.top_span(c, k, n).2 == s.top_span(c, k + 1, n).0,
        s.bottom_span(c, 0, n).0 == c.0,
        s.bottom_span(c, n - 1, n).2 == c.2,
        s.bottom_span(c, k, n).2 == s.bottom_span(c, k + 1, n).0,
        s.right_span(c, 0, n).1 == c.1,
        s.right_span(c, n - 1, n).3 == c.3,
        s.right_span(c, k, n).3 == s.right_span(c, k + 1, n).1,
        s.left_span(c, 0, n).1 == c.1,
        s.left_span(c, n - 1, n).3 == c.3,
        s.left_span(c, k, n).3 == s.left_span(c, k + 1, n).1,
{
    lemma_seg_ends(c.0, c.2, n);
    lemma_seg_ends(c.1, c.3, n);
}

/// A span that holds any pixel lies inside the window it samples.
pub open spec fn span_inside(r: Span, c: Span) -> bool {
    (r.0 < r.2 && r.1 < r.3) ==> (c.0 <= r.0 && r.2 <= c.2 && c.1 <= r.1 && r.3 <= c.3)
}

/// Sampling stays inside the window: every band segment of every edge lies
/// within the window's rectangle.
pub proof fn law_spans_inside_window(s: Sampler, c: Span, n: int, k: int)
    requires
        c.0 < c.2,
        c.1 < c.3,
        n >= 1,
        0 <= k < n,
    ensures
        span_inside(s.top_span(c, k, n), c),
        span_inside(s.right_span(c, k, n), c),
        span_inside(s.bottom_span(c, k, n), c),
        span_inside(s.left_span(c, k, n), c),
{
    lemma_seg(c.2 - c.0, k, n);
    lemma_seg(c.2 - c.0, k + 1, n);
    lemma_seg(c.3 - c.1, k, n);
    lemma_seg(c.3 - c.1, k + 1, n);
    let h = c.3 - c.1;
    let band = s.spec_band(h);
    let skip = s.spec_skip(h);
    assert(skip + band <= h) by {
        if h / 2 >= 1 {
            assert(band <= h / 2);
        }
    }
}

/// The window clipped to a `fw` x `fh` frame, as a window rectangle.
pub open spec fn clip_rect(fw: int, fh: int, win: WinRectPx) -> WinRectPx {
    let x0 = clamp_int(win.x as int, 0, fw);
    let y0 = clamp_int(win.y as int, 0, fh);
    let x1 = clamp_int(win.spec_x1(), 0, fw);
    let y1 = clamp_int(win.spec_y1(), 0, fh);
    WinRectPx { x: x0 as i32, y: y0 as i32, w: max_int(x1 - x0, 0) as u32, h: max_int(y1 - y0, 0) as u32 }
}

/// Only the part of the window inside the frame is sampled: the clip of a
/// window clips to the same rectangle as the window itself, and sampling the
/// clip is allowed whenever sampling the window is. As `sample`'s result
/// depends on the window only through `clip_window`, sampling the window and
/// sampling its clip give the same totals.
pub proof fn law_sampling_sees_only_the_clip(s: Sampler, frame: &Frame, win: WinRectPx)
    requires
        frame.width <= i32::MAX,
        frame.height <= i32::MAX,
        win.w > 0,
        win.h > 0,
        i32::MIN <= win.spec_x1() <= i32::MAX,
        i32::MIN <= win.spec_y1() <= i32::MAX,
    ensures
        clip_window(frame.width as int, frame.height as int, clip_rect(frame.width as int, frame.height as int, win))
            == clip_window(frame.width as int, frame.height as int, win),
        s.fits(frame, win) ==> s.fits(frame, clip_rect(frame.width as int, frame.height as int, win)),
{
}

/// Byte `k` of buffer row `r`.
pub open spec fn row_byte(frame: &Frame, r: int, k: int) -> u8 {
    frame.buf@[r * frame.stride + k]
}

/// `g` holds the rows of `f` in reverse order and reads them the other way up.
pub open spec fn rows_flipped(f: &Frame, g: &Frame) -> bool {
    &&& g.width == f.width
    &&& g.height == f.height
    &&& g.stride == f.stride
    &&& g.y_invert == !f.y_invert
    &&& f.width * 4 <= f.stride
    &&& f.buf@.len() == f.stride * f.height
    &&& g.buf@.len() == f.buf@.len()
    &&& forall|r: int, k: int| 0 <= r < f.height && 0 <= k < f.stride ==>
        #[trigger] row_byte(g, r, k) == row_byte(f, f.height - 1 - r, k)
}

proof fn lemma_pixel_flip(f: &Frame, g: &Frame, x: int, y: int)
    requires
        rows_flipped(f, g),
        0 <= x < f.width,
        0 <= y < f.height,
    ensures
        pixel_tally(g, x, y) == pixel_tally(f, x, y),
{
    let hh = f.height as int;
    let st = f.stride as int;
    let rf = frame_row(f, y);
    let rg = frame_row(g, y);
    assert(rg == hh - 1 - rf);
    let k = 4 * x;
    assert(k + 3 < st);
    assert(0 <= rf * st && rf * st + st <= hh * st) by (nonlinear_arith)
        requires
            0 <= rf < hh,
            0 <= st,
    ;
    assert(0 <= rg * st && rg * st + st <= hh * st) by (nonlinear_arith)
        requires
            0 <= rg < hh,
            0 <= st,
    ;
    assert(pixel_offset(f, x, y) == rf * st + k);
    assert(pixel_offset(g, x, y) == rg * st + k);
    assert(row_byte(g, rg, k) == row_byte(f, rf, k));
    assert(row_byte(g, rg, k + 1) == row_byte(f, rf, k + 1));
    assert(row_byte(g, rg, k + 2) == row_byte(f, rf, k + 2));
    assert(rg * st + (k + 1) == rg * st + k + 1);
}

proof fn lemma_row_flip(f: &Frame, g: &Frame, y: int, x: int, x1: int, step: int)
    requires
        rows_flipped(f, g),
        0 <= x,
        x1 <= f.width,
        0 <= y < f.height,
    ensures
        row_tally(g, y, x, x1, step) == row_tally(f, y, x, x1, step),
    decreases max_int(x1 - x, 0),
{
    if x < x1 && step > 0 {
        lemma_pixel_flip(f, g, x, y);
        lemma_row_flip(f, g, y, x + step, x1, step);
    }
}

proof fn lemma_grid_flip(f: &Frame, g: &Frame, y: int, y1: int, x0: int, x1: int, step: int)
    requires
        rows_flipped(f, g),
        0 <= y,
        y1 <= f.height,
        0 <= x0,
        x1 <= f.width,
    ensures
        grid_tally(g, y, y1, x0, x1, step) == grid_tally(f, y, y1, x0, x1, step),
    decreases max_int(y1 - y, 0),
{
    if y < y1 && step > 0 {
        lemma_row_flip(f, g, y, x0, x1, step);
        lemma_grid_flip(f, g, y + step, y1, x0, x1, step);
    }
}

/// Rows stored bottom-up read alike: a frame holding the rows of `f` in
/// reverse order, with `y_invert` toggled, gives the same totals for every
/// rectangle, and so the same samples.
pub proof fn law_flipped_rows_read_alike(f: &Frame, g: &Frame, x0: int, y0: int, x1: int, y1: int, step: int)
    requires
        rows_flipped(f, g),
    ensures
        rect_tally(g, x0, y0, x1, y1, step) == rect_tally(f, x0, y0, x1, y1, step),
{
    let cx0 = max_int(x0, 0);
    let cy0 = max_int(y0, 0);
    let cx1 = min_int(x1, f.width as int);
    let cy1 = min_int(y1, f.height as int);
    if !(cx1 <= cx0 || cy1 <= cy0) {
        lemma_grid_flip(f, g, cy0, cy1, cx0, cx1, max_int(step, 1));
    }
}

/// Every band keeps `skip` pixels off the border it samples and is `band`
/// pixels thick: when the band fits in half the window's height, `skip` is
/// less than the band, and the band and gap fit in the window's width, the
/// top segments cover rows [c.1 + skip, c.1 + skip + band), the bottom ones
/// rows [c.3 - skip - band, c.3 - skip), the left ones columns
/// [c.0 + skip, c.0 + skip + band) and the right ones columns
/// [c.2 - skip - band, c.2 - skip).
pub proof fn law_bands_keep_off_the_border(s: Sampler, c: Span, n: int, k: int)
    requires
        c.0 < c.2,
        c.1 < c.3,
        1 <= s.band,
        2 * s.band <= c.3 - c.1,
        s.skip < s.band,
        s.skip + s.band <= c.2 - c.0,
    ensures
        s.top_span(c, k, n).1 == c.1 + s.skip,
        s.top_span(c, k, n).3 == c.1 + s.skip + s.band,
        s.bottom_span(c, k, n).1 == c.3 - s.skip - s.band,
        s.bottom_span(c, k, n).3 == c.3 - s.skip,
        s.left_span(c, k, n).0 == c.0 + s.skip,
        s.left_span(c, k, n).2 == c.0 + s.skip + s.band,
        s.right_span(c, k, n).0 == c.2 - s.skip - s.band,
        s.right_span(c, k, n).2 == c.2 - s.skip,
{
    let h = c.3 - c.1;
    assert(s.band <= h / 2);
    assert(s.spec_band(h) == s.band);
    assert(s.spec_skip(h) == s.skip);
}

} // verus!
