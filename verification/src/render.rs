//! Rasterisation of the dynamic wallpaper and of the window halo into the
//! shared-memory canvases of the overlay surfaces (ARGB8888, 4 bytes/pixel).

use vstd::prelude::*;
use crate::colors::{WinRectPx, max_int, min_int};

verus! {

/// An axis-aligned box [x0, x1) x [y0, y1) in buffer pixels.
#[derive(Clone, Copy, Debug, Default, PartialEq, Eq, Structural)]
pub struct Rect {
    pub x0: i32,
    pub y0: i32,
    pub x1: i32,
    pub y1: i32,
}

/// Smallest box enclosing both boxes.
pub open spec fn hull(a: Rect, b: Rect) -> Rect {
    Rect {
        x0: if a.x0 <= b.x0 { a.x0 } else { b.x0 },
        y0: if a.y0 <= b.y0 { a.y0 } else { b.y0 },
        x1: if a.x1 >= b.x1 { a.x1 } else { b.x1 },
        y1: if a.y1 >= b.y1 { a.y1 } else { b.y1 },
    }
}

/// The bounding box of two optional boxes; a missing box contributes nothing.
pub open spec fn spec_bounding(a: Option<Rect>, b: Option<Rect>) -> Option<Rect> {
    match (a, b) {
        (Some(a), Some(b)) => Some(hull(a, b)),
        (Some(a), None) => Some(a),
        (None, Some(b)) => Some(b),
        (None, None) => None,
    }
}

impl Rect {
    pub fn bounding(a: Option<Rect>, b: Option<Rect>) -> (r: Option<Rect>)
        ensures
            r == spec_bounding(a, b),
    {
        match (a, b) {
            (Some(a), Some(b)) => Some(Rect {
                x0: if a.x0 <= b.x0 { a.x0 } else { b.x0 },
                y0: if a.y0 <= b.y0 { a.y0 } else { b.y0 },
                x1: if a.x1 >= b.x1 { a.x1 } else { b.x1 },
                y1: if a.y1 >= b.y1 { a.y1 } else { b.y1 },
            }),
            (Some(a), None) => Some(a),
            (None, Some(b)) => Some(b),
            (None, None) => None,
        }
    }
}

/// The halo boxes around `win` need no arithmetic outside `i32`.
pub open spec fn glow_boxes_fit(win: WinRectPx, radius: int) -> bool {
    &&& i32::MIN <= win.spec_x1() <= i32::MAX
    &&& i32::MIN <= win.spec_y1() <= i32::MAX
    &&& i32::MIN <= win.y - radius <= i32::MAX
    &&& i32::MIN <= win.x - radius <= i32::MAX
    &&& i32::MIN <= win.spec_x1() + radius <= i32::MAX
    &&& i32::MIN <= win.spec_y1() + radius <= i32::MAX
}

/// The four halo boxes: above, right of, below and left of the window, each
/// reaching `radius` outward from the window edge it touches.
pub open spec fn spec_glow_boxes(win: WinRectPx, radius: int) -> Seq<Rect> {
    let x1 = win.spec_x1();
    let y1 = win.spec_y1();
    seq![
        Rect { x0: win.x, y0: (win.y - radius) as i32, x1: x1 as i32, y1: win.y },
        Rect { x0: x1 as i32, y0: win.y, x1: (x1 + radius) as i32, y1: y1 as i32 },
        Rect { x0: win.x, y0: y1 as i32, x1: x1 as i32, y1: (y1 + radius) as i32 },
        Rect { x0: (win.x - radius) as i32, y0: win.y, x1: win.x, y1: y1 as i32 },
    ]
}

/// Boxes around the window occupied by the halo, per side (top, right,
/// bottom, left). The boxes never reach into the window itself: the halo
/// surface lies on top of the window.
pub fn glow_boxes(win: &WinRectPx, radius: i32, _inner: i32) -> (r: [Rect; 4])
    requires
        glow_boxes_fit(*win, radius as int),
    ensures
        r@ == spec_glow_boxes(*win, radius as int),
{
    let x1 = win.x + win.w as i32;
    let y1 = win.y + win.h as i32;
    let r = [
        Rect { x0: win.x, y0: win.y - radius, x1: x1, y1: win.y },
        Rect { x0: x1, y0: win.y, x1: x1 + radius, y1: y1 },
        Rect { x0: win.x, y0: y1, x1: x1, y1: y1 + radius },
        Rect { x0: win.x - radius, y0: win.y, x1: win.x, y1: y1 },
    ];
    assert(r@ =~= spec_glow_boxes(*win, radius as int));
    r
}

/// Bounding box of the four boxes (folded left to right).
pub open spec fn spec_union4(b: Seq<Rect>) -> Option<Rect> {
    spec_bounding(
        spec_bounding(spec_bounding(spec_bounding(None, Some(b[0])), Some(b[1])), Some(b[2])),
        Some(b[3]),
    )
}

pub fn union_of_boxes(boxes: &[Rect; 4]) -> (r: Option<Rect>)
    ensures
        r == spec_union4(boxes@),
{
    let mut acc: Option<Rect> = None;
    let mut i: usize = 0;
    while i < 4
        invariant
            0 <= i <= 4,
            boxes@.len() == 4,
            i == 0 ==> acc == None::<Rect>,
            i == 1 ==> acc == spec_bounding(None, Some(boxes@[0])),
            i == 2 ==> acc == spec_bounding(spec_bounding(None, Some(boxes@[0])), Some(boxes@[1])),
            i == 3 ==> acc == spec_bounding(spec_bounding(spec_bounding(None, Some(boxes@[0])), Some(boxes@[1])), Some(boxes@[2])),
            i == 4 ==> acc == spec_union4(boxes@),
        decreases 4 - i,
    {
        acc = Rect::bounding(acc, Some(boxes[i]));
        i = i + 1;
    }
    acc
}


/// Byte range [start, end) of the canvas row that `row_mut` hands out for row
/// `y` of a canvas `w` pixels wide: `y` is clamped to the rows present, and a
/// canvas shorter than one row is treated as a single (short) row.
pub open spec fn spec_row_range(len: int, w: int, y: int) -> (int, int) {
    if w == 0 {
        (0, 0)
    } else {
        let rows = len / (w * 4);
        let yy = min_int(max_int(y, 0), max_int(rows - 1, 0));
        (yy * w * 4, min_int((yy + 1) * w * 4, len))
    }
}

proof fn lemma_row_cell(i: int, w4: int, yy: int)
    requires
        w4 > 0,
        0 <= i,
        0 <= yy,
    ensures
        (yy * w4 <= i < (yy + 1) * w4) <==> (i / w4 == yy),
        (i / w4 == yy) ==> i % w4 == i - yy * w4,
        0 <= i % w4 < w4,
{
    let q = i / w4;
    let m = i % w4;
    vstd::arithmetic::div_mod::lemma_fundamental_div_mod(i, w4);
    vstd::arithmetic::div_mod::lemma_mod_bound(i, w4);
    assert((yy * w4 <= i < (yy + 1) * w4) <==> (q == yy)) by (nonlinear_arith)
        requires
            i == w4 * q + m,
            0 <= m < w4,
            w4 > 0,
    ;
    assert(q == yy ==> m == i - yy * w4) by (nonlinear_arith)
        requires
            i == w4 * q + m,
    ;
}

proof fn lemma_rows_fit(len: int, w4: int)
    requires
        w4 > 0,
        0 <= len,
    ensures
        0 <= len / w4,
        (len / w4) * w4 <= len,
{
    vstd::arithmetic::div_mod::lemma_fundamental_div_mod(len, w4);
    vstd::arithmetic::div_mod::lemma_mod_bound(len, w4);
    vstd::arithmetic::div_mod::lemma_div_pos_is_pos(len, w4);
    assert((len / w4) * w4 <= len) by (nonlinear_arith)
        requires
            len == w4 * (len / w4) + len % w4,
            0 <= len % w4,
    ;
}

/// Start and end of row `y` (clamped) of a canvas of `len` bytes, `w` pixels wide.
pub fn row_mut(len: usize, w: usize, y: i32) -> (r: (usize, usize))
    requires
        w * 4 <= usize::MAX,
    ensures
        r.0 == spec_row_range(len as int, w as int, y as int).0,
        r.1 == spec_row_range(len as int, w as int, y as int).1,
        r.0 <= r.1 <= len,
{
    if w == 0 {
        return (0, 0);
    }
    let w4 = w * 4;
    let rows = len / w4;
    proof {
        lemma_rows_fit(len as int, w4 as int);
    }
    let yc: usize = if y > 0 { y as usize } else { 0 };
    let last: usize = if rows > 0 { rows - 1 } else { 0 };
    let yy = if yc < last { yc } else { last };
    assert((yy + 1) * w4 <= rows * w4 || rows == 0) by (nonlinear_arith)
        requires
            rows > 0 ==> yy + 1 <= rows,
            w4 > 0,
    ;
    assert(yy * w4 <= len) by (nonlinear_arith)
        requires
            rows > 0 ==> yy + 1 <= rows,
            rows == 0 ==> yy == 0,
            rows * w4 <= len,
            w4 > 0,
    ;
    assert(yy * w * 4 == yy * w4) by (nonlinear_arith)
        requires
            w4 == w * 4,
    ;
    assert(yy * w4 <= (yy + 1) * w4) by (nonlinear_arith)
        requires
            w4 > 0,
    ;
    let start = yy * w4;
    let end = if rows == 0 { len } else { (yy + 1) * w4 };
    assert((yy + 1) * w * 4 == (yy + 1) * w4) by (nonlinear_arith)
        requires
            w4 == w * 4,
    ;
    assert(rows == 0 ==> len <= (yy + 1) * w4) by (nonlinear_arith)
        requires
            rows == len / w4,
            rows == 0 ==> yy == 0,
            w4 > 0,
    {
        vstd::arithmetic::div_mod::lemma_fundamental_div_mod(len as int, w4 as int);
        vstd::arithmetic::div_mod::lemma_mod_bound(len as int, w4 as int);
    }
    (start, end)
}

/// Byte `i` of a canvas with rows of `w4` bytes lies in rows [ya, yb) and in
/// the bytes [x0 * 4, x1 * 4) of its row.
pub open spec fn in_box_rows(w4: int, x0: int, x1: int, ya: int, yb: int, i: int) -> bool {
    ya <= i / w4 < yb && x0 * 4 <= i % w4 < x1 * 4
}

/// Rows of a `len`-byte canvas with rows of `w4` bytes: its full rows, or a
/// single short row when it holds less than one.
pub open spec fn canvas_rows(len: int, w4: int) -> int {
    if len / w4 == 0 { 1 } else { len / w4 }
}

/// The bytes that `clear_rect` zeroes: the bytes present of the pixels
/// (x, y) of the rectangle that lie on the canvas, whose rows are its
/// `canvas_rows` rows of `w` pixels. Rows and columns outside the canvas are
/// left alone.
pub open spec fn cleared_byte(len: int, w: int, r: Rect, i: int) -> bool {
    w > 0 && {
        let w4 = w * 4;
        let y = i / w4;
        let x = (i % w4) / 4;
        &&& y < canvas_rows(len, w4)
        &&& max_int(r.y0 as int, 0) <= y < r.y1
        &&& max_int(r.x0 as int, 0) <= x < r.x1
    }
}

proof fn lemma_cleared_box(len: int, w: int, r: Rect, xs: int, xe: int, ys: int, ye: int, i: int)
    requires
        0 <= len,
        0 < w,
        0 <= i < len,
        xs == max_int(r.x0 as int, 0),
        xe == min_int(max_int(r.x1 as int, 0), w),
        ys == max_int(r.y0 as int, 0),
        ye == min_int(max_int(r.y1 as int, 0), canvas_rows(len, w * 4)),
    ensures
        cleared_byte(len, w, r, i) <==> in_box_rows(w * 4, xs, xe, ys, ye, i),
{
    let w4 = w * 4;
    lemma_row_cell(i, w4, 0);
    lemma_rows_fit(len, w4);
    let m = i % w4;
    assert(m / 4 < xe <==> m < xe * 4);
    assert(xs <= m / 4 <==> xs * 4 <= m);
}

proof fn lemma_box_step(len: int, w4: int, xs: int, xe: int, ys: int, y: int, i: int)
    requires
        0 < w4,
        0 <= xs < xe,
        xe * 4 <= w4,
        0 <= ys <= y,
        0 <= i,
    ensures
        in_box_rows(w4, xs, xe, ys, y + 1, i) <==> (in_box_rows(w4, xs, xe, ys, y, i)
            || (y * w4 + xs * 4 <= i < y * w4 + xe * 4)),
{
    lemma_row_cell(i, w4, y);
    assert((y + 1) * w4 == y * w4 + w4) by (nonlinear_arith);
    let q = i / w4;
    assert((y * w4 + xs * 4 <= i < y * w4 + xe * 4) ==> q == y);
}

/// Zero a rectangle of the canvas.
pub fn clear_rect(canvas: &mut [u8], w: usize, r: &Rect)
    requires
        w * 4 <= usize::MAX,
    ensures
        final(canvas)@.len() == old(canvas)@.len(),
        forall|i: int| 0 <= i < old(canvas)@.len() ==>
            #[trigger] final(canvas)@[i] == if cleared_byte(old(canvas)@.len() as int, w as int, *r, i) {
                0u8
            } else {
                old(canvas)@[i]
            },
{
    let len = canvas.len();
    if w == 0 {
        return;
    }
    let w4 = w * 4;
    let rows = len / w4;
    proof {
        lemma_rows_fit(len as int, w4 as int);
    }
    let xs: usize = if r.x0 > 0 { r.x0 as usize } else { 0 };
    let x1: usize = if r.x1 > 0 { r.x1 as usize } else { 0 };
    let xe: usize = if x1 < w { x1 } else { w };
    let ys: usize = if r.y0 > 0 { r.y0 as usize } else { 0 };
    let y1: usize = if r.y1 > 0 { r.y1 as usize } else { 0 };
    let crows: usize = if rows == 0 { 1 } else { rows };
    let ye: usize = if y1 < crows { y1 } else { crows };
    let ghost old_c = canvas@;
    proof {
        assert forall|i: int| 0 <= i < len implies
            (cleared_byte(len as int, w as int, *r, i) <==> in_box_rows(w4 as int, xs as int, xe as int, ys as int, ye as int, i)) by {
            lemma_cleared_box(len as int, w as int, *r, xs as int, xe as int, ys as int, ye as int, i);
        }
    }
    if xe <= xs || ye <= ys {
        proof {
            assert forall|i: int| 0 <= i < len implies !in_box_rows(w4 as int, xs as int, xe as int, ys as int, ye as int, i) by {}
        }
        return;
    }
    let mut y: usize = ys;
    while y < ye
        invariant
            canvas@.len() == len,
            old_c.len() == len,
            old_c == old(canvas)@,
            w4 == w * 4,
            0 < w4,
            0 <= xs < xe <= w,
            ys <= y <= ye,
            ye <= crows,
            crows == if rows == 0 { 1 } else { rows },
            rows * w4 <= len,
            forall|i: int| 0 <= i < len ==>
                #[trigger] canvas@[i] == if in_box_rows(w4 as int, xs as int, xe as int, ys as int, y as int, i) {
                    0u8
                } else {
                    old_c[i]
                },
        decreases ye - y,
    {
        assert(rows > 0 ==> y * w4 + xe * 4 <= len) by (nonlinear_arith)
            requires
                rows > 0 ==> y < rows,
                xe * 4 <= w4,
                rows * w4 <= len,
                0 < w4,
        ;
        assert(rows == 0 ==> y == 0);
        assert(y * w4 + xe * 4 <= usize::MAX) by {
            if rows == 0 {
                assert(y * w4 == 0) by (nonlinear_arith) requires y == 0;
            }
        }
        let base = y * w4;
        let end0 = base + xe * 4;
        let row_end = if end0 < len { end0 } else { len };
        let start = if base + xs * 4 < row_end { base + xs * 4 } else { row_end };
        let mut j: usize = start;
        while j < row_end
            invariant
                canvas@.len() == len,
                base == y * w4,
                start <= j <= row_end,
                row_end <= len,
                forall|i: int| 0 <= i < len ==>
                    #[trigger] canvas@[i] == if in_box_rows(w4 as int, xs as int, xe as int, ys as int, y as int, i)
                        || (start <= i < j) {
                        0u8
                    } else {
                        old_c[i]
                    },
            decreases row_end - j,
        {
            canvas[j] = 0;
            j = j + 1;
        }
        proof {
            assert forall|i: int| 0 <= i < len implies
                #[trigger] canvas@[i] == if in_box_rows(w4 as int, xs as int, xe as int, ys as int, y + 1, i) {
                    0u8
                } else {
                    old_c[i]
                } by {
                lemma_box_step(len as int, w4 as int, xs as int, xe as int, ys as int, y as int, i);
            }
        }
        y = y + 1;
    }
}


/// Distance from `v` to the interval [lo, hi) as the halo measures it
/// (a coordinate equal to `hi` counts as distance 0).
pub open spec fn edge_dist(v: int, lo: int, hi: int) -> int {
    if v < lo {
        lo - v
    } else if v >= hi {
        v - hi
    } else {
        0
    }
}

/// Where the halo of `win` (outer radius `radius`) covers pixel (x, y): the
/// squared distance `dd` to the window and the position `p` on the window
/// perimeter (clockwise from the top-left corner) whose color the pixel takes.
/// `None` inside the window and from `radius` on.
pub open spec fn halo_at(win: WinRectPx, radius: int, x: int, y: int) -> Option<(int, int)> {
    let x0 = win.x as int;
    let y0 = win.y as int;
    let x1 = win.spec_x1();
    let y1 = win.spec_y1();
    let fw = win.w as int;
    let fh = win.h as int;
    let dx = edge_dist(x, x0, x1);
    let dy = edge_dist(y, y0, y1);
    let dd = dx * dx + dy * dy;
    let r = max_int(radius, 1);
    if (dx == 0 && dy == 0) || dd >= r * r {
        None
    } else {
        let xc = if x < x0 { x0 } else if x > x1 { x1 } else { x };
        let yc = if y < y0 { y0 } else if y > y1 { y1 } else { y };
        let p = if dx * dx > dy * dy {
            if x < x0 {
                2 * fw + fh + (y1 - yc)
            } else {
                fw + (yc - y0)
            }
        } else if y < y0 {
            xc - x0
        } else {
            fw + fh + (x1 - xc)
        };
        Some((dd, p))
    }
}

/// Pixels scanned for the halo: the window grown by `radius`, cut to the canvas.
pub open spec fn halo_bounds(win: WinRectPx, radius: int, w: int, h: int) -> (int, int, int, int) {
    (
        max_int(win.x - radius, 0),
        max_int(win.y - radius, 0),
        min_int(win.spec_x1() + radius, (w as i32) as int),
        min_int(win.spec_y1() + radius, (h as i32) as int),
    )
}

/// One pixel of the halo: position, squared distance to the window, and
/// perimeter position of the ring color it takes.
#[derive(Clone, Copy, Debug, PartialEq, Eq, Structural)]
pub struct HaloPx {
    pub x: i32,
    pub y: i32,
    pub dd: u64,
    pub p: i64,
}

/// `a` comes strictly before `b` in row-major order.
pub open spec fn scan_before(a: HaloPx, b: HaloPx) -> bool {
    a.y < b.y || (a.y == b.y && a.x < b.x)
}

fn edge_dist_exec(v: i32, lo: i32, hi: i32) -> (r: u64)
    ensures
        r == edge_dist(v as int, lo as int, hi as int),
{
    if v < lo {
        (lo as i64 - v as i64) as u64
    } else if v >= hi {
        (v as i64 - hi as i64) as u64
    } else {
        0
    }
}

/// Halo coverage of one pixel (see `halo_at`).
pub fn halo_pixel(win: &WinRectPx, radius: i32, x: i32, y: i32) -> (r: Option<(u64, i64)>)
    requires
        glow_boxes_fit(*win, radius as int),
    ensures
        r matches Some(v) ==> halo_at(*win, radius as int, x as int, y as int) == Some((v.0 as int, v.1 as int)),
        r is None ==> halo_at(*win, radius as int, x as int, y as int) is None,
{
    let x0 = win.x;
    let y0 = win.y;
    let x1 = win.x + win.w as i32;
    let y1 = win.y + win.h as i32;
    let dx = edge_dist_exec(x, x0, x1);
    let dy = edge_dist_exec(y, y0, y1);
    assert(dx < 0x1_0000_0000 && dy < 0x1_0000_0000);
    assert(dx * dx < 0x1_0000_0000_0000_0000 && dy * dy < 0x1_0000_0000_0000_0000) by (nonlinear_arith)
        requires
            dx < 0x1_0000_0000,
            dy < 0x1_0000_0000,
    ;
    let dx2 = dx as u128 * dx as u128;
    let dy2 = dy as u128 * dy as u128;
    let dd = dx2 + dy2;
    let r: u128 = if radius > 1 { radius as u128 } else { 1 };
    assert(r * r <= 0x8000_0000u128 * 0x8000_0000u128) by (nonlinear_arith)
        requires
            1 <= r <= 0x8000_0000,
    ;
    let r2 = r * r;
    if (dx == 0 && dy == 0) || dd >= r2 {
        return None;
    }
    let xc: i64 = if x < x0 { x0 as i64 } else if x > x1 { x1 as i64 } else { x as i64 };
    let yc: i64 = if y < y0 { y0 as i64 } else if y > y1 { y1 as i64 } else { y as i64 };
    let fw = win.w as i64;
    let fh = win.h as i64;
    let p: i64 = if dx2 > dy2 {
        if x < x0 {
            2 * fw + fh + (y1 as i64 - yc)
        } else {
            fw + (yc - y0 as i64)
        }
    } else if y < y0 {
        xc - x0 as i64
    } else {
        fw + fh + (x1 as i64 - xc)
    };
    Some((dd as u64, p))
}


/// `res` is exactly the halo of `win` inside the scan bounds of a `w` x `h`
/// canvas, listed once per pixel in row-major order.
pub open spec fn is_halo_scan(res: Seq<HaloPx>, win: WinRectPx, radius: int, w: int, h: int) -> bool {
    let b = halo_bounds(win, radius, w, h);
    &&& forall|k: int| 0 <= k < res.len() ==> {
        let e = #[trigger] res[k];
        &&& b.0 <= e.x < b.2
        &&& b.1 <= e.y < b.3
        &&& halo_at(win, radius, e.x as int, e.y as int) == Some((e.dd as int, e.p as int))
    }
    &&& forall|k: int, l: int| 0 <= k < l < res.len() ==> scan_before(#[trigger] res[k], #[trigger] res[l])
    &&& forall|x: int, y: int|
        b.0 <= x < b.2 && b.1 <= y < b.3 && (#[trigger] halo_at(win, radius, x, y)) is Some
            ==> exists|k: int| 0 <= k < res.len() && (#[trigger] res[k]).x == x && res[k].y == y
}

/// All pixels of a `w` x `h` canvas that the halo around `win` paints,
/// row by row. The halo is one continuous falloff around the window: the
/// sides and the corners are covered alike, the window itself never.
pub fn halo_pixels(win: &WinRectPx, radius: i32, w: usize, h: usize) -> (res: Vec<HaloPx>)
    requires
        glow_boxes_fit(*win, radius as int),
    ensures
        is_halo_scan(res@, *win, radius as int, w as int, h as int),
{
    let ghost b = halo_bounds(*win, radius as int, w as int, h as int);
    let x1 = win.x + win.w as i32;
    let y1 = win.y + win.h as i32;
    let xa = win.x - radius;
    let ya = win.y - radius;
    let xmin: i32 = if xa > 0 { xa } else { 0 };
    let ymin: i32 = if ya > 0 { ya } else { 0 };
    let xb = x1 + radius;
    let yb = y1 + radius;
    let wi = w as i32;
    let hi = h as i32;
    let xmax: i32 = if xb < wi { xb } else { wi };
    let ymax: i32 = if yb < hi { yb } else { hi };
    assert(b == (xmin as int, ymin as int, xmax as int, ymax as int));
    let mut res: Vec<HaloPx> = Vec::new();
    if xmax <= xmin || ymax <= ymin {
        return res;
    }
    let mut y: i32 = ymin;
    while y < ymax
        invariant
            glow_boxes_fit(*win, radius as int),
            b == (xmin as int, ymin as int, xmax as int, ymax as int),
            xmin < xmax,
            ymin <= y <= ymax,
            forall|k: int| 0 <= k < res@.len() ==> {
                let e = #[trigger] res@[k];
                &&& b.0 <= e.x < b.2
                &&& b.1 <= e.y < y
                &&& halo_at(*win, radius as int, e.x as int, e.y as int) == Some((e.dd as int, e.p as int))
            },
            forall|k: int, l: int| 0 <= k < l < res@.len() ==> scan_before(#[trigger] res@[k], #[trigger] res@[l]),
            forall|xx: int, yy: int|
                b.0 <= xx < b.2 && b.1 <= yy < y && (#[trigger] halo_at(*win, radius as int, xx, yy)) is Some
                    ==> exists|k: int| 0 <= k < res@.len() && (#[trigger] res@[k]).x == xx && res@[k].y == yy,
        decreases ymax - y,
    {
        let mut x: i32 = xmin;
        while x < xmax
            invariant
                glow_boxes_fit(*win, radius as int),
                b == (xmin as int, ymin as int, xmax as int, ymax as int),
                xmin <= x <= xmax,
                ymin <= y < ymax,
                forall|k: int| 0 <= k < res@.len() ==> {
                    let e = #[trigger] res@[k];
                    &&& b.0 <= e.x < b.2
                    &&& b.1 <= e.y <= y
                    &&& (e.y == y ==> e.x < x)
                    &&& halo_at(*win, radius as int, e.x as int, e.y as int) == Some((e.dd as int, e.p as int))
                },
                forall|k: int, l: int| 0 <= k < l < res@.len() ==> scan_before(#[trigger] res@[k], #[trigger] res@[l]),
                forall|xx: int, yy: int|
                    b.0 <= xx < b.2 && b.1 <= yy <= y && (yy == y ==> xx < x)
                        && (#[trigger] halo_at(*win, radius as int, xx, yy)) is Some
                        ==> exists|k: int| 0 <= k < res@.len() && (#[trigger] res@[k]).x == xx && res@[k].y == yy,
            decreases xmax - x,
        {
            let ghost old_res = res@;
            match halo_pixel(win, radius, x, y) {
                Some((dd, p)) => {
                    let e = HaloPx { x, y, dd, p };
                    res.push(e);
                    proof {
                        let n = old_res.len() as int;
                        assert(res@[n] == e);
                        assert forall|xx: int, yy: int|
                            b.0 <= xx < b.2 && b.1 <= yy <= y && (yy == y ==> xx < x + 1)
                                && (#[trigger] halo_at(*win, radius as int, xx, yy)) is Some
                            implies exists|k: int| 0 <= k < res@.len() && (#[trigger] res@[k]).x == xx && res@[k].y == yy
                        by {
                            if yy == y && xx == x {
                                assert(res@[n].x == xx && res@[n].y == yy);
                            } else {
                                let k = choose|k: int| 0 <= k < old_res.len() && (#[trigger] old_res[k]).x == xx && old_res[k].y == yy;
                                assert(res@[k] == old_res[k]);
                            }
                        }
                    }
                },
                None => {},
            }
            x = x + 1;
        }
        y = y + 1;
    }
    res
}


/// Index of channel `c` of pixel (x, y) in a canvas `w` pixels wide.
pub open spec fn px_idx(w: int, y: int, x: int, c: int) -> int {
    (y * w + x) * 4 + c
}

proof fn lemma_px_order(w: int, y1: int, x1: int, c1: int, y2: int, x2: int, c2: int)
    requires
        0 <= x1 < w,
        0 <= x2 < w,
        0 <= y1,
        0 <= y2,
        0 <= c1 < 4,
        0 <= c2 < 4,
    ensures
        (y1 < y2 || (y1 == y2 && x1 < x2)) ==> px_idx(w, y1, x1, c1) < px_idx(w, y2, x2, c2),
        (y1 == y2 && x1 == x2) ==> (px_idx(w, y1, x1, c1) == px_idx(w, y2, x2, c2) <==> c1 == c2),
        0 <= px_idx(w, y1, x1, c1) < px_idx(w, y1 + 1, 0, 0),
{
    assert((y1 < y2 || (y1 == y2 && x1 < x2)) ==> y1 * w + x1 < y2 * w + x2) by (nonlinear_arith)
        requires
            0 <= x1 < w,
            0 <= x2 < w,
    ;
    assert(y1 * w + x1 < (y1 + 1) * w) by (nonlinear_arith)
        requires
            0 <= x1 < w,
    ;
    assert(0 <= y1 * w) by (nonlinear_arith)
        requires
            0 <= y1,
            0 <= w,
    ;
}

/// Write a glow pixel (premultiplied B, G, R and alpha `a`) into row `y` at
/// column `x`, max-compositing: a pixel is only replaced by a brighter halo
/// (higher alpha); faint alphas (below 6) and columns past the row are skipped.
pub fn put_glow_px(canvas: &mut [u8], w: usize, x: i32, y: i32, a: u8, pr: u8, pg: u8, pb: u8)
    requires
        0 <= x,
        0 <= y,
        (y + 1) * w * 4 <= old(canvas)@.len(),
    ensures
        ({
            let i = px_idx(w as int, y as int, x as int, 0);
            let put = a >= 6 && x < w && old(canvas)@[i + 3] < a;
            final(canvas)@ == if put {
                old(canvas)@.update(i, pb).update(i + 1, pg).update(i + 2, pr).update(i + 3, a)
            } else {
                old(canvas)@
            }
        }),
{
    if a < 6 {
        return;
    }
    let yu = y as usize;
    let xu = x as usize;
    let len = canvas.len();
    assert(yu * w <= yu * w * 4 && yu * w * 4 <= (yu + 1) * w * 4 && (yu + 1) * w * 4 == yu * w * 4 + w * 4)
        by (nonlinear_arith)
        requires
            0 <= w,
            0 <= yu,
    ;
    assert((yu + 1) * w * 4 <= len);
    let row_start = yu * w * 4;
    if xu >= w {
        return;
    }
    let idx = xu * 4;
    assert(row_start + idx == px_idx(w as int, y as int, x as int, 0)) by (nonlinear_arith)
        requires
            row_start == yu * w * 4,
            idx == xu * 4,
            yu == y,
            xu == x,
    ;
    let i = row_start + idx;
    if canvas[i + 3] >= a {
        return;
    }
    canvas[i] = pb;
    canvas[i + 1] = pg;
    canvas[i + 2] = pr;
    canvas[i + 3] = a;
}


/// Horizontal gradient color and horizontal vignette of one wallpaper column.
#[derive(Clone, Copy, Debug, PartialEq, Eq, Structural)]
pub struct ColumnShade {
    pub r: u8,
    pub g: u8,
    pub b: u8,
    pub vig: u16,
}

/// Vertical gradient color (mixed with the ambient color) and vertical
/// vignette of one wallpaper row.
#[derive(Clone, Copy, Debug, PartialEq, Eq, Structural)]
pub struct RowShade {
    pub r: u32,
    pub g: u32,
    pub b: u32,
    pub vig: u32,
}

/// Mix of the row and column channel with weight `hw`/256 on the column.
pub open spec fn blend(row_c: int, col_c: int, hw: int) -> int {
    (row_c * (255 - hw) + col_c * hw) / 256
}

/// Combined vignette factor (1..=256 for 8-bit vignettes).
pub open spec fn vig_factor(row: RowShade, col: ColumnShade) -> int {
    (col.vig as int * row.vig as int) / 256 + 1
}

/// Channel `c` (B, G, R, A) of a wallpaper pixel.
pub open spec fn wall_byte(row: RowShade, col: ColumnShade, hw: int, c: int) -> u8 {
    let v = vig_factor(row, col);
    if c == 0 {
        ((blend(row.b as int, col.b as int, hw) * v) / 256) as u8
    } else if c == 1 {
        ((blend(row.g as int, col.g as int, hw) * v) / 256) as u8
    } else if c == 2 {
        ((blend(row.r as int, col.r as int, hw) * v) / 256) as u8
    } else {
        0xFFu8
    }
}

/// The 32-bit pixel arithmetic of the wallpaper stays in range.
pub open spec fn wall_fits(row: RowShade, col: ColumnShade, hw: int) -> bool {
    let v = vig_factor(row, col);
    &&& row.r * (255 - hw) + col.r * hw <= u32::MAX
    &&& row.g * (255 - hw) + col.g * hw <= u32::MAX
    &&& row.b * (255 - hw) + col.b * hw <= u32::MAX
    &&& col.vig as int * row.vig as int <= u32::MAX
    &&& blend(row.r as int, col.r as int, hw) * v <= u32::MAX
    &&& blend(row.g as int, col.g as int, hw) * v <= u32::MAX
    &&& blend(row.b as int, col.b as int, hw) * v <= u32::MAX
}

proof fn lemma_shr8(v: u32)
    ensures
        v >> 8 == v / 256,
{
    assert(v >> 8 == v / 256) by (bit_vector);
}

fn wall_pixel(row: RowShade, col: ColumnShade, hw: u32) -> (r: [u8; 4])
    requires
        hw <= 255,
        wall_fits(row, col, hw as int),
    ensures
        forall|c: int| 0 <= c < 4 ==> #[trigger] r@[c] == wall_byte(row, col, hw as int, c),
{
    let bw = 255 - hw;
    let r0 = row.r * bw + col.r as u32 * hw;
    let g0 = row.g * bw + col.g as u32 * hw;
    let b0 = row.b * bw + col.b as u32 * hw;
    proof {
        lemma_shr8(r0);
        lemma_shr8(g0);
        lemma_shr8(b0);
    }
    let r = r0 >> 8;
    let g = g0 >> 8;
    let b = b0 >> 8;
    let vv = col.vig as u32 * row.vig;
    proof {
        lemma_shr8(vv);
    }
    let vig = (vv >> 8) + 1;
    let pb = b * vig;
    let pg = g * vig;
    let pr = r * vig;
    proof {
        lemma_shr8(pb);
        lemma_shr8(pg);
        lemma_shr8(pr);
    }
    let out = [(pb >> 8) as u8, (pg >> 8) as u8, (pr >> 8) as u8, 0xFFu8];
    assert forall|c: int| 0 <= c < 4 implies #[trigger] out@[c] == wall_byte(row, col, hw as int, c) by {
    }
    out
}

/// Fill the canvas (`w` x `h`, ARGB8888) with the synced gradient: per
/// pixel, the row color and the column color mixed by `hw`/256, darkened by
/// the product of the row and column vignettes, fully opaque.
pub fn fill_wallpaper(
    canvas: &mut [u8],
    w: usize,
    h: usize,
    cols: &Vec<ColumnShade>,
    rows: &Vec<RowShade>,
    hw: u32,
)
    requires
        cols@.len() == w,
        rows@.len() == h,
        w * h * 4 <= old(canvas)@.len(),
        hw <= 255,
        forall|y: int, x: int| 0 <= y < h && 0 <= x < w ==> wall_fits(#[trigger] rows@[y], #[trigger] cols@[x], hw as int),
    ensures
        final(canvas)@.len() == old(canvas)@.len(),
        forall|y: int, x: int, c: int| 0 <= y < h && 0 <= x < w && 0 <= c < 4 ==>
            #[trigger] final(canvas)@[px_idx(w as int, y, x, c)] == wall_byte(rows@[y], cols@[x], hw as int, c),
        forall|i: int| w * h * 4 <= i < old(canvas)@.len() ==> #[trigger] final(canvas)@[i] == old(canvas)@[i],
{
    if w == 0 || h == 0 {
        return;
    }
    let ghost old_c = canvas@;
    let len = canvas.len();
    let mut y: usize = 0;
    while y < h
        invariant
            canvas@.len() == len,
            old_c.len() == len,
            old_c == old(canvas)@,
            cols@.len() == w,
            rows@.len() == h,
            w * h * 4 <= len,
            hw <= 255,
            0 < w,
            y <= h,
            forall|y: int, x: int| 0 <= y < h && 0 <= x < w ==> wall_fits(#[trigger] rows@[y], #[trigger] cols@[x], hw as int),
            forall|yy: int, xx: int, c: int| 0 <= yy < y && 0 <= xx < w && 0 <= c < 4 ==>
                #[trigger] canvas@[px_idx(w as int, yy, xx, c)] == wall_byte(rows@[yy], cols@[xx], hw as int, c),
            forall|i: int| px_idx(w as int, y as int, 0, 0) <= i < len ==> #[trigger] canvas@[i] == old_c[i],
        decreases h - y,
    {
        let mut x: usize = 0;
        while x < w
            invariant
                canvas@.len() == len,
                old_c.len() == len,
                cols@.len() == w,
                rows@.len() == h,
                w * h * 4 <= len,
                hw <= 255,
                0 < w,
                y < h,
                x <= w,
                forall|y: int, x: int| 0 <= y < h && 0 <= x < w ==> wall_fits(#[trigger] rows@[y], #[trigger] cols@[x], hw as int),
                forall|yy: int, xx: int, c: int| 0 <= yy < h && 0 <= xx < w && 0 <= c < 4
                    && (yy < y || (yy == y && xx < x)) ==>
                    #[trigger] canvas@[px_idx(w as int, yy, xx, c)] == wall_byte(rows@[yy], cols@[xx], hw as int, c),
                forall|i: int| px_idx(w as int, y as int, x as int, 0) <= i < len ==> #[trigger] canvas@[i] == old_c[i],
            decreases w - x,
        {
            let px = wall_pixel(rows[y], cols[x], hw);
            assert((y * w + x) * 4 + 4 <= w * h * 4) by (nonlinear_arith)
                requires
                    y < h,
                    x < w,
            ;
            let i = (y * w + x) * 4;
            let ghost before = canvas@;
            canvas[i] = px[0];
            canvas[i + 1] = px[1];
            canvas[i + 2] = px[2];
            canvas[i + 3] = px[3];
            proof {
                assert forall|yy: int, xx: int, c: int| 0 <= yy < h && 0 <= xx < w && 0 <= c < 4
                    && (yy < y || (yy == y && xx < x + 1)) implies
                    #[trigger] canvas@[px_idx(w as int, yy, xx, c)] == wall_byte(rows@[yy], cols@[xx], hw as int, c) by {
                    lemma_px_order(w as int, yy, xx, c, y as int, x as int, 0);
                    if yy == y && xx == x {
                        assert(px_idx(w as int, yy, xx, c) == i + c);
                    }
                }
                assert forall|i2: int| px_idx(w as int, y as int, x + 1, 0) <= i2 < len implies #[trigger] canvas@[i2] == old_c[i2] by {
                    assert(px_idx(w as int, y as int, x + 1, 0) == i + 4);
                }
            }
            x = x + 1;
        }
        proof {
            assert(px_idx(w as int, y as int, w as int, 0) == px_idx(w as int, y + 1, 0, 0)) by (nonlinear_arith);
        }
        y = y + 1;
    }
    proof {
        assert(px_idx(w as int, h as int, 0, 0) == w * h * 4) by (nonlinear_arith);
    }
}


/// Point (x, y) lies in box `r`.
pub open spec fn in_rect(r: Rect, x: int, y: int) -> bool {
    r.x0 <= x < r.x1 && r.y0 <= y < r.y1
}

/// The bounding box does not depend on the order of its arguments.
pub proof fn law_bounding_commutes(a: Option<Rect>, b: Option<Rect>)
    ensures
        spec_bounding(a, b) == spec_bounding(b, a),
{
}

/// A missing box leaves the other one as it is.
pub proof fn law_bounding_identity(a: Option<Rect>)
    ensures
        spec_bounding(a, None) == a,
        spec_bounding(None, a) == a,
{
}

/// Bounding boxes can be grouped either way.
pub proof fn law_bounding_associates(a: Option<Rect>, b: Option<Rect>, c: Option<Rect>)
    ensures
        spec_bounding(spec_bounding(a, b), c) == spec_bounding(a, spec_bounding(b, c)),
{
}

/// Every point of either box lies in the bounding box.
pub proof fn law_bounding_contains(a: Rect, b: Rect, x: int, y: int)
    requires
        in_rect(a, x, y) || in_rect(b, x, y),
    ensures
        in_rect(spec_bounding(Some(a), Some(b))->0, x, y),
{
}

/// Every point of the four halo boxes lies in their union box.
pub proof fn law_union_contains_boxes(boxes: Seq<Rect>, i: int, x: int, y: int)
    requires
        boxes.len() == 4,
        0 <= i < 4,
        in_rect(boxes[i], x, y),
    ensures
        spec_union4(boxes) is Some,
        in_rect(spec_union4(boxes)->0, x, y),
{
}

/// The halo boxes never reach into the window: no pixel of the window
/// (as wide and high as it says) lies in any of the four boxes.
pub proof fn law_glow_boxes_outside_window(win: WinRectPx, radius: int, i: int, x: int, y: int)
    requires
        glow_boxes_fit(win, radius),
        0 <= i < 4,
        win.x <= x < win.spec_x1(),
        win.y <= y < win.spec_y1(),
    ensures
        !in_rect(spec_glow_boxes(win, radius)[i], x, y),
{
}

/// Each halo box shares a whole edge with the window: the top box sits on
/// the top edge, the right box on the right edge, and so on.
pub proof fn law_glow_boxes_touch_window(win: WinRectPx, radius: int)
    requires
        glow_boxes_fit(win, radius),
    ensures
        ({
            let b = spec_glow_boxes(win, radius);
            &&& b[0].y1 == win.y && b[0].x0 == win.x && b[0].x1 == win.spec_x1()
            &&& b[1].x0 == win.spec_x1() && b[1].y0 == win.y && b[1].y1 == win.spec_y1()
            &&& b[2].y0 == win.spec_y1() && b[2].x0 == win.x && b[2].x1 == win.spec_x1()
            &&& b[3].x1 == win.x && b[3].y0 == win.y && b[3].y1 == win.spec_y1()
        }),
{
}

/// The halo is one falloff around the window: it covers a pixel exactly when
/// the pixel lies off the window and closer to it than the radius — sides and
/// corners alike.
pub proof fn law_halo_covers(win: WinRectPx, radius: int, x: int, y: int)
    ensures
        ({
            let dx = edge_dist(x, win.x as int, win.spec_x1());
            let dy = edge_dist(y, win.y as int, win.spec_y1());
            let r = max_int(radius, 1);
            halo_at(win, radius, x, y) is Some <==> ((dx > 0 || dy > 0) && dx * dx + dy * dy < r * r)
        }),
{
    let dx = edge_dist(x, win.x as int, win.spec_x1());
    let dy = edge_dist(y, win.y as int, win.spec_y1());
    assert(dx >= 0 && dy >= 0);
    assert((dx == 0 && dy == 0) <==> !(dx > 0 || dy > 0));
}

/// Pixels inside the window are never painted by the halo.
pub proof fn law_halo_spares_window(win: WinRectPx, radius: int, x: int, y: int)
    requires
        win.x <= x < win.spec_x1(),
        win.y <= y < win.spec_y1(),
    ensures
        halo_at(win, radius, x, y) is None,
{
}

/// The ring position a halo pixel takes lies on the window perimeter
/// (0 .. 2w + 2h, clockwise from the top-left corner).
pub proof fn law_halo_position_on_perimeter(win: WinRectPx, radius: int, x: int, y: int)
    requires
        win.w <= i32::MAX,
        win.h <= i32::MAX,
        halo_at(win, radius, x, y) is Some,
    ensures
        ({
            let (dd, p) = halo_at(win, radius, x, y)->0;
            0 <= p <= 2 * win.w + 2 * win.h
        }),
{
    assert(win.spec_x1() == win.x + win.w);
    assert(win.spec_y1() == win.y + win.h);
}

/// The color ring runs clockwise from the window's top-left corner: a pixel
/// beside an edge (within the radius) takes the ring position of the edge
/// point next to it, and its squared distance is the square of its distance
/// to that edge. Along the top the ring runs left to right from 0, down the
/// right side from `w`, along the bottom right to left from `w + h`, and up
/// the left side from `2w + h` (its bottom end) to `2w + 2h` (its top end).
pub proof fn law_halo_ring_runs_clockwise(win: WinRectPx, radius: int, x: int, y: int)
    requires
        win.w <= i32::MAX,
        win.h <= i32::MAX,
    ensures
        ({
            let x0 = win.x as int;
            let y0 = win.y as int;
            let w = win.w as int;
            let h = win.h as int;
            let x1 = x0 + w;
            let y1 = y0 + h;
            let r = max_int(radius, 1);
            &&& (x0 <= x < x1 && y < y0 && (y0 - y) * (y0 - y) < r * r) ==>
                halo_at(win, radius, x, y) == Some(((y0 - y) * (y0 - y), x - x0))
            &&& (x > x1 && y0 <= y < y1 && (x - x1) * (x - x1) < r * r) ==>
                halo_at(win, radius, x, y) == Some(((x - x1) * (x - x1), w + (y - y0)))
            &&& (x0 <= x < x1 && y > y1 && (y - y1) * (y - y1) < r * r) ==>
                halo_at(win, radius, x, y) == Some(((y - y1) * (y - y1), w + h + (x1 - x)))
            &&& (x < x0 && y0 <= y < y1 && (x0 - x) * (x0 - x) < r * r) ==>
                halo_at(win, radius, x, y) == Some(((x0 - x) * (x0 - x), 2 * w + h + (y1 - y)))
        }),
{
    let x0 = win.x as int;
    let y0 = win.y as int;
    assert(win.spec_x1() == x0 + win.w);
    assert(win.spec_y1() == y0 + win.h);
    assert(forall|d: int| d != 0 ==> #[trigger] (d * d) > 0) by {
        assert forall|d: int| d != 0 implies #[trigger] (d * d) > 0 by {
            assert(d * d > 0) by (nonlinear_arith) requires d != 0;
        }
    }
}

} // verus!
