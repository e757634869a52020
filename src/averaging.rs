use vstd::prelude::*;

use crate::color::{channel, LabColor, LAB_LIMIT};
use crate::table::{
    lemma_index_in_bounds, lemma_rect_sum_bound, rect_sum, row_sum, sum_channel, table_fits, SummedAreaTable,
};

verus! {

/// First column (or row) of a window of `radius` around `c`, clamped at 0.
pub open spec fn window_start(c: int, radius: int) -> int {
    if c >= radius {
        c - radius
    } else {
        0
    }
}

/// One past the last column (or row) of a window of `radius` around `c`,
/// clamped at the image's extent `n`.
pub open spec fn window_end(c: int, radius: int, n: int) -> int {
    if c + radius + 1 <= n {
        c + radius + 1
    } else {
        n
    }
}

/// Division rounding toward zero.
pub open spec fn div_trunc(s: int, d: int) -> int {
    if s >= 0 {
        s / d
    } else {
        -((-s) / d)
    }
}

/// Number of pixels in the clamped window around `(x, y)`.
pub open spec fn window_pixel_count(w: int, h: int, x: int, y: int, radius: int) -> int {
    (window_end(x, radius, w) - window_start(x, radius)) * (window_end(y, radius, h)
        - window_start(y, radius))
}

/// Mean of channel `k` over the clamped window of `radius` around `(x, y)`,
/// rounded toward zero.
pub open spec fn window_average(
    img: Seq<LabColor>,
    w: int,
    h: int,
    k: int,
    x: int,
    y: int,
    radius: int,
) -> int {
    div_trunc(
        rect_sum(
            img,
            w,
            k,
            window_start(x, radius),
            window_start(y, radius),
            window_end(x, radius, w),
            window_end(y, radius, h),
        ),
        window_pixel_count(w, h, x, y, radius),
    )
}

/// The windowed mean colour, channel by channel.
pub open spec fn window_mean(img: Seq<LabColor>, w: int, h: int, x: int, y: int, radius: int) -> LabColor {
    LabColor {
        l: window_average(img, w, h, 0, x, y, radius) as i32,
        a: window_average(img, w, h, 1, x, y, radius) as i32,
        b: window_average(img, w, h, 2, x, y, radius) as i32,
    }
}

/// A half-open rectangle of pixels `x0 <= x < x1`, `y0 <= y < y1`.
#[derive(Clone, Copy, Debug, PartialEq, Eq, Structural)]
pub struct Window {
    pub x0: usize,
    pub y0: usize,
    pub x1: usize,
    pub y1: usize,
}

impl Window {
    /// Number of pixels inside the window.
    pub fn pixel_count(&self) -> (n: u64)
        requires
            self.x0 <= self.x1,
            self.y0 <= self.y1,
            (self.x1 - self.x0) * (self.y1 - self.y0) <= u64::MAX,
        ensures
            n == (self.x1 - self.x0) * (self.y1 - self.y0),
    {
        ((self.x1 - self.x0) as u64) * ((self.y1 - self.y0) as u64)
    }
}

/// The window of `radius` around `(x, y)`, clamped (not wrapped) to a
/// `width` by `height` image: it holds only in-bounds pixels.
pub fn clamped_window(x: usize, y: usize, radius: u32, width: usize, height: usize) -> (win: Window)
    requires
        x < width,
        y < height,
    ensures
        win.x0 == window_start(x as int, radius as int),
        win.y0 == window_start(y as int, radius as int),
        win.x1 == window_end(x as int, radius as int, width as int),
        win.y1 == window_end(y as int, radius as int, height as int),
        win.x0 <= x < win.x1 <= width,
        win.y0 <= y < win.y1 <= height,
{
    let r = radius as usize;
    let x0 = if x >= r {
        x - r
    } else {
        0
    };
    let y0 = if y >= r {
        y - r
    } else {
        0
    };
    let x1 = if r < width - x {
        x + r + 1
    } else {
        width
    };
    let y1 = if r < height - y {
        y + r + 1
    } else {
        height
    };
    Window { x0, y0, x1, y1 }
}

proof fn lemma_div_trunc_bound(s: int, c: int)
    requires
        c > 0,
        -LAB_LIMIT * c <= s <= LAB_LIMIT * c,
    ensures
        -LAB_LIMIT <= div_trunc(s, c) <= LAB_LIMIT,
{
    broadcast use vstd::arithmetic::div_mod::lemma_div_is_ordered,
        vstd::arithmetic::div_mod::lemma_div_multiples_vanish,
        vstd::arithmetic::div_mod::lemma_div_pos_is_pos;

    let m = LAB_LIMIT * c;
    assert(m / c == LAB_LIMIT) by {
        assert(c * (LAB_LIMIT as int) == m) by (nonlinear_arith)
            requires
                m == LAB_LIMIT * c,
        ;
    }
    assert(-LAB_LIMIT * c == -m) by (nonlinear_arith)
        requires
            m == LAB_LIMIT * c,
    ;
    if s >= 0 {
        vstd::arithmetic::div_mod::lemma_div_is_ordered(s, m, c);
    } else {
        vstd::arithmetic::div_mod::lemma_div_is_ordered(-s, m, c);
    }
}

/// Quotient rounded toward zero.
fn div_toward_zero(s: i64, c: i64) -> (q: i64)
    requires
        c > 0,
        -0x4000_0000_0000_0000 <= s <= 0x4000_0000_0000_0000,
    ensures
        q == div_trunc(s as int, c as int),
{
    if s >= 0 {
        ((s as u64) / (c as u64)) as i64
    } else {
        let m = (-s) as u64;
        -((m / (c as u64)) as i64)
    }
}

impl SummedAreaTable {
    /// Mean Lab value over the window of `radius` around `(x, y)`, clamped to
    /// the image: the window's sums come from the table in constant time and
    /// are divided by the number of pixels the clamped window holds.
    pub fn windowed_average(&self, x: usize, y: usize, radius: u32) -> (avg: LabColor)
        requires
            self.wf(),
            x < self.width,
            y < self.height,
        ensures
            forall|k: int|
                0 <= k < 3 ==> #[trigger] channel(avg, k) == window_average(
                    self.source(),
                    self.width as int,
                    self.height as int,
                    k,
                    x as int,
                    y as int,
                    radius as int,
                ),
            avg == window_mean(
                self.source(),
                self.width as int,
                self.height as int,
                x as int,
                y as int,
                radius as int,
            ),
            avg.valid(),
    {
        let ghost w = self.width as int;
        let ghost h = self.height as int;
        let win = clamped_window(x, y, radius, self.width, self.height);
        let s = self.region_sum(win.x0, win.y0, win.x1, win.y1);
        let ghost cnt = (win.x1 - win.x0) * (win.y1 - win.y0);
        proof {
            assert(0 < cnt <= (w + 1) * (h + 1)) by (nonlinear_arith)
                requires
                    cnt == (win.x1 - win.x0) * (win.y1 - win.y0),
                    0 < win.x1 - win.x0 <= w + 1,
                    0 < win.y1 - win.y0 <= h + 1,
            ;
            assert(table_fits(w, h));
            assert(LAB_LIMIT * cnt <= 0x4000_0000_0000_0000) by (nonlinear_arith)
                requires
                    0 < cnt <= 1099511627776,
            ;
            assert forall|k: int| 0 <= k < 3 implies -LAB_LIMIT * cnt <= #[trigger] rect_sum(
                self.source(),
                w,
                k,
                win.x0 as int,
                win.y0 as int,
                win.x1 as int,
                win.y1 as int,
            ) <= LAB_LIMIT * cnt by {
                lemma_rect_sum_bound(
                    self.source(),
                    w,
                    h,
                    k,
                    win.x0 as int,
                    win.y0 as int,
                    win.x1 as int,
                    win.y1 as int,
                );
            }
            assert(sum_channel(s, 0) == s.l);
            assert(sum_channel(s, 1) == s.a);
            assert(sum_channel(s, 2) == s.b);
        }
        let c = win.pixel_count() as i64;
        let l = div_toward_zero(s.l, c);
        let a = div_toward_zero(s.a, c);
        let b = div_toward_zero(s.b, c);
        proof {
            lemma_div_trunc_bound(s.l as int, c as int);
            lemma_div_trunc_bound(s.a as int, c as int);
            lemma_div_trunc_bound(s.b as int, c as int);
        }
        let avg = LabColor { l: l as i32, a: a as i32, b: b as i32 };
        avg
    }
}

/// With a radius of zero the window is the pixel itself, and the average is
/// exactly that pixel's value.
pub proof fn lemma_zero_radius_identity(img: Seq<LabColor>, w: int, h: int, x: int, y: int)
    requires
        img.len() == w * h,
        0 <= x < w,
        0 <= y < h,
    ensures
        forall|k: int|
            0 <= k < 3 ==> #[trigger] window_average(img, w, h, k, x, y, 0) == channel(
                img[y * w + x],
                k,
            ),
{
    lemma_index_in_bounds(w, h, x, y);
    assert forall|k: int| 0 <= k < 3 implies #[trigger] window_average(img, w, h, k, x, y, 0)
        == channel(img[y * w + x], k) by {
        assert(rect_sum(img, w, k, x, y, x + 1, y) == 0);
        assert(row_sum(img, w, k, y, x, x) == 0);
        assert(row_sum(img, w, k, y, x, x + 1) == channel(img[y * w + x + 1 - 1], k));
        assert(window_start(x, 0) == x && window_end(x, 0, w) == x + 1);
        assert(window_start(y, 0) == y && window_end(y, 0, h) == y + 1);
        assert(window_pixel_count(w, h, x, y, 0) == 1) by (nonlinear_arith)
            requires
                window_pixel_count(w, h, x, y, 0) == ((x + 1) - x) * ((y + 1) - y),
        ;
    }
}

} // verus!
