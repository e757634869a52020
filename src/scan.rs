use vstd::prelude::*;

use crate::color::{channel, LabColor, LAB_LIMIT};
use crate::table::{
    all_valid, cell_holds, lemma_fits_parts, lemma_index_in_bounds, lemma_index_order,
    lemma_rect_sum_bound, lemma_row_sum_bound, lemma_mul_le, rect_sum, row_sum, sum_channel,
    table_fits, ChannelSums, SummedAreaTable,
};

verus! {

/// Sum of channel `k` over the first `c` entries of row `r` of a grid whose
/// rows are `n` wide.
pub open spec fn prefix(g: Seq<ChannelSums>, n: int, k: int, r: int, c: int) -> int
    decreases c,
{
    if c <= 0 {
        0
    } else {
        prefix(g, n, k, r, c - 1) + sum_channel(g[r * n + c - 1], k)
    }
}

/// Every running sum of every row fits comfortably in an `i64`.
pub open spec fn prefixes_fit(g: Seq<ChannelSums>, n: int, m: int) -> bool {
    forall|k: int, r: int, c: int|
        0 <= k < 3 && 0 <= r < m && 0 <= c <= n ==> -0x1000_0000_0000_0000 <= #[trigger] prefix(
            g,
            n,
            k,
            r,
            c,
        ) <= 0x1000_0000_0000_0000
}

/// Entry `(r, c)` of the scanned grid holds the inclusive prefix of its row.
pub open spec fn scanned_holds(out: Seq<ChannelSums>, g: Seq<ChannelSums>, n: int, r: int, c: int) -> bool {
    let e = out[r * n + c];
    &&& e.l == prefix(g, n, 0, r, c + 1)
    &&& e.a == prefix(g, n, 1, r, c + 1)
    &&& e.b == prefix(g, n, 2, r, c + 1)
}

/// Inclusive prefix sums along each row of an `m`-row grid `n` wide: the
/// running sums of different rows are independent of each other.
pub fn scan_rows(g: &Vec<ChannelSums>, n: usize, m: usize) -> (out: Vec<ChannelSums>)
    requires
        g@.len() == n * m,
        n * m <= usize::MAX,
        prefixes_fit(g@, n as int, m as int),
    ensures
        out@.len() == n * m,
        forall|r: int, c: int|
            0 <= r < m && 0 <= c < n ==> #[trigger] scanned_holds(out@, g@, n as int, r, c),
{
    let mut out: Vec<ChannelSums> = Vec::new();
    let mut r: usize = 0;
    while r < m
        invariant
            g@.len() == n * m,
            n * m <= usize::MAX,
            prefixes_fit(g@, n as int, m as int),
            0 <= r <= m,
            out@.len() == r * n,
            forall|rr: int, cc: int|
                0 <= cc < n && 0 <= rr < r ==> #[trigger] scanned_holds(
                    out@,
                    g@,
                    n as int,
                    rr,
                    cc,
                ),
        decreases m - r,
    {
        let mut c: usize = 0;
        while c < n
            invariant
                g@.len() == n * m,
                n * m <= usize::MAX,
                prefixes_fit(g@, n as int, m as int),
                0 <= r < m,
                0 <= c <= n,
                out@.len() == r * n + c,
                forall|rr: int, cc: int|
                    0 <= cc < n && 0 <= rr <= r && (rr < r || cc < c) ==> #[trigger] scanned_holds(
                        out@,
                        g@,
                        n as int,
                        rr,
                        cc,
                    ),
            decreases n - c,
        {
            proof {
                lemma_index_in_bounds(n as int, m as int, c as int, r as int);
                assert((r * n) as int == r * n);
            }
            let v = g[r * n + c];
            let ghost old_out = out@;
            let next = if c == 0 {
                proof {
                    assert(prefix(g@, n as int, 0, r as int, 0) == 0);
                    assert(prefix(g@, n as int, 1, r as int, 0) == 0);
                    assert(prefix(g@, n as int, 2, r as int, 0) == 0);
                }
                v
            } else {
                let prev = out[out.len() - 1];
                proof {
                    assert(scanned_holds(out@, g@, n as int, r as int, c - 1));
                    assert(r * n + c - 1 == out@.len() - 1);
                    assert(-0x1000_0000_0000_0000 <= prefix(g@, n as int, 0, r as int, c + 1)
                        <= 0x1000_0000_0000_0000);
                    assert(-0x1000_0000_0000_0000 <= prefix(g@, n as int, 1, r as int, c + 1)
                        <= 0x1000_0000_0000_0000);
                    assert(-0x1000_0000_0000_0000 <= prefix(g@, n as int, 2, r as int, c + 1)
                        <= 0x1000_0000_0000_0000);
                    assert(-0x1000_0000_0000_0000 <= prefix(g@, n as int, 0, r as int, c as int)
                        <= 0x1000_0000_0000_0000);
                    assert(-0x1000_0000_0000_0000 <= prefix(g@, n as int, 1, r as int, c as int)
                        <= 0x1000_0000_0000_0000);
                    assert(-0x1000_0000_0000_0000 <= prefix(g@, n as int, 2, r as int, c as int)
                        <= 0x1000_0000_0000_0000);
                }
                ChannelSums { l: prev.l + v.l, a: prev.a + v.a, b: prev.b + v.b }
            };
            out.push(next);
            proof {
                assert(scanned_holds(out@, g@, n as int, r as int, c as int));
                assert forall|rr: int, cc: int|
                    0 <= cc < n && 0 <= rr <= r && (rr < r || cc < c + 1) implies #[trigger] scanned_holds(
                        out@,
                        g@,
                        n as int,
                        rr,
                        cc,
                    ) by {
                    if rr < r || cc < c {
                        lemma_index_order(n as int, cc, rr, c as int, r as int);
                        assert(scanned_holds(old_out, g@, n as int, rr, cc));
                        assert(out@[rr * n + cc] == old_out[rr * n + cc]);
                    }
                }
            }
            c = c + 1;
        }
        proof {
            assert(r * n + n == (r + 1) * n) by (nonlinear_arith);
        }
        r = r + 1;
    }
    proof {
        assert(m * n == n * m) by (nonlinear_arith);
    }
    out
}

/// The grid turned so that column `c` of the `m`-row grid `n` wide becomes
/// row `c` of the result: `out[c * m + r] == g[r * n + c]`.
pub fn transpose(g: &Vec<ChannelSums>, n: usize, m: usize) -> (out: Vec<ChannelSums>)
    requires
        g@.len() == n * m,
        n * m <= usize::MAX,
    ensures
        out@.len() == n * m,
        forall|r: int, c: int|
            0 <= r < m && 0 <= c < n ==> #[trigger] out@[c * m + r] == g@[r * n + c],
{
    let mut out: Vec<ChannelSums> = Vec::new();
    let mut c: usize = 0;
    proof {
        assert(m * n == n * m) by (nonlinear_arith);
    }
    while c < n
        invariant
            g@.len() == n * m,
            n * m <= usize::MAX,
            m * n == n * m,
            0 <= c <= n,
            out@.len() == c * m,
            forall|r: int, cc: int|
                0 <= r < m && 0 <= cc < c ==> #[trigger] out@[cc * m + r] == g@[r * n + cc],
        decreases n - c,
    {
        let mut r: usize = 0;
        while r < m
            invariant
                g@.len() == n * m,
                n * m <= usize::MAX,
                m * n == n * m,
                0 <= c < n,
                0 <= r <= m,
                out@.len() == c * m + r,
                forall|rr: int, cc: int|
                    0 <= rr < m && 0 <= cc <= c && (cc < c || rr < r) ==> #[trigger] out@[cc * m
                        + rr] == g@[rr * n + cc],
            decreases m - r,
        {
            proof {
                lemma_index_in_bounds(n as int, m as int, c as int, r as int);
            }
            let ghost old_out = out@;
            out.push(g[r * n + c]);
            proof {
                assert forall|rr: int, cc: int|
                    0 <= rr < m && 0 <= cc <= c && (cc < c || rr < r + 1) implies #[trigger] out@[cc
                        * m + rr] == g@[rr * n + cc] by {
                    if cc < c || rr < r {
                        lemma_index_order(m as int, rr, cc, r as int, c as int);
                        assert(out@[cc * m + rr] == old_out[cc * m + rr]);
                    } else {
                        assert(cc * m + rr == old_out.len());
                    }
                }
            }
            r = r + 1;
        }
        proof {
            assert(c * m + m == (c + 1) * m) by (nonlinear_arith);
        }
        c = c + 1;
    }
    out
}

/// Entry `(x, y)` holds the sums over the inclusive rectangle from the origin
/// to `(x, y)`.
pub open spec fn inclusive_holds(out: Seq<ChannelSums>, img: Seq<LabColor>, w: int, x: int, y: int) -> bool {
    let e = out[y * w + x];
    &&& e.l == rect_sum(img, w, 0, 0, 0, x + 1, y + 1)
    &&& e.a == rect_sum(img, w, 1, 0, 0, x + 1, y + 1)
    &&& e.b == rect_sum(img, w, 2, 0, 0, x + 1, y + 1)
}

/// Each colour as a triple of sums.
pub open spec fn lifted(img: Seq<LabColor>) -> Seq<ChannelSums> {
    Seq::new(
        img.len(),
        |i: int| ChannelSums { l: img[i].l as i64, a: img[i].a as i64, b: img[i].b as i64 },
    )
}

proof fn lemma_prefix_of_lifted(img: Seq<LabColor>, w: int, k: int, y: int, c: int)
    requires
        0 <= k < 3,
        0 <= c <= w,
        0 <= y,
        y * w + w <= img.len(),
    ensures
        prefix(lifted(img), w, k, y, c) == row_sum(img, w, k, y, 0, c),
    decreases c,
{
    if c > 0 {
        lemma_prefix_of_lifted(img, w, k, y, c - 1);
        assert(sum_channel(lifted(img)[y * w + c - 1], k) == channel(img[y * w + c - 1], k));
    }
}

proof fn lemma_prefix_of_turned(
    img: Seq<LabColor>,
    a: Seq<ChannelSums>,
    b: Seq<ChannelSums>,
    w: int,
    h: int,
    k: int,
    x: int,
    c: int,
)
    requires
        0 <= k < 3,
        0 <= x < w,
        0 <= c <= h,
        forall|r: int, cc: int|
            0 <= r < h && 0 <= cc < w ==> #[trigger] scanned_holds(a, lifted(img), w, r, cc),
        forall|r: int, cc: int| 0 <= r < h && 0 <= cc < w ==> #[trigger] b[cc * h + r] == a[r * w + cc],
        img.len() == w * h,
    ensures
        prefix(b, h, k, x, c) == rect_sum(img, w, k, 0, 0, x + 1, c),
    decreases c,
{
    if c > 0 {
        lemma_prefix_of_turned(img, a, b, w, h, k, x, c - 1);
        assert(b[x * h + c - 1] == a[(c - 1) * w + x]);
        assert(scanned_holds(a, lifted(img), w, c - 1, x));
        lemma_index_in_bounds(w, h, w - 1, c - 1);
        lemma_prefix_of_lifted(img, w, k, c - 1, x + 1);
    }
}

/// The summed-area sums built from two parallel passes instead of the
/// sequential recurrence: an inclusive prefix scan along every row, a
/// transpose, a scan along every former column, and a transpose back. No
/// running sum depends on another row's, so each scan can run row by row in
/// parallel. Entry `(x, y)` holds the sums over the rectangle from the origin
/// to `(x, y)` inclusive.
pub fn separable_integral_image(width: usize, height: usize, img: &Vec<LabColor>) -> (out: Vec<
    ChannelSums,
>)
    requires
        img@.len() == width * height,
        all_valid(img@),
        table_fits(width as int, height as int),
    ensures
        out@.len() == width * height,
        forall|x: int, y: int|
            0 <= x < width && 0 <= y < height ==> #[trigger] inclusive_holds(
                out@,
                img@,
                width as int,
                x,
                y,
            ),
{
    let ghost w = width as int;
    let ghost h = height as int;
    proof {
        lemma_fits_parts(w, h);
    }
    let mut g: Vec<ChannelSums> = Vec::new();
    let mut i: usize = 0;
    while i < img.len()
        invariant
            0 <= i <= img@.len(),
            g@ == lifted(img@).subrange(0, i as int),
        decreases img@.len() - i,
    {
        let c = img[i];
        g.push(ChannelSums { l: c.l as i64, a: c.a as i64, b: c.b as i64 });
        proof {
            assert(g@ =~= lifted(img@).subrange(0, i + 1));
        }
        i = i + 1;
    }
    proof {
        assert(g@ =~= lifted(img@));
        assert forall|k: int, r: int, c: int| 0 <= k < 3 && 0 <= r < h && 0 <= c <= w implies
            -0x1000_0000_0000_0000 <= #[trigger] prefix(g@, w, k, r, c) <= 0x1000_0000_0000_0000 by {
            if w > 0 {
                lemma_index_in_bounds(w, h, w - 1, r);
            }
            lemma_prefix_of_lifted(img@, w, k, r, c);
            lemma_row_sum_bound(img@, w, h, k, r, 0, c);
            assert(w + 1 <= (w + 1) * (h + 1)) by (nonlinear_arith)
                requires
                    0 <= w,
                    0 <= h,
            ;
            assert(-LAB_LIMIT * c >= -0x1000_0000_0000_0000 && LAB_LIMIT * c
                <= 0x1000_0000_0000_0000) by (nonlinear_arith)
                requires
                    0 <= c <= 1099511627776,
            ;
        }
    }
    let rows = scan_rows(&g, width, height);
    let turned = transpose(&rows, width, height);
    proof {
        assert(height * width == width * height) by (nonlinear_arith);
        assert forall|k: int, r: int, c: int| 0 <= k < 3 && 0 <= r < w && 0 <= c <= h implies
            -0x1000_0000_0000_0000 <= #[trigger] prefix(turned@, h, k, r, c) <= 0x1000_0000_0000_0000 by {
            lemma_prefix_of_turned(img@, rows@, turned@, w, h, k, r, c);
            crate::table::lemma_sum_fits(img@, w, h, k, 0, 0, r + 1, c);
        }
    }
    let cols = scan_rows(&turned, height, width);
    let out = transpose(&cols, height, width);
    proof {
        assert forall|x: int, y: int| 0 <= x < w && 0 <= y < h implies #[trigger] inclusive_holds(
            out@,
            img@,
            w,
            x,
            y,
        ) by {
            lemma_index_in_bounds(w, h, x, y);
            lemma_index_in_bounds(h, w, y, x);
            assert(out@[y * w + x] == cols@[x * h + y]);
            assert(scanned_holds(cols@, turned@, h, x, y));
            lemma_prefix_of_turned(img@, rows@, turned@, w, h, 0, x, y + 1);
            lemma_prefix_of_turned(img@, rows@, turned@, w, h, 1, x, y + 1);
            lemma_prefix_of_turned(img@, rows@, turned@, w, h, 2, x, y + 1);
        }
    }
    out
}

/// The separable scans and the sequential recurrence agree: for every pixel
/// and channel, the inclusive prefix sum of the scanned grid equals the
/// summed-area table's cell one step down and to the right.
pub proof fn lemma_scan_agrees_with_table(t: &SummedAreaTable, scanned: Seq<ChannelSums>)
    requires
        t.wf(),
        scanned.len() == t.width * t.height,
        forall|x: int, y: int|
            0 <= x < t.width && 0 <= y < t.height ==> #[trigger] inclusive_holds(
                scanned,
                t.source(),
                t.width as int,
                x,
                y,
            ),
    ensures
        forall|k: int, x: int, y: int|
            0 <= k < 3 && 0 <= x < t.width && 0 <= y < t.height ==> sum_channel(
                #[trigger] scanned[y * t.width + x],
                k,
            ) == #[trigger] t.corner(k, x + 1, y + 1),
{
    let w = t.width as int;
    assert forall|k: int, x: int, y: int|
        0 <= k < 3 && 0 <= x < t.width && 0 <= y < t.height implies sum_channel(
        #[trigger] scanned[y * t.width + x],
        k,
    ) == #[trigger] t.corner(k, x + 1, y + 1) by {
        assert(inclusive_holds(scanned, t.source(), w, x, y));
        assert(cell_holds(t.cells@, t.source@, w, x + 1, y + 1));
    }
}

} // verus!
