use vstd::prelude::*;

use crate::color::{channel, LabColor, LAB_LIMIT};

verus! {

/// Largest number of cells, `(width + 1) * (height + 1)`, that a table may hold.
pub const MAX_TABLE_CELLS: u64 = 1099511627776;

/// Per-channel sums of Lab values.
#[derive(Clone, Copy, Debug, PartialEq, Eq, Structural)]
pub struct ChannelSums {
    pub l: i64,
    pub a: i64,
    pub b: i64,
}

/// Channel `k` of a sum triple: 0 is L, 1 is a, 2 is b.
pub open spec fn sum_channel(s: ChannelSums, k: int) -> int {
    if k == 0 {
        s.l as int
    } else if k == 1 {
        s.a as int
    } else {
        s.b as int
    }
}

/// Sum of channel `k` over the pixels `x0 <= x < x1` of row `y` of a row-major
/// image of width `w`.
pub open spec fn row_sum(img: Seq<LabColor>, w: int, k: int, y: int, x0: int, x1: int) -> int
    decreases x1 - x0,
{
    if x1 <= x0 {
        0
    } else {
        row_sum(img, w, k, y, x0, x1 - 1) + channel(img[y * w + x1 - 1], k)
    }
}

/// Sum of channel `k` over the rectangle `x0 <= x < x1`, `y0 <= y < y1`.
pub open spec fn rect_sum(
    img: Seq<LabColor>,
    w: int,
    k: int,
    x0: int,
    y0: int,
    x1: int,
    y1: int,
) -> int
    decreases y1 - y0,
{
    if y1 <= y0 {
        0
    } else {
        rect_sum(img, w, k, x0, y0, x1, y1 - 1) + row_sum(img, w, k, y1 - 1, x0, x1)
    }
}

/// Every colour of the sequence is valid.
pub open spec fn all_valid(img: Seq<LabColor>) -> bool {
    forall|i: int| 0 <= i < img.len() ==> (#[trigger] img[i]).valid()
}

/// The cell for corner `(x, y)` holds the sums over the rectangle from the
/// origin up to, not including, column `x` and row `y`.
pub open spec fn cell_holds(
    cells: Seq<ChannelSums>,
    img: Seq<LabColor>,
    w: int,
    x: int,
    y: int,
) -> bool {
    let c = cells[y * (w + 1) + x];
    &&& c.l == rect_sum(img, w, 0, 0, 0, x, y)
    &&& c.a == rect_sum(img, w, 1, 0, 0, x, y)
    &&& c.b == rect_sum(img, w, 2, 0, 0, x, y)
}

/// A summed-area table: `(width + 1) * (height + 1)` cells, row-major, where the
/// cell at corner `(x, y)` holds the channel sums of all source pixels above
/// and to the left of it. Row 0 and column 0 are zero.
pub struct SummedAreaTable {
    pub width: usize,
    pub height: usize,
    pub cells: Vec<ChannelSums>,
    pub source: Ghost<Seq<LabColor>>,
}

pub proof fn lemma_mul_le(a: int, b: int, c: int, d: int)
    requires
        0 <= a <= c,
        0 <= b <= d,
    ensures
        0 <= a * b <= c * d,
{
    assert(0 <= a * b <= c * d) by (nonlinear_arith)
        requires
            0 <= a <= c,
            0 <= b <= d,
    ;
}

/// Position `y * w + x` of an in-bounds coordinate lies inside a `w * h` image.
pub proof fn lemma_index_in_bounds(w: int, h: int, x: int, y: int)
    requires
        0 <= x < w,
        0 <= y < h,
    ensures
        0 <= y * w + x < w * h,
{
    assert(0 <= y * w + x < w * h) by (nonlinear_arith)
        requires
            0 <= x < w,
            0 <= y < h,
    ;
}

pub proof fn lemma_row_sum_bound(img: Seq<LabColor>, w: int, h: int, k: int, y: int, x0: int, x1: int)
    requires
        img.len() == w * h,
        all_valid(img),
        0 <= y < h,
        0 <= x0 <= x1 <= w,
    ensures
        -LAB_LIMIT * (x1 - x0) <= row_sum(img, w, k, y, x0, x1) <= LAB_LIMIT * (x1 - x0),
    decreases x1 - x0,
{
    if x1 > x0 {
        lemma_row_sum_bound(img, w, h, k, y, x0, x1 - 1);
        lemma_index_in_bounds(w, h, x1 - 1, y);
        assert(img[y * w + x1 - 1].valid());
    }
}

pub proof fn lemma_rect_sum_bound(
    img: Seq<LabColor>,
    w: int,
    h: int,
    k: int,
    x0: int,
    y0: int,
    x1: int,
    y1: int,
)
    requires
        img.len() == w * h,
        all_valid(img),
        0 <= x0 <= x1 <= w,
        0 <= y0 <= y1 <= h,
    ensures
        -LAB_LIMIT * ((x1 - x0) * (y1 - y0)) <= rect_sum(img, w, k, x0, y0, x1, y1) <= LAB_LIMIT
            * ((x1 - x0) * (y1 - y0)),
    decreases y1 - y0,
{
    if y1 > y0 {
        lemma_rect_sum_bound(img, w, h, k, x0, y0, x1, y1 - 1);
        lemma_row_sum_bound(img, w, h, k, y1 - 1, x0, x1);
        let dx = x1 - x0;
        let dy = y1 - y0;
        assert(dx * (dy - 1) + dx == dx * dy) by (nonlinear_arith);
        assert(LAB_LIMIT * (dx * (dy - 1)) + LAB_LIMIT * dx == LAB_LIMIT * (dx * dy))
            by (nonlinear_arith);
    }
}

/// A sum over a rectangle of a table-sized image fits easily in an `i64`.
pub proof fn lemma_sum_fits(img: Seq<LabColor>, w: int, h: int, k: int, x0: int, y0: int, x1: int, y1: int)
    requires
        img.len() == w * h,
        all_valid(img),
        0 <= x0 <= x1 <= w,
        0 <= y0 <= y1 <= h,
        (w + 1) * (h + 1) <= MAX_TABLE_CELLS,
    ensures
        -0x1000_0000_0000_0000 <= rect_sum(img, w, k, x0, y0, x1, y1) <= 0x1000_0000_0000_0000,
{
    lemma_rect_sum_bound(img, w, h, k, x0, y0, x1, y1);
    lemma_mul_le(x1 - x0, y1 - y0, w + 1, h + 1);
    let n = (x1 - x0) * (y1 - y0);
    assert(LAB_LIMIT * n <= 0x1000_0000_0000_0000) by (nonlinear_arith)
        requires
            0 <= n <= MAX_TABLE_CELLS,
    ;
}

/// The table recurrence: a corner sum from its upper, left and diagonal neighbours.
proof fn lemma_recurrence(img: Seq<LabColor>, w: int, k: int, x: int, y: int)
    requires
        x >= 1,
        y >= 1,
    ensures
        rect_sum(img, w, k, 0, 0, x, y) == rect_sum(img, w, k, 0, 0, x, y - 1) + rect_sum(
            img,
            w,
            k,
            0,
            0,
            x - 1,
            y,
        ) - rect_sum(img, w, k, 0, 0, x - 1, y - 1) + channel(img[(y - 1) * w + x - 1], k),
{
}

/// The sums of an empty corner rectangle are zero.
proof fn lemma_empty_corner(img: Seq<LabColor>, w: int, k: int, x: int, y: int)
    requires
        x == 0 || y == 0,
        x >= 0,
        y >= 0,
    ensures
        rect_sum(img, w, k, 0, 0, x, y) == 0,
    decreases y,
{
    if y > 0 {
        lemma_empty_corner(img, w, k, x, y - 1);
    }
}

/// Splitting a row at `xm`.
proof fn lemma_row_split(img: Seq<LabColor>, w: int, k: int, y: int, x0: int, xm: int, x1: int)
    requires
        x0 <= xm <= x1,
    ensures
        row_sum(img, w, k, y, x0, x1) == row_sum(img, w, k, y, x0, xm) + row_sum(
            img,
            w,
            k,
            y,
            xm,
            x1,
        ),
    decreases x1 - xm,
{
    if x1 > xm {
        lemma_row_split(img, w, k, y, x0, xm, x1 - 1);
    }
}

/// Inclusion-exclusion over prefix sums, for a fixed left/right pair and a
/// growing bottom edge.
proof fn lemma_inclusion_exclusion(
    img: Seq<LabColor>,
    w: int,
    k: int,
    x0: int,
    y0: int,
    x1: int,
    y1: int,
)
    requires
        0 <= x0 <= x1,
        0 <= y0 <= y1,
    ensures
        rect_sum(img, w, k, 0, 0, x1, y1) - rect_sum(img, w, k, 0, 0, x1, y0) - rect_sum(
            img,
            w,
            k,
            0,
            0,
            x0,
            y1,
        ) + rect_sum(img, w, k, 0, 0, x0, y0) == rect_sum(img, w, k, x0, y0, x1, y1),
    decreases y1 - y0,
{
    if y1 > y0 {
        lemma_inclusion_exclusion(img, w, k, x0, y0, x1, y1 - 1);
        lemma_row_split(img, w, k, y1 - 1, 0, x0, x1);
    }
}


/// The table has room in memory: `(w + 1) * (h + 1)` cells is at most
/// `MAX_TABLE_CELLS` and fits in a `usize`.
pub open spec fn table_fits(w: int, h: int) -> bool {
    &&& 0 <= w
    &&& 0 <= h
    &&& (w + 1) * (h + 1) <= MAX_TABLE_CELLS
    &&& (w + 1) * (h + 1) <= usize::MAX
}

/// Tells whether a `width` by `height` image can have a table.
pub fn table_fits_for(width: usize, height: usize) -> (r: bool)
    ensures
        r == table_fits(width as int, height as int),
{
    if width == usize::MAX || height == usize::MAX {
        proof {
            lemma_mul_le(1, 1, width + 1, height + 1);
            assert((width + 1) * 1 <= (width + 1) * (height + 1)) by (nonlinear_arith)
                requires
                    0 <= height,
            ;
            assert(1 * (height + 1) <= (width + 1) * (height + 1)) by (nonlinear_arith)
                requires
                    0 <= width,
            ;
        }
        return false;
    }
    match (width + 1).checked_mul(height + 1) {
        Some(n) => n as u64 <= MAX_TABLE_CELLS,
        None => false,
    }
}

/// The cells of every corner `(xx, yy)` before `(x, y)` in row-major order hold.
pub open spec fn filled_before(
    cells: Seq<ChannelSums>,
    img: Seq<LabColor>,
    w: int,
    h: int,
    x: int,
    y: int,
) -> bool {
    forall|xx: int, yy: int|
        0 <= xx <= w && 0 <= yy <= h && (yy < y || (yy == y && xx < x)) ==> #[trigger] cell_holds(
            cells,
            img,
            w,
            xx,
            yy,
        )
}

/// A corner earlier in row-major order has a smaller cell index.
pub proof fn lemma_index_order(w1: int, xx: int, yy: int, x: int, y: int)
    requires
        0 <= xx < w1,
        0 <= x,
        0 <= yy,
        yy < y || (yy == y && xx < x),
    ensures
        0 <= yy * w1 + xx < y * w1 + x,
{
    if yy < y {
        assert((yy + 1) * w1 <= y * w1) by (nonlinear_arith)
            requires
                yy + 1 <= y,
                0 <= w1,
        ;
        assert((yy + 1) * w1 == yy * w1 + w1) by (nonlinear_arith);
    }
    assert(0 <= yy * w1) by (nonlinear_arith)
        requires
            0 <= yy,
            0 <= w1,
    ;
}

/// The parts of a table that fits fit in a `usize` too.
pub proof fn lemma_fits_parts(w: int, h: int)
    requires
        table_fits(w, h),
    ensures
        w + 1 <= usize::MAX,
        h + 1 <= usize::MAX,
        w * h <= usize::MAX,
        h * w <= usize::MAX,
{
    assert(w + 1 <= (w + 1) * (h + 1) && h + 1 <= (w + 1) * (h + 1) && w * h <= (w + 1) * (h + 1)
        && h * w == w * h) by (nonlinear_arith)
        requires
            0 <= w,
            0 <= h,
    ;
}

/// Bounds and recurrence of channel `k` at an inner corner `(x, y)`.
proof fn lemma_step_channel(img: Seq<LabColor>, w: int, h: int, k: int, x: int, y: int)
    requires
        img.len() == w * h,
        all_valid(img),
        1 <= x <= w,
        1 <= y <= h,
        table_fits(w, h),
    ensures
        rect_sum(img, w, k, 0, 0, x, y) == rect_sum(img, w, k, 0, 0, x, y - 1) + rect_sum(
            img,
            w,
            k,
            0,
            0,
            x - 1,
            y,
        ) - rect_sum(img, w, k, 0, 0, x - 1, y - 1) + channel(img[(y - 1) * w + x - 1], k),
        -0x1000_0000_0000_0000 <= rect_sum(img, w, k, 0, 0, x, y - 1) <= 0x1000_0000_0000_0000,
        -0x1000_0000_0000_0000 <= rect_sum(img, w, k, 0, 0, x - 1, y) <= 0x1000_0000_0000_0000,
        -0x1000_0000_0000_0000 <= rect_sum(img, w, k, 0, 0, x - 1, y - 1) <= 0x1000_0000_0000_0000,
{
    lemma_recurrence(img, w, k, x, y);
    lemma_sum_fits(img, w, h, k, 0, 0, x, y - 1);
    lemma_sum_fits(img, w, h, k, 0, 0, x - 1, y);
    lemma_sum_fits(img, w, h, k, 0, 0, x - 1, y - 1);
}

impl SummedAreaTable {
    /// The image the table was built from, row-major.
    pub open spec fn source(&self) -> Seq<LabColor> {
        self.source@
    }

    /// Channel `k` of the cell at corner `(x, y)`.
    pub open spec fn corner(&self, k: int, x: int, y: int) -> int {
        sum_channel(self.cells@[y * (self.width + 1) + x], k)
    }

    /// Channel `k` of a rectangle's sum, recovered from its four corners.
    pub open spec fn inclusion_exclusion(&self, k: int, x0: int, y0: int, x1: int, y1: int) -> int {
        self.corner(k, x1, y1) - self.corner(k, x1, y0) - self.corner(k, x0, y1) + self.corner(
            k,
            x0,
            y0,
        )
    }

    pub open spec fn wf(&self) -> bool {
        let w = self.width as int;
        let h = self.height as int;
        &&& self.source@.len() == w * h
        &&& all_valid(self.source@)
        &&& table_fits(w, h)
        &&& self.cells@.len() == (w + 1) * (h + 1)
        &&& forall|x: int, y: int|
            0 <= x <= w && 0 <= y <= h ==> #[trigger] cell_holds(self.cells@, self.source@, w, x, y)
    }

    /// Channel sums over the rectangle `x0 <= x < x1`, `y0 <= y < y1`, read
    /// from four cells.
    pub fn region_sum(&self, x0: usize, y0: usize, x1: usize, y1: usize) -> (s: ChannelSums)
        requires
            self.wf(),
            x0 <= x1 <= self.width,
            y0 <= y1 <= self.height,
        ensures
            forall|k: int|
                0 <= k < 3 ==> #[trigger] sum_channel(s, k) == rect_sum(
                    self.source(),
                    self.width as int,
                    k,
                    x0 as int,
                    y0 as int,
                    x1 as int,
                    y1 as int,
                ),
    {
        let ghost w = self.width as int;
        let ghost h = self.height as int;
        proof {
            lemma_fits_parts(w, h);
            lemma_table_rectangle_sum(self, x0 as int, y0 as int, x1 as int, y1 as int);
            lemma_index_order(w + 1, x1 as int, y1 as int, 0, h + 1);
            lemma_index_order(w + 1, x0 as int, y1 as int, 0, h + 1);
            lemma_index_order(w + 1, x1 as int, y0 as int, 0, h + 1);
            lemma_index_order(w + 1, x0 as int, y0 as int, 0, h + 1);
            assert((h + 1) * (w + 1) == (w + 1) * (h + 1)) by (nonlinear_arith);
            lemma_mul_le(y1 as int, w + 1, h + 1, w + 1);
            lemma_mul_le(y0 as int, w + 1, h + 1, w + 1);
            assert(cell_holds(self.cells@, self.source@, w, x1 as int, y1 as int));
            assert(cell_holds(self.cells@, self.source@, w, x0 as int, y1 as int));
            assert(cell_holds(self.cells@, self.source@, w, x1 as int, y0 as int));
            assert(cell_holds(self.cells@, self.source@, w, x0 as int, y0 as int));
            let img = self.source@;
            lemma_sum_fits(img, w, h, 0, 0, 0, x1 as int, y1 as int);
            lemma_sum_fits(img, w, h, 1, 0, 0, x1 as int, y1 as int);
            lemma_sum_fits(img, w, h, 2, 0, 0, x1 as int, y1 as int);
            lemma_sum_fits(img, w, h, 0, 0, 0, x1 as int, y0 as int);
            lemma_sum_fits(img, w, h, 1, 0, 0, x1 as int, y0 as int);
            lemma_sum_fits(img, w, h, 2, 0, 0, x1 as int, y0 as int);
            lemma_sum_fits(img, w, h, 0, 0, 0, x0 as int, y1 as int);
            lemma_sum_fits(img, w, h, 1, 0, 0, x0 as int, y1 as int);
            lemma_sum_fits(img, w, h, 2, 0, 0, x0 as int, y1 as int);
            lemma_sum_fits(img, w, h, 0, 0, 0, x0 as int, y0 as int);
            lemma_sum_fits(img, w, h, 1, 0, 0, x0 as int, y0 as int);
            lemma_sum_fits(img, w, h, 2, 0, 0, x0 as int, y0 as int);
        }
        let w1 = self.width + 1;
        let br = self.cells[y1 * w1 + x1];
        let tr = self.cells[y0 * w1 + x1];
        let bl = self.cells[y1 * w1 + x0];
        let tl = self.cells[y0 * w1 + x0];
        let s = ChannelSums {
            l: br.l - tr.l - bl.l + tl.l,
            a: br.a - tr.a - bl.a + tl.a,
            b: br.b - tr.b - bl.b + tl.b,
        };
        proof {
            assert forall|k: int| 0 <= k < 3 implies #[trigger] sum_channel(s, k) == rect_sum(
                self.source(),
                w,
                k,
                x0 as int,
                y0 as int,
                x1 as int,
                y1 as int,
            ) by {
                assert(self.inclusion_exclusion(k, x0 as int, y0 as int, x1 as int, y1 as int)
                    == rect_sum(self.source(), w, k, x0 as int, y0 as int, x1 as int, y1 as int));
            }
        }
        s
    }
}

/// Builds the table of a row-major `width` by `height` image with the
/// recurrence `T[y][x] = T[y-1][x] + T[y][x-1] - T[y-1][x-1] + img[y-1][x-1]`.
pub fn compute_integral_image(width: usize, height: usize, img: &Vec<LabColor>) -> (t: SummedAreaTable)
    requires
        img@.len() == width * height,
        all_valid(img@),
        table_fits(width as int, height as int),
    ensures
        t.wf(),
        t.width == width,
        t.height == height,
        t.source() == img@,
{
    let ghost w = width as int;
    let ghost h = height as int;
    proof {
        lemma_fits_parts(w, h);
    }
    let w1 = width + 1;
    let mut cells: Vec<ChannelSums> = Vec::new();
    let mut y: usize = 0;
    while y <= height
        invariant
            0 <= y <= height + 1,
            w1 == width + 1,
            img@.len() == w * h,
            w == width,
            h == height,
            all_valid(img@),
            table_fits(w, h),
            cells@.len() == y * (w + 1),
            h + 1 <= usize::MAX,
            filled_before(cells@, img@, w, h, 0, y as int),
        decreases height + 1 - y,
    {
        let mut x: usize = 0;
        proof {
            lemma_mul_le(y as int, w + 1, h + 1, w + 1);
            assert((h + 1) * (w + 1) == (w + 1) * (h + 1)) by (nonlinear_arith);
        }
        while x <= width
            invariant
                0 <= x <= width + 1,
                0 <= y <= height,
                w1 == width + 1,
                img@.len() == w * h,
                w == width,
                h == height,
                all_valid(img@),
                table_fits(w, h),
                cells@.len() == y * (w + 1) + x,
                filled_before(cells@, img@, w, h, x as int, y as int),
            decreases width + 1 - x,
        {
            let ghost old_cells = cells@;
            proof {
                lemma_mul_le(y as int, w + 1, h, w + 1);
                assert(h * (w + 1) + (w + 1) == (w + 1) * (h + 1)) by (nonlinear_arith);
            }
            let next = if x == 0 || y == 0 {
                proof {
                    lemma_empty_corner(img@, w, 0, x as int, y as int);
                    lemma_empty_corner(img@, w, 1, x as int, y as int);
                    lemma_empty_corner(img@, w, 2, x as int, y as int);
                }
                ChannelSums { l: 0, a: 0, b: 0 }
            } else {
                proof {
                    lemma_index_order(w + 1, x as int, y - 1, x as int, y as int);
                    lemma_index_order(w + 1, x - 1, y - 1, x as int, y as int);
                    lemma_index_in_bounds(w, h, x - 1, y - 1);
                    lemma_mul_le(y - 1, w, h, w);
                    lemma_fits_parts(w, h);
                    lemma_step_channel(img@, w, h, 0, x as int, y as int);
                    lemma_step_channel(img@, w, h, 1, x as int, y as int);
                    lemma_step_channel(img@, w, h, 2, x as int, y as int);
                    assert(cell_holds(cells@, img@, w, x as int, y - 1));
                    assert(cell_holds(cells@, img@, w, x - 1, y - 1));
                    assert(cell_holds(cells@, img@, w, x - 1, y as int));
                    assert(y * (w + 1) + x - 1 == cells@.len() - 1);
                }
                let top = cells[(y - 1) * w1 + x];
                let diag = cells[(y - 1) * w1 + x - 1];
                let left = cells[cells.len() - 1];
                let v = img[(y - 1) * width + x - 1];
                ChannelSums {
                    l: top.l + left.l - diag.l + v.l as i64,
                    a: top.a + left.a - diag.a + v.a as i64,
                    b: top.b + left.b - diag.b + v.b as i64,
                }
            };
            cells.push(next);
            proof {
                assert(cell_holds(cells@, img@, w, x as int, y as int));
                assert forall|xx: int, yy: int|
                    0 <= xx <= w && 0 <= yy <= h && (yy < y || (yy == y && xx < x + 1))
                        implies #[trigger] cell_holds(cells@, img@, w, xx, yy) by {
                    if yy < y || (yy == y && xx < x) {
                        lemma_index_order(w + 1, xx, yy, x as int, y as int);
                        assert(cell_holds(old_cells, img@, w, xx, yy));
                        assert(cells@[yy * (w + 1) + xx] == old_cells[yy * (w + 1) + xx]);
                    }
                }
            }
            x = x + 1;
        }
        proof {
            assert forall|xx: int, yy: int|
                0 <= xx <= w && 0 <= yy <= h && (yy < y + 1 || (yy == y + 1 && xx < 0))
                    implies #[trigger] cell_holds(cells@, img@, w, xx, yy) by {
                assert(yy < y || (yy == y && xx < x));
            }
            assert(y * (w + 1) + (w + 1) == (y + 1) * (w + 1)) by (nonlinear_arith);
        }
        y = y + 1;
    }
    proof {
        assert((h + 1) * (w + 1) == (w + 1) * (h + 1)) by (nonlinear_arith);
    }
    SummedAreaTable { width, height, cells, source: Ghost(img@) }
}

/// Inclusion-exclusion over a summed-area table: for every rectangle and every
/// channel, the four-corner combination of the table equals the plain sum of
/// the source pixels' values over that rectangle.
pub proof fn lemma_table_rectangle_sum(t: &SummedAreaTable, x0: int, y0: int, x1: int, y1: int)
    requires
        t.wf(),
        0 <= x0 <= x1 <= t.width,
        0 <= y0 <= y1 <= t.height,
    ensures
        forall|k: int|
            0 <= k < 3 ==> #[trigger] t.inclusion_exclusion(k, x0, y0, x1, y1) == rect_sum(
                t.source(),
                t.width as int,
                k,
                x0,
                y0,
                x1,
                y1,
            ),
{
    let w = t.width as int;
    assert(cell_holds(t.cells@, t.source@, w, x1, y1));
    assert(cell_holds(t.cells@, t.source@, w, x0, y1));
    assert(cell_holds(t.cells@, t.source@, w, x1, y0));
    assert(cell_holds(t.cells@, t.source@, w, x0, y0));
    assert forall|k: int| 0 <= k < 3 implies #[trigger] t.inclusion_exclusion(k, x0, y0, x1, y1)
        == rect_sum(t.source(), w, k, x0, y0, x1, y1) by {
        lemma_inclusion_exclusion(t.source(), w, k, x0, y0, x1, y1);
    }
}

} // verus!
