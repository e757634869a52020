use vstd::prelude::*;

use crate::averaging::div_trunc;
use crate::color::{LabColor, LAB_LIMIT};
use crate::table::all_valid;

verus! {

/// `a + (b - a) * num / den`, the step rounded toward zero.
pub open spec fn lerp_channel(a: int, b: int, num: int, den: int) -> int {
    a + div_trunc((b - a) * num, den)
}

/// The colour at fraction `num / den` of the way from `c1` to `c2`.
pub open spec fn lerp_color(c1: LabColor, c2: LabColor, num: int, den: int) -> LabColor {
    LabColor {
        l: lerp_channel(c1.l as int, c2.l as int, num, den) as i32,
        a: lerp_channel(c1.a as int, c2.a as int, num, den) as i32,
        b: lerp_channel(c1.b as int, c2.b as int, num, den) as i32,
    }
}

proof fn lemma_lerp_between(a: int, b: int, num: int, den: int)
    requires
        0 <= num <= den,
        den > 0,
    ensures
        a <= b ==> a <= lerp_channel(a, b, num, den) <= b,
        b <= a ==> b <= lerp_channel(a, b, num, den) <= a,
{
    broadcast use vstd::arithmetic::div_mod::lemma_div_pos_is_pos;

    let m = if b >= a {
        b - a
    } else {
        a - b
    };
    let p = m * num;
    assert(0 <= p <= m * den) by (nonlinear_arith)
        requires
            0 <= m,
            0 <= num <= den,
            p == m * num,
    ;
    vstd::arithmetic::div_mod::lemma_div_is_ordered(p, m * den, den);
    vstd::arithmetic::div_mod::lemma_div_multiples_vanish(m, den);
    assert(den * m == m * den) by (nonlinear_arith);
    if b >= a {
        assert((b - a) * num == p);
    } else {
        assert((b - a) * num == -p) by (nonlinear_arith)
            requires
                m == a - b,
                p == m * num,
        ;
        if p != 0 {
            assert(div_trunc(-p, den) == -(p / den));
        }
    }
}

fn lerp_step(a: i32, b: i32, num: u64, den: u64) -> (r: i32)
    requires
        -LAB_LIMIT <= a <= LAB_LIMIT,
        -LAB_LIMIT <= b <= LAB_LIMIT,
        num <= den,
        0 < den <= 0x1_0000_0000,
    ensures
        r == lerp_channel(a as int, b as int, num as int, den as int),
{
    proof {
        lemma_lerp_between(a as int, b as int, num as int, den as int);
        assert(-0x400000 * 0x1_0000_0000 <= (b - a) * num <= 0x400000 * 0x1_0000_0000)
            by (nonlinear_arith)
            requires
                -LAB_LIMIT <= a <= LAB_LIMIT,
                -LAB_LIMIT <= b <= LAB_LIMIT,
                num <= den <= 0x1_0000_0000,
        ;
    }
    let n: i64 = (b as i64 - a as i64) * (num as i64);
    let q: i64 = if n >= 0 {
        ((n as u64) / den) as i64
    } else {
        -((((-n) as u64) / den) as i64)
    };
    (a as i64 + q) as i32
}

/// The colour at fraction `num / den` of the way from `color1` to `color2`.
/// It lies between the two, so it is valid when they are.
pub fn interpolate_color(color1: &LabColor, color2: &LabColor, num: u64, den: u64) -> (c: LabColor)
    requires
        color1.valid(),
        color2.valid(),
        num <= den,
        0 < den <= 0x1_0000_0000,
    ensures
        c == lerp_color(*color1, *color2, num as int, den as int),
        c.valid(),
{
    proof {
        lemma_lerp_between(color1.l as int, color2.l as int, num as int, den as int);
        lemma_lerp_between(color1.a as int, color2.a as int, num as int, den as int);
        lemma_lerp_between(color1.b as int, color2.b as int, num as int, den as int);
    }
    LabColor {
        l: lerp_step(color1.l, color2.l, num, den),
        a: lerp_step(color1.a, color2.a, num, den),
        b: lerp_step(color1.b, color2.b, num, den),
    }
}

/// Number of equal segments between two neighbours `distance` apart: one when
/// they are within `threshold`, else `ceil(distance / threshold)`.
pub open spec fn segment_count(distance: int, threshold: int) -> int {
    if distance > threshold {
        (distance + threshold - 1) / threshold
    } else {
        1
    }
}

/// `c1` followed by the colours that split the way to `c2` into `n` equal
/// segments (nothing more when `n` is 1).
pub open spec fn segment(c1: LabColor, c2: LabColor, n: int) -> Seq<LabColor> {
    Seq::new(n as nat, |i: int| if i == 0 { c1 } else { lerp_color(c1, c2, i, n) })
}

/// The segments of the first `k` neighbour pairs, one after the other.
pub open spec fn segments(colors: Seq<LabColor>, distances: Seq<u64>, threshold: int, k: int) -> Seq<
    LabColor,
>
    decreases k,
{
    if k <= 0 {
        Seq::<LabColor>::empty()
    } else {
        segments(colors, distances, threshold, k - 1) + segment(
            colors[k - 1],
            colors[k],
            segment_count(distances[k - 1] as int, threshold),
        )
    }
}

/// A palette with intermediate colours inserted wherever neighbours lie more
/// than `threshold` apart.
pub open spec fn interpolated(colors: Seq<LabColor>, distances: Seq<u64>, threshold: int) -> Seq<
    LabColor,
> {
    segments(colors, distances, threshold, colors.len() - 1).push(colors.last())
}

/// Fills the gaps of a palette in the order given: between neighbours whose
/// perceptual distance `distances[i]` (from `colors[i]` to `colors[i + 1]`)
/// exceeds `threshold`, evenly spaced intermediate colours are inserted, so
/// that no step is longer than the threshold.
fn fill_gaps(colors: &Vec<LabColor>, distances: &Vec<u64>, threshold: u64) -> (r: Vec<
    LabColor,
>)
    requires
        colors@.len() >= 1,
        distances@.len() == colors@.len() - 1,
        all_valid(colors@),
        0 < threshold,
        forall|i: int|
            0 <= i < distances@.len() ==> segment_count(#[trigger] distances@[i] as int, threshold as int)
                <= 0x1_0000_0000,
    ensures
        r@ == interpolated(colors@, distances@, threshold as int),
        all_valid(r@),
{
    let mut out: Vec<LabColor> = Vec::new();
    let mut k: usize = 0;
    while k < colors.len() - 1
        invariant
            colors@.len() >= 1,
            distances@.len() == colors@.len() - 1,
            all_valid(colors@),
            0 < threshold,
            forall|i: int|
                0 <= i < distances@.len() ==> segment_count(
                    #[trigger] distances@[i] as int,
                    threshold as int,
                ) <= 0x1_0000_0000,
            0 <= k < colors@.len(),
            out@ == segments(colors@, distances@, threshold as int, k as int),
            all_valid(out@),
        decreases colors@.len() - k,
    {
        let c1 = colors[k];
        let c2 = colors[k + 1];
        let d = distances[k];
        let n: u64 = if d > threshold {
            ((d as u128 + threshold as u128 - 1) / threshold as u128) as u64
        } else {
            1
        };
        proof {
            if d > threshold {
                vstd::arithmetic::div_mod::lemma_div_is_ordered(
                    threshold as int,
                    d + threshold - 1,
                    threshold as int,
                );
                vstd::arithmetic::div_mod::lemma_div_multiples_vanish(1, threshold as int);
            }
            assert(segment_count(distances@[k as int] as int, threshold as int) == n);
            assert(n >= 1);
            assert(c1.valid() && c2.valid());
        }
        let ghost base = out@;
        out.push(c1);
        proof {
            assert(segment(c1, c2, n as int)[0] == c1);
            assert(out@ =~= base + segment(c1, c2, n as int).subrange(0, 1));
        }
        let mut i: u64 = 1;
        while i < n
            invariant
                1 <= i <= n,
                n <= 0x1_0000_0000,
                c1.valid(),
                c2.valid(),
                out@ == base + segment(c1, c2, n as int).subrange(0, i as int),
                all_valid(out@),
            decreases n - i,
        {
            let c = interpolate_color(&c1, &c2, i, n);
            proof {
                assert(segment(c1, c2, n as int)[i as int] == c);
                assert(base + segment(c1, c2, n as int).subrange(0, i + 1) =~= (base + segment(
                    c1,
                    c2,
                    n as int,
                ).subrange(0, i as int)).push(c));
            }
            out.push(c);
            i = i + 1;
        }
        proof {
            assert(segment(c1, c2, n as int).subrange(0, n as int) =~= segment(c1, c2, n as int));
            if n == 1 {
                assert(base + segment(c1, c2, 1).subrange(0, 1) =~= base.push(c1));
            }
        }
        k = k + 1;
    }
    out.push(colors[colors.len() - 1]);
    out
}

/// Index `i` comes before index `j` in lightness order: the darker first,
/// and on equal lightness the one given first.
pub open spec fn comes_before(colors: Seq<LabColor>, i: int, j: int) -> bool {
    colors[i].l < colors[j].l || (colors[i].l == colors[j].l && i < j)
}

/// `order` lists every index of `colors` once, darkest first, colours of
/// equal lightness in their given order (a stable sort by lightness).
pub open spec fn is_lightness_order(colors: Seq<LabColor>, order: Seq<usize>) -> bool {
    &&& order.len() == colors.len()
    &&& forall|a: int| 0 <= a < order.len() ==> #[trigger] order[a] < colors.len()
    &&& forall|j: usize| j < colors.len() ==> #[trigger] order.contains(j)
    &&& forall|a: int, b: int|
        0 <= a < b < order.len() ==> comes_before(colors, #[trigger] order[a] as int, #[trigger] order[b] as int)
}

proof fn lemma_orders_agree_below(colors: Seq<LabColor>, o1: Seq<usize>, o2: Seq<usize>, a: int)
    requires
        is_lightness_order(colors, o1),
        is_lightness_order(colors, o2),
        0 <= a <= o1.len(),
    ensures
        forall|b: int| 0 <= b < a ==> o1[b] == o2[b],
    decreases a,
{
    if a > 0 {
        lemma_orders_agree_below(colors, o1, o2, a - 1);
        let m = a - 1;
        let x = o1[m];
        let y = o2[m];
        if x != y {
            assert(o2.contains(x));
            let c = choose|c: int| 0 <= c < o2.len() && o2[c] == x;
            assert(o1.contains(y));
            let d = choose|d: int| 0 <= d < o1.len() && o1[d] == y;
            if c < m {
                assert(o1[c] == x);
                assert(comes_before(colors, o1[c] as int, o1[m] as int));
            }
            if d < m {
                assert(o2[d] == y);
                assert(comes_before(colors, o2[d] as int, o2[m] as int));
            }
            assert(comes_before(colors, o2[m] as int, o2[c] as int));
            assert(comes_before(colors, o1[m] as int, o1[d] as int));
        }
    }
}

/// There is only one lightness order of a palette: a stable sort by L has a
/// single outcome.
pub proof fn lemma_lightness_order_unique(colors: Seq<LabColor>, o1: Seq<usize>, o2: Seq<usize>)
    requires
        is_lightness_order(colors, o1),
        is_lightness_order(colors, o2),
    ensures
        o1 == o2,
{
    lemma_orders_agree_below(colors, o1, o2, o1.len() as int);
    assert(o1 =~= o2);
}

/// The colours taken in `order`.
pub open spec fn arranged(colors: Seq<LabColor>, order: Seq<usize>) -> Seq<LabColor> {
    order.map_values(|i: usize| colors[i as int])
}

/// Distances between neighbours of `order`, read from the table `d`.
pub open spec fn neighbour_distances(d: Seq<Vec<u64>>, order: Seq<usize>) -> Seq<u64> {
    Seq::new((order.len() - 1) as nat, |i: int| d[order[i] as int]@[order[i + 1] as int])
}

/// The indices of `colors` in lightness order: a stable insertion sort by L.
pub fn lightness_order(colors: &Vec<LabColor>) -> (order: Vec<usize>)
    ensures
        is_lightness_order(colors@, order@),
{
    let n = colors.len();
    let mut order: Vec<usize> = Vec::new();
    let mut k: usize = 0;
    while k < n
        invariant
            n == colors@.len(),
            0 <= k <= n,
            order@.len() == k,
            forall|a: int| 0 <= a < order@.len() ==> #[trigger] order@[a] < k,
            forall|j: usize| j < k ==> #[trigger] order@.contains(j),
            forall|a: int, b: int|
                0 <= a < b < order@.len() ==> comes_before(
                    colors@,
                    #[trigger] order@[a] as int,
                    #[trigger] order@[b] as int,
                ),
        decreases n - k,
    {
        let lk = colors[k].l;
        let mut p = order.len();
        while p > 0 && colors[order[p - 1]].l > lk
            invariant
                n == colors@.len(),
                k < n,
                lk == colors@[k as int].l,
                order@.len() == k,
                0 <= p <= k,
                forall|a: int| 0 <= a < order@.len() ==> #[trigger] order@[a] < k,
                forall|a: int| p <= a < k ==> colors@[#[trigger] order@[a] as int].l > lk,
            decreases p,
        {
            p = p - 1;
        }
        let ghost old_order = order@;
        proof {
            assert forall|a: int| 0 <= a < p implies comes_before(
                colors@,
                #[trigger] old_order[a] as int,
                k as int,
            ) by {
                if a < p - 1 {
                    assert(comes_before(colors@, old_order[a] as int, old_order[p - 1] as int));
                }
            }
        }
        order.insert(p, k);
        proof {
            assert forall|a: int| 0 <= a < order@.len() implies #[trigger] order@[a] < k + 1 by {
                if a > p {
                    assert(order@[a] == old_order[a - 1]);
                } else if a < p {
                    assert(order@[a] == old_order[a]);
                }
            }
            assert forall|j: usize| j < k + 1 implies #[trigger] order@.contains(j) by {
                if j == k {
                    assert(order@[p as int] == k);
                } else {
                    assert(old_order.contains(j));
                    let a = choose|a: int| 0 <= a < old_order.len() && old_order[a] == j;
                    if a < p {
                        assert(order@[a] == j);
                    } else {
                        assert(order@[a + 1] == j);
                    }
                }
            }
            assert forall|a: int, b: int| 0 <= a < b < order@.len() implies comes_before(
                colors@,
                #[trigger] order@[a] as int,
                #[trigger] order@[b] as int,
            ) by {
                let oa = if a < p {
                    a
                } else {
                    a - 1
                };
                let ob = if b < p {
                    b
                } else {
                    b - 1
                };
                if a == p {
                    assert(order@[b] == old_order[ob]);
                    assert(colors@[old_order[ob] as int].l > lk);
                } else if b == p {
                    assert(order@[a] == old_order[oa]);
                    assert(comes_before(colors@, old_order[oa] as int, k as int));
                } else {
                    assert(order@[a] == old_order[oa]);
                    assert(order@[b] == old_order[ob]);
                    assert(comes_before(colors@, old_order[oa] as int, old_order[ob] as int));
                }
            }
        }
        k = k + 1;
    }
    order
}

/// Orders a palette by lightness (a stable sort) and fills its gaps: between
/// neighbours whose perceptual distance exceeds `threshold`, evenly spaced
/// intermediate colours are inserted, so that no step is longer than the
/// threshold. `distances[i][j]` is the distance from `colors[i]` to
/// `colors[j]`.
pub fn interpolate_colors(colors: &Vec<LabColor>, distances: &Vec<Vec<u64>>, threshold: u64) -> (r:
    Vec<LabColor>)
    requires
        colors@.len() >= 1,
        distances@.len() == colors@.len(),
        forall|i: int| 0 <= i < distances@.len() ==> (#[trigger] distances@[i])@.len() == colors@.len(),
        all_valid(colors@),
        0 < threshold,
        forall|i: int, j: int|
            0 <= i < colors@.len() && 0 <= j < colors@.len() ==> segment_count(
                #[trigger] distances@[i]@[j] as int,
                threshold as int,
            ) <= 0x1_0000_0000,
    ensures
        exists|order: Seq<usize>|
            is_lightness_order(colors@, order) && r@ == interpolated(
                arranged(colors@, order),
                neighbour_distances(distances@, order),
                threshold as int,
            ),
        all_valid(r@),
{
    let order = lightness_order(colors);
    let n = colors.len();
    let mut sorted: Vec<LabColor> = Vec::new();
    let mut gaps: Vec<u64> = Vec::new();
    let mut i: usize = 0;
    while i < n
        invariant
            n == colors@.len(),
            n >= 1,
            is_lightness_order(colors@, order@),
            distances@.len() == n,
            forall|a: int| 0 <= a < distances@.len() ==> (#[trigger] distances@[a])@.len() == n,
            0 <= i <= n,
            sorted@ == arranged(colors@, order@).subrange(0, i as int),
            i >= 1 ==> gaps@ == neighbour_distances(distances@, order@).subrange(0, i - 1),
            i == 0 ==> gaps@.len() == 0,
        decreases n - i,
    {
        let c = order[i];
        sorted.push(colors[c]);
        if i > 0 {
            let prev = order[i - 1];
            gaps.push(distances[prev][c]);
        }
        proof {
            assert(sorted@ =~= arranged(colors@, order@).subrange(0, i + 1));
            if i > 0 {
                assert(gaps@ =~= neighbour_distances(distances@, order@).subrange(0, i as int));
            } else {
                assert(gaps@ =~= neighbour_distances(distances@, order@).subrange(0, 0));
            }
        }
        i = i + 1;
    }
    proof {
        assert(sorted@ =~= arranged(colors@, order@));
        assert(gaps@ =~= neighbour_distances(distances@, order@));
        assert forall|a: int| 0 <= a < sorted@.len() implies (#[trigger] sorted@[a]).valid() by {
            assert(order@[a] < colors@.len());
        }
        assert forall|a: int| 0 <= a < gaps@.len() implies segment_count(
            #[trigger] gaps@[a] as int,
            threshold as int,
        ) <= 0x1_0000_0000 by {
            assert(order@[a] < n && order@[a + 1] < n);
        }
    }
    fill_gaps(&sorted, &gaps, threshold)
}

} // verus!
