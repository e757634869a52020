use vstd::prelude::*;

use crate::averaging::div_trunc;
use crate::color::{LabColor, LAB_LIMIT};

verus! {

/// A dither amount of `DITHER_SCALE` stands for 1.
pub const DITHER_SCALE: u32 = 1000;

/// Random draws are integers in `[0, DRAW_SCALE)`, standing for `[0, 1)`.
pub const DRAW_SCALE: u32 = 65536;

/// One uniform random draw per Lab channel.
#[derive(Clone, Copy, Debug, PartialEq, Eq, Structural)]
pub struct Draw {
    pub l: u32,
    pub a: u32,
    pub b: u32,
}

impl Draw {
    pub open spec fn valid(self) -> bool {
        self.l < DRAW_SCALE && self.a < DRAW_SCALE && self.b < DRAW_SCALE
    }
}

/// Moves channel value `c` toward `t` by the fraction `amount * u` (both in
/// fixed point), rounding the step toward zero.
pub open spec fn dither_channel(c: int, t: int, amount: int, u: int) -> int {
    c + div_trunc((t - c) * amount * u, DITHER_SCALE as int * DRAW_SCALE as int)
}

/// `color` moved toward `target`, each channel by its own draw.
pub open spec fn dithered(color: LabColor, target: LabColor, amount: int, d: Draw) -> LabColor {
    LabColor {
        l: dither_channel(color.l as int, target.l as int, amount, d.l as int) as i32,
        a: dither_channel(color.a as int, target.a as int, amount, d.a as int) as i32,
        b: dither_channel(color.b as int, target.b as int, amount, d.b as int) as i32,
    }
}

/// A step of at most the whole way stays between `c` and `t`.
proof fn lemma_dither_between(c: int, t: int, amount: int, u: int)
    requires
        0 <= amount <= DITHER_SCALE,
        0 <= u < DRAW_SCALE,
    ensures
        c <= t ==> c <= dither_channel(c, t, amount, u) <= t,
        t <= c ==> t <= dither_channel(c, t, amount, u) <= c,
{
    broadcast use vstd::arithmetic::div_mod::lemma_div_pos_is_pos;

    let d = DITHER_SCALE as int * DRAW_SCALE as int;
    let m = if t >= c {
        t - c
    } else {
        c - t
    };
    let p = m * amount * u;
    assert(0 <= p <= m * d) by (nonlinear_arith)
        requires
            0 <= m,
            0 <= amount <= DITHER_SCALE,
            0 <= u < DRAW_SCALE,
            d == DITHER_SCALE as int * DRAW_SCALE as int,
            p == m * amount * u,
    ;
    vstd::arithmetic::div_mod::lemma_div_is_ordered(p, m * d, d);
    vstd::arithmetic::div_mod::lemma_div_multiples_vanish(m, d);
    assert(d * m == m * d) by (nonlinear_arith);
    if t >= c {
        assert((t - c) * amount * u == p);
        assert(div_trunc((t - c) * amount * u, d) == p / d);
    } else {
        assert((t - c) * amount * u == -p) by (nonlinear_arith)
            requires
                m == c - t,
                p == m * amount * u,
        ;
        if p == 0 {
            assert(div_trunc(-p, d) == 0);
        } else {
            assert(div_trunc(-p, d) == -(p / d));
        }
    }
}

/// Moves `color` toward `target` by `amount` times a random fraction per
/// channel. The result lies between the two, so it stays valid.
pub fn dither(color: &LabColor, target: &LabColor, amount: u32, draw: &Draw) -> (r: LabColor)
    requires
        color.valid(),
        target.valid(),
        amount <= DITHER_SCALE,
        draw.valid(),
    ensures
        r == dithered(*color, *target, amount as int, *draw),
        r.valid(),
{
    proof {
        lemma_dither_between(color.l as int, target.l as int, amount as int, draw.l as int);
        lemma_dither_between(color.a as int, target.a as int, amount as int, draw.a as int);
        lemma_dither_between(color.b as int, target.b as int, amount as int, draw.b as int);
    }
    let l = dither_step(color.l, target.l, amount, draw.l);
    let a = dither_step(color.a, target.a, amount, draw.a);
    let b = dither_step(color.b, target.b, amount, draw.b);
    LabColor { l, a, b }
}

fn dither_step(c: i32, t: i32, amount: u32, u: u32) -> (r: i32)
    requires
        -LAB_LIMIT <= c <= LAB_LIMIT,
        -LAB_LIMIT <= t <= LAB_LIMIT,
        amount <= DITHER_SCALE,
        u < DRAW_SCALE,
    ensures
        r == dither_channel(c as int, t as int, amount as int, u as int),
{
    proof {
        lemma_dither_between(c as int, t as int, amount as int, u as int);
        assert(-0x400000 * 1000 <= (t - c) * amount <= 0x400000 * 1000) by (nonlinear_arith)
            requires
                -LAB_LIMIT <= c <= LAB_LIMIT,
                -LAB_LIMIT <= t <= LAB_LIMIT,
                0 <= amount <= DITHER_SCALE,
        ;
        assert(-0x400000 * 65536000 <= (t - c) * amount * u <= 0x400000 * 65536000)
            by (nonlinear_arith)
            requires
                -LAB_LIMIT <= c <= LAB_LIMIT,
                -LAB_LIMIT <= t <= LAB_LIMIT,
                0 <= amount <= DITHER_SCALE,
                0 <= u < DRAW_SCALE,
        ;
    }
    let n: i64 = (t as i64 - c as i64) * (amount as i64) * (u as i64);
    proof {
        assert(DITHER_SCALE as int * DRAW_SCALE as int == 65536000) by (nonlinear_arith)
            requires
                DITHER_SCALE == 1000,
                DRAW_SCALE == 65536,
        ;
    }
    let d: u64 = (DITHER_SCALE as u64) * (DRAW_SCALE as u64);
    let q: i64 = if n >= 0 {
        ((n as u64) / d) as i64
    } else {
        -((((-n) as u64) / d) as i64)
    };
    (c as i64 + q) as i32
}

/// With a dither amount of zero the random draws play no part: the colour is
/// returned unchanged, so runs on the same input agree exactly.
pub proof fn lemma_zero_dither_is_identity(color: LabColor, target: LabColor, d1: Draw, d2: Draw)
    ensures
        dithered(color, target, 0, d1) == color,
        dithered(color, target, 0, d1) == dithered(color, target, 0, d2),
{
    assert forall|c: int, t: int, u: int| #[trigger] dither_channel(c, t, 0, u) == c by {
        assert((t - c) * 0 * u == 0) by (nonlinear_arith);
        assert(0int / (DITHER_SCALE as int * DRAW_SCALE as int) == 0);
    }
    assert(dither_channel(color.l as int, target.l as int, 0, d1.l as int) == color.l);
    assert(dither_channel(color.a as int, target.a as int, 0, d1.a as int) == color.a);
    assert(dither_channel(color.b as int, target.b as int, 0, d1.b as int) == color.b);
    assert(dither_channel(color.l as int, target.l as int, 0, d2.l as int) == color.l);
    assert(dither_channel(color.a as int, target.a as int, 0, d2.a as int) == color.a);
    assert(dither_channel(color.b as int, target.b as int, 0, d2.b as int) == color.b);
}

} // verus!
