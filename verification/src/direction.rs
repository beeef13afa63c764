//! Directions in the plane, kept as an integer vector together with its
//! length, so that a distance along the direction needs no trigonometry.

use vstd::prelude::*;
use crate::arith::{
    div_toward_zero, floor_sqrt, floor_sqrt_of, is_floor_sqrt, lemma_trunc_div_bounds,
    lemma_trunc_div_magnitude, trunc_div,
};
use crate::geometry::{Pt2D, MAX_COORD, WORLD_LIMIT};

verus! {

/// The length of a direction's vector is kept in units of `1 / NORM_SCALE`.
pub const NORM_SCALE: i64 = 0x10_0000;

/// `NORM_SCALE` squared.
pub const NORM_SCALE_SQ: i128 = 0x100_0000_0000;

/// Largest magnitude of the numerator handed to [`Direction::scaled`]: 2^42.
pub const MAX_SCALED: i64 = 0x400_0000_0000;

/// A direction: the vector `(dx, dy)`, which is not zero, and `norm`, the floor
/// of `NORM_SCALE` times its Euclidean length.
#[derive(Clone, Copy, Debug, PartialEq, Eq, Structural)]
pub struct Direction {
    pub dx: i64,
    pub dy: i64,
    pub norm: i64,
}

/// The squared length of `(dx, dy)` in units of `1 / NORM_SCALE`.
pub open spec fn norm_arg(dx: int, dy: int) -> int {
    (dx * dx + dy * dy) * NORM_SCALE_SQ
}

/// One component of the vector of length `num / den` along a direction whose
/// vector has the component `c` and whose scaled length is `norm`.
pub open spec fn scaled_component(c: int, norm: int, num: int, den: int) -> int {
    trunc_div(num * NORM_SCALE * c, den * norm)
}

impl Direction {
    pub open spec fn wf(self) -> bool {
        &&& self.dx != 0 || self.dy != 0
        &&& -MAX_COORD <= self.dx <= MAX_COORD
        &&& -MAX_COORD <= self.dy <= MAX_COORD
        &&& self.norm as int == floor_sqrt_of(norm_arg(self.dx as int, self.dy as int))
    }

    /// The direction from `a` to `b`.
    pub open spec fn spec_between(a: Pt2D, b: Pt2D) -> Direction {
        Direction {
            dx: (b.x - a.x) as i64,
            dy: (b.y - a.y) as i64,
            norm: floor_sqrt_of(norm_arg(b.x - a.x, b.y - a.y)) as i64,
        }
    }

    /// The direction turned a quarter turn clockwise on a map whose y axis
    /// points north, that is by -90 degrees.
    pub open spec fn spec_rotate_right(self) -> Direction {
        Direction { dx: self.dy, dy: (-self.dx) as i64, norm: self.norm }
    }

    /// The vector of length `num / den` along the direction, each component
    /// rounded toward zero.
    pub open spec fn spec_scaled(self, num: int, den: int) -> (int, int) {
        (
            scaled_component(self.dx as int, self.norm as int, num, den),
            scaled_component(self.dy as int, self.norm as int, num, den),
        )
    }

    /// What `wf` says of `norm`, unfolded: it is the floor of the scaled
    /// length, it is at least `NORM_SCALE`, and no component of the scaled
    /// vector exceeds it.
    pub proof fn lemma_norm(self)
        requires
            self.wf(),
        ensures
            is_floor_sqrt(self.norm as int, norm_arg(self.dx as int, self.dy as int)),
            NORM_SCALE <= self.norm < 0x2000_0000_0000_0000,
            -self.norm <= NORM_SCALE * self.dx <= self.norm,
            -self.norm <= NORM_SCALE * self.dy <= self.norm,
    {
        let dx = self.dx as int;
        let dy = self.dy as int;
        let n = norm_arg(dx, dy);
        lemma_norm_arg_range(dx, dy);
        lemma_sqrt_exists(n);
        let r = floor_sqrt_of(n);
        assert(is_floor_sqrt(r, n));
        lemma_norm_facts(dx, dy, r);
    }

    /// The direction between two points of the road network has a length
    /// that fits, and is well formed unless the points coincide.
    pub proof fn lemma_between(a: Pt2D, b: Pt2D)
        requires
            a.within(WORLD_LIMIT as int),
            b.within(WORLD_LIMIT as int),
        ensures
            0 <= Direction::spec_between(a, b).norm < 0x2000_0000_0000_0000,
            Direction::spec_between(a, b).norm as int == floor_sqrt_of(
                norm_arg(b.x - a.x, b.y - a.y),
            ),
            a != b ==> Direction::spec_between(a, b).wf(),
    {
        let dx = b.x - a.x;
        let dy = b.y - a.y;
        let n = norm_arg(dx, dy);
        lemma_norm_arg_range(dx, dy);
        lemma_sqrt_exists(n);
        let r = floor_sqrt_of(n);
        assert(r < 0x2000_0000_0000_0000) by (nonlinear_arith)
            requires
                0 <= r,
                r * r <= n,
                n < 0x0400_0000_0000_0000_0000_0000_0000_0000,
        ;
    }

    /// No component of a scaled vector is longer than the numerator.
    pub proof fn lemma_scaled_magnitude(self, num: int, den: int)
        requires
            self.wf(),
            den >= 1,
        ensures
            -vstd::math::abs(num) <= self.spec_scaled(num, den).0 <= vstd::math::abs(num),
            -vstd::math::abs(num) <= self.spec_scaled(num, den).1 <= vstd::math::abs(num),
    {
        self.lemma_norm();
        lemma_component_magnitude(self.dx as int, self.norm as int, num, den);
        lemma_component_magnitude(self.dy as int, self.norm as int, num, den);
    }

    /// The direction from `a` to `b`, or `None` when the two points coincide.
    pub fn between(a: Pt2D, b: Pt2D) -> (d: Option<Direction>)
        requires
            a.within(WORLD_LIMIT as int),
            b.within(WORLD_LIMIT as int),
        ensures
            d.is_some() <==> a != b,
            d matches Some(dir) ==> dir.wf() && dir == Direction::spec_between(a, b),
    {
        if a.x == b.x && a.y == b.y {
            return None;
        }
        let dx: i64 = b.x - a.x;
        let dy: i64 = b.y - a.y;
        let wx: i128 = dx as i128;
        let wy: i128 = dy as i128;
        proof {
            lemma_norm_arg_range(dx as int, dy as int);
        }
        let sq: i128 = wx * wx + wy * wy;
        let arg: i128 = sq * NORM_SCALE_SQ;
        let root: u64 = floor_sqrt(arg as u128);
        Some(Direction { dx, dy, norm: root as i64 })
    }

    /// The direction turned by -90 degrees.
    pub fn rotate_right(&self) -> (d: Direction)
        requires
            self.wf(),
        ensures
            d == self.spec_rotate_right(),
            d.wf(),
    {
        proof {
            let dx = self.dx as int;
            let dy = self.dy as int;
            assert(dy * dy + (-dx) * (-dx) == dx * dx + dy * dy) by (nonlinear_arith);
        }
        Direction { dx: self.dy, dy: -self.dx, norm: self.norm }
    }

    /// The vector of length `num / den` along the direction.
    pub fn scaled(&self, num: i64, den: i64) -> (v: (i64, i64))
        requires
            self.wf(),
            -MAX_SCALED <= num <= MAX_SCALED,
            1 <= den <= 2,
        ensures
            (v.0 as int, v.1 as int) == self.spec_scaled(num as int, den as int),
    {
        proof {
            self.lemma_norm();
            self.lemma_scaled_magnitude(num as int, den as int);
        }
        let x: i64 = scale_component(self.dx, self.norm, num, den);
        let y: i64 = scale_component(self.dy, self.norm, num, den);
        (x, y)
    }
}

/// Computes one component of a scaled vector.
fn scale_component(c: i64, norm: i64, num: i64, den: i64) -> (r: i64)
    requires
        -MAX_COORD <= c <= MAX_COORD,
        NORM_SCALE <= norm < 0x2000_0000_0000_0000,
        -norm <= NORM_SCALE * c <= norm,
        -MAX_SCALED <= num <= MAX_SCALED,
        1 <= den <= 2,
    ensures
        r == scaled_component(c as int, norm as int, num as int, den as int),
{
    let scaled_num: i128 = (num as i128) * (NORM_SCALE as i128);
    assert(-0x4000_0000_0000_0000 <= scaled_num <= 0x4000_0000_0000_0000);
    assert(-0x40_0000_0000_0000_0000_0000_0000 <= scaled_num * (c as i128)
        <= 0x40_0000_0000_0000_0000_0000_0000) by (nonlinear_arith)
        requires
            -0x4000_0000_0000_0000 <= scaled_num <= 0x4000_0000_0000_0000,
            -0x100_0000_0000 <= c <= 0x100_0000_0000,
    ;
    let numerator: i128 = scaled_num * (c as i128);
    assert(1 <= den * norm <= 0x4000_0000_0000_0000) by (nonlinear_arith)
        requires
            1 <= den <= 2,
            1 <= norm < 0x2000_0000_0000_0000,
    ;
    let divisor: i128 = (den as i128) * (norm as i128);
    let q: i128 = div_toward_zero(numerator, divisor);
    proof {
        lemma_component_magnitude(c as int, norm as int, num as int, den as int);
        assert(num * NORM_SCALE * c == scaled_num * c);
    }
    q as i64
}

/// The squared scaled length of a vector with bounded components fits the
/// square root routine, and is at least `NORM_SCALE_SQ` unless the vector is
/// zero.
pub proof fn lemma_norm_arg_range(dx: int, dy: int)
    requires
        -MAX_COORD <= dx <= MAX_COORD,
        -MAX_COORD <= dy <= MAX_COORD,
    ensures
        0 <= dx * dx <= 0x1_0000_0000_0000_0000_0000,
        0 <= dy * dy <= 0x1_0000_0000_0000_0000_0000,
        0 <= norm_arg(dx, dy) < crate::arith::SQRT_ARG_LIMIT,
        (dx != 0 || dy != 0) ==> norm_arg(dx, dy) >= NORM_SCALE_SQ,
{
    assert(0 <= dx * dx <= 0x1_0000_0000_0000_0000_0000) by (nonlinear_arith)
        requires
            -0x100_0000_0000 <= dx <= 0x100_0000_0000,
    ;
    assert(0 <= dy * dy <= 0x1_0000_0000_0000_0000_0000) by (nonlinear_arith)
        requires
            -0x100_0000_0000 <= dy <= 0x100_0000_0000,
    ;
    assert(dx != 0 ==> dx * dx >= 1) by (nonlinear_arith);
    assert(dy != 0 ==> dy * dy >= 1) by (nonlinear_arith);
}

/// Every natural number has a floor square root.
pub proof fn lemma_sqrt_exists(n: int)
    requires
        0 <= n,
    ensures
        is_floor_sqrt(floor_sqrt_of(n), n),
    decreases n,
{
    if n == 0 {
        assert(is_floor_sqrt(0, 0));
    } else {
        lemma_sqrt_exists(n - 1);
        let r = floor_sqrt_of(n - 1);
        if n < (r + 1) * (r + 1) {
            assert(is_floor_sqrt(r, n));
        } else {
            assert(is_floor_sqrt(r + 1, n)) by (nonlinear_arith)
                requires
                    0 <= r,
                    r * r <= n - 1 < (r + 1) * (r + 1),
                    n >= (r + 1) * (r + 1),
            ;
        }
    }
}

proof fn lemma_norm_facts(dx: int, dy: int, r: int)
    requires
        -MAX_COORD <= dx <= MAX_COORD,
        -MAX_COORD <= dy <= MAX_COORD,
        dx != 0 || dy != 0,
        is_floor_sqrt(r, norm_arg(dx, dy)),
    ensures
        NORM_SCALE <= r < 0x2000_0000_0000_0000,
        -r <= NORM_SCALE * dx <= r,
        -r <= NORM_SCALE * dy <= r,
{
    lemma_norm_arg_range(dx, dy);
    let n = norm_arg(dx, dy);
    assert(r >= 0x10_0000) by (nonlinear_arith)
        requires
            0 <= r,
            n < (r + 1) * (r + 1),
            n >= 0x100_0000_0000,
    ;
    assert(r < 0x2000_0000_0000_0000) by (nonlinear_arith)
        requires
            0 <= r,
            r * r <= n,
            n < 0x0400_0000_0000_0000_0000_0000_0000_0000,
    ;
    let sx = NORM_SCALE * dx;
    let sy = NORM_SCALE * dy;
    assert(sx * sx + sy * sy == n) by (nonlinear_arith)
        requires
            sx == 0x10_0000 * dx,
            sy == 0x10_0000 * dy,
            n == (dx * dx + dy * dy) * 0x100_0000_0000,
    ;
    assert(-r <= sx <= r) by (nonlinear_arith)
        requires
            0 <= r,
            sx * sx + sy * sy < (r + 1) * (r + 1),
    ;
    assert(-r <= sy <= r) by (nonlinear_arith)
        requires
            0 <= r,
            sx * sx + sy * sy < (r + 1) * (r + 1),
    ;
}

/// Along a direction, a distance of at most the vector's own length gives a
/// component that lies between zero and the vector's component.
pub proof fn lemma_component_within(c: int, norm: int, t: int)
    requires
        norm >= 1,
        0 <= t,
        t * NORM_SCALE <= norm,
    ensures
        c >= 0 ==> 0 <= scaled_component(c, norm, t, 1) <= c,
        c <= 0 ==> c <= scaled_component(c, norm, t, 1) <= 0,
{
    let n = t * NORM_SCALE * c;
    let ts = t * NORM_SCALE;
    assert(1 * norm == norm);
    assert(n == ts * c) by (nonlinear_arith)
        requires
            n == t * 0x10_0000 * c,
            ts == t * 0x10_0000,
    ;
    lemma_trunc_div_bounds(n, norm);
    if c >= 0 {
        assert(0 <= n <= c * norm) by (nonlinear_arith)
            requires
                n == ts * c,
                0 <= ts <= norm,
                c >= 0,
        ;
        lemma_trunc_div_magnitude(n, norm, c);
    }
    if c <= 0 {
        assert(-((-c) * norm) <= n <= 0) by (nonlinear_arith)
            requires
                n == ts * c,
                0 <= ts <= norm,
                c <= 0,
        ;
        lemma_trunc_div_magnitude(n, norm, -c);
    }
}

/// A component of a scaled vector is no longer than the numerator.
pub proof fn lemma_component_magnitude(c: int, norm: int, num: int, den: int)
    requires
        norm >= 1,
        den >= 1,
        -norm <= NORM_SCALE * c <= norm,
    ensures
        -vstd::math::abs(num) <= scaled_component(c, norm, num, den) <= vstd::math::abs(num),
{
    let bound = vstd::math::abs(num) as int;
    let n = num * NORM_SCALE * c;
    let d = den * norm;
    let sc = NORM_SCALE * c;
    assert(d >= 1 && bound * d >= bound * norm) by (nonlinear_arith)
        requires
            d == den * norm,
            den >= 1,
            norm >= 1,
            bound >= 0,
    ;
    assert(n == num * sc) by (nonlinear_arith)
        requires
            n == num * 0x10_0000 * c,
            sc == 0x10_0000 * c,
    ;
    assert(-(bound * norm) <= n <= bound * norm) by (nonlinear_arith)
        requires
            n == num * sc,
            -norm <= sc <= norm,
            bound >= 0,
            -bound <= num <= bound,
    ;
    lemma_trunc_div_magnitude(n, d, bound);
}

} // verus!
