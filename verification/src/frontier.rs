//! The best size of a two-pool round trip.
//!
//! A round trip buys token B in one pool and sells it in the other. It is looked
//! at by the amount `b` of token B in the middle: the least input that buys `b`
//! grows faster and faster, and what `b` sells for grows slower and slower. Apart
//! from the rounding the profit is therefore concave in `b`, which tells at a
//! glance where no better amount can be.

use crate::swap::{
    compute_output, law_swap_is_monotone, lemma_quotient_at_least, lemma_swap_pays_at_least,
    pool_swap, FEE_BPS, FEE_DENOM,
};
use crate::wide::product;
use vstd::arithmetic::div_mod::*;
use vstd::arithmetic::mul::*;
use vstd::prelude::*;

verus! {

/// The share of an input that is traded after the pool fee, in parts of `FEE_DENOM`.
pub const FEE_MULT: u64 = 9_970;

/// Steps that a lamport is divided into where profits are compared.
pub const SCALE: u64 = 0x1_0000_0000;

/// The reserves of a round trip.
#[derive(Debug, Clone, Copy)]
pub struct Cycle {
    /// What the pool that token B is bought in holds of token A.
    pub buy_a: u64,
    /// What the pool that token B is bought in holds of token B.
    pub buy_b: u64,
    /// What the pool that token B is sold in holds of token A.
    pub sell_a: u64,
    /// What the pool that token B is sold in holds of token B.
    pub sell_b: u64,
}

/// The quotient, rounded up.
pub open spec fn div_up(n: int, k: int) -> int {
    (n + k - 1) / k
}

impl Cycle {
    /// What `b` of token B sells for, in parts of a lamport, rounded down.
    pub open spec fn proceeds(self, b: int, scale: int) -> int {
        scale * FEE_MULT * self.sell_a * b / (self.sell_b * FEE_DENOM + b * FEE_MULT)
    }

    /// What `b` of token B costs, in parts of a lamport, rounded up.
    pub open spec fn cost(self, b: int, scale: int) -> int {
        div_up(scale * FEE_DENOM * self.buy_a * b, FEE_MULT * (self.buy_b - b))
    }

    /// The profit of `b` of token B, in parts of a lamport.
    pub open spec fn gain(self, b: int, scale: int) -> int {
        self.proceeds(b, scale) - self.cost(b, scale)
    }

    /// Whether `b` of token B can be bought for at most `max_input`.
    pub open spec fn affordable(self, b: int, max_input: int) -> bool {
        &&& 1 <= b < self.buy_b
        &&& b * (self.buy_a * FEE_DENOM) <= (self.buy_b - b) * (max_input * FEE_MULT)
    }

    /// What comes out of the first swap.
    pub open spec fn bought(self, input: int) -> int {
        pool_swap(self.buy_a as int, self.buy_b as int, input)
    }

    /// What comes out of the second swap.
    pub open spec fn sold(self, b: int) -> int {
        pool_swap(self.sell_b as int, self.sell_a as int, b)
    }
}

proof fn lemma_floor(n: int, k: int)
    requires
        k > 0,
    ensures
        (n / k) * k <= n < (n / k + 1) * k,
{
    lemma_quotient_at_least(n, k, n / k);
    lemma_quotient_at_least(n, k, n / k + 1);
}

proof fn lemma_ceil(n: int, k: int)
    requires
        k > 0,
    ensures
        (div_up(n, k) - 1) * k < n <= div_up(n, k) * k,
{
    lemma_floor(n + k - 1, k);
    let c = div_up(n, k);
    assert((c + 1) * k == c * k + k) by (nonlinear_arith);
    assert((c - 1) * k == c * k - k) by (nonlinear_arith);
}

/// A quotient rounded up is at most `c` exactly if the dividend is at most `c` divisors.
proof fn lemma_ceil_at_most(n: int, k: int, c: int)
    requires
        k > 0,
    ensures
        div_up(n, k) <= c <==> n <= c * k,
{
    lemma_ceil(n, k);
    let q = div_up(n, k);
    assert(q <= c ==> n <= c * k) by (nonlinear_arith)
        requires
            n <= q * k,
            k > 0,
    {
        if q <= c {
            assert(q * k <= c * k);
        }
    }
    assert(q > c ==> n > c * k) by (nonlinear_arith)
        requires
            n > (q - 1) * k,
            k > 0,
    {
        if q > c {
            assert((q - 1) * k >= c * k);
        }
    }
}

/// The line through a point of the curve `i / (v + w * i)`, times the
/// denominator elsewhere.
proof fn lemma_tangent(v: int, w: int, r: int, d: int)
    ensures
        (v + w * r + w * d) * (r * (v + w * r) + v * d) == (r + d) * ((v + w * r) * (v + w * r)) + (
        v * w) * (d * d),
{
    let k = v + w * r;
    let e = w * d;
    let f = r * k;
    let g = v * d;
    assert((k + e) * (f + g) == k * f + k * g + e * f + e * g) by (nonlinear_arith);
    assert(k * f == r * (k * k)) by (nonlinear_arith)
        requires
            f == r * k,
    ;
    assert(k * g == v * (d * k)) by (nonlinear_arith)
        requires
            g == v * d,
    ;
    assert(e * f == (w * r) * (d * k)) by (nonlinear_arith)
        requires
            e == w * d,
            f == r * k,
    ;
    assert(e * g == (v * w) * (d * d)) by (nonlinear_arith)
        requires
            e == w * d,
            g == v * d,
    ;
    assert(v * (d * k) + (w * r) * (d * k) == k * (d * k)) by (nonlinear_arith)
        requires
            k == v + w * r,
    ;
    assert(k * (d * k) == d * (k * k)) by (nonlinear_arith);
    assert(r * (k * k) + d * (k * k) == (r + d) * (k * k)) by (nonlinear_arith);
}

/// Two points of a line on either side of `r`, weighted by their distances,
/// balance at `r`.
proof fn lemma_balance(a: int, b: int, u: int, base: int, v: int)
    ensures
        a * (u * (base + v * (-b))) + b * (u * (base + v * a)) == (a + b) * (u * base),
{
    let ub = u * base;
    let uv = u * v;
    assert(u * (base + v * (-b)) == ub - uv * b) by (nonlinear_arith)
        requires
            ub == u * base,
            uv == u * v,
    ;
    assert(u * (base + v * a) == ub + uv * a) by (nonlinear_arith)
        requires
            ub == u * base,
            uv == u * v,
    ;
    assert(a * (ub - uv * b) == a * ub - uv * (a * b)) by (nonlinear_arith);
    assert(b * (ub + uv * a) == b * ub + uv * (a * b)) by (nonlinear_arith);
    assert(a * ub + b * ub == (a + b) * ub) by (nonlinear_arith);
}

/// A value below the curve `u * i / (v + w * i)` is below its tangent at `r`.
proof fn lemma_below_the_tangent(u: int, v: int, w: int, r: int, i: int, p: int)
    requires
        u >= 0,
        v * w >= 0,
        v + w * r > 0,
        v + w * i > 0,
        p * (v + w * i) <= u * i,
    ensures
        p * ((v + w * r) * (v + w * r)) <= u * (r * (v + w * r) + v * (i - r)),
{
    let dr = v + w * r;
    let di = v + w * i;
    let d = i - r;
    let line = r * dr + v * d;
    let sq = dr * dr;
    lemma_tangent(v, w, r, d);
    lemma_mul_is_distributive_add(w, r, d);
    assert(di * line == i * sq + (v * w) * (d * d));
    assert(sq >= 0 && d * d >= 0) by (nonlinear_arith)
        requires
            sq == dr * dr,
    ;
    lemma_mul_nonnegative(v * w, d * d);
    assert(p * sq <= u * line) by (nonlinear_arith)
        requires
            p * di <= u * i,
            di > 0,
            sq >= 0,
            u >= 0,
            di * line >= i * sq,
    {
        assert(p * di * sq <= u * i * sq);
        assert(u * (i * sq) <= u * (di * line));
        assert(u * i * sq == u * (i * sq));
        assert(di * (p * sq) == p * di * sq);
        assert(u * (di * line) == di * (u * line));
        assert(di * (p * sq) <= di * (u * line));
    }
}

/// A value above the curve `u * i / (v + w * i)` is above its tangent at `r`,
/// where the curve bends upwards.
proof fn lemma_above_the_tangent(u: int, v: int, w: int, r: int, i: int, c: int)
    requires
        u >= 0,
        v * w <= 0,
        v + w * r > 0,
        v + w * i > 0,
        c * (v + w * i) >= u * i,
    ensures
        c * ((v + w * r) * (v + w * r)) >= u * (r * (v + w * r) + v * (i - r)),
{
    let dr = v + w * r;
    let di = v + w * i;
    let d = i - r;
    let line = r * dr + v * d;
    let sq = dr * dr;
    lemma_tangent(v, w, r, d);
    lemma_mul_is_distributive_add(w, r, d);
    assert(di * line == i * sq + (v * w) * (d * d));
    assert(sq >= 0 && d * d >= 0) by (nonlinear_arith)
        requires
            sq == dr * dr,
    ;
    assert((v * w) * (d * d) <= 0) by (nonlinear_arith)
        requires
            v * w <= 0,
            d * d >= 0,
    ;
    assert(c * sq >= u * line) by (nonlinear_arith)
        requires
            c * di >= u * i,
            di > 0,
            sq >= 0,
            u >= 0,
            di * line <= i * sq,
    {
        assert(c * di * sq >= u * i * sq);
        assert(u * (i * sq) >= u * (di * line));
        assert(u * i * sq == u * (i * sq));
        assert(di * (c * sq) == c * di * sq);
        assert(u * (di * line) == di * (u * line));
        assert(di * (c * sq) >= di * (u * line));
    }
}

/// Values below a curve that bends downwards: their mean is below the curve.
proof fn lemma_bends_down(u: int, v: int, w: int, l: int, r: int, h: int, pl: int, pr: int, ph: int)
    requires
        u >= 0,
        v * w >= 0,
        v + w * l > 0,
        v + w * r > 0,
        v + w * h > 0,
        l < r < h,
        pl * (v + w * l) <= u * l,
        ph * (v + w * h) <= u * h,
        u * r < (pr + 1) * (v + w * r),
    ensures
        (h - r) * pl + (r - l) * ph < (h - l) * (pr + 1),
{
    lemma_below_the_tangent(u, v, w, r, l, pl);
    lemma_below_the_tangent(u, v, w, r, h, ph);
    let dr = v + w * r;
    let sq = dr * dr;
    let a = h - r;
    let b = r - l;
    let base = r * dr;
    lemma_balance(a, b, u, base, v);
    let left = u * (base + v * (-b));
    let right = u * (base + v * a);
    assert(v * (l - r) == v * (-b));
    assert((a * pl + b * ph) * sq <= a * left + b * right) by (nonlinear_arith)
        requires
            a > 0,
            b > 0,
            pl * sq <= left,
            ph * sq <= right,
    {
        assert(a * (pl * sq) <= a * left);
        assert(b * (ph * sq) <= b * right);
        assert((a * pl + b * ph) * sq == a * (pl * sq) + b * (ph * sq));
    }
    assert((a + b) * (u * base) < (a + b) * (pr + 1) * sq) by (nonlinear_arith)
        requires
            a + b > 0,
            dr > 0,
            base == r * dr,
            sq == dr * dr,
            u * r < (pr + 1) * dr,
    {
        assert(u * base == (u * r) * dr);
        assert((u * r) * dr < ((pr + 1) * dr) * dr);
        assert(((pr + 1) * dr) * dr == (pr + 1) * sq);
        assert((a + b) * (u * base) < (a + b) * ((pr + 1) * sq));
        assert((a + b) * ((pr + 1) * sq) == (a + b) * (pr + 1) * sq);
    }
    assert(a * pl + b * ph < (a + b) * (pr + 1)) by (nonlinear_arith)
        requires
            (a * pl + b * ph) * sq < (a + b) * (pr + 1) * sq,
            sq == dr * dr,
            dr > 0,
    {
        assert(sq > 0);
    }
}

/// Values above a curve that bends upwards: their mean is above the curve.
proof fn lemma_bends_up(u: int, v: int, w: int, l: int, r: int, h: int, cl: int, cr: int, ch: int)
    requires
        u >= 0,
        v * w <= 0,
        v + w * l > 0,
        v + w * r > 0,
        v + w * h > 0,
        l < r < h,
        cl * (v + w * l) >= u * l,
        ch * (v + w * h) >= u * h,
        u * r > (cr - 1) * (v + w * r),
    ensures
        (h - r) * cl + (r - l) * ch > (h - l) * (cr - 1),
{
    lemma_above_the_tangent(u, v, w, r, l, cl);
    lemma_above_the_tangent(u, v, w, r, h, ch);
    let dr = v + w * r;
    let sq = dr * dr;
    let a = h - r;
    let b = r - l;
    let base = r * dr;
    lemma_balance(a, b, u, base, v);
    let left = u * (base + v * (-b));
    let right = u * (base + v * a);
    assert(v * (l - r) == v * (-b));
    assert((a * cl + b * ch) * sq >= a * left + b * right) by (nonlinear_arith)
        requires
            a > 0,
            b > 0,
            cl * sq >= left,
            ch * sq >= right,
    {
        assert(a * (cl * sq) >= a * left);
        assert(b * (ch * sq) >= b * right);
        assert((a * cl + b * ch) * sq == a * (cl * sq) + b * (ch * sq));
    }
    assert((a + b) * (u * base) > (a + b) * (cr - 1) * sq) by (nonlinear_arith)
        requires
            a + b > 0,
            dr > 0,
            base == r * dr,
            sq == dr * dr,
            u * r > (cr - 1) * dr,
    {
        assert(u * base == (u * r) * dr);
        assert((u * r) * dr > ((cr - 1) * dr) * dr);
        assert(((cr - 1) * dr) * dr == (cr - 1) * sq);
        assert((a + b) * (u * base) > (a + b) * ((cr - 1) * sq));
        assert((a + b) * ((cr - 1) * sq) == (a + b) * (cr - 1) * sq);
    }
    assert(a * cl + b * ch > (a + b) * (cr - 1)) by (nonlinear_arith)
        requires
            (a * cl + b * ch) * sq > (a + b) * (cr - 1) * sq,
            sq == dr * dr,
            dr > 0,
    {
        assert(sq > 0);
    }
}

/// `n * s / d` without forming the product, rounded down.
fn scaled_down(n: u128, s: u64, d: u128) -> (q: u128)
    requires
        d > 0,
        (n as int / d as int) * s <= u128::MAX / 2,
        d * s <= u128::MAX / 2,
    ensures
        q == n * s / (d as int),
{
    let k: u128 = n / d;
    let r: u128 = n % d;
    proof {
        lemma_fundamental_div_mod(n as int, d as int);
        lemma_mod_bound(n as int, d as int);
        lemma_mul_inequality(r as int, d as int, s as int);
        lemma_mul_nonnegative(r as int, s as int);
        lemma_mul_nonnegative(k as int, s as int);
        lemma_hoist_over_denominator(r * s, k * s, d as nat);
        lemma_div_is_ordered(r * s, d * s, d as int);
        lemma_div_multiples_vanish(s as int, d as int);
        lemma_div_pos_is_pos(r * s, d as int);
        assert(r * s + (k * s) * d == n * s) by (nonlinear_arith)
            requires
                n == d * k + r,
        ;
    }
    k * (s as u128) + r * (s as u128) / d
}

/// `n * s / d` without forming the product, rounded up.
fn scaled_up(n: u128, s: u64, d: u128) -> (q: u128)
    requires
        d > 0,
        (n as int / d as int) * s <= u128::MAX / 2,
        d * s + d <= u128::MAX / 2,
    ensures
        q == div_up(n * s, d as int),
{
    let k: u128 = n / d;
    let r: u128 = n % d;
    proof {
        lemma_fundamental_div_mod(n as int, d as int);
        lemma_mod_bound(n as int, d as int);
        lemma_mul_inequality(r as int, d as int, s as int);
        lemma_mul_nonnegative(r as int, s as int);
        lemma_mul_nonnegative(k as int, s as int);
        let top = r * s + d - 1;
        lemma_hoist_over_denominator(top, k * s, d as nat);
        lemma_div_is_ordered(top, d * s + d, d as int);
        lemma_mul_is_distributive_add(d as int, s as int, 1);
        lemma_div_multiples_vanish(s + 1, d as int);
        lemma_mul_is_commutative(d as int, s + 1);
        lemma_div_pos_is_pos(top, d as int);
        assert(r * s + (k * s) * d == n * s) by (nonlinear_arith)
            requires
                n == d * k + r,
        ;
    }
    k * (s as u128) + (r * (s as u128) + d - 1) / d
}

/// What the amounts of token B sell for and cost bends as a curve does, up to
/// the rounding.
proof fn lemma_three_points(c: Cycle, l: int, r: int, h: int)
    requires
        1 <= l < r < h < c.buy_b,
    ensures
        (h - r) * c.gain(l, SCALE as int) + (r - l) * c.gain(h, SCALE as int) < (h - l) * (c.gain(
            r,
            SCALE as int,
        ) + 2),
{
    let s = SCALE as int;
    let m = FEE_MULT as int;
    let u = s * m * c.sell_a;
    let v = c.sell_b * FEE_DENOM;
    assert(u >= 0 && v >= 0) by (nonlinear_arith)
        requires
            u == s * m * c.sell_a,
            v == c.sell_b * FEE_DENOM,
            s >= 0,
            m >= 0,
    ;
    lemma_floor(u * l, v + l * m);
    lemma_floor(u * r, v + r * m);
    lemma_floor(u * h, v + h * m);
    lemma_mul_is_commutative(l, m);
    lemma_mul_is_commutative(r, m);
    lemma_mul_is_commutative(h, m);
    lemma_mul_nonnegative(v, m);
    lemma_bends_down(
        u,
        v,
        m,
        l,
        r,
        h,
        c.proceeds(l, s),
        c.proceeds(r, s),
        c.proceeds(h, s),
    );
    let cu = s * FEE_DENOM * c.buy_a;
    let cv = m * c.buy_b;
    assert(cu >= 0 && cv >= 0) by (nonlinear_arith)
        requires
            cu == s * FEE_DENOM * c.buy_a,
            cv == m * c.buy_b,
            s >= 0,
            m >= 0,
    ;
    assert(cv * (-m) <= 0) by (nonlinear_arith)
        requires
            cv >= 0,
            m >= 0,
    ;
    lemma_ceil(cu * l, m * (c.buy_b - l));
    lemma_ceil(cu * r, m * (c.buy_b - r));
    lemma_ceil(cu * h, m * (c.buy_b - h));
    lemma_bends_up(cu, cv, -m, l, r, h, c.cost(l, s), c.cost(r, s), c.cost(h, s));
    let (pl, pr, ph) = (c.proceeds(l, s), c.proceeds(r, s), c.proceeds(h, s));
    let (cl, cr, ch) = (c.cost(l, s), c.cost(r, s), c.cost(h, s));
    let a = h - r;
    let b = r - l;
    assert(a * (pl - cl) + b * (ph - ch) < (a + b) * (pr - cr + 2)) by (nonlinear_arith)
        requires
            a * pl + b * ph < (a + b) * (pr + 1),
            a * cl + b * ch > (a + b) * (cr - 1),
    ;
}

/// Beyond an amount whose profit is clearly below that of a smaller amount, no
/// amount makes more.
proof fn lemma_falls_after(c: Cycle, l: int, r: int, h: int)
    requires
        1 <= l < r < h < c.buy_b,
        c.gain(l, SCALE as int) >= c.gain(r, SCALE as int) + 2,
    ensures
        c.gain(h, SCALE as int) <= c.gain(r, SCALE as int) + 1,
{
    lemma_three_points(c, l, r, h);
    let gl = c.gain(l, SCALE as int);
    let gr = c.gain(r, SCALE as int);
    let gh = c.gain(h, SCALE as int);
    assert(gh < gr + 2) by (nonlinear_arith)
        requires
            (h - r) * gl + (r - l) * gh < (h - l) * (gr + 2),
            gl >= gr + 2,
            l < r < h,
    {
        let t = gr + 2;
        assert((h - r) * gl >= (h - r) * t);
        assert((h - l) * t == (h - r) * t + (r - l) * t);
        assert((r - l) * gh < (r - l) * t);
    }
}

/// Before an amount whose profit is clearly below that of a larger amount, no
/// amount makes more.
proof fn lemma_rises_before(c: Cycle, l: int, r: int, h: int)
    requires
        1 <= l < r < h < c.buy_b,
        c.gain(h, SCALE as int) >= c.gain(r, SCALE as int) + 2,
    ensures
        c.gain(l, SCALE as int) <= c.gain(r, SCALE as int) + 1,
{
    lemma_three_points(c, l, r, h);
    let gl = c.gain(l, SCALE as int);
    let gr = c.gain(r, SCALE as int);
    let gh = c.gain(h, SCALE as int);
    assert(gl < gr + 2) by (nonlinear_arith)
        requires
            (h - r) * gl + (r - l) * gh < (h - l) * (gr + 2),
            gh >= gr + 2,
            l < r < h,
    {
        let t = gr + 2;
        assert((r - l) * gh >= (r - l) * t);
        assert((h - l) * t == (h - r) * t + (r - l) * t);
        assert((h - r) * gl < (h - r) * t);
    }
}

/// A whole number of lamports is never more than its parts make up.
proof fn lemma_whole_lamports(c: Cycle, b: int)
    requires
        1 <= b < c.buy_b,
    ensures
        c.gain(b, 1) * SCALE <= c.gain(b, SCALE as int),
{
    let s = SCALE as int;
    let m = FEE_MULT as int;
    let n = 1 * m * c.sell_a * b;
    let k = c.sell_b * FEE_DENOM + b * m;
    assert(s * m * c.sell_a * b == n * s) by (nonlinear_arith)
        requires
            n == 1 * m * c.sell_a * b,
    ;
    assert(k > 0) by (nonlinear_arith)
        requires
            k == c.sell_b * FEE_DENOM + b * m,
            b >= 1,
            m == 9_970,
    ;
    let p = n / k;
    lemma_floor(n, k);
    lemma_quotient_at_least(n * s, k, p * s);
    assert(n * s >= (p * s) * k) by (nonlinear_arith)
        requires
            n >= p * k,
            s >= 0,
    ;
    let cn = 1 * FEE_DENOM * c.buy_a * b;
    let ck = m * (c.buy_b - b);
    assert(s * FEE_DENOM * c.buy_a * b == cn * s) by (nonlinear_arith)
        requires
            cn == 1 * FEE_DENOM * c.buy_a * b,
    ;
    assert(ck > 0) by (nonlinear_arith)
        requires
            ck == m * (c.buy_b - b),
            c.buy_b - b > 0,
            m == 9_970,
    ;
    let q = div_up(cn, ck);
    lemma_ceil(cn, ck);
    lemma_ceil_at_most(cn * s, ck, q * s);
    assert(cn * s <= (q * s) * ck) by (nonlinear_arith)
        requires
            cn <= q * ck,
            s >= 0,
    ;
    assert((p - q) * s == p * s - q * s) by (nonlinear_arith);
}

/// What an amount sells for is what the second swap pays.
pub proof fn lemma_proceeds_are_sold(c: Cycle, b: int)
    requires
        b >= 1,
    ensures
        c.proceeds(b, 1) == c.sold(b),
        c.proceeds(b, 1) >= 0,
{
    let m = FEE_MULT as int;
    assert(c.sell_a * b * m == 1 * m * c.sell_a * b) by (nonlinear_arith);
    let k = c.sell_b * FEE_DENOM + b * m;
    assert(k > 0) by (nonlinear_arith)
        requires
            k == c.sell_b * FEE_DENOM + b * m,
            b >= 1,
            m == 9_970,
    ;
    let n = c.sell_a * b * m;
    assert(n >= 0) by (nonlinear_arith)
        requires
            n == c.sell_a * b * m,
            b >= 1,
            m == 9_970,
    ;
    lemma_div_pos_is_pos(n, k);
}

/// Selling more never brings in less.
proof fn lemma_proceeds_are_monotone(c: Cycle, b: int, more: int)
    requires
        1 <= b <= more <= u64::MAX,
    ensures
        c.proceeds(b, 1) <= c.proceeds(more, 1),
{
    lemma_proceeds_are_sold(c, b);
    lemma_proceeds_are_sold(c, more);
    law_swap_is_monotone(c.sell_b, c.sell_a, b as u64, more as u64, FEE_BPS, FEE_DENOM);
}

/// An input buys at least `b` exactly if it affords `b`, which it does exactly
/// if it covers the cost.
pub proof fn lemma_bought_if_affordable(c: Cycle, input: int, b: int)
    requires
        c.buy_a > 0,
        input >= 0,
        b >= 1,
    ensures
        c.bought(input) >= b <==> c.affordable(b, input),
        b < c.buy_b ==> (c.affordable(b, input) <==> c.cost(b, 1) <= input),
{
    let m = FEE_MULT as int;
    let u = c.buy_a * FEE_DENOM;
    let t = input * m;
    assert(u > 0 && t >= 0) by (nonlinear_arith)
        requires
            u == c.buy_a * FEE_DENOM,
            c.buy_a > 0,
            t == input * m,
            input >= 0,
            m == 9_970,
    ;
    lemma_swap_pays_at_least(
        c.buy_a as int,
        c.buy_b as int,
        input,
        FEE_BPS as int,
        FEE_DENOM as int,
        b,
    );
    assert(b * u <= (c.buy_b - b) * t ==> b < c.buy_b) by (nonlinear_arith)
        requires
            u > 0,
            t >= 0,
            b >= 1,
    {
        assert(b * u > 0);
        if b >= c.buy_b {
            assert((c.buy_b - b) * t <= 0);
        }
    }
    if b < c.buy_b {
        let n = 1 * FEE_DENOM * c.buy_a * b;
        let k = m * (c.buy_b - b);
        assert(k > 0) by (nonlinear_arith)
            requires
                k == m * (c.buy_b - b),
                c.buy_b - b > 0,
                m == 9_970,
        ;
        lemma_ceil_at_most(n, k, input);
        assert(n == b * u) by (nonlinear_arith)
            requires
                n == 1 * FEE_DENOM * c.buy_a * b,
                u == c.buy_a * FEE_DENOM,
        ;
        assert(input * k == (c.buy_b - b) * t) by (nonlinear_arith)
            requires
                k == m * (c.buy_b - b),
                t == input * m,
        ;
    }
}

/// A smaller amount is affordable too, and costs no more.
proof fn lemma_cost_is_monotone(c: Cycle, max_input: int, b: int, more: int)
    requires
        c.buy_a > 0,
        max_input >= 0,
        1 <= b <= more,
        c.affordable(more, max_input),
    ensures
        c.affordable(b, max_input),
        1 <= c.cost(b, 1) <= c.cost(more, 1) <= max_input,
{
    lemma_bought_if_affordable(c, max_input, more);
    lemma_bought_if_affordable(c, max_input, b);
    let k = FEE_MULT * (c.buy_b - more);
    let n = 1 * FEE_DENOM * c.buy_a * more;
    let kb = FEE_MULT * (c.buy_b - b);
    let nb = 1 * FEE_DENOM * c.buy_a * b;
    assert(nb > 0 && n > 0) by (nonlinear_arith)
        requires
            n == 1 * FEE_DENOM * c.buy_a * more,
            nb == 1 * FEE_DENOM * c.buy_a * b,
            c.buy_a > 0,
            b >= 1,
            more >= 1,
            FEE_DENOM == 10_000,
    {
        assert(FEE_DENOM * c.buy_a > 0);
    }
    lemma_ceil(nb, kb);
    lemma_ceil(n, k);
    let cost = c.cost(more, 1);
    let cost_b = c.cost(b, 1);
    assert(cost_b > 0) by (nonlinear_arith)
        requires
            nb <= cost_b * kb,
            nb > 0,
            kb > 0,
    ;
    assert(cost > 0) by (nonlinear_arith)
        requires
            n <= cost * k,
            n > 0,
            k > 0,
    ;
    lemma_bought_if_affordable(c, cost, more);
    lemma_bought_if_affordable(c, cost, b);
}

impl Cycle {
    /// What `b` of token B sells for.
    fn proceeds_of(&self, b: u64, scale: u64) -> (value: u128)
        requires
            b >= 1,
            scale <= SCALE,
        ensures
            value == self.proceeds(b as int, scale as int),
            value <= u64::MAX * scale,
    {
        let n: u128 = product(self.sell_a, b);
        let low: u128 = product(self.sell_b, FEE_DENOM);
        let high: u128 = product(b, FEE_MULT);
        let d: u128 = low + high;
        let s: u64 = scale * FEE_MULT;
        proof {
            let k = n as int / d as int;
            assert(low <= u64::MAX * 10_000 && 0 < high <= u64::MAX * 9_970);
            assert(d * s <= u128::MAX / 2) by (nonlinear_arith)
                requires
                    0 <= d <= u64::MAX * 19_970,
                    0 <= s <= 0x1_0000_0000 * 9_970,
            ;
            lemma_floor(n as int, d as int);
            lemma_div_pos_is_pos(n as int, d as int);
            assert(k * FEE_MULT <= self.sell_a) by (nonlinear_arith)
                requires
                    k * d <= n,
                    n == self.sell_a * b,
                    d == low + high,
                    low >= 0,
                    high == b * FEE_MULT,
                    k >= 0,
                    b >= 1,
            {
                assert(k * high <= k * d);
                assert(k * high == (k * FEE_MULT) * b);
                if k * FEE_MULT > self.sell_a {
                    assert((k * FEE_MULT) * b >= (self.sell_a + 1) * b);
                    assert((self.sell_a + 1) * b > self.sell_a * b);
                }
            }
            assert(k * s <= u64::MAX * 0x1_0000_0000) by (nonlinear_arith)
                requires
                    k * FEE_MULT <= u64::MAX,
                    k >= 0,
                    s == scale * FEE_MULT,
                    0 <= scale <= 0x1_0000_0000,
            {
                assert(k * s == (k * FEE_MULT) * scale);
            }
            assert(n * s == scale * FEE_MULT * self.sell_a * b) by (nonlinear_arith)
                requires
                    n == self.sell_a * b,
                    s == scale * FEE_MULT,
            ;
            // The whole is at most the reserve, in parts.
            lemma_quotient_at_least(n * s, d as int, u64::MAX * scale + 1);
            assert(n * s < (u64::MAX * scale + 1) * d) by (nonlinear_arith)
                requires
                    n == self.sell_a * b,
                    s == scale * FEE_MULT,
                    0 <= scale,
                    d == low + high,
                    low >= 0,
                    high == b * FEE_MULT,
                    high > 0,
            {
                assert(n * s == (self.sell_a * scale) * high);
                assert(self.sell_a * scale <= u64::MAX * scale);
                assert((self.sell_a * scale) * high <= (u64::MAX * scale) * high);
                assert((u64::MAX * scale) * high <= (u64::MAX * scale) * d);
            }
        }
        scaled_down(n, s, d)
    }

    /// What `b` of token B costs.
    fn cost_of(&self, b: u64, max_input: u64, scale: u64) -> (value: u128)
        requires
            self.affordable(b as int, max_input as int),
            1 <= scale <= SCALE,
        ensures
            value == self.cost(b as int, scale as int),
            value <= max_input * scale,
    {
        let n: u128 = product(self.buy_a, b);
        let d: u128 = product(FEE_MULT, self.buy_b - b);
        let s: u64 = scale * FEE_DENOM;
        proof {
            let k = n as int / d as int;
            assert(0 < d <= u64::MAX * 9_970);
            assert(d * s + d <= u128::MAX / 2) by (nonlinear_arith)
                requires
                    0 <= d <= u64::MAX * 9_970,
                    0 <= s <= 0x1_0000_0000 * 10_000,
            ;
            assert(n * FEE_DENOM <= max_input * d) by (nonlinear_arith)
                requires
                    b * (self.buy_a * FEE_DENOM) <= (self.buy_b - b) * (max_input * FEE_MULT),
                    n == self.buy_a * b,
                    d == FEE_MULT * (self.buy_b - b),
            ;
            lemma_floor(n as int, d as int);
            lemma_div_pos_is_pos(n as int, d as int);
            assert(k * FEE_DENOM <= max_input) by (nonlinear_arith)
                requires
                    k * d <= n,
                    n * FEE_DENOM <= max_input * d,
                    d > 0,
            {
                assert((k * FEE_DENOM) * d <= max_input * d);
            }
            assert(k * s <= u64::MAX * 0x1_0000_0000) by (nonlinear_arith)
                requires
                    k * FEE_DENOM <= u64::MAX,
                    k >= 0,
                    s == scale * FEE_DENOM,
                    0 <= scale <= 0x1_0000_0000,
            {
                assert(k * s == (k * FEE_DENOM) * scale);
            }
            assert(n * s == scale * FEE_DENOM * self.buy_a * b) by (nonlinear_arith)
                requires
                    n == self.buy_a * b,
                    s == scale * FEE_DENOM,
            ;
            lemma_ceil_at_most(n * s, d as int, max_input * scale);
            assert(n * s <= (max_input * scale) * d) by (nonlinear_arith)
                requires
                    n * FEE_DENOM <= max_input * d,
                    s == scale * FEE_DENOM,
                    0 <= scale,
            {
                assert(n * s == (n * FEE_DENOM) * scale);
                assert((n * FEE_DENOM) * scale <= (max_input * d) * scale);
            }
        }
        scaled_up(n, s, d)
    }

    /// The profit of `b` of token B, in the finest parts.
    fn gain_of(&self, b: u64, max_input: u64) -> (value: i128)
        requires
            self.affordable(b as int, max_input as int),
        ensures
            value == self.gain(b as int, SCALE as int),
            -0x1_0000_0000_0000_0000_0000_0000 <= value <= 0x1_0000_0000_0000_0000_0000_0000,
    {
        let proceeds: u128 = self.proceeds_of(b, SCALE);
        let cost: u128 = self.cost_of(b, max_input, SCALE);
        proof {
            assert(u64::MAX * SCALE < 0x1_0000_0000_0000_0000_0000_0000);
            assert(max_input * SCALE <= u64::MAX * SCALE) by (nonlinear_arith)
                requires
                    max_input <= u64::MAX,
                    SCALE == 0x1_0000_0000,
            ;
        }
        (proceeds as i128) - (cost as i128)
    }
}

/// On a plateau no amount makes much more: three amounts at equal distances whose
/// profits differ by less than two bound the profit of every amount within five
/// distances of the middle one.
proof fn lemma_plateau(c: Cycle, l: int, r: int, h: int, b: int)
    requires
        1 <= l < r < h < c.buy_b,
        r - l == h - r,
        1 <= b < c.buy_b,
        -5 * (r - l) <= b - r <= 5 * (r - l),
        c.gain(r, SCALE as int) <= c.gain(l, SCALE as int) + 1,
        c.gain(r, SCALE as int) <= c.gain(h, SCALE as int) + 1,
    ensures
        c.gain(b, SCALE as int) <= c.gain(r, SCALE as int) + 17,
{
    let gb = c.gain(b, SCALE as int);
    let gr = c.gain(r, SCALE as int);
    let step = r - l;
    if b < r {
        lemma_three_points(c, b, r, h);
        let gh = c.gain(h, SCALE as int);
        let w = r - b;
        assert(gb < gr + 18) by (nonlinear_arith)
            requires
                step * gb + w * gh < (step + w) * (gr + 2),
                0 < w <= 5 * step,
                gh >= gr - 1,
        {
            assert(w * gh >= w * (gr - 1));
            assert((step + w) * (gr + 2) - w * (gr - 1) == step * (gr + 2) + 3 * w);
            assert(step * gb < step * (gr + 2) + 15 * step);
            assert(step * gb < step * (gr + 17));
        }
    } else if b > r {
        lemma_three_points(c, l, r, b);
        let gl = c.gain(l, SCALE as int);
        let w = b - r;
        assert(gb < gr + 18) by (nonlinear_arith)
            requires
                w * gl + step * gb < (w + step) * (gr + 2),
                0 < w <= 5 * step,
                gl >= gr - 1,
        {
            assert(w * gl >= w * (gr - 1));
            assert((w + step) * (gr + 2) - w * (gr - 1) == step * (gr + 2) + 3 * w);
            assert(step * gb < step * (gr + 2) + 15 * step);
            assert(step * gb < step * (gr + 17));
        }
    }
}

impl Cycle {
    /// An amount between `first` and `last` with about the best profit, and a bound
    /// that no amount between them exceeds.
    fn summit(&self, first: u64, last: u64, max_input: u64) -> (found: (u64, i128))
        requires
            self.buy_a > 0,
            1 <= first <= last,
            self.affordable(last as int, max_input as int),
        ensures
            first <= found.0 <= last,
            forall|b: int|
                first <= b <= last ==> #[trigger] self.gain(b, SCALE as int) <= found.1,
            found.1 <= 0x1_0000_0000_0000_0000_0000_0100,
    {
        proof {
            lemma_cost_is_monotone(*self, max_input as int, first as int, last as int);
        }
        let mut peak: u64 = first;
        let mut best: i128 = self.gain_of(first, max_input);
        let mut lo: u64 = first;
        let mut hi: u64 = last;
        while lo <= hi
            invariant
                self.buy_a > 0,
                1 <= first <= lo,
                lo <= last + 1,
                hi <= last,
                first <= peak <= last,
                last < u64::MAX,
                self.affordable(last as int, max_input as int),
                best == self.gain(peak as int, SCALE as int),
                best <= 0x1_0000_0000_0000_0000_0000_0000,
                forall|b: int|
                    first <= b < lo ==> #[trigger] self.gain(b, SCALE as int) <= best,
                forall|b: int|
                    hi < b <= last ==> #[trigger] self.gain(b, SCALE as int) <= best,
            decreases hi + 1 - lo,
        {
            if hi - lo < 4 {
                proof {
                    lemma_cost_is_monotone(*self, max_input as int, lo as int, last as int);
                }
                let value: i128 = self.gain_of(lo, max_input);
                if value > best {
                    best = value;
                    peak = lo;
                }
                lo = lo + 1;
            } else {
                let step: u64 = (hi - lo) / 4;
                let left: u64 = lo + step;
                let mid: u64 = left + step;
                let right: u64 = mid + step;
                proof {
                    lemma_cost_is_monotone(*self, max_input as int, left as int, last as int);
                    lemma_cost_is_monotone(*self, max_input as int, mid as int, last as int);
                    lemma_cost_is_monotone(*self, max_input as int, right as int, last as int);
                }
                let at_left: i128 = self.gain_of(left, max_input);
                let at_mid: i128 = self.gain_of(mid, max_input);
                let at_right: i128 = self.gain_of(right, max_input);
                if at_left > best {
                    best = at_left;
                    peak = left;
                }
                if at_mid > best {
                    best = at_mid;
                    peak = mid;
                }
                if at_right > best {
                    best = at_right;
                    peak = right;
                }
                if at_left >= at_mid + 2 {
                    proof {
                        assert forall|b: int| mid - 1 < b <= last implies #[trigger] self.gain(
                            b,
                            SCALE as int,
                        ) <= best by {
                            if b > mid {
                                lemma_falls_after(*self, left as int, mid as int, b);
                            }
                        }
                    }
                    hi = mid - 1;
                } else if at_right >= at_mid + 2 {
                    proof {
                        assert forall|b: int| first <= b < mid + 1 implies #[trigger] self.gain(
                            b,
                            SCALE as int,
                        ) <= best by {
                            if b < mid {
                                lemma_rises_before(*self, b, mid as int, right as int);
                            }
                        }
                    }
                    lo = mid + 1;
                } else if at_mid >= at_left + 2 {
                    proof {
                        assert forall|b: int| first <= b < left + 1 implies #[trigger] self.gain(
                            b,
                            SCALE as int,
                        ) <= best by {
                            if b < left {
                                lemma_rises_before(*self, b, left as int, mid as int);
                            }
                        }
                    }
                    lo = left + 1;
                } else if at_mid >= at_right + 2 {
                    proof {
                        assert forall|b: int| right - 1 < b <= last implies #[trigger] self.gain(
                            b,
                            SCALE as int,
                        ) <= best by {
                            if b > right {
                                lemma_falls_after(*self, mid as int, right as int, b);
                            }
                        }
                    }
                    hi = right - 1;
                } else {
                    let bound: i128 = best + 17;
                    proof {
                        assert forall|b: int| first <= b <= last implies #[trigger] self.gain(
                            b,
                            SCALE as int,
                        ) <= bound by {
                            if lo <= b <= hi {
                                lemma_plateau(*self, left as int, mid as int, right as int, b);
                            }
                        }
                    }
                    return (peak, bound);
                }
            }
        }
        (peak, best)
    }
}

/// The least input that buys `b` buys `top`, and no amount from `b` to `top`
/// makes more than `top` does.
proof fn lemma_same_input(c: Cycle, max_input: int, b: int, top: int, last: int)
    requires
        c.buy_a > 0,
        0 <= max_input <= u64::MAX,
        last == c.bought(max_input),
        1 <= b <= last,
        top == c.bought(c.cost(b, 1)),
    ensures
        b <= top <= last,
        1 <= c.cost(b, 1) <= max_input,
        c.affordable(top, max_input),
        c.cost(top, 1) == c.cost(b, 1),
        forall|k: int|
            b <= k <= top ==> #[trigger] c.gain(k, 1) <= c.sold(top) - c.cost(b, 1),
{
    let input = c.cost(b, 1);
    lemma_bought_if_affordable(c, max_input, last);
    lemma_cost_is_monotone(c, max_input, b, last);
    lemma_bought_if_affordable(c, input, b);
    law_swap_is_monotone(
        c.buy_a,
        c.buy_b,
        input as u64,
        max_input as u64,
        FEE_BPS,
        FEE_DENOM,
    );
    lemma_cost_is_monotone(c, max_input, top, last);
    lemma_bought_if_affordable(c, input, top);
    lemma_cost_is_monotone(c, max_input, b, top);
    lemma_proceeds_are_sold(c, top);
    assert forall|k: int| b <= k <= top implies #[trigger] c.gain(k, 1) <= c.sold(top) - input by {
        lemma_cost_is_monotone(c, max_input, k, top);
        lemma_cost_is_monotone(c, max_input, b, k);
        lemma_proceeds_are_monotone(c, k, top);
    }
}

/// Where the profit in parts is below a whole lamport more than `best`, the
/// profit in lamports is at most `best`.
proof fn lemma_no_better(c: Cycle, b: int, best: int)
    requires
        1 <= b < c.buy_b,
        c.gain(b, SCALE as int) < (best + 1) * SCALE,
    ensures
        c.gain(b, 1) <= best,
{
    lemma_whole_lamports(c, b);
    let g = c.gain(b, 1);
    assert(g < best + 1) by (nonlinear_arith)
        requires
            g * SCALE < (best + 1) * SCALE,
            SCALE > 0,
    ;
}

/// One lamport more than `best`, in parts.
fn next_lamport(best: i128) -> (target: i128)
    requires
        -u64::MAX - 1 <= best <= u64::MAX,
    ensures
        target == (best + 1) * SCALE,
{
    (best + 1) * 0x1_0000_0000
}

impl Cycle {
    /// The least input that makes as much as `input`, where none makes more.
    ///
    /// Below an amount whose profit is clearly too low every amount is too low, so
    /// bisection tells where to begin. From there the amounts are tried upwards.
    fn least_input(&self, first: u64, last: u64, max_input: u64, input: u64) -> (least: u64)
        requires
            self.buy_a > 0,
            1 <= first <= last,
            last == self.bought(max_input as int),
            1 <= input <= max_input,
            first <= self.bought(input as int) <= last,
            forall|b: int|
                first <= b <= last ==> #[trigger] self.gain(b, 1) <= self.sold(
                    self.bought(input as int),
                ) - input,
        ensures
            1 <= least <= max_input,
            first <= self.bought(least as int) <= last,
            self.sold(self.bought(least as int)) - least == self.sold(self.bought(input as int))
                - input,
            forall|b: int|
                first <= b <= last && #[trigger] self.gain(b, 1) == self.sold(
                    self.bought(least as int),
                ) - least ==> self.cost(b, 1) >= least,
    {
        let known: u64 = compute_output(self.buy_a, self.buy_b, input, FEE_BPS, FEE_DENOM);
        let best: i128 = (self.proceeds_of(known, 1) as i128) - (input as i128);
        let target: i128 = next_lamport(best - 1);
        proof {
            lemma_bought_if_affordable(*self, max_input as int, last as int);
            lemma_cost_is_monotone(*self, max_input as int, known as int, last as int);
            lemma_bought_if_affordable(*self, input as int, known as int);
            lemma_proceeds_are_sold(*self, known as int);
            lemma_whole_lamports(*self, known as int);
            assert(self.gain(known as int, 1) == best);
        }
        let mut lo: u64 = first;
        let mut hi: u64 = known;
        while lo < hi
            invariant
                self.buy_a > 0,
                1 <= first <= lo <= hi <= known <= last,
                self.affordable(last as int, max_input as int),
                target == best * SCALE,
                self.gain(known as int, SCALE as int) >= target,
                forall|k: int| first <= k < lo ==> #[trigger] self.gain(k, 1) < best,
            decreases hi - lo,
        {
            let mid: u64 = lo + (hi - lo) / 2;
            proof {
                lemma_cost_is_monotone(*self, max_input as int, mid as int, last as int);
            }
            let here: i128 = self.gain_of(mid, max_input);
            if here + 2 <= target {
                proof {
                    assert forall|k: int| first <= k < mid + 1 implies #[trigger] self.gain(k, 1)
                        < best by {
                        if k < mid {
                            lemma_rises_before(*self, k, mid as int, known as int);
                        }
                        lemma_no_better(*self, k, best - 1);
                    }
                }
                lo = mid + 1;
            } else {
                hi = mid;
            }
        }
        let mut b: u64 = lo;
        loop
            invariant
                self.buy_a > 0,
                1 <= first <= b <= known <= last,
                last == self.bought(max_input as int),
                self.affordable(last as int, max_input as int),
                self.gain(known as int, 1) == best,
                best == self.sold(self.bought(input as int)) - input,
                forall|k: int| first <= k <= last ==> #[trigger] self.gain(k, 1) <= best,
                forall|k: int| first <= k < b ==> #[trigger] self.gain(k, 1) < best,
            decreases known - b,
        {
            proof {
                lemma_cost_is_monotone(*self, max_input as int, b as int, last as int);
            }
            let price: u64 = self.cost_of(b, max_input, 1) as u64;
            let top: u64 = compute_output(self.buy_a, self.buy_b, price, FEE_BPS, FEE_DENOM);
            proof {
                lemma_same_input(*self, max_input as int, b as int, top as int, last as int);
                lemma_proceeds_are_sold(*self, top as int);
            }
            let profit: i128 = (self.proceeds_of(top, 1) as i128) - (price as i128);
            if profit == best {
                proof {
                    assert forall|k: int|
                        first <= k <= last && #[trigger] self.gain(k, 1) == best implies self.cost(
                        k,
                        1,
                    ) >= price by {
                        lemma_cost_is_monotone(*self, max_input as int, k, last as int);
                        lemma_cost_is_monotone(*self, max_input as int, b as int, k);
                    }
                }
                return price;
            }
            assert(self.gain(top as int, 1) == profit);
            b = top + 1;
        }
    }

    /// The least input with the best profit among those that buy `first` to `last`
    /// of token B, where `last` is what `max_input` buys.
    pub(crate) fn least_best_input(&self, first: u64, last: u64, max_input: u64) -> (input: u64)
        requires
            self.buy_a > 0,
            1 <= first <= last,
            last == self.bought(max_input as int),
        ensures
            1 <= input <= max_input,
            first <= self.bought(input as int) <= last,
            forall|b: int|
                first <= b <= last ==> #[trigger] self.gain(b, 1) <= self.sold(
                    self.bought(input as int),
                ) - input,
            forall|b: int|
                first <= b <= last && #[trigger] self.gain(b, 1) == self.sold(
                    self.bought(input as int),
                ) - input ==> self.cost(b, 1) >= input,
    {
        let input: u64 = self.best_input(first, last, max_input);
        self.least_input(first, last, max_input, input)
    }

    /// An input with the best profit among those that buy `first` to `last` of
    /// token B, where `last` is what `max_input` buys.
    ///
    /// The amounts are tried from the summit outwards, one for every input. A
    /// side is done where the profit has fallen too far, and the search is done
    /// once the bound is reached.
    fn best_input(&self, first: u64, last: u64, max_input: u64) -> (input: u64)
        requires
            self.buy_a > 0,
            1 <= first <= last,
            last == self.bought(max_input as int),
        ensures
            1 <= input <= max_input,
            first <= self.bought(input as int) <= last,
            forall|b: int|
                first <= b <= last ==> #[trigger] self.gain(b, 1) <= self.sold(
                    self.bought(input as int),
                ) - input,
    {
        proof {
            lemma_bought_if_affordable(*self, max_input as int, last as int);
        }
        let (peak, bound): (u64, i128) = self.summit(first, last, max_input);
        proof {
            lemma_cost_is_monotone(*self, max_input as int, peak as int, last as int);
        }
        let at_peak: i128 = self.gain_of(peak, max_input);
        let mut input: u64 = self.cost_of(peak, max_input, 1) as u64;
        let mut best: i128 = i128::MIN;
        let mut b: u64 = peak;
        while b <= last
            invariant_except_break
                b > peak ==> {
                    &&& 1 <= input <= max_input
                    &&& first <= self.bought(input as int) <= last
                    &&& best == self.sold(self.bought(input as int)) - input
                    &&& -u64::MAX <= best <= u64::MAX
                },
                forall|k: int| peak <= k < b ==> #[trigger] self.gain(k, 1) <= best,
            invariant
                self.buy_a > 0,
                1 <= first <= peak <= b <= last + 1,
                peak <= last < u64::MAX,
                last == self.bought(max_input as int),
                self.affordable(last as int, max_input as int),
                at_peak == self.gain(peak as int, SCALE as int),
                -0x1_0000_0000_0000_0000_0000_0000 <= at_peak
                    <= 0x1_0000_0000_0000_0000_0000_0000,
                forall|k: int|
                    first <= k <= last ==> #[trigger] self.gain(k, SCALE as int) <= bound,
            ensures
                1 <= input <= max_input,
                first <= self.bought(input as int) <= last,
                best == self.sold(self.bought(input as int)) - input,
                -u64::MAX <= best <= u64::MAX,
                forall|k: int| peak <= k <= last ==> #[trigger] self.gain(k, 1) <= best,
            decreases last + 1 - b,
        {
            proof {
                lemma_cost_is_monotone(*self, max_input as int, b as int, last as int);
            }
            let price: u64 = self.cost_of(b, max_input, 1) as u64;
            let top: u64 = compute_output(self.buy_a, self.buy_b, price, FEE_BPS, FEE_DENOM);
            proof {
                lemma_same_input(
                    *self,
                    max_input as int,
                    b as int,
                    top as int,
                    last as int,
                );
                lemma_proceeds_are_sold(*self, top as int);
            }
            let profit: i128 = (self.proceeds_of(top, 1) as i128) - (price as i128);
            if b == peak || profit > best {
                best = profit;
                input = price;
            }
            assert(forall|k: int| peak <= k <= top ==> #[trigger] self.gain(k, 1) <= best);
            let target: i128 = next_lamport(best);
            if bound < target {
                proof {
                    assert forall|k: int| first <= k <= last implies #[trigger] self.gain(k, 1)
                        <= best by {
                        lemma_no_better(*self, k, best as int);
                    }
                }
                return input;
            }
            if top > peak {
                let here: i128 = self.gain_of(top, max_input);
                if at_peak >= here + 2 && here + 1 < target {
                    proof {
                        assert forall|k: int| peak <= k <= last implies #[trigger] self.gain(k, 1)
                            <= best by {
                            if k > top {
                                lemma_falls_after(*self, peak as int, top as int, k);
                                lemma_no_better(*self, k, best as int);
                            }
                        }
                    }
                    break;
                }
            }
            b = top + 1;
        }
        let mut low: u64 = peak;
        while low > first
            invariant
                self.buy_a > 0,
                1 <= first <= low <= peak <= last,
                last == self.bought(max_input as int),
                self.affordable(last as int, max_input as int),
                at_peak == self.gain(peak as int, SCALE as int),
                -0x1_0000_0000_0000_0000_0000_0000 <= at_peak
                    <= 0x1_0000_0000_0000_0000_0000_0000,
                forall|k: int|
                    first <= k <= last ==> #[trigger] self.gain(k, SCALE as int) <= bound,
                1 <= input <= max_input,
                first <= self.bought(input as int) <= last,
                best == self.sold(self.bought(input as int)) - input,
                -u64::MAX <= best <= u64::MAX,
                forall|k: int| low <= k <= last ==> #[trigger] self.gain(k, 1) <= best,
            ensures
                1 <= input <= max_input,
                first <= self.bought(input as int) <= last,
                best == self.sold(self.bought(input as int)) - input,
                forall|k: int| first <= k <= last ==> #[trigger] self.gain(k, 1) <= best,
            decreases low,
        {
            proof {
                lemma_cost_is_monotone(*self, max_input as int, low as int, last as int);
            }
            let price: u64 = self.cost_of(low, max_input, 1) as u64;
            let next: u64 = compute_output(self.buy_a, self.buy_b, price - 1, FEE_BPS, FEE_DENOM);
            proof {
                lemma_bought_if_affordable(*self, price - 1, low as int);
                // Between the two, every amount costs as much as `low` and sells for less.
                assert forall|k: int| next < k < low && first <= k implies #[trigger] self.gain(k, 1)
                    <= best by {
                    lemma_cost_is_monotone(*self, max_input as int, k, last as int);
                    lemma_bought_if_affordable(*self, price - 1, k);
                    lemma_proceeds_are_monotone(*self, k, low as int);
                    assert(self.gain(low as int, 1) <= best);
                }
            }
            if next < first {
                break;
            }
            proof {
                lemma_cost_is_monotone(*self, max_input as int, next as int, last as int);
            }
            let less: u64 = self.cost_of(next, max_input, 1) as u64;
            let profit: i128 = (self.proceeds_of(next, 1) as i128) - (less as i128);
            proof {
                let top = self.bought(less as int);
                lemma_same_input(*self, max_input as int, next as int, top, last as int);
                lemma_proceeds_are_sold(*self, next as int);
                lemma_bought_if_affordable(*self, price - 1, next as int);
                law_swap_is_monotone(
                    self.buy_a,
                    self.buy_b,
                    less,
                    (price - 1) as u64,
                    FEE_BPS,
                    FEE_DENOM,
                );
            }
            if profit > best {
                best = profit;
                input = less;
            }
            let target: i128 = next_lamport(best);
            if bound < target {
                proof {
                    assert forall|k: int| first <= k <= last implies #[trigger] self.gain(k, 1)
                        <= best by {
                        lemma_no_better(*self, k, best as int);
                    }
                }
                return input;
            }
            let here: i128 = self.gain_of(next, max_input);
            if at_peak >= here + 2 && here + 1 < target {
                proof {
                    assert forall|k: int| first <= k <= last implies #[trigger] self.gain(k, 1)
                        <= best by {
                        if k < next {
                            lemma_rises_before(*self, k, next as int, peak as int);
                            lemma_no_better(*self, k, best as int);
                        }
                    }
                }
                break;
            }
            low = next;
        }
        input
    }
}

} // verus!
