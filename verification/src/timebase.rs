//! Time bases and exact timestamp conversion between them.

use vstd::arithmetic::div_mod::lemma_div_is_ordered;
use vstd::arithmetic::div_mod::lemma_fundamental_div_mod;
use vstd::arithmetic::div_mod::lemma_fundamental_div_mod_converse;
use vstd::arithmetic::div_mod::lemma_mod_bound;
use vstd::prelude::*;

verus! {

/// A rational number `num / den`. As a time base it is the duration, in
/// seconds, of one timestamp unit of a stream or codec context; the same type
/// carries frame rates and aspect ratios.
#[derive(Clone, Copy, Debug, PartialEq, Eq, Structural)]
pub struct Rational {
    pub num: i32,
    pub den: i32,
}

pub type TimeBase = Rational;

impl Rational {
    /// A time base that timestamps can be converted from and to: both parts
    /// are positive.
    pub open spec fn valid(self) -> bool {
        self.num > 0 && self.den > 0
    }

    /// The rational `num / den`.
    pub fn new(num: i32, den: i32) -> (tb: Rational)
        ensures
            tb.num == num,
            tb.den == den,
    {
        Rational { num, den }
    }

    /// Whether both parts are positive.
    pub fn is_valid(&self) -> (b: bool)
        ensures
            b == self.valid(),
    {
        self.num > 0 && self.den > 0
    }

    /// The reciprocal: a frame rate becomes the duration of one frame.
    pub fn invert(&self) -> (tb: Rational)
        ensures
            tb.num == self.den,
            tb.den == self.num,
    {
        Rational { num: self.den, den: self.num }
    }
}

/// `n / d` rounded to the nearest integer, a tie going to the larger one.
/// Meant for `d > 0`.
pub open spec fn div_round(n: int, d: int) -> int {
    (2 * n + d) / (2 * d)
}

/// The numerator of `value * from / to` as a fraction of integers.
pub open spec fn scaled_num(value: int, from: TimeBase, to: TimeBase) -> int {
    value * (from.num * to.den)
}

/// The denominator of `value * from / to` as a fraction of integers.
pub open spec fn scaled_den(from: TimeBase, to: TimeBase) -> int {
    from.den * to.num
}

/// The timestamp `value`, counted in units of `from`, expressed in units of
/// `to`: the exact rational `value * from / to`, rounded to nearest with ties
/// upward.
pub open spec fn rescaled(value: int, from: TimeBase, to: TimeBase) -> int {
    div_round(scaled_num(value, from, to), scaled_den(from, to))
}

/// What `rescale` returns: the converted timestamp where both bases are valid
/// and the result fits the timestamp type, nothing otherwise.
pub open spec fn rescale_spec(value: i64, from: TimeBase, to: TimeBase) -> Option<i64> {
    if from.valid() && to.valid() && i64::MIN <= rescaled(value as int, from, to) <= i64::MAX {
        Some(rescaled(value as int, from, to) as i64)
    } else {
        None
    }
}

/// `div_round(n, d)` is the integer nearest to `n / d`: it is the only `r`
/// with `2n - d < 2dr <= 2n + d`.
pub proof fn lemma_div_round_nearest(n: int, d: int)
    requires
        d > 0,
    ensures
        2 * n - d < 2 * d * div_round(n, d) <= 2 * n + d,
{
    let t = 2 * n + d;
    let dd = 2 * d;
    lemma_fundamental_div_mod(t, dd);
    lemma_mod_bound(t, dd);
}

/// Any integer within half a unit of `n / d`, ties counted upward, is
/// `div_round(n, d)`.
pub proof fn lemma_div_round_unique(n: int, d: int, r: int)
    requires
        d > 0,
        2 * n - d < 2 * d * r <= 2 * n + d,
    ensures
        r == div_round(n, d),
{
    let t = 2 * n + d;
    let dd = 2 * d;
    let rem = t - 2 * d * r;
    assert(t == r * dd + rem && 0 <= rem < dd) by (nonlinear_arith)
        requires
            rem == t - 2 * d * r,
            dd == 2 * d,
            t == 2 * n + d,
            2 * n - d < 2 * d * r <= 2 * n + d,
    ;
    lemma_fundamental_div_mod_converse(t, dd, r, rem);
}

/// Floor division of an `i128` by a positive divisor.
fn floor_div(t: i128, dd: i128) -> (q: i128)
    requires
        dd > 0,
        t > i128::MIN,
    ensures
        q == t as int / dd as int,
{
    if t >= 0 {
        t / dd
    } else {
        let a: i128 = -t;
        let q0: i128 = a / dd;
        let r0: i128 = a % dd;
        proof {
            lemma_fundamental_div_mod(a as int, dd as int);
            lemma_mod_bound(a as int, dd as int);
        }
        if r0 == 0 {
            proof {
                assert(t as int == (-q0) * dd + 0) by (nonlinear_arith)
                    requires
                        a as int == dd * q0 + r0,
                        r0 == 0,
                        a == -t,
                ;
                lemma_fundamental_div_mod_converse(t as int, dd as int, -(q0 as int), 0);
            }
            -q0
        } else {
            proof {
                assert(t as int == (-q0 - 1) * dd + (dd - r0)) by (nonlinear_arith)
                    requires
                        a as int == dd * q0 + r0,
                        a == -t,
                ;
                lemma_fundamental_div_mod_converse(
                    t as int,
                    dd as int,
                    -(q0 as int) - 1,
                    dd - r0,
                );
            }
            -q0 - 1
        }
    }
}

/// Converts `value` from units of `from` to units of `to` with exact integer
/// arithmetic. Returns nothing where a base is not valid or the result does not
/// fit in 64 bits.
pub fn rescale(value: i64, from: TimeBase, to: TimeBase) -> (r: Option<i64>)
    ensures
        r == rescale_spec(value, from, to),
{
    if !(from.is_valid() && to.is_valid()) {
        return None;
    }
    let fnum: i128 = from.num as i128;
    let tden: i128 = to.den as i128;
    let fden: i128 = from.den as i128;
    let tnum: i128 = to.num as i128;
    assert(0 < fnum * tden <= 0x4000_0000_0000_0000) by (nonlinear_arith)
        requires
            0 < fnum <= 0x7fff_ffff,
            0 < tden <= 0x7fff_ffff,
    ;
    assert(0 < fden * tnum <= 0x4000_0000_0000_0000) by (nonlinear_arith)
        requires
            0 < fden <= 0x7fff_ffff,
            0 < tnum <= 0x7fff_ffff,
    ;
    let m: i128 = fnum * tden;
    let d: i128 = fden * tnum;
    let v: i128 = value as i128;
    assert(-0x2000_0000_0000_0000_0000_0000_0000_0000 <= v * m
        <= 0x2000_0000_0000_0000_0000_0000_0000_0000) by (nonlinear_arith)
        requires
            -0x8000_0000_0000_0000 <= v <= 0x8000_0000_0000_0000,
            0 < m <= 0x4000_0000_0000_0000,
    ;
    let n: i128 = v * m;
    let t: i128 = 2 * n + d;
    let dd: i128 = 2 * d;
    let q: i128 = floor_div(t, dd);
    if q < i64::MIN as i128 || q > i64::MAX as i128 {
        None
    } else {
        Some(q as i64)
    }
}

/// Conversion keeps the order of timestamps: of two timestamps in one base,
/// the later one is not earlier after conversion. Packets written in
/// presentation order therefore leave with non-decreasing timestamps.
pub proof fn lemma_rescale_monotonic(v1: int, v2: int, from: TimeBase, to: TimeBase)
    requires
        from.valid(),
        to.valid(),
        v1 <= v2,
    ensures
        rescaled(v1, from, to) <= rescaled(v2, from, to),
{
    let m = from.num * to.den;
    let d = scaled_den(from, to);
    assert(m > 0 && d > 0) by (nonlinear_arith)
        requires
            from.num > 0,
            to.den > 0,
            from.den > 0,
            to.num > 0,
            m == from.num * to.den,
            d == from.den * to.num,
    ;
    assert(v1 * m <= v2 * m) by (nonlinear_arith)
        requires
            v1 <= v2,
            m > 0,
    ;
    lemma_div_is_ordered(2 * (v1 * m) + d, 2 * (v2 * m) + d, 2 * d);
}

/// A value converted from `a` to `b` and back differs from the original by at
/// most half a unit of `a` plus half a unit of `b`, that is by at most one
/// unit of the coarser base. In units of `a`, with `p = a.num * b.den` and
/// `q = a.den * b.num` (so that `b / a == q / p`): `2p * |back - v| <= p + q`.
pub proof fn lemma_rescale_round_trip(v: int, a: TimeBase, b: TimeBase)
    requires
        a.valid(),
        b.valid(),
    ensures
        ({
            let back = rescaled(rescaled(v, a, b), b, a);
            let p = a.num * b.den;
            let q = a.den * b.num;
            &&& 2 * p * (back - v) <= p + q
            &&& 2 * p * (v - back) < p + q
        }),
{
    let p = a.num * b.den;
    let q = a.den * b.num;
    assert(p > 0 && q > 0) by (nonlinear_arith)
        requires
            a.num > 0,
            b.den > 0,
            a.den > 0,
            b.num > 0,
            p == a.num * b.den,
            q == a.den * b.num,
    ;
    let x = rescaled(v, a, b);
    let back = rescaled(x, b, a);
    assert(b.num * a.den == q && b.den * a.num == p) by (nonlinear_arith)
        requires
            p == a.num * b.den,
            q == a.den * b.num,
    ;
    lemma_div_round_nearest(v * p, q);
    lemma_div_round_nearest(x * q, p);
    assert(2 * p * (back - v) <= p + q && 2 * p * (v - back) < p + q) by (nonlinear_arith)
        requires
            2 * (v * p) - q < 2 * q * x <= 2 * (v * p) + q,
            2 * (x * q) - p < 2 * p * back <= 2 * (x * q) + p,
    ;
}

/// Converting to a base that is at least as fine as the original one and back
/// reproduces the value exactly.
pub proof fn lemma_rescale_round_trip_exact(v: int, a: TimeBase, b: TimeBase)
    requires
        a.valid(),
        b.valid(),
        a.den * b.num <= a.num * b.den,
    ensures
        rescaled(rescaled(v, a, b), b, a) == v,
{
    let p = a.num * b.den;
    let q = a.den * b.num;
    let back = rescaled(rescaled(v, a, b), b, a);
    lemma_rescale_round_trip(v, a, b);
    assert(p > 0 && q > 0) by (nonlinear_arith)
        requires
            a.num > 0,
            b.den > 0,
            a.den > 0,
            b.num > 0,
            p == a.num * b.den,
            q == a.den * b.num,
    ;
    if q == p {
        let x = rescaled(v, a, b);
        assert(2 * (v * p) - p < 2 * p * v <= 2 * (v * p) + p) by (nonlinear_arith)
            requires
                p > 0,
        ;
        lemma_div_round_unique(v * p, q, v);
        assert(b.num * a.den == q && b.den * a.num == p) by (nonlinear_arith)
            requires
                p == a.num * b.den,
                q == a.den * b.num,
        ;
        lemma_div_round_unique(x * q, p, x);
    } else {
        assert(back == v) by (nonlinear_arith)
            requires
                2 * p * (back - v) <= p + q,
                2 * p * (v - back) < p + q,
                0 < q < p,
        ;
    }
}

/// Converting within one base changes nothing.
pub proof fn lemma_rescale_same_base(v: int, a: TimeBase)
    requires
        a.valid(),
    ensures
        rescaled(v, a, a) == v,
{
    let p = a.num * a.den;
    assert(a.den * a.num == p && p > 0) by (nonlinear_arith)
        requires
            p == a.num * a.den,
            a.num > 0,
            a.den > 0,
    ;
    assert(2 * (v * p) - p < 2 * p * v <= 2 * (v * p) + p) by (nonlinear_arith)
        requires
            p > 0,
    ;
    lemma_div_round_unique(v * p, p, v);
}

} // verus!
