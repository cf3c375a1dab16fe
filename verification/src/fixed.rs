//! Fixed-point scalars.
//!
//! Every quantity of the simulation (a coordinate, a speed, a weight, a time
//! step) is an integer count of millionths: the raw value `1_000_000` stands
//! for one world unit, one unit per second, a weight of one, or one second.
//! Contracts speak of raw values as mathematical integers.
//!
//! Quotients are rounded toward zero, so that negating an operand negates the
//! result. Values kept in an agent's state lie within `LIMIT` of zero; an
//! update that would leave that range stops at its edge.

use vstd::arithmetic::div_mod::lemma_fundamental_div_mod;
use vstd::prelude::*;

verus! {

/// Raw units per world unit.
pub const SCALE: i64 = 1_000_000;

/// Largest magnitude of a raw value kept in an agent's state: a million world
/// units.
pub const LIMIT: i64 = 1_000_000_000_000;

/// Whether `x` lies within `LIMIT` of zero.
pub open spec fn in_range(x: int) -> bool {
    -LIMIT <= x <= LIMIT
}

/// `x` moved to the nearest value within `LIMIT` of zero.
pub open spec fn saturate(x: int) -> int {
    if x < -LIMIT {
        -(LIMIT as int)
    } else if x > LIMIT {
        LIMIT as int
    } else {
        x
    }
}

/// The quotient of `n` by a positive `d`, rounded toward zero.
pub open spec fn trunc_div(n: int, d: int) -> int
    recommends
        d > 0,
{
    if n >= 0 {
        n / d
    } else {
        -((-n) / d)
    }
}

/// The product of two fixed-point numbers, as a fixed-point number.
pub open spec fn scaled(a: int, b: int) -> int {
    trunc_div(a * b, SCALE as int)
}

/// Whether `q` is the magnitude of `a` divided by the square root of `n`,
/// rounded down: the greatest natural number whose square times `n` is at
/// most the square of `a`.
pub open spec fn is_root_quotient(a: int, n: int, q: int) -> bool {
    &&& q >= 0
    &&& q * q * n <= a * a
    &&& a * a < (q + 1) * (q + 1) * n
}

/// The magnitude of `a` divided by the square root of a positive `n`,
/// rounded down.
pub open spec fn root_quotient(a: int, n: int) -> int
    recommends
        n > 0,
{
    choose|q: int| is_root_quotient(a, n, q)
}

/// Two to the power 128.
pub open spec fn two_to_128() -> int {
    0x1_0000_0000_0000_0000_0000_0000_0000_0000int
}

/// A natural number below two to the power 256, in two halves.
#[derive(Clone, Copy, Debug)]
pub struct Wide {
    /// The number divided by two to the power 128.
    pub high: u128,
    /// The remainder of that division.
    pub low: u128,
}

impl View for Wide {
    type V = int;

    open spec fn view(&self) -> int {
        self.high * two_to_128() + self.low
    }
}

/// A truncated quotient lies between zero and the exact quotient, less than
/// one away from the latter.
pub proof fn lemma_trunc_div_bounds(n: int, d: int)
    requires
        d > 0,
    ensures
        n >= 0 ==> 0 <= trunc_div(n, d) * d <= n < trunc_div(n, d) * d + d,
        n <= 0 ==> trunc_div(n, d) * d - d < n <= trunc_div(n, d) * d <= 0,
        n >= 0 ==> trunc_div(n, d) >= 0,
        n <= 0 ==> trunc_div(n, d) <= 0,
        trunc_div(-n, d) == -trunc_div(n, d),
{
    if n >= 0 {
        let q = n / d;
        lemma_fundamental_div_mod(n, d);
        assert(q * d == d * q) by (nonlinear_arith);
        assert(q >= 0) by (nonlinear_arith)
            requires
                d > 0,
                d * q + d > 0,
        ;
    }
    if n <= 0 {
        let q = (-n) / d;
        lemma_fundamental_div_mod(-n, d);
        assert(q * d == d * q) by (nonlinear_arith);
        assert((-q) * d == -(d * q)) by (nonlinear_arith);
        assert(q >= 0) by (nonlinear_arith)
            requires
                d > 0,
                d * q + d > 0,
        ;
    }
}

/// A truncated quotient is no larger in magnitude than `bound` when the
/// dividend is no larger than `bound * d`.
pub proof fn lemma_trunc_div_within(n: int, d: int, bound: int)
    requires
        d > 0,
        bound >= 0,
        -(bound * d) <= n <= bound * d,
    ensures
        -bound <= trunc_div(n, d) <= bound,
{
    lemma_trunc_div_bounds(n, d);
    let q = trunc_div(n, d);
    if n >= 0 {
        assert(q <= bound) by (nonlinear_arith)
            requires
                d > 0,
                q * d <= n,
                n <= bound * d,
        ;
    } else {
        assert(q >= -bound) by (nonlinear_arith)
            requires
                d > 0,
                q * d >= n,
                n >= -(bound * d),
        ;
    }
}

/// At most one number is the rounded-down quotient of `a` by the root of a
/// positive `n`.
pub proof fn lemma_root_quotient_unique(a: int, n: int, p: int, q: int)
    requires
        n > 0,
        is_root_quotient(a, n, p),
        is_root_quotient(a, n, q),
    ensures
        p == q,
{
    if p < q {
        assert((p + 1) * (p + 1) * n <= q * q * n) by (nonlinear_arith)
            requires
                0 <= p + 1 <= q,
                n > 0,
        ;
    }
    if q < p {
        assert((q + 1) * (q + 1) * n <= p * p * n) by (nonlinear_arith)
            requires
                0 <= q + 1 <= p,
                n > 0,
        ;
    }
}

/// From a number whose square times `n` is at most the square of `a`, the
/// quotient is found by counting up.
proof fn lemma_root_quotient_search(a: int, n: int, q: int)
    requires
        n > 0,
        q >= 0,
        q * q * n <= a * a,
    ensures
        exists|r: int| is_root_quotient(a, n, r),
    decreases a * a - q,
{
    assert(q <= q * q * n) by (nonlinear_arith)
        requires
            q >= 0,
            n > 0,
    ;
    if a * a < (q + 1) * (q + 1) * n {
        assert(is_root_quotient(a, n, q));
    } else {
        assert(q + 1 <= (q + 1) * (q + 1) * n) by (nonlinear_arith)
            requires
                q >= 0,
                n > 0,
        ;
        lemma_root_quotient_search(a, n, q + 1);
    }
}

/// Every number has a rounded-down quotient by the root of a positive `n`,
/// and `root_quotient` names it.
pub proof fn lemma_root_quotient_exists(a: int, n: int)
    requires
        n > 0,
    ensures
        is_root_quotient(a, n, root_quotient(a, n)),
{
    assert(0 * 0 * n <= a * a) by (nonlinear_arith);
    lemma_root_quotient_search(a, n, 0);
}

/// A number that meets `is_root_quotient` is the rounded-down quotient.
pub proof fn lemma_root_quotient_is(a: int, n: int, q: int)
    requires
        n > 0,
        is_root_quotient(a, n, q),
    ensures
        root_quotient(a, n) == q,
{
    lemma_root_quotient_exists(a, n);
    lemma_root_quotient_unique(a, n, q, root_quotient(a, n));
}

/// `x` moved into the range that an agent's state can hold.
pub fn saturating(x: i128) -> (r: i64)
    ensures
        r == saturate(x as int),
{
    if x < -(LIMIT as i128) {
        -LIMIT
    } else if x > LIMIT as i128 {
        LIMIT
    } else {
        x as i64
    }
}

/// The exact product of two machine integers.
pub fn wide_product(a: i64, b: i64) -> (p: i128)
    ensures
        p == a * b,
        -0x4000_0000_0000_0000_0000_0000_0000_0000 <= p <= 0x4000_0000_0000_0000_0000_0000_0000_0000,
{
    assert(-0x4000_0000_0000_0000_0000_0000_0000_0000 <= a * b
        <= 0x4000_0000_0000_0000_0000_0000_0000_0000) by (nonlinear_arith)
        requires
            -0x8000_0000_0000_0000 <= a <= 0x8000_0000_0000_0000,
            -0x8000_0000_0000_0000 <= b <= 0x8000_0000_0000_0000,
    ;
    (a as i128) * (b as i128)
}

/// The fixed-point product of `a` and `b`.
pub fn scaled_product(a: i64, b: i64) -> (r: i128)
    ensures
        r == scaled(a as int, b as int),
        -0x4000_0000_0000_0000_0000_0000_0000_0000 <= r <= 0x4000_0000_0000_0000_0000_0000_0000_0000,
{
    proof {
        lemma_trunc_div_bounds(a * b, SCALE as int);
    }
    wide_product(a, b) / (SCALE as i128)
}

impl Wide {
    /// The exact product of two machine integers.
    pub fn product(a: u128, b: u128) -> (p: Wide)
        ensures
            p@ == a * b,
    {
        let a0: u128 = a % 0x1_0000_0000_0000_0000;
        let a1: u128 = a / 0x1_0000_0000_0000_0000;
        let b0: u128 = b % 0x1_0000_0000_0000_0000;
        let b1: u128 = b / 0x1_0000_0000_0000_0000;
        proof {
            lemma_half_product(a0 as int, b0 as int);
            lemma_half_product(a0 as int, b1 as int);
            lemma_half_product(a1 as int, b0 as int);
            lemma_half_product(a1 as int, b1 as int);
        }
        let p00: u128 = a0 * b0;
        let p01: u128 = a0 * b1;
        let p10: u128 = a1 * b0;
        let p11: u128 = a1 * b1;
        let t: u128 = p01 + p00 / 0x1_0000_0000_0000_0000;
        let u: u128 = p10 + t % 0x1_0000_0000_0000_0000;
        let low: u128 = (u % 0x1_0000_0000_0000_0000) * 0x1_0000_0000_0000_0000 + p00
            % 0x1_0000_0000_0000_0000;
        let high: u128 = p11 + t / 0x1_0000_0000_0000_0000 + u / 0x1_0000_0000_0000_0000;
        proof {
            lemma_product_of_halves(a1 as int, a0 as int, b1 as int, b0 as int);
        }
        Wide { high, low }
    }

    /// Whether this number is at most `other`.
    pub fn at_most(&self, other: &Wide) -> (b: bool)
        ensures
            b == (self@ <= other@),
    {
        self.high < other.high || (self.high == other.high && self.low <= other.low)
    }
}

/// The product of two numbers below two to the power 64 is at most the
/// square of the greatest of them.
proof fn lemma_half_product(a: int, b: int)
    requires
        0 <= a < 0x1_0000_0000_0000_0000,
        0 <= b < 0x1_0000_0000_0000_0000,
    ensures
        0 <= a * b <= 0xFFFF_FFFF_FFFF_FFFE_0000_0000_0000_0001,
{
    assert(0 <= a * b <= 0xFFFF_FFFF_FFFF_FFFF * 0xFFFF_FFFF_FFFF_FFFF) by (nonlinear_arith)
        requires
            0 <= a <= 0xFFFF_FFFF_FFFF_FFFF,
            0 <= b <= 0xFFFF_FFFF_FFFF_FFFF,
    ;
}

/// A product written out over the halves of its factors.
proof fn lemma_product_of_halves(a1: int, a0: int, b1: int, b0: int)
    ensures
        (a1 * 0x1_0000_0000_0000_0000 + a0) * (b1 * 0x1_0000_0000_0000_0000 + b0) == (a1 * b1)
            * two_to_128() + (a0 * b1) * 0x1_0000_0000_0000_0000 + (a1 * b0)
            * 0x1_0000_0000_0000_0000 + a0 * b0,
{
    let h: int = 0x1_0000_0000_0000_0000;
    lemma_binomial_product(a1, a0, b1, b0, h);
    assert(h * h == two_to_128());
}

/// The product of two sums of a multiple of `h` and a rest.
proof fn lemma_binomial_product(a1: int, a0: int, b1: int, b0: int, h: int)
    ensures
        (a1 * h + a0) * (b1 * h + b0) == (a1 * b1) * (h * h) + (a0 * b1) * h + (a1 * b0) * h + a0
            * b0,
{
    let a = a1 * h + a0;
    let b = b1 * h + b0;
    assert(a * b == (a1 * h) * b + a0 * b) by (nonlinear_arith)
        requires
            a == a1 * h + a0,
    ;
    assert((a1 * h) * b == (a1 * h) * (b1 * h) + (a1 * h) * b0) by (nonlinear_arith)
        requires
            b == b1 * h + b0,
    ;
    assert(a0 * b == a0 * (b1 * h) + a0 * b0) by (nonlinear_arith)
        requires
            b == b1 * h + b0,
    ;
    assert((a1 * h) * (b1 * h) == (a1 * b1) * (h * h)) by (nonlinear_arith);
    assert((a1 * h) * b0 == (a1 * b0) * h) by (nonlinear_arith);
    assert(a0 * (b1 * h) == (a0 * b1) * h) by (nonlinear_arith);
}

/// The magnitude of `a` divided by the square root of `n`, rounded down.
/// `bound` is a number that the quotient cannot exceed.
pub fn root_quotient_of(a: u128, n: u128, bound: u64) -> (q: u64)
    requires
        n > 0,
        a * a < (bound + 1) * (bound + 1) * n,
    ensures
        q == root_quotient(a as int, n as int),
        is_root_quotient(a as int, n as int, q as int),
        q <= bound,
{
    let square: Wide = Wide::product(a, a);
    let mut low: u128 = 0;
    let mut high: u128 = bound as u128 + 1;
    assert(0 * 0 * n <= a * a) by (nonlinear_arith);
    while high - low > 1
        invariant
            low < high <= bound + 1,
            n > 0,
            square@ == a * a,
            low * low * n <= a * a < high * high * n,
        decreases high - low,
    {
        let middle: u128 = low + (high - low) / 2;
        assert(middle * middle <= 0xFFFF_FFFF_FFFF_FFFE_0000_0000_0000_0001) by (nonlinear_arith)
            requires
                0 <= middle <= 0xFFFF_FFFF_FFFF_FFFF,
        ;
        let scaled: Wide = Wide::product(middle * middle, n);
        if scaled.at_most(&square) {
            low = middle;
        } else {
            high = middle;
        }
    }
    proof {
        lemma_root_quotient_is(a as int, n as int, low as int);
    }
    low as u64
}

} // verus!
