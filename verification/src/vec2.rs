//! Plane vectors with fixed-point coordinates.
//!
//! [`Vec2`] is the machine value; its view, [`Vector`], has unbounded integer
//! coordinates and carries the arithmetic that contracts are written in. A
//! vector that is brought to a given length has each coordinate rounded
//! toward zero, by less than one raw unit, whatever its own length was: it
//! never comes out longer than asked, and never shorter by two raw units.

use crate::fixed::{
    is_root_quotient, lemma_root_quotient_exists, lemma_root_quotient_is, root_quotient,
    root_quotient_of, saturate, scaled, scaled_product, trunc_div, wide_product, LIMIT,
};
use vstd::arithmetic::div_mod::lemma_fundamental_div_mod;
use vstd::prelude::*;

verus! {

/// One coordinate of a vector brought to length `length`: the coordinate `x`
/// times `length`, divided by the vector's true length, the square root of
/// `norm_sq`, and rounded toward zero.
pub open spec fn stretched(x: int, length: int, norm_sq: int) -> int {
    if x >= 0 {
        root_quotient(x * length, norm_sq)
    } else {
        -root_quotient(x * length, norm_sq)
    }
}

/// A vector with integer coordinates, in raw units.
pub struct Vector {
    pub x: int,
    pub y: int,
}

impl Vector {
    /// The vector with both coordinates zero.
    pub open spec fn zero() -> Vector {
        Vector { x: 0, y: 0 }
    }

    /// The sum of two vectors.
    pub open spec fn plus(self, other: Vector) -> Vector {
        Vector { x: self.x + other.x, y: self.y + other.y }
    }

    /// The difference of two vectors.
    pub open spec fn minus(self, other: Vector) -> Vector {
        Vector { x: self.x - other.x, y: self.y - other.y }
    }

    /// The squared Euclidean length.
    pub open spec fn norm_sq(self) -> int {
        self.x * self.x + self.y * self.y
    }

    /// The vector multiplied by a fixed-point factor.
    pub open spec fn times(self, factor: int) -> Vector {
        Vector { x: scaled(self.x, factor), y: scaled(self.y, factor) }
    }

    /// The vector divided by a positive whole number.
    pub open spec fn over(self, count: int) -> Vector
        recommends
            count > 0,
    {
        Vector { x: trunc_div(self.x, count), y: trunc_div(self.y, count) }
    }

    /// The vector of the same direction and of length `length`; the zero
    /// vector, which has no direction, stays zero.
    pub open spec fn with_length(self, length: int) -> Vector
        recommends
            length >= 0,
    {
        if self == Vector::zero() {
            Vector::zero()
        } else {
            Vector {
                x: stretched(self.x, length, self.norm_sq()),
                y: stretched(self.y, length, self.norm_sq()),
            }
        }
    }

    /// The vector itself where it is no longer than `max`, else the vector
    /// of the same direction and of length `max`.
    pub open spec fn limited(self, max: int) -> Vector
        recommends
            max >= 0,
    {
        if self.norm_sq() <= max * max {
            self
        } else {
            self.with_length(max)
        }
    }

    /// Each coordinate moved to the nearest value within `LIMIT` of zero.
    pub open spec fn saturated(self) -> Vector {
        Vector { x: saturate(self.x), y: saturate(self.y) }
    }

    /// The vector turned clockwise by a quarter turn.
    pub open spec fn quarter_turn(self) -> Vector {
        Vector { x: self.y, y: -self.x }
    }

    /// Whether both coordinates lie within `bound` of zero.
    pub open spec fn within(self, bound: int) -> bool {
        &&& -bound <= self.x <= bound
        &&& -bound <= self.y <= bound
    }

    /// Whether the vector can be kept in an agent's state.
    pub open spec fn in_range(self) -> bool {
        self.within(LIMIT as int)
    }

    /// Whether a [`Vec2`] can hold the vector and its negative.
    pub open spec fn fits(self) -> bool {
        self.within(i64::MAX as int)
    }
}

/// A vector with machine coordinates, in raw units.
#[derive(Clone, Copy, Debug, PartialEq, Eq, Structural)]
pub struct Vec2 {
    pub x: i64,
    pub y: i64,
}

impl View for Vec2 {
    type V = Vector;

    open spec fn view(&self) -> Vector {
        Vector { x: self.x as int, y: self.y as int }
    }
}

impl DeepView for Vec2 {
    type V = Vector;

    open spec fn deep_view(&self) -> Vector {
        self@
    }
}

/// Only the zero vector has squared length zero.
pub proof fn lemma_norm_positive(v: Vector)
    ensures
        v.norm_sq() >= 0,
        v != Vector::zero() ==> v.norm_sq() > 0,
{
    let x = v.x;
    let y = v.y;
    assert(x * x >= 0 && y * y >= 0) by (nonlinear_arith);
    if v != Vector::zero() {
        assert(x * x + y * y > 0) by (nonlinear_arith)
            requires
                x != 0 || y != 0,
        ;
    }
}

/// A vector brought to length `m` has both coordinates within `m` of zero,
/// each of the sign of the coordinate it comes from. It is no longer than
/// `m` and, unless it comes from the zero vector, less than two raw units
/// shorter.
pub proof fn lemma_with_length(v: Vector, m: int)
    requires
        m >= 0,
    ensures
        v.with_length(m).within(m),
        v.with_length(m).norm_sq() <= m * m,
        v != Vector::zero() && m >= 2 ==> (m - 2) * (m - 2) <= v.with_length(m).norm_sq(),
        v.x >= 0 ==> v.with_length(m).x >= 0,
        v.x <= 0 ==> v.with_length(m).x <= 0,
        v.y >= 0 ==> v.with_length(m).y >= 0,
        v.y <= 0 ==> v.with_length(m).y <= 0,
{
    let r = v.with_length(m);
    if v == Vector::zero() {
        assert(m * m >= 0) by (nonlinear_arith);
    } else {
        let n = v.norm_sq();
        let x = v.x;
        let y = v.y;
        lemma_norm_positive(v);
        lemma_root_quotient_exists(x * m, n);
        lemma_root_quotient_exists(y * m, n);
        let qx = root_quotient(x * m, n);
        let qy = root_quotient(y * m, n);
        if x == 0 {
            assert(x * m == 0) by (nonlinear_arith)
                requires
                    x == 0,
            ;
            assert(is_root_quotient(0, n, 0)) by (nonlinear_arith)
                requires
                    n > 0,
            ;
            lemma_root_quotient_is(0, n, 0);
        }
        if y == 0 {
            assert(y * m == 0) by (nonlinear_arith)
                requires
                    y == 0,
            ;
            assert(is_root_quotient(0, n, 0)) by (nonlinear_arith)
                requires
                    n > 0,
            ;
            lemma_root_quotient_is(0, n, 0);
        }
        let mm = m * m;
        let xx = x * x;
        let yy = y * y;
        let s = qx * qx + qy * qy;
        assert((x * m) * (x * m) == xx * mm) by (nonlinear_arith)
            requires
                xx == x * x,
                mm == m * m,
        ;
        assert((y * m) * (y * m) == yy * mm) by (nonlinear_arith)
            requires
                yy == y * y,
                mm == m * m,
        ;
        assert(n * mm == xx * mm + yy * mm) by (nonlinear_arith)
            requires
                n == xx + yy,
        ;
        assert(s * n == qx * qx * n + qy * qy * n) by (nonlinear_arith)
            requires
                s == qx * qx + qy * qy,
        ;
        assert(s <= mm) by (nonlinear_arith)
            requires
                s * n <= n * mm,
                n > 0,
        ;
        assert(qx * qx >= 0 && qy * qy >= 0) by (nonlinear_arith);
        assert(qx <= m) by (nonlinear_arith)
            requires
                qx * qx <= mm,
                mm == m * m,
                qx >= 0,
                m >= 0,
        ;
        assert(qy <= m) by (nonlinear_arith)
            requires
                qy * qy <= mm,
                mm == m * m,
                qy >= 0,
                m >= 0,
        ;
        assert(r.x * r.x == qx * qx) by (nonlinear_arith)
            requires
                r.x == qx || r.x == -qx,
        ;
        assert(r.y * r.y == qy * qy) by (nonlinear_arith)
            requires
                r.y == qy || r.y == -qy,
        ;
        assert(r.norm_sq() == s);
        if m >= 2 {
            let d = m - 2;
            let t = qx + qy;
            let above = (qx + 1) * (qx + 1) + (qy + 1) * (qy + 1);
            assert(above * n == (qx + 1) * (qx + 1) * n + (qy + 1) * (qy + 1) * n)
                by (nonlinear_arith)
                requires
                    above == (qx + 1) * (qx + 1) + (qy + 1) * (qy + 1),
            ;
            assert(above > mm) by (nonlinear_arith)
                requires
                    above * n > n * mm,
                    n > 0,
            ;
            assert(above == s + 2 * t + 2) by (nonlinear_arith)
                requires
                    above == (qx + 1) * (qx + 1) + (qy + 1) * (qy + 1),
                    s == qx * qx + qy * qy,
                    t == qx + qy,
            ;
            assert(mm == d * d + 4 * d + 4) by (nonlinear_arith)
                requires
                    d == m - 2,
                    mm == m * m,
            ;
            if s < d * d {
                assert(t * t <= 2 * s) by (nonlinear_arith)
                    requires
                        t == qx + qy,
                        s == qx * qx + qy * qy,
                ;
                assert(t <= 2 * d) by (nonlinear_arith)
                    requires
                        t * t <= 2 * s,
                        s < d * d,
                        t >= 0,
                        d >= 0,
                ;
                assert(false);
            }
        }
    }
}

/// A limited vector is no longer than the limit, and limiting it again
/// changes nothing. A vector that is no longer than the limit is left as it
/// is; one that is longer comes out less than two raw units short of the
/// limit.
pub proof fn lemma_limited(v: Vector, max: int)
    requires
        max >= 0,
    ensures
        v.limited(max).norm_sq() <= max * max,
        v.limited(max).limited(max) == v.limited(max),
        v.norm_sq() <= max * max ==> v.limited(max) == v,
        v.norm_sq() > max * max && max >= 2 ==> (max - 2) * (max - 2) <= v.limited(max).norm_sq(),
{
    lemma_with_length(v, max);
    if v == Vector::zero() {
        assert(max * max >= 0) by (nonlinear_arith);
    }
}

/// A vector brought to length `m` keeps its direction as nearly as whole
/// coordinates allow: the magnitude of each coordinate is the magnitude of
/// the exact one, rounded down.
pub proof fn lemma_with_length_direction(v: Vector, m: int)
    requires
        m >= 0,
        v != Vector::zero(),
    ensures
        ({
            let q = v.with_length(m).x;
            &&& q * q * v.norm_sq() <= (v.x * m) * (v.x * m)
            &&& (v.x * m) * (v.x * m) < (q * q + 2 * (if q >= 0 {
                q
            } else {
                -q
            }) + 1) * v.norm_sq()
        }),
        ({
            let q = v.with_length(m).y;
            &&& q * q * v.norm_sq() <= (v.y * m) * (v.y * m)
            &&& (v.y * m) * (v.y * m) < (q * q + 2 * (if q >= 0 {
                q
            } else {
                -q
            }) + 1) * v.norm_sq()
        }),
{
    let n = v.norm_sq();
    lemma_norm_positive(v);
    lemma_root_quotient_exists(v.x * m, n);
    lemma_root_quotient_exists(v.y * m, n);
    let px = root_quotient(v.x * m, n);
    let py = root_quotient(v.y * m, n);
    let qx = v.with_length(m).x;
    let qy = v.with_length(m).y;
    assert(qx * qx == px * px && (px + 1) * (px + 1) == px * px + 2 * px + 1) by (nonlinear_arith)
        requires
            qx == px || qx == -px,
    ;
    assert(qy * qy == py * py && (py + 1) * (py + 1) == py * py + 2 * py + 1) by (nonlinear_arith)
        requires
            qy == py || qy == -py,
    ;
}

/// The length of a vector does not matter to what it becomes when it is
/// brought to a given length: a vector and a positive multiple of it come out
/// the same.
pub proof fn lemma_with_length_along_ray(v: Vector, k: int, m: int)
    requires
        k > 0,
        m >= 0,
    ensures
        (Vector { x: k * v.x, y: k * v.y }).with_length(m) == v.with_length(m),
{
    let w = Vector { x: k * v.x, y: k * v.y };
    if v == Vector::zero() {
        assert(k * 0 == 0);
    } else {
        let n = v.norm_sq();
        lemma_norm_positive(v);
        assert(w != Vector::zero()) by (nonlinear_arith)
            requires
                w.x == k * v.x,
                w.y == k * v.y,
                k > 0,
                v.x != 0 || v.y != 0,
        ;
        assert(w.norm_sq() == k * k * n) by (nonlinear_arith)
            requires
                w.norm_sq() == (k * v.x) * (k * v.x) + (k * v.y) * (k * v.y),
                n == v.x * v.x + v.y * v.y,
        ;
        lemma_stretched_along_ray(v.x, k, m, n);
        lemma_stretched_along_ray(v.y, k, m, n);
    }
}

/// One coordinate of a vector and of a positive multiple of it stretch to
/// the same.
proof fn lemma_stretched_along_ray(x: int, k: int, m: int, n: int)
    requires
        k > 0,
        m >= 0,
        n > 0,
    ensures
        stretched(k * x, m, k * k * n) == stretched(x, m, n),
{
    let a = x * m;
    let q = root_quotient(a, n);
    lemma_root_quotient_exists(a, n);
    let kk = k * k;
    assert(kk > 0) by (nonlinear_arith)
        requires
            kk == k * k,
            k > 0,
    ;
    assert((k * x) * m == k * a) by (nonlinear_arith)
        requires
            a == x * m,
    ;
    assert((k * a) * (k * a) == kk * (a * a)) by (nonlinear_arith)
        requires
            kk == k * k,
    ;
    assert(q * q * (kk * n) == kk * (q * q * n)) by (nonlinear_arith);
    assert((q + 1) * (q + 1) * (kk * n) == kk * ((q + 1) * (q + 1) * n)) by (nonlinear_arith);
    assert(kk * (q * q * n) <= kk * (a * a)) by (nonlinear_arith)
        requires
            q * q * n <= a * a,
            kk > 0,
    ;
    assert(kk * (a * a) < kk * ((q + 1) * (q + 1) * n)) by (nonlinear_arith)
        requires
            a * a < (q + 1) * (q + 1) * n,
            kk > 0,
    ;
    assert(kk * n > 0) by (nonlinear_arith)
        requires
            kk > 0,
            n > 0,
    ;
    lemma_root_quotient_is(k * a, kk * n, q);
    assert((k * x >= 0) == (x >= 0)) by (nonlinear_arith)
        requires
            k > 0,
    ;
}

/// Where nothing has to be rounded, the cut is exact. A vector whose length
/// is the whole number `l`, longer than `max`, and whose coordinates times
/// `max` are multiples of `l`, is cut to a vector of length exactly `max`
/// that points exactly the same way.
pub proof fn lemma_limited_exact(v: Vector, max: int, l: int)
    requires
        0 <= max < l,
        v.norm_sq() == l * l,
        (v.x * max) % l == 0,
        (v.y * max) % l == 0,
    ensures
        v.limited(max).norm_sq() == max * max,
        v.limited(max).x * l == v.x * max,
        v.limited(max).y * l == v.y * max,
{
    let x = v.x;
    let y = v.y;
    let n = v.norm_sq();
    assert(max * max < l * l) by (nonlinear_arith)
        requires
            0 <= max < l,
    ;
    assert(v != Vector::zero()) by {
        if v == Vector::zero() {
            assert(x * x + y * y == 0) by (nonlinear_arith)
                requires
                    x == 0,
                    y == 0,
            ;
        }
    }
    lemma_exact_quotient(x, max, l);
    lemma_exact_quotient(y, max, l);
    let r = v.limited(max);
    let s = r.x * r.x + r.y * r.y;
    let ll = l * l;
    let mm = max * max;
    assert(r.x * r.x * ll == (r.x * l) * (r.x * l)) by (nonlinear_arith)
        requires
            ll == l * l,
    ;
    assert(r.y * r.y * ll == (r.y * l) * (r.y * l)) by (nonlinear_arith)
        requires
            ll == l * l,
    ;
    assert(x * x * mm == (x * max) * (x * max)) by (nonlinear_arith)
        requires
            mm == max * max,
    ;
    assert(y * y * mm == (y * max) * (y * max)) by (nonlinear_arith)
        requires
            mm == max * max,
    ;
    assert(s * ll == r.x * r.x * ll + r.y * r.y * ll) by (nonlinear_arith)
        requires
            s == r.x * r.x + r.y * r.y,
    ;
    assert((x * x + y * y) * mm == x * x * mm + y * y * mm) by (nonlinear_arith);
    assert(s * ll == ll * mm) by (nonlinear_arith)
        requires
            s * ll == (x * x + y * y) * mm,
            x * x + y * y == ll,
    ;
    assert(s == mm) by (nonlinear_arith)
        requires
            s * ll == ll * mm,
            ll > 0,
    ;
}

/// A coordinate that stretches without a remainder: where `x * max` is a
/// multiple of the length `l`, the stretched coordinate times `l` is
/// `x * max`.
proof fn lemma_exact_quotient(x: int, max: int, l: int)
    requires
        l > 0,
        max >= 0,
        (x * max) % l == 0,
    ensures
        stretched(x, max, l * l) * l == x * max,
{
    let a = x * max;
    let k = a / l;
    lemma_fundamental_div_mod(a, l);
    assert(k * l == l * k) by (nonlinear_arith);
    let q = if x >= 0 {
        k
    } else {
        -k
    };
    assert(x >= 0 ==> a >= 0) by (nonlinear_arith)
        requires
            a == x * max,
            max >= 0,
    ;
    assert(x < 0 ==> a <= 0) by (nonlinear_arith)
        requires
            a == x * max,
            max >= 0,
    ;
    assert(a >= 0 ==> k >= 0) by (nonlinear_arith)
        requires
            k * l == a,
            l > 0,
    ;
    assert(a <= 0 ==> k <= 0) by (nonlinear_arith)
        requires
            k * l == a,
            l > 0,
    ;
    assert(q * q * (l * l) == a * a) by (nonlinear_arith)
        requires
            q == k || q == -k,
            k * l == a,
    ;
    assert(q * q * (l * l) < (q + 1) * (q + 1) * (l * l)) by (nonlinear_arith)
        requires
            q >= 0,
            l > 0,
    ;
    assert(l * l > 0) by (nonlinear_arith)
        requires
            l > 0,
    ;
    lemma_root_quotient_is(a, l * l, q);
}

impl Vec2 {
    /// The vector with the given coordinates.
    pub fn new(x: i64, y: i64) -> (v: Vec2)
        ensures
            v@ == (Vector { x: x as int, y: y as int }),
    {
        Vec2 { x, y }
    }

    /// The vector with both coordinates zero.
    pub fn zero() -> (v: Vec2)
        ensures
            v@ == Vector::zero(),
    {
        Vec2 { x: 0, y: 0 }
    }

    /// Whether both coordinates lie within `bound` of zero.
    pub fn is_within(&self, bound: i64) -> (b: bool)
        ensures
            b == self@.within(bound as int),
    {
        if bound < 0 {
            false
        } else {
            -bound <= self.x && self.x <= bound && -bound <= self.y && self.y <= bound
        }
    }

    /// The sum of two vectors. The sum has to fit.
    pub fn plus(self, other: Vec2) -> (v: Vec2)
        requires
            self@.plus(other@).fits(),
        ensures
            v@ == self@.plus(other@),
    {
        Vec2 { x: self.x + other.x, y: self.y + other.y }
    }

    /// The difference of two vectors. The difference has to fit.
    pub fn minus(self, other: Vec2) -> (v: Vec2)
        requires
            self@.minus(other@).fits(),
        ensures
            v@ == self@.minus(other@),
    {
        Vec2 { x: self.x - other.x, y: self.y - other.y }
    }

    /// The squared Euclidean length.
    pub fn norm_sq(self) -> (n: u128)
        ensures
            n == self@.norm_sq(),
    {
        let x: i128 = wide_product(self.x, self.x);
        let y: i128 = wide_product(self.y, self.y);
        assert(self.x * self.x >= 0 && self.y * self.y >= 0) by (nonlinear_arith);
        x as u128 + y as u128
    }

    /// The vector of the same direction and of length `length`.
    pub fn with_length(self, length: i64) -> (v: Vec2)
        requires
            length >= 0,
        ensures
            v@ == self@.with_length(length as int),
            v@.within(length as int),
    {
        proof {
            lemma_with_length(self@, length as int);
        }
        if self.x == 0 && self.y == 0 {
            return Vec2 { x: 0, y: 0 };
        }
        let n: u128 = self.norm_sq();
        proof {
            lemma_norm_positive(self@);
            assert(self.x * self.x >= 0 && self.y * self.y >= 0) by (nonlinear_arith);
        }
        Vec2 { x: stretch(self.x, length, n), y: stretch(self.y, length, n) }
    }

    /// The vector itself where it is no longer than `max`, else the vector
    /// of the same direction and of length `max`.
    pub fn limited(self, max: i64) -> (v: Vec2)
        requires
            max >= 0,
        ensures
            v@ == self@.limited(max as int),
            v@.norm_sq() <= max * max,
    {
        proof {
            lemma_limited(self@, max as int);
        }
        let bound: i128 = wide_product(max, max);
        if self.norm_sq() <= bound as u128 {
            self
        } else {
            self.with_length(max)
        }
    }

    /// The vector multiplied by a fixed-point factor. The product has to
    /// fit.
    pub fn times(self, factor: i64) -> (v: Vec2)
        requires
            self@.times(factor as int).fits(),
        ensures
            v@ == self@.times(factor as int),
    {
        let x: i128 = scaled_product(self.x, factor);
        let y: i128 = scaled_product(self.y, factor);
        Vec2 { x: x as i64, y: y as i64 }
    }

    /// The vector turned clockwise by a quarter turn.
    pub fn quarter_turn(self) -> (v: Vec2)
        requires
            self@.fits(),
        ensures
            v@ == self@.quarter_turn(),
    {
        Vec2 { x: self.y, y: -self.x }
    }
}

/// One coordinate of a vector brought to length `length`, where `norm_sq` is
/// the vector's squared length.
fn stretch(x: i64, length: i64, norm_sq: u128) -> (c: i64)
    requires
        length >= 0,
        norm_sq > 0,
        x * x <= norm_sq,
    ensures
        c == stretched(x as int, length as int, norm_sq as int),
{
    let magnitude: u128 = if x >= 0 {
        x as u128
    } else {
        (-(x as i128)) as u128
    };
    assert(magnitude * length <= 0x4000_0000_0000_0000_0000_0000_0000_0000) by (nonlinear_arith)
        requires
            0 <= magnitude <= 0x8000_0000_0000_0000,
            0 <= length <= 0x8000_0000_0000_0000,
    ;
    let a: u128 = magnitude * (length as u128);
    proof {
        let m = length as int;
        let n = norm_sq as int;
        let g = magnitude as int;
        assert(g * g == x * x) by (nonlinear_arith)
            requires
                g == x || g == -x,
        ;
        assert((g * m) * (g * m) == (g * g) * (m * m)) by (nonlinear_arith);
        assert((g * g) * (m * m) <= n * (m * m)) by (nonlinear_arith)
            requires
                g * g <= n,
        ;
        assert(n * (m * m) < (m + 1) * (m + 1) * n) by (nonlinear_arith)
            requires
                n > 0,
                m >= 0,
        ;
        assert((x * m) * (x * m) == (g * m) * (g * m)) by (nonlinear_arith)
            requires
                g == x || g == -x,
        ;
    }
    let q: u64 = root_quotient_of(a, norm_sq, length as u64);
    proof {
        lemma_root_quotient_is(x * length, norm_sq as int, q as int);
    }
    if x >= 0 {
        q as i64
    } else {
        -(q as i64)
    }
}

} // verus!
