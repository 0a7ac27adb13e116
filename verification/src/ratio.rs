//! Exact rational scalars.
//!
//! A `Ratio` is a signed 64-bit numerator over a positive 64-bit
//! denominator.  All arithmetic is exact: every operation computes the
//! mathematical result in 128-bit intermediates, reduces it by the
//! greatest common divisor, and returns `None` when even the reduced
//! result does not fit the 64-bit representation.  Contracts speak of
//! the mathematical value `self@.0 / self@.1` through cross
//! multiplication, so no rounding ever has to be specified.

use vstd::prelude::*;

verus! {

use vstd::arithmetic::div_mod::{
    lemma_fundamental_div_mod,
    lemma_div_nonincreasing,
    lemma_div_multiples_vanish,
    lemma_mod_multiples_basic,
    lemma_mod_self_0,
};
use vstd::math::abs;

/// An exact rational number: numerator `num` over denominator `den`.
///
/// Values are only ever constructed with a positive denominator, and
/// every operation keeps the denominator positive; `wf` states that
/// fact.  The mathematical value is `self@.0 / self@.1`.
#[derive(Clone, Copy, Debug)]
pub struct Ratio {
    num: i64,
    den: i64,
}

impl View for Ratio {
    type V = (int, int);

    closed spec fn view(&self) -> (int, int) {
        (self.num as int, self.den as int)
    }
}

impl Ratio {
    /// Well-formed: the denominator is positive.
    pub open spec fn wf(self) -> bool {
        self@.1 > 0
    }

    /// `self` equals the rational `n / d` (cross multiplication; the
    /// statement is meaningful whenever `d != 0` and `self@.1 != 0`).
    pub open spec fn is_ratio(self, n: int, d: int) -> bool {
        self@.0 * d == n * self@.1
    }

    /// `self` and `other` denote the same rational.
    pub open spec fn eq_rat(self, other: Ratio) -> bool {
        self@.0 * other@.1 == other@.0 * self@.1
    }

    /// `self <= other` as rationals (meaningful for positive denominators).
    pub open spec fn le_rat(self, other: Ratio) -> bool {
        self@.0 * other@.1 <= other@.0 * self@.1
    }

    /// The whole number `n`.
    pub fn from_int(n: i64) -> (r: Ratio)
        ensures
            r@ == (n as int, 1int),
            r.wf(),
    {
        Ratio { num: n, den: 1 }
    }

    /// The numerator of the stored (reduced) representation.
    pub fn num(&self) -> (n: i64)
        ensures
            n as int == self@.0,
    {
        self.num
    }

    /// The denominator of the stored (reduced) representation.
    pub fn den(&self) -> (d: i64)
        ensures
            d as int == self@.1,
    {
        self.den
    }
}

/// Euclid's greatest common divisor.
pub open spec fn gcd(a: nat, b: nat) -> nat
    decreases b,
{
    if b == 0 {
        a
    } else {
        gcd(b, a % b)
    }
}

/// Whether the fraction `n / d`, once reduced by the greatest common
/// divisor of `|n|` and `d`, fits the 64-bit representation.  This is
/// exactly the condition under which the arithmetic operations below
/// succeed.
pub open spec fn reduced_fits(n: int, d: int) -> bool {
    let g = gcd(abs(n), d as nat) as int;
    i64::MIN as int <= n / g && n / g <= i64::MAX as int && d / g <= i64::MAX as int
}

/// A linear combination of two multiples of `g` is a multiple of `g`.
proof fn lemma_divides_linear(g: int, x: int, y: int, m: int)
    requires
        g > 0,
        x % g == 0,
        y % g == 0,
    ensures
        (m * x + y) % g == 0,
{
    lemma_fundamental_div_mod(x, g);
    lemma_fundamental_div_mod(y, g);
    assert(m * x + y == (m * (x / g) + (y / g)) * g) by (nonlinear_arith)
        requires
            x == g * (x / g) + (x % g),
            y == g * (y / g) + (y % g),
            x % g == 0,
            y % g == 0;
    lemma_mod_multiples_basic(m * (x / g) + (y / g), g);
}

/// The greatest common divisor is positive and divides both arguments.
pub proof fn lemma_gcd_divides(a: nat, b: nat)
    requires
        a > 0 || b > 0,
    ensures
        gcd(a, b) > 0,
        a % gcd(a, b) == 0,
        b % gcd(a, b) == 0,
    decreases b,
{
    if b == 0 {
        assert(gcd(a, b) == a);
        lemma_mod_self_0(a as int);
        vstd::arithmetic::div_mod::lemma_small_mod(0, a);
    } else {
        lemma_gcd_divides(b, a % b);
        let g = gcd(b, a % b);
        assert(gcd(a, b) == g);
        lemma_fundamental_div_mod(a as int, b as int);
        lemma_divides_linear(g as int, b as int, (a % b) as int, (a / b) as int);
        assert((a / b) as int * (b as int) + (a % b) as int == a as int) by (nonlinear_arith)
            requires
                a as int == (b as int) * ((a as int) / (b as int)) + (a as int) % (b as int),
                (a / b) as int == (a as int) / (b as int),
                (a % b) as int == (a as int) % (b as int);
    }
}

/// Euclid's algorithm.
fn gcd_u128(a: u128, b: u128) -> (g: u128)
    ensures
        g as nat == gcd(a as nat, b as nat),
{
    let mut x: u128 = a;
    let mut y: u128 = b;
    while y != 0
        invariant
            gcd(x as nat, y as nat) == gcd(a as nat, b as nat),
        decreases y,
    {
        let t: u128 = x % y;
        x = y;
        y = t;
    }
    x
}

impl Ratio {
    /// Reduces `n / d` by the greatest common divisor and packs it into
    /// 64 bits, or reports that even the reduced fraction is too large.
    fn normalize(n: i128, d: i128) -> (r: Option<Ratio>)
        requires
            0 < d,
            i128::MIN < n,
        ensures
            r.is_some() <==> reduced_fits(n as int, d as int),
            r.is_some() ==> r.unwrap().wf(),
            r.is_some() ==> r.unwrap().is_ratio(n as int, d as int),
            r.is_some() ==> abs(r.unwrap()@.0) <= abs(n as int) && r.unwrap()@.1 <= d as int,
    {
        let neg: bool = n < 0;
        let na: u128 = if neg {
            (-n) as u128
        } else {
            n as u128
        };
        let da: u128 = d as u128;
        proof {
            lemma_gcd_divides(na as nat, da as nat);
        }
        let g: u128 = gcd_u128(na, da);
        let nr: u128 = na / g;
        let dr: u128 = da / g;
        proof {
            lemma_fundamental_div_mod(na as int, g as int);
            lemma_fundamental_div_mod(da as int, g as int);
            assert(na as int == g as int * nr as int);
            assert(da as int == g as int * dr as int);
            assert(dr > 0) by (nonlinear_arith)
                requires
                    da as int == g as int * dr as int,
                    da > 0,
                    dr >= 0;
            lemma_div_nonincreasing(na as int, g as int);
            lemma_div_nonincreasing(da as int, g as int);
            if neg {
                lemma_div_multiples_vanish(-(nr as int), g as int);
                assert(g as int * -(nr as int) == -(g as int * nr as int)) by (nonlinear_arith);
                assert((n as int) / (g as int) == -(nr as int));
            }
        }
        if dr > i64::MAX as u128 {
            return None;
        }
        if neg {
            if nr > 9223372036854775808u128 {
                return None;
            }
            let num: i64 = (-(nr as i128)) as i64;
            let v = Ratio { num, den: dr as i64 };
            proof {
                assert((-(nr as int)) * (d as int) == (n as int) * (dr as int))
                    by (nonlinear_arith)
                    requires
                        n as int == -(g as int * nr as int),
                        d as int == g as int * dr as int;
            }
            Some(v)
        } else {
            if nr > i64::MAX as u128 {
                return None;
            }
            let v = Ratio { num: nr as i64, den: dr as i64 };
            proof {
                assert((nr as int) * (d as int) == (n as int) * (dr as int))
                    by (nonlinear_arith)
                    requires
                        n as int == g as int * nr as int,
                        d as int == g as int * dr as int;
            }
            Some(v)
        }
    }
}

/// The product of two 64-bit values, computed exactly in 128 bits.
fn mul_wide(a: i64, b: i64) -> (r: i128)
    ensures
        r as int == (a as int) * (b as int),
{
    proof {
        assert(i128::MIN < (a as int) * (b as int) && (a as int) * (b as int) < i128::MAX)
            by (nonlinear_arith)
            requires
                i64::MIN as int <= a as int <= i64::MAX as int,
                i64::MIN as int <= b as int <= i64::MAX as int;
    }
    (a as i128) * (b as i128)
}

/// Any fraction whose parts already fit 64 bits still fits once reduced.
pub proof fn lemma_reduced_fits_when_small(n: int, d: int)
    requires
        i64::MIN as int <= n <= i64::MAX as int,
        0 < d <= i64::MAX as int,
    ensures
        reduced_fits(n, d),
{
    let na = abs(n);
    lemma_gcd_divides(na, d as nat);
    let g = gcd(na, d as nat) as int;
    lemma_div_nonincreasing(na as int, g);
    lemma_div_nonincreasing(d, g);
    vstd::arithmetic::div_mod::lemma_div_pos_is_pos(na as int, g);
    vstd::arithmetic::div_mod::lemma_div_pos_is_pos(d, g);
    if n < 0 {
        lemma_fundamental_div_mod(na as int, g);
        assert(na as int == g * (na as int / g));
        lemma_div_multiples_vanish(-(na as int / g), g);
        assert(g * -(na as int / g) == -(g * (na as int / g))) by (nonlinear_arith);
        assert(n / g == -(na as int / g));
    }
}

impl Ratio {
    /// The rational `num / den`.  Succeeds exactly when `den` is
    /// positive; the sign of the value is the sign of `num`.
    pub fn from_parts(num: i64, den: i64) -> (r: Option<Ratio>)
        ensures
            r.is_some() <==> den > 0,
            r.is_some() ==> r.unwrap().wf() && r.unwrap().is_ratio(num as int, den as int),
    {
        if den <= 0 {
            None
        } else {
            proof {
                lemma_reduced_fits_when_small(num as int, den as int);
            }
            Ratio::normalize(num as i128, den as i128)
        }
    }

    /// Exact sum.  `None` exactly when even the reduced sum overflows
    /// the 64-bit representation.
    pub fn add(self, other: Ratio) -> (r: Option<Ratio>)
        requires
            self.wf(),
            other.wf(),
        ensures
            ({
                let n = self@.0 * other@.1 + other@.0 * self@.1;
                let d = self@.1 * other@.1;
                &&& (r.is_some() <==> reduced_fits(n, d))
                &&& r.is_some() ==> r.unwrap().wf() && r.unwrap().is_ratio(n, d) && abs(
                    r.unwrap()@.0,
                ) <= abs(n) && r.unwrap()@.1 <= d
            }),
    {
        let n1: i128 = mul_wide(self.num, other.den);
        let n2: i128 = mul_wide(other.num, self.den);
        let d: i128 = mul_wide(self.den, other.den);
        proof {
            lemma_prod_den_bound(self@.0, other@.1);
            lemma_prod_den_bound(other@.0, self@.1);
            assert(d > 0) by (nonlinear_arith)
                requires
                    d as int == self@.1 * other@.1,
                    self@.1 > 0,
                    other@.1 > 0;
        }
        Ratio::normalize(n1 + n2, d)
    }

    /// Exact difference.  `None` exactly when even the reduced
    /// difference overflows the 64-bit representation.
    pub fn sub(self, other: Ratio) -> (r: Option<Ratio>)
        requires
            self.wf(),
            other.wf(),
        ensures
            ({
                let n = self@.0 * other@.1 - other@.0 * self@.1;
                let d = self@.1 * other@.1;
                &&& (r.is_some() <==> reduced_fits(n, d))
                &&& r.is_some() ==> r.unwrap().wf() && r.unwrap().is_ratio(n, d) && abs(
                    r.unwrap()@.0,
                ) <= abs(n) && r.unwrap()@.1 <= d
            }),
    {
        let n1: i128 = mul_wide(self.num, other.den);
        let n2: i128 = mul_wide(other.num, self.den);
        let d: i128 = mul_wide(self.den, other.den);
        proof {
            lemma_prod_den_bound(self@.0, other@.1);
            lemma_prod_den_bound(other@.0, self@.1);
            assert(d > 0) by (nonlinear_arith)
                requires
                    d as int == self@.1 * other@.1,
                    self@.1 > 0,
                    other@.1 > 0;
        }
        Ratio::normalize(n1 - n2, d)
    }

    /// Exact product.  `None` exactly when even the reduced product
    /// overflows the 64-bit representation.
    pub fn mul(self, other: Ratio) -> (r: Option<Ratio>)
        requires
            self.wf(),
            other.wf(),
        ensures
            ({
                let n = self@.0 * other@.0;
                let d = self@.1 * other@.1;
                &&& (r.is_some() <==> reduced_fits(n, d))
                &&& r.is_some() ==> r.unwrap().wf() && r.unwrap().is_ratio(n, d) && abs(
                    r.unwrap()@.0,
                ) <= abs(n) && r.unwrap()@.1 <= d
            }),
    {
        let n: i128 = mul_wide(self.num, other.num);
        let d: i128 = mul_wide(self.den, other.den);
        proof {
            lemma_prod_bound(self@.0, other@.0);
            assert(d > 0) by (nonlinear_arith)
                requires
                    d as int == self@.1 * other@.1,
                    self@.1 > 0,
                    other@.1 > 0;
        }
        Ratio::normalize(n, d)
    }

    /// Exact quotient.  `None` when `other` is zero, and otherwise
    /// exactly when even the reduced quotient overflows the 64-bit
    /// representation.
    pub fn div(self, other: Ratio) -> (r: Option<Ratio>)
        requires
            self.wf(),
            other.wf(),
        ensures
            ({
                let n0 = self@.0 * other@.1;
                let d0 = self@.1 * other@.0;
                &&& (r.is_some() <==> d0 != 0 && reduced_fits(
                    if d0 < 0 {
                        -n0
                    } else {
                        n0
                    },
                    abs(d0) as int,
                ))
                &&& other@.0 == 0 ==> r.is_none()
                &&& r.is_some() ==> r.unwrap().wf() && r.unwrap().is_ratio(n0, d0) && abs(
                    r.unwrap()@.0,
                ) <= abs(n0) && r.unwrap()@.1 <= abs(d0)
            }),
    {
        let n: i128 = mul_wide(self.num, other.den);
        let d: i128 = mul_wide(self.den, other.num);
        proof {
            lemma_prod_den_bound(self@.0, other@.1);
            lemma_prod_bound(self@.1, other@.0);
            assert(self@.1 * other@.0 == 0 ==> other@.0 == 0) by (nonlinear_arith)
                requires
                    self@.1 > 0;
        }
        if d == 0 {
            return None;
        }
        if d < 0 {
            let r = Ratio::normalize(-n, -d);
            proof {
                if r.is_some() {
                    let v = r.unwrap();
                    assert(v@.0 * (self@.1 * other@.0) == (self@.0 * other@.1) * v@.1)
                        by (nonlinear_arith)
                        requires
                            v@.0 * -(self@.1 * other@.0) == -(self@.0 * other@.1) * v@.1;
                }
            }
            r
        } else {
            Ratio::normalize(n, d)
        }
    }

    /// Whether `self <= other` as rationals.
    pub fn le(self, other: Ratio) -> (r: bool)
        requires
            self.wf(),
            other.wf(),
        ensures
            r == self.le_rat(other),
    {
        mul_wide(self.num, other.den) <= mul_wide(other.num, self.den)
    }

    /// Whether `self` and `other` denote the same rational.
    pub fn equals(self, other: Ratio) -> (r: bool)
        requires
            self.wf(),
            other.wf(),
        ensures
            r == self.eq_rat(other),
    {
        mul_wide(self.num, other.den) == mul_wide(other.num, self.den)
    }
}

/// Distributing a factor over a sum.
pub(crate) proof fn lemma_distr(p: int, q: int, r: int)
    ensures
        (p + q) * r == p * r + q * r,
        (p - q) * r == p * r - q * r,
{
    assert((p + q) * r == p * r + q * r && (p - q) * r == p * r - q * r) by (nonlinear_arith);
}

/// Reassociating a product of four factors.
pub(crate) proof fn lemma_assoc4(x: int, y: int, z: int, w: int)
    ensures
        x * (y * (z * w)) == ((x * y) * z) * w,
{
    assert(x * (y * (z * w)) == ((x * y) * z) * w) by (nonlinear_arith);
}

/// Regrouping a product of four factors.
pub(crate) proof fn lemma_mul4(x: int, y: int, z: int, w: int)
    ensures
        (x * y) * (z * w) == (x * z) * (y * w),
        (x * y) * (z * w) == (x * w) * (y * z),
        x * y == y * x,
{
    assert((x * y) * (z * w) == (x * z) * (y * w) && (x * y) * (z * w) == (x * w) * (y * z) && x
        * y == y * x) by (nonlinear_arith);
}

/// Cancelling a common non-zero factor in a product equation.
pub(crate) proof fn lemma_mul_cancel(x: int, y: int, c: int)
    requires
        c != 0,
        x * c == y * c,
    ensures
        x == y,
{
    assert(x == y) by (nonlinear_arith)
        requires
            c != 0,
            x * c == y * c;
}

/// Carrying `is_ratio` across an equality of fractions: if `c` equals
/// `u / v` and `u / v == n / d` as fractions, then `c` equals `n / d`.
pub proof fn lemma_ratio_transfer(c: Ratio, u: int, v: int, n: int, d: int)
    requires
        v != 0,
        c.is_ratio(u, v),
        u * d == n * v,
    ensures
        c.is_ratio(n, d),
{
    assert((c@.0 * d) * v == (n * c@.1) * v) by (nonlinear_arith)
        requires
            c@.0 * v == u * c@.1,
            u * d == n * v;
    lemma_mul_cancel(c@.0 * d, n * c@.1, v);
}

/// Two well-formed ratios equal to the same fraction denote the same
/// rational.
pub proof fn lemma_ratio_value_unique(a: Ratio, b: Ratio, n: int, d: int)
    requires
        a.wf(),
        b.wf(),
        d != 0,
        a.is_ratio(n, d),
        b.is_ratio(n, d),
    ensures
        a.eq_rat(b),
{
    assert(a@.0 * b@.1 == b@.0 * a@.1) by (nonlinear_arith)
        requires
            a@.0 * d == n * a@.1,
            b@.0 * d == n * b@.1,
            d != 0,
            a@.1 > 0,
            b@.1 > 0;
}

/// A common factor of numerator and denominator can be dropped.
pub proof fn lemma_ratio_scale(c: Ratio, n: int, d: int, s: int)
    requires
        s != 0,
        c.is_ratio(n * s, d * s),
    ensures
        c.is_ratio(n, d),
{
    assert(c@.0 * d == n * c@.1) by (nonlinear_arith)
        requires
            c@.0 * (d * s) == (n * s) * c@.1,
            s != 0;
}

/// The exact sum of `a == n1/d1` and `b == n2/d2` is
/// `(n1 d2 + n2 d1) / (d1 d2)`, whatever representatives were used.
pub proof fn lemma_add_ratio(c: Ratio, a: Ratio, b: Ratio, n1: int, d1: int, n2: int, d2: int)
    requires
        a.wf(),
        b.wf(),
        c.is_ratio(a@.0 * b@.1 + b@.0 * a@.1, a@.1 * b@.1),
        a.is_ratio(n1, d1),
        b.is_ratio(n2, d2),
    ensures
        c.is_ratio(n1 * d2 + n2 * d1, d1 * d2),
{
    lemma_distr(a@.0 * b@.1, b@.0 * a@.1, d1 * d2);
    lemma_mul4(a@.0, b@.1, d1, d2);
    lemma_mul4(b@.0, a@.1, d1, d2);
    assert((a@.0 * b@.1 + b@.0 * a@.1) * (d1 * d2) == (a@.0 * d1) * (b@.1 * d2) + (b@.0 * d2) * (
    a@.1 * d1));
    assert((a@.0 * d1) * (b@.1 * d2) == (n1 * a@.1) * (b@.1 * d2));
    assert((b@.0 * d2) * (a@.1 * d1) == (n2 * b@.1) * (a@.1 * d1));
    lemma_distr(n1 * d2, n2 * d1, a@.1 * b@.1);
    lemma_mul4(n1, a@.1, b@.1, d2);
    lemma_mul4(n2, b@.1, a@.1, d1);
    lemma_mul4(b@.1, a@.1, d1, d2);
    assert((n1 * a@.1) * (b@.1 * d2) + (n2 * b@.1) * (a@.1 * d1) == (n1 * d2 + n2 * d1) * (a@.1
        * b@.1));
    assert(a@.1 * b@.1 != 0) by (nonlinear_arith)
        requires
            a@.1 > 0,
            b@.1 > 0;
    lemma_ratio_transfer(c, a@.0 * b@.1 + b@.0 * a@.1, a@.1 * b@.1, n1 * d2 + n2 * d1, d1 * d2);
}

/// The exact difference of `a == n1/d1` and `b == n2/d2` is
/// `(n1 d2 - n2 d1) / (d1 d2)`, whatever representatives were used.
pub proof fn lemma_sub_ratio(c: Ratio, a: Ratio, b: Ratio, n1: int, d1: int, n2: int, d2: int)
    requires
        a.wf(),
        b.wf(),
        c.is_ratio(a@.0 * b@.1 - b@.0 * a@.1, a@.1 * b@.1),
        a.is_ratio(n1, d1),
        b.is_ratio(n2, d2),
    ensures
        c.is_ratio(n1 * d2 - n2 * d1, d1 * d2),
{
    lemma_distr(a@.0 * b@.1, b@.0 * a@.1, d1 * d2);
    lemma_mul4(a@.0, b@.1, d1, d2);
    lemma_mul4(b@.0, a@.1, d1, d2);
    assert((a@.0 * b@.1 - b@.0 * a@.1) * (d1 * d2) == (a@.0 * d1) * (b@.1 * d2) - (b@.0 * d2) * (
    a@.1 * d1));
    assert((a@.0 * d1) * (b@.1 * d2) == (n1 * a@.1) * (b@.1 * d2));
    assert((b@.0 * d2) * (a@.1 * d1) == (n2 * b@.1) * (a@.1 * d1));
    lemma_distr(n1 * d2, n2 * d1, a@.1 * b@.1);
    lemma_mul4(n1, a@.1, b@.1, d2);
    lemma_mul4(n2, b@.1, a@.1, d1);
    lemma_mul4(b@.1, a@.1, d1, d2);
    assert((n1 * a@.1) * (b@.1 * d2) - (n2 * b@.1) * (a@.1 * d1) == (n1 * d2 - n2 * d1) * (a@.1
        * b@.1));
    assert(a@.1 * b@.1 != 0) by (nonlinear_arith)
        requires
            a@.1 > 0,
            b@.1 > 0;
    lemma_ratio_transfer(c, a@.0 * b@.1 - b@.0 * a@.1, a@.1 * b@.1, n1 * d2 - n2 * d1, d1 * d2);
}

/// The exact product of `a == n1/d1` and `b == n2/d2` is
/// `(n1 n2) / (d1 d2)`, whatever representatives were used.
pub proof fn lemma_mul_ratio(c: Ratio, a: Ratio, b: Ratio, n1: int, d1: int, n2: int, d2: int)
    requires
        a.wf(),
        b.wf(),
        c.is_ratio(a@.0 * b@.0, a@.1 * b@.1),
        a.is_ratio(n1, d1),
        b.is_ratio(n2, d2),
    ensures
        c.is_ratio(n1 * n2, d1 * d2),
{
    lemma_mul4(a@.0, b@.0, d1, d2);
    assert((a@.0 * b@.0) * (d1 * d2) == (a@.0 * d1) * (b@.0 * d2));
    assert((a@.0 * d1) * (b@.0 * d2) == (n1 * a@.1) * (n2 * b@.1));
    lemma_mul4(n1, n2, a@.1, b@.1);
    assert((n1 * n2) * (a@.1 * b@.1) == (n1 * a@.1) * (n2 * b@.1));
    assert(a@.1 * b@.1 != 0) by (nonlinear_arith)
        requires
            a@.1 > 0,
            b@.1 > 0;
    lemma_ratio_transfer(c, a@.0 * b@.0, a@.1 * b@.1, n1 * n2, d1 * d2);
}

/// The exact quotient of `a == n1/d1` by `b == n2/d2` is
/// `(n1 d2) / (d1 n2)`, whatever representatives were used.
pub proof fn lemma_div_ratio(c: Ratio, a: Ratio, b: Ratio, n1: int, d1: int, n2: int, d2: int)
    requires
        a.wf(),
        b.wf(),
        b@.0 != 0,
        c.is_ratio(a@.0 * b@.1, a@.1 * b@.0),
        a.is_ratio(n1, d1),
        b.is_ratio(n2, d2),
    ensures
        c.is_ratio(n1 * d2, d1 * n2),
{
    lemma_mul4(a@.0, b@.1, d1, n2);
    assert((a@.0 * b@.1) * (d1 * n2) == (a@.0 * d1) * (b@.1 * n2));
    assert((a@.0 * d1) * (b@.1 * n2) == (n1 * a@.1) * (b@.1 * n2));
    lemma_mul4(n1, d2, a@.1, b@.0);
    assert((n1 * d2) * (a@.1 * b@.0) == (n1 * a@.1) * (d2 * b@.0));
    lemma_mul4(d2, b@.0, n2, b@.1);
    assert(d2 * b@.0 == b@.0 * d2);
    assert((n1 * a@.1) * (b@.0 * d2) == (n1 * a@.1) * (n2 * b@.1));
    lemma_mul4(n2, b@.1, 0, 0);
    assert(n2 * b@.1 == b@.1 * n2);
    assert(a@.1 * b@.0 != 0) by (nonlinear_arith)
        requires
            a@.1 > 0,
            b@.1 > 0,
            b@.0 != 0;
    lemma_ratio_transfer(c, a@.0 * b@.1, a@.1 * b@.0, n1 * d2, d1 * n2);
}

/// The product of two 64-bit ranged values stays inside the 128-bit
/// range (it reaches the bound only for `i64::MIN * i64::MIN`).
proof fn lemma_prod_bound(a: int, b: int)
    requires
        i64::MIN as int <= a <= i64::MAX as int,
        i64::MIN as int <= b <= i64::MAX as int,
    ensures
        -(0x4000_0000_0000_0000_0000_0000_0000_0000) <= a * b,
        a * b <= 0x4000_0000_0000_0000_0000_0000_0000_0000,
{
    assert(-(0x4000_0000_0000_0000_0000_0000_0000_0000) <= a * b && a * b
        <= 0x4000_0000_0000_0000_0000_0000_0000_0000) by (nonlinear_arith)
        requires
            i64::MIN as int <= a <= i64::MAX as int,
            i64::MIN as int <= b <= i64::MAX as int;
}

/// A tighter bound when one factor is a positive 64-bit denominator;
/// two such products can then be added without leaving 128 bits.
proof fn lemma_prod_den_bound(a: int, d: int)
    requires
        i64::MIN as int <= a <= i64::MAX as int,
        0 < d <= i64::MAX as int,
    ensures
        -(0x3fff_ffff_ffff_ffff_8000_0000_0000_0000) <= a * d,
        a * d <= 0x3fff_ffff_ffff_ffff_8000_0000_0000_0000,
{
    assert(-(0x3fff_ffff_ffff_ffff_8000_0000_0000_0000) <= a * d && a * d
        <= 0x3fff_ffff_ffff_ffff_8000_0000_0000_0000) by (nonlinear_arith)
        requires
            i64::MIN as int <= a <= i64::MAX as int,
            0 < d <= i64::MAX as int;
}

} // verus!
