//! Rational exponents, kept in lowest terms.
use crate::arith::{gcd_u64, divides, gcd, lemma_gcd_divides, lemma_gcd_greatest, lemma_gcd_mul, lemma_gcd_pos};
use vstd::arithmetic::div_mod::*;
use vstd::arithmetic::mul::*;
use vstd::prelude::*;

verus! {

/// A fraction of mathematical integers: the model of an exponent.
pub struct Rational {
    pub num: int,
    pub den: int,
}

pub open spec fn abs(x: int) -> nat {
    if x < 0 {
        (-x) as nat
    } else {
        x as nat
    }
}

/// Lowest terms: a positive denominator that shares no factor with the numerator.
pub open spec fn reduced(r: Rational) -> bool {
    r.den > 0 && gcd(abs(r.num), r.den as nat) == 1
}

/// `n / d` brought to lowest terms (for `d > 0`).
pub open spec fn normalize(n: int, d: int) -> Rational {
    let g = gcd(abs(n), d as nat) as int;
    Rational { num: n / g, den: d / g }
}

/// Two fractions denote the same number.
pub open spec fn same_value(a: Rational, b: Rational) -> bool {
    a.num * b.den == b.num * a.den
}

pub open spec fn rat_zero() -> Rational {
    Rational { num: 0, den: 1 }
}

pub open spec fn rat_one() -> Rational {
    Rational { num: 1, den: 1 }
}

pub open spec fn rat_neg(a: Rational) -> Rational {
    Rational { num: -a.num, den: a.den }
}

/// The sum of two fractions, in lowest terms.
pub open spec fn rat_add(a: Rational, b: Rational) -> Rational {
    normalize(a.num * b.den + b.num * a.den, a.den * b.den)
}

pub open spec fn rat_sub(a: Rational, b: Rational) -> Rational {
    rat_add(a, rat_neg(b))
}

/// The largest magnitude that a numerator or a denominator of an exponent may have.
pub const FRAC_BOUND: i32 = 0x7fff_ffff;

/// The fraction is stored in an exponent: lowest terms, both parts within `FRAC_BOUND`.
pub open spec fn fits(r: Rational) -> bool {
    reduced(r) && -FRAC_BOUND <= r.num <= FRAC_BOUND && r.den <= FRAC_BOUND
}

proof fn lemma_div_exact(x: int, g: int, k: int)
    requires
        g > 0,
        k * g == x,
    ensures
        x / g == k,
{
    lemma_fundamental_div_mod_converse(x, g, k, 0);
}

/// `normalize` gives lowest terms of the same value.
pub proof fn lemma_normalize(n: int, d: int)
    requires
        d > 0,
    ensures
        reduced(normalize(n, d)),
        same_value(normalize(n, d), Rational { num: n, den: d }),
{
    let an = abs(n);
    let g = gcd(an, d as nat);
    lemma_gcd_pos(an, d as nat);
    lemma_gcd_divides(an, d as nat);
    let kn = choose|k: int| #[trigger] (k * g) == an as int;
    let kd = choose|k: int| #[trigger] (k * g) == d;
    assert(kn >= 0 && kd > 0) by (nonlinear_arith)
        requires
            kn * g == an as int,
            kd * g == d,
            g > 0,
            d > 0,
            an >= 0,
    ;
    let s: int = if n < 0 {
        -kn
    } else {
        kn
    };
    assert(s * g == n) by (nonlinear_arith)
        requires
            kn * g == an as int,
            an as int == (if n < 0 {
                -n
            } else {
                n
            }),
            s == (if n < 0 {
                -kn
            } else {
                kn
            }),
    ;
    lemma_div_exact(n, g as int, s);
    lemma_div_exact(d, g as int, kd);
    let r = normalize(n, d);
    assert(r.num == s && r.den == kd);
    assert(abs(s) == kn);
    lemma_gcd_mul(kn as nat, kd as nat, g);
    assert(gcd(kn as nat, kd as nat) * g == g * 1);
    assert(gcd(kn as nat, kd as nat) == 1) by (nonlinear_arith)
        requires
            gcd(kn as nat, kd as nat) * g == g * 1,
            g > 0,
    ;
    assert(s * d == n * kd) by (nonlinear_arith)
        requires
            s * g == n,
            kd * g == d,
    ;
}

/// Fractions in lowest terms that denote the same number are the same fraction.
pub proof fn lemma_reduced_unique(a: Rational, b: Rational)
    requires
        reduced(a),
        reduced(b),
        same_value(a, b),
    ensures
        a == b,
{
    lemma_reduced_divides_den(a, b);
    lemma_reduced_divides_den(b, a);
    let k1 = choose|k: int| #[trigger] (k * a.den) == b.den;
    let k2 = choose|k: int| #[trigger] (k * b.den) == a.den;
    assert(a.den == b.den) by (nonlinear_arith)
        requires
            k1 * a.den == b.den,
            k2 * b.den == a.den,
            a.den > 0,
            b.den > 0,
    ;
    assert(a.num == b.num) by (nonlinear_arith)
        requires
            a.num * b.den == b.num * a.den,
            a.den == b.den,
            a.den > 0,
    ;
}

/// Under lowest terms, the denominator of one of two equal fractions divides the other's.
proof fn lemma_reduced_divides_den(a: Rational, b: Rational)
    requires
        reduced(a),
        b.den > 0,
        same_value(a, b),
    ensures
        divides(a.den, b.den),
{
    let x = abs(a.num) * (b.den as nat);
    let y = (a.den as nat) * (b.den as nat);
    assert(x == abs(b.num) * (a.den as nat)) by (nonlinear_arith)
        requires
            x == abs(a.num) * (b.den as nat),
            a.num * b.den == b.num * a.den,
            a.den > 0,
            b.den > 0,
            abs(a.num) as int == (if a.num < 0 {
                -a.num
            } else {
                a.num
            }),
            abs(b.num) as int == (if b.num < 0 {
                -b.num
            } else {
                b.num
            }),
    ;
    assert(abs(b.num) * a.den == x);
    assert(divides(a.den, x as int));
    assert(b.den * a.den == y) by (nonlinear_arith)
        requires
            y == (a.den as nat) * (b.den as nat),
            a.den > 0,
            b.den > 0,
    ;
    assert(divides(a.den, y as int));
    lemma_gcd_greatest(x, y, a.den);
    lemma_gcd_mul(abs(a.num), a.den as nat, b.den as nat);
    assert(gcd(x, y) == b.den);
}

/// A fraction in lowest terms with the value of `n / d` is `normalize(n, d)`.
pub proof fn lemma_normalize_unique(r: Rational, n: int, d: int)
    requires
        reduced(r),
        d > 0,
        same_value(r, Rational { num: n, den: d }),
    ensures
        r == normalize(n, d),
{
    let s = normalize(n, d);
    lemma_normalize(n, d);
    assert(r.num * s.den == s.num * r.den) by (nonlinear_arith)
        requires
            r.num * d == n * r.den,
            s.num * d == n * s.den,
            d > 0,
    ;
    lemma_reduced_unique(r, s);
}

/// Fractions of equal value normalize to the same fraction.
pub proof fn lemma_normalize_eq(n1: int, d1: int, n2: int, d2: int)
    requires
        d1 > 0,
        d2 > 0,
        n1 * d2 == n2 * d1,
    ensures
        normalize(n1, d1) == normalize(n2, d2),
{
    let s = normalize(n1, d1);
    lemma_normalize(n1, d1);
    assert(s.num * d2 == n2 * s.den) by (nonlinear_arith)
        requires
            s.num * d1 == n1 * s.den,
            n1 * d2 == n2 * d1,
            d1 > 0,
    ;
    lemma_normalize_unique(s, n2, d2);
}

pub proof fn lemma_zero_reduced()
    ensures
        reduced(rat_zero()),
        reduced(rat_one()),
{
    assert(gcd(0, 1) == gcd(1, 0));
    assert(gcd(1, 1) == gcd(1, 0));
}

/// The only zero in lowest terms is `0 / 1`.
pub proof fn lemma_zero_unique(r: Rational)
    requires
        reduced(r),
        r.num == 0,
    ensures
        r == rat_zero(),
{
    assert(0nat % (r.den as nat) == 0);
    assert(gcd(r.den as nat, 0) == r.den);
    assert(gcd(0, r.den as nat) == r.den);
}

/// A whole number is its own lowest terms.
pub proof fn lemma_integer_reduced(n: int)
    ensures
        normalize(n, 1) == (Rational { num: n, den: 1 }),
{
    assert(abs(n) % 1 == 0);
    assert(gcd(1, 0) == 1);
    assert(gcd(abs(n), 1) == 1);
    let g = gcd(abs(n), 1) as int;
    assert(n / g == n && 1int / g == 1);
}

/// Negation keeps lowest terms and undoes itself.
pub proof fn lemma_neg(a: Rational)
    requires
        reduced(a),
    ensures
        reduced(rat_neg(a)),
        rat_neg(rat_neg(a)) == a,
        abs(rat_neg(a).num) == abs(a.num),
{
}

pub proof fn lemma_add_comm(a: Rational, b: Rational)
    ensures
        rat_add(a, b) == rat_add(b, a),
{
    assert(a.num * b.den + b.num * a.den == b.num * a.den + a.num * b.den);
    assert(a.den * b.den == b.den * a.den) by (nonlinear_arith);
}

pub proof fn lemma_add_zero(a: Rational)
    requires
        reduced(a),
    ensures
        rat_add(a, rat_zero()) == a,
        rat_add(rat_zero(), a) == a,
{
    assert(a.num * 1 + 0 * a.den == a.num);
    assert(a.den * 1 == a.den);
    lemma_normalize_unique(a, a.num, a.den);
    lemma_add_comm(a, rat_zero());
}

pub proof fn lemma_add_neg(a: Rational)
    requires
        reduced(a),
    ensures
        rat_add(a, rat_neg(a)) == rat_zero(),
{
    let d = a.den * a.den;
    assert(a.num * a.den + (-a.num) * a.den == 0) by (nonlinear_arith);
    assert(d > 0) by (nonlinear_arith)
        requires
            a.den > 0,
            d == a.den * a.den,
    ;
    lemma_zero_reduced();
    lemma_normalize_unique(rat_zero(), 0, d);
}

pub proof fn lemma_add_assoc(a: Rational, b: Rational, c: Rational)
    requires
        a.den > 0,
        b.den > 0,
        c.den > 0,
    ensures
        rat_add(rat_add(a, b), c) == rat_add(a, rat_add(b, c)),
{
    let x = a.num * b.den + b.num * a.den;
    let y = a.den * b.den;
    let x2 = b.num * c.den + c.num * b.den;
    let y2 = b.den * c.den;
    assert(y > 0 && y2 > 0) by (nonlinear_arith)
        requires
            a.den > 0,
            b.den > 0,
            c.den > 0,
            y == a.den * b.den,
            y2 == b.den * c.den,
    ;
    let ab = rat_add(a, b);
    let bc = rat_add(b, c);
    lemma_normalize(x, y);
    lemma_normalize(x2, y2);
    let big_n = x * c.den + c.num * y;
    let big_d = y * c.den;
    assert(big_d > 0) by (nonlinear_arith)
        requires
            y > 0,
            c.den > 0,
            big_d == y * c.den,
    ;
    assert(ab.den * c.den > 0) by (nonlinear_arith)
        requires
            ab.den > 0,
            c.den > 0,
    ;
    lemma_cross(ab.num, ab.den, x, y, c.den, c.num);
    lemma_normalize_eq(ab.num * c.den + c.num * ab.den, ab.den * c.den, big_n, big_d);
    assert(a.den * bc.den > 0) by (nonlinear_arith)
        requires
            a.den > 0,
            bc.den > 0,
    ;
    lemma_mul_is_distributive_add_other_way(c.den, a.num * b.den, b.num * a.den);
    lemma_mul_is_distributive_add(a.den, b.num * c.den, c.num * b.den);
    lemma_mul_is_associative(a.num, b.den, c.den);
    lemma_mul_is_associative(a.den, b.den, c.den);
    assert((b.num * a.den) * c.den == a.den * (b.num * c.den)) by (nonlinear_arith);
    assert(c.num * (a.den * b.den) == a.den * (c.num * b.den)) by (nonlinear_arith);
    assert(big_n == a.num * y2 + a.den * x2);
    assert(big_d == a.den * y2);
    lemma_cross_left(a.num, a.den, bc.num, bc.den, x2, y2);
    lemma_normalize_eq(a.num * bc.den + bc.num * a.den, a.den * bc.den, big_n, big_d);
}

/// `(p e + f q) / (q e)` equals `(x e + f y) / (y e)` when `p / q` equals `x / y`.
proof fn lemma_cross(p: int, q: int, x: int, y: int, e: int, f: int)
    requires
        p * y == x * q,
    ensures
        (p * e + f * q) * (y * e) == (x * e + f * y) * (q * e),
{
    lemma_mul_is_distributive_add_other_way(y * e, p * e, f * q);
    lemma_mul_is_distributive_add_other_way(q * e, x * e, f * y);
    assert((p * e) * (y * e) == (p * y) * (e * e)) by (nonlinear_arith);
    assert((x * e) * (q * e) == (x * q) * (e * e)) by (nonlinear_arith);
    assert((f * q) * (y * e) == (f * y) * (q * e)) by (nonlinear_arith);
}

/// `(a s + r b) / (b s)` equals `(a v + b u) / (b v)` when `r / s` equals `u / v`.
proof fn lemma_cross_left(a: int, b: int, r: int, s: int, u: int, v: int)
    requires
        r * v == u * s,
    ensures
        (a * s + r * b) * (b * v) == (a * v + b * u) * (b * s),
{
    lemma_mul_is_distributive_add_other_way(b * v, a * s, r * b);
    lemma_mul_is_distributive_add_other_way(b * s, a * v, b * u);
    assert((a * s) * (b * v) == (a * b) * (s * v)) by (nonlinear_arith);
    assert((a * v) * (b * s) == (a * b) * (s * v)) by (nonlinear_arith);
    assert((r * b) * (b * v) == (r * v) * (b * b)) by (nonlinear_arith);
    assert((b * u) * (b * s) == (u * s) * (b * b)) by (nonlinear_arith);
}

/// An exponent: a fraction in lowest terms with a positive denominator, each part
/// within `FRAC_BOUND` in magnitude. Whole exponents have denominator 1.
#[derive(Clone, Copy, Debug, PartialEq, Eq, Structural)]
pub struct Frac {
    num: i32,
    den: i32,
}

impl View for Frac {
    type V = Rational;

    closed spec fn view(&self) -> Rational {
        Rational { num: self.num as int, den: self.den as int }
    }
}

/// The lowest terms of `n / d` for a nonzero `d` of either sign.
pub open spec fn frac_of(n: int, d: int) -> Rational {
    if d < 0 {
        normalize(-n, -d)
    } else {
        normalize(n, d)
    }
}

impl Frac {
    #[verifier::type_invariant]
    pub open spec fn inv(self) -> bool {
        fits(self@)
    }

    /// The fraction `num / den` in lowest terms; `None` when `den` is zero or the
    /// reduced fraction does not fit in an exponent.
    pub fn new(num: i32, den: i32) -> (r: Option<Frac>)
        ensures
            r is Some <==> den != 0 && fits(frac_of(num as int, den as int)),
            r matches Some(f) ==> f@ == frac_of(num as int, den as int),
    {
        if den == 0 {
            return None;
        }
        let (n, d): (i64, i64) = if den < 0 {
            (-(num as i64), -(den as i64))
        } else {
            (num as i64, den as i64)
        };
        match reduce(n, d) {
            Some(f) => Some(f),
            None => None,
        }
    }

    /// The whole number `n` as an exponent.
    pub fn integer(n: i32) -> (r: Frac)
        requires
            -FRAC_BOUND <= n,
        ensures
            r@ == (Rational { num: n as int, den: 1 }),
    {
        proof {
            lemma_integer_reduced(n as int);
            lemma_normalize(n as int, 1);
        }
        Frac { num: n, den: 1 }
    }

    pub fn zero() -> (r: Frac)
        ensures
            r@ == rat_zero(),
    {
        proof {
            lemma_zero_reduced();
        }
        Frac { num: 0, den: 1 }
    }

    pub fn num(&self) -> (r: i32)
        ensures
            r == self@.num,
    {
        self.num
    }

    pub fn den(&self) -> (r: i32)
        ensures
            r == self@.den,
    {
        self.den
    }

    pub fn is_zero(&self) -> (r: bool)
        ensures
            r == (self@.num == 0),
    {
        self.num == 0
    }

    /// The two exponents are the same number.
    pub fn equals(&self, other: &Frac) -> (r: bool)
        ensures
            r == (self@ == other@),
    {
        self.num == other.num && self.den == other.den
    }

    pub fn is_positive(&self) -> (r: bool)
        ensures
            r == (self@.num > 0),
    {
        self.num > 0
    }

    pub fn is_integer(&self) -> (r: bool)
        ensures
            r == (self@.den == 1),
    {
        self.den == 1
    }

    /// Negation: the numerator changes sign, the denominator stays.
    pub fn neg(&self) -> (r: Frac)
        ensures
            r@ == rat_neg(self@),
    {
        proof {
            use_type_invariant(self);
            lemma_neg(self@);
        }
        Frac { num: -self.num, den: self.den }
    }

    /// Sum of two exponents over their least common denominator, brought to lowest terms.
    pub fn add(&self, rhs: &Frac) -> (r: Frac)
        requires
            fits(rat_add(self@, rhs@)),
        ensures
            r@ == rat_add(self@, rhs@),
    {
        proof {
            use_type_invariant(self);
            use_type_invariant(rhs);
        }
        let n1 = self.num as i64;
        let d1 = self.den as i64;
        let n2 = rhs.num as i64;
        let d2 = rhs.den as i64;
        if d1 == 1 && d2 == 1 {
            proof {
                assert(n1 * 1 + n2 * 1 == n1 + n2 && 1int * 1 == 1);
                lemma_integer_reduced(n1 + n2);
            }
            return Frac { num: (n1 + n2) as i32, den: 1 };
        }
        let gu = gcd_u64(d1 as u64, d2 as u64);
        let ghost gi: int = gcd(d1 as nat, d2 as nat) as int;
        proof {
            lemma_gcd_pos(d1 as nat, d2 as nat);
            lemma_gcd_divides(d1 as nat, d2 as nat);
        }
        let ghost k1 = choose|k: int| #[trigger] (k * gi) == d1 as int;
        let ghost k2 = choose|k: int| #[trigger] (k * gi) == d2 as int;
        proof {
            assert(0 < k1 <= d1 && 0 < k2 <= d2 && gi <= d1) by (nonlinear_arith)
                requires
                    k1 * gi == d1,
                    k2 * gi == d2,
                    gi > 0,
                    d1 > 0,
                    d2 > 0,
            ;
        }
        let g = gu as i64;
        proof {
            lemma_div_exact(d1 as int, g as int, k1);
            assert(k1 * d2 <= d1 * d2) by (nonlinear_arith)
                requires
                    0 < k1 <= d1,
                    d2 > 0,
            ;
            assert(d1 * d2 <= FRAC_BOUND * FRAC_BOUND) by (nonlinear_arith)
                requires
                    0 < d1 <= FRAC_BOUND,
                    0 < d2 <= FRAC_BOUND,
            ;
        }
        let lcm = d1 / g * d2;
        proof {
            assert(lcm == k1 * k2 * g) by (nonlinear_arith)
                requires
                    lcm == k1 * d2,
                    k2 * g == d2,
            ;
            assert(lcm == k2 * d1 && lcm == k1 * d2) by (nonlinear_arith)
                requires
                    lcm == k1 * k2 * g,
                    k1 * g == d1,
                    k2 * g == d2,
            ;
            lemma_div_exact(lcm as int, d1 as int, k2);
            lemma_div_exact(lcm as int, d2 as int, k1);
        }
        let m1 = lcm / d1;
        let m2 = lcm / d2;
        proof {
            assert(-FRAC_BOUND * FRAC_BOUND <= n1 * m1 <= FRAC_BOUND * FRAC_BOUND) by (nonlinear_arith)
                requires
                    -FRAC_BOUND <= n1 <= FRAC_BOUND,
                    0 < m1 <= FRAC_BOUND,
            ;
            assert(-FRAC_BOUND * FRAC_BOUND <= n2 * m2 <= FRAC_BOUND * FRAC_BOUND) by (nonlinear_arith)
                requires
                    -FRAC_BOUND <= n2 <= FRAC_BOUND,
                    0 < m2 <= FRAC_BOUND,
            ;
        }
        let n = n1 * m1 + n2 * m2;
        proof {
            lemma_cross_lcm(n1 as int, d1 as int, n2 as int, d2 as int, m1 as int, m2 as int, lcm as int);
            lemma_normalize_eq(n as int, lcm as int, n1 * d2 + n2 * d1, d1 * d2);
        }
        match reduce(n, lcm) {
            Some(f) => f,
            None => {
                proof {
                    assert(false);
                }
                Frac { num: 0, den: 1 }
            },
        }
    }

    /// Difference of two exponents: the sum with the negation.
    pub fn sub(&self, rhs: &Frac) -> (r: Frac)
        requires
            fits(rat_sub(self@, rhs@)),
        ensures
            r@ == rat_sub(self@, rhs@),
    {
        let m = rhs.neg();
        self.add(&m)
    }
}

/// `n / d` for `d > 0` in lowest terms, when it fits in an exponent.
fn reduce(n: i64, d: i64) -> (r: Option<Frac>)
    requires
        d > 0,
    ensures
        r is Some <==> fits(normalize(n as int, d as int)),
        r matches Some(f) ==> f@ == normalize(n as int, d as int),
{
    let an: u64 = if n < 0 {
        (-(n as i128)) as u64
    } else {
        n as u64
    };
    let g = gcd_u64(an, d as u64);
    proof {
        lemma_gcd_pos(an as nat, d as nat);
        lemma_gcd_divides(an as nat, d as nat);
        lemma_normalize(n as int, d as int);
        assert(an as nat == abs(n as int));
    }
    let ghost kn = choose|k: int| #[trigger] (k * g) == an as int;
    let ghost kd = choose|k: int| #[trigger] (k * g) == d as int;
    proof {
        lemma_div_exact(an as int, g as int, kn);
        lemma_div_exact(d as int, g as int, kd);
        assert(kn <= an && kd <= d) by (nonlinear_arith)
            requires
                kn * g == an,
                kd * g == d,
                g > 0,
                d > 0,
        ;
    }
    let qn = an / g;
    let qd = (d as u64) / g;
    proof {
        let sk: int = if n < 0 { -kn } else { kn };
        assert(sk * g == n) by (nonlinear_arith)
            requires
                kn * g == an,
                an as int == (if n < 0 { -n } else { n as int }),
                sk == (if n < 0 { -kn } else { kn }),
        ;
        lemma_div_exact(n as int, g as int, sk);
    }
    if qn > FRAC_BOUND as u64 || qd > FRAC_BOUND as u64 {
        return None;
    }
    let num: i32 = if n < 0 {
        -(qn as i32)
    } else {
        qn as i32
    };
    Some(Frac { num, den: qd as i32 })
}

/// The sum over the least common multiple has the value of the sum over the product.
proof fn lemma_cross_lcm(n1: int, d1: int, n2: int, d2: int, m1: int, m2: int, l: int)
    requires
        l == m1 * d1,
        l == m2 * d2,
    ensures
        (n1 * m1 + n2 * m2) * (d1 * d2) == (n1 * d2 + n2 * d1) * l,
{
    lemma_mul_is_distributive_add_other_way(d1 * d2, n1 * m1, n2 * m2);
    lemma_mul_is_distributive_add_other_way(l, n1 * d2, n2 * d1);
    assert((n1 * m1) * (d1 * d2) == (n1 * d2) * (m1 * d1)) by (nonlinear_arith);
    assert((n2 * m2) * (d1 * d2) == (n2 * d1) * (m2 * d2)) by (nonlinear_arith);
}

} // verus!
