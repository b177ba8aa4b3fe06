//! Greatest common divisors, and the facts about them that keep fractions canonical.
use vstd::arithmetic::div_mod::*;
use vstd::prelude::*;

verus! {

/// Greatest common divisor, by Euclid's algorithm.
pub open spec fn gcd(a: nat, b: nat) -> nat
    decreases b,
{
    if b == 0 {
        a
    } else {
        gcd(b, a % b)
    }
}

/// `d` divides `x`.
pub open spec fn divides(d: int, x: int) -> bool {
    exists|k: int| #[trigger] (k * d) == x
}

pub proof fn lemma_gcd_divides(a: nat, b: nat)
    ensures
        divides(gcd(a, b) as int, a as int),
        divides(gcd(a, b) as int, b as int),
    decreases b,
{
    let g = gcd(a, b) as int;
    if b == 0 {
        assert(1 * g == a);
        assert(0 * g == 0);
    } else {
        lemma_gcd_divides(b, a % b);
        let k1 = choose|k: int| #[trigger] (k * g) == b as int;
        let k2 = choose|k: int| #[trigger] (k * g) == (a % b) as int;
        let q = (a / b) as int;
        lemma_fundamental_div_mod(a as int, b as int);
        assert((q * k1 + k2) * g == a) by (nonlinear_arith)
            requires
                k1 * g == b as int,
                k2 * g == (a % b) as int,
                a as int == b * q + (a % b) as int,
        ;
        assert(k1 * g == b as int);
    }
}

pub proof fn lemma_gcd_greatest(a: nat, b: nat, d: int)
    requires
        divides(d, a as int),
        divides(d, b as int),
    ensures
        divides(d, gcd(a, b) as int),
    decreases b,
{
    if b != 0 {
        let ka = choose|k: int| #[trigger] (k * d) == a as int;
        let kb = choose|k: int| #[trigger] (k * d) == b as int;
        let q = (a / b) as int;
        lemma_fundamental_div_mod(a as int, b as int);
        assert((ka - q * kb) * d == (a % b) as int) by (nonlinear_arith)
            requires
                ka * d == a as int,
                kb * d == b as int,
                a as int == b * q + (a % b) as int,
        ;
        lemma_gcd_greatest(b, a % b, d);
    }
}

pub proof fn lemma_gcd_pos(a: nat, b: nat)
    requires
        a > 0 || b > 0,
    ensures
        gcd(a, b) > 0,
    decreases b,
{
    if b != 0 {
        lemma_gcd_pos(b, a % b);
    }
}

/// Scaling both arguments scales the divisor: `gcd(a c, b c) = gcd(a, b) c`.
pub proof fn lemma_gcd_mul(a: nat, b: nat, c: nat)
    ensures
        gcd(a * c, b * c) == gcd(a, b) * c,
    decreases b,
{
    if b == 0 {
        assert(b * c == 0);
    } else if c == 0 {
        assert(a * c == 0 && b * c == 0);
        assert(gcd(0, 0) == 0);
        assert(gcd(a, b) * c == 0);
    } else {
        let q = (a / b) as int;
        let r = (a % b) as int;
        lemma_fundamental_div_mod(a as int, b as int);
        assert(a * c == q * (b * c) + r * c && 0 <= r * c < b * c) by (nonlinear_arith)
            requires
                a as int == b * q + r,
                0 <= r < b,
                c > 0,
        ;
        lemma_fundamental_div_mod_converse((a * c) as int, (b * c) as int, q, r * c);
        assert(b * c != 0) by (nonlinear_arith)
            requires
                b > 0,
                c > 0,
        ;
        lemma_gcd_mul(b, a % b, c);
        assert((a * c) % (b * c) == (a % b) * c);
    }
}

/// Euclid's algorithm on machine integers.
pub fn gcd_u64(a: u64, b: u64) -> (r: u64)
    ensures
        r as nat == gcd(a as nat, b as nat),
{
    let mut x: u64 = a;
    let mut y: u64 = b;
    while y != 0
        invariant
            gcd(x as nat, y as nat) == gcd(a as nat, b as nat),
        decreases y,
    {
        let t = x % y;
        x = y;
        y = t;
    }
    x
}

} // verus!
