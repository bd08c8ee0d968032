//! Greatest common divisors of positive integers, by Euclid's algorithm.

use vstd::arithmetic::div_mod::{
    lemma_fundamental_div_mod, lemma_mod_multiples_basic, lemma_small_mod,
};
use vstd::prelude::*;

verus! {

/// `d` is a positive divisor of `n`.
pub open spec fn divides(d: nat, n: nat) -> bool {
    d > 0 && n % d == 0
}

/// `d` is a positive divisor of both `a` and `b`.
pub open spec fn is_common_divisor(d: nat, a: nat, b: nat) -> bool {
    divides(d, a) && divides(d, b)
}

/// `d` is the largest of the common divisors of `a` and `b`.
pub open spec fn is_greatest_common_divisor(d: nat, a: nat, b: nat) -> bool {
    &&& is_common_divisor(d, a, b)
    &&& forall|c: nat| is_common_divisor(c, a, b) ==> c <= d
}

/// The greatest common divisor as a function of its two operands, with the
/// usual convention that zero is neutral: `gcd_spec(a, 0) == a`.
pub open spec fn gcd_spec(a: nat, b: nat) -> nat
    decreases b,
{
    if b == 0 {
        a
    } else {
        gcd_spec(b, a % b)
    }
}

/// A common divisor of `x` and `r` divides `x * q + r`.
proof fn lemma_divides_sum(d: nat, x: nat, q: nat, r: nat)
    requires
        divides(d, x),
        divides(d, r),
    ensures
        divides(d, x * q + r),
{
    let kx = x as int / d as int;
    let kr = r as int / d as int;
    lemma_fundamental_div_mod(x as int, d as int);
    lemma_fundamental_div_mod(r as int, d as int);
    assert(x * q + r == (kx * q + kr) * d) by (nonlinear_arith)
        requires
            x == d * kx,
            r == d * kr,
    ;
    lemma_mod_multiples_basic(kx * q + kr, d as int);
}

/// A common divisor of `a` and `b` divides the remainder of `a` by `b`.
proof fn lemma_divides_remainder(d: nat, a: nat, b: nat)
    requires
        divides(d, a),
        divides(d, b),
        b > 0,
    ensures
        divides(d, a % b),
{
    let ka = a as int / d as int;
    let kb = b as int / d as int;
    let q = a as int / b as int;
    lemma_fundamental_div_mod(a as int, d as int);
    lemma_fundamental_div_mod(b as int, d as int);
    lemma_fundamental_div_mod(a as int, b as int);
    assert(a % b == (ka - kb * q) * d) by (nonlinear_arith)
        requires
            a == d * ka,
            b == d * kb,
            a == b * q + a % b,
    ;
    lemma_mod_multiples_basic(ka - kb * q, d as int);
}

/// A divisor of a divisor of `n` divides `n`.
pub proof fn lemma_divides_transitive(d: nat, e: nat, n: nat)
    requires
        divides(d, e),
        divides(e, n),
    ensures
        divides(d, n),
{
    lemma_fundamental_div_mod(n as int, e as int);
    lemma_divides_sum(d, e, n / e, 0);
}

/// A divisor of a positive number is no larger than the number.
pub proof fn lemma_divisor_at_most(d: nat, n: nat)
    requires
        divides(d, n),
        n > 0,
    ensures
        d <= n,
{
    if n < d {
        lemma_small_mod(n, d);
    }
}

/// The operands of `gcd_spec` can be exchanged.
pub proof fn lemma_gcd_commutative(a: nat, b: nat)
    ensures
        gcd_spec(a, b) == gcd_spec(b, a),
{
    // Dividing the smaller operand by the larger leaves it as it is, so one
    // step of the definition exchanges the two.
    if a < b {
        lemma_small_mod(a, b);
    } else if 0 < b < a {
        lemma_small_mod(b, a);
    }
}

/// Unless both operands are zero, `gcd_spec` is positive and divides both.
pub proof fn lemma_gcd_divides(a: nat, b: nat)
    requires
        a > 0 || b > 0,
    ensures
        is_common_divisor(gcd_spec(a, b), a, b),
    decreases b,
{
    if b != 0 {
        let g = gcd_spec(b, a % b);
        lemma_gcd_divides(b, a % b);
        lemma_fundamental_div_mod(a as int, b as int);
        lemma_divides_sum(g, b, a / b, a % b);
    }
}

/// Every common divisor of the operands divides `gcd_spec` of them.
pub proof fn lemma_common_divisor_divides_gcd(c: nat, a: nat, b: nat)
    requires
        is_common_divisor(c, a, b),
    ensures
        divides(c, gcd_spec(a, b)),
    decreases b,
{
    if b != 0 {
        lemma_divides_remainder(c, a, b);
        lemma_common_divisor_divides_gcd(c, b, a % b);
    }
}

/// `gcd_spec` of two numbers that are not both zero is their greatest
/// common divisor.
pub proof fn lemma_gcd_is_greatest(a: nat, b: nat)
    requires
        a > 0 || b > 0,
    ensures
        is_greatest_common_divisor(gcd_spec(a, b), a, b),
{
    lemma_gcd_divides(a, b);
    assert forall|c: nat| is_common_divisor(c, a, b) implies c <= gcd_spec(a, b) by {
        lemma_common_divisor_divides_gcd(c, a, b);
        lemma_divisor_at_most(c, gcd_spec(a, b));
    }
}

/// Zero is neutral on the left as it is on the right.
pub proof fn lemma_gcd_zero_left(b: nat)
    ensures
        gcd_spec(0, b) == b,
{
    lemma_gcd_commutative(0, b);
}

/// Reducing three numbers pairwise gives the same result whichever pair is
/// reduced first.
pub proof fn lemma_gcd_associative(a: nat, b: nat, c: nat)
    ensures
        gcd_spec(gcd_spec(a, b), c) == gcd_spec(a, gcd_spec(b, c)),
{
    let left = gcd_spec(gcd_spec(a, b), c);
    let right = gcd_spec(a, gcd_spec(b, c));
    if a == 0 {
        lemma_gcd_zero_left(b);
        lemma_gcd_zero_left(gcd_spec(b, c));
    } else if b == 0 {
        lemma_gcd_zero_left(c);
    } else if c == 0 {
    } else {
        // Both sides are positive and each divides the three operands, so
        // each divides the other.
        lemma_gcd_divides(a, b);
        lemma_gcd_divides(b, c);
        lemma_gcd_divides(gcd_spec(a, b), c);
        lemma_gcd_divides(a, gcd_spec(b, c));
        lemma_divides_transitive(left, gcd_spec(a, b), a);
        lemma_divides_transitive(left, gcd_spec(a, b), b);
        lemma_divides_transitive(right, gcd_spec(b, c), b);
        lemma_divides_transitive(right, gcd_spec(b, c), c);
        lemma_common_divisor_divides_gcd(left, b, c);
        lemma_common_divisor_divides_gcd(left, a, gcd_spec(b, c));
        lemma_common_divisor_divides_gcd(right, a, b);
        lemma_common_divisor_divides_gcd(right, gcd_spec(a, b), c);
        lemma_divisor_at_most(left, right);
        lemma_divisor_at_most(right, left);
    }
}

/// The greatest common divisor of a number with itself is that number.
pub proof fn lemma_gcd_of_equal_operands(n: nat)
    ensures
        gcd_spec(n, n) == n,
{
    if n != 0 {
        assert(gcd_spec(n, n) == gcd_spec(n, n % n));
    }
}

/// The greatest common divisor of one and any number is one.
pub proof fn lemma_gcd_with_one(m: nat)
    ensures
        gcd_spec(1, m) == 1,
{
    if m == 1 {
        lemma_gcd_of_equal_operands(1);
    } else if m > 1 {
        lemma_small_mod(1, m);
        assert(gcd_spec(m, 1) == gcd_spec(1, m % 1));
    }
}

/// The greatest common divisor of two nonzero numbers.
///
/// The larger operand is reduced modulo the smaller until nothing remains;
/// the last nonzero value is the result.
pub fn gcd(n: u64, m: u64) -> (d: u64)
    requires
        n != 0,
        m != 0,
    ensures
        d as nat == gcd_spec(n as nat, m as nat),
        is_greatest_common_divisor(d as nat, n as nat, m as nat),
{
    let mut n: u64 = n;
    let mut m: u64 = m;
    let ghost n0: nat = n as nat;
    let ghost m0: nat = m as nat;
    while m != 0
        invariant
            n != 0,
            gcd_spec(n as nat, m as nat) == gcd_spec(n0, m0),
        decreases m,
    {
        if m < n {
            let t: u64 = m;
            m = n;
            n = t;
        }
        proof {
            // Exchanging the operands keeps the divisor, and so does the
            // step from `(m, n)` to `(n, m % n)`.
            lemma_gcd_commutative(n as nat, m as nat);
        }
        m = m % n;
    }
    proof {
        lemma_gcd_is_greatest(n0, m0);
    }
    n
}

} // verus!
