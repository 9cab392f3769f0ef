//! Greatest-common-divisor arithmetic used to decide which pulse counts are
//! coprime with the step count.

use vstd::prelude::*;
use vstd::arithmetic::div_mod::lemma_small_mod;

verus! {

/// Greatest common divisor, written as Euclid's recursion.
pub open spec fn spec_gcd(a: nat, b: nat) -> nat
    decreases b,
{
    if b == 0 {
        a
    } else {
        spec_gcd(b, a % b)
    }
}

/// Two numbers are coprime when their greatest common divisor is 1.
pub open spec fn coprime(a: nat, b: nat) -> bool {
    spec_gcd(a, b) == 1
}

/// Relies on gcd::binary_u32: returns the greatest common divisor of its two
/// arguments (binary GCD algorithm; total on all inputs, with
/// gcd(0, v) == v and gcd(u, 0) == u).
#[verifier::external_body]
pub(crate) fn gcd_u32(a: u32, b: u32) -> (r: u32)
    ensures
        r as nat == spec_gcd(a as nat, b as nat),
{
    gcd::binary_u32(a, b)
}

/// 1 is coprime with every positive number.
pub proof fn lemma_gcd_one(n: nat)
    requires
        n >= 1,
    ensures
        spec_gcd(1, n) == 1,
{
    if n == 1 {
        assert(spec_gcd(1, 1) == spec_gcd(1, 0));
    } else {
        lemma_small_mod(1, n);
        assert(spec_gcd(1, n) == spec_gcd(n, 1));
        assert(spec_gcd(n, 1) == spec_gcd(1, n % 1));
        assert(n % 1 == 0);
    }
}

/// The predecessor of a number at least 2 is coprime with it.
pub proof fn lemma_gcd_pred(n: nat)
    requires
        n >= 2,
    ensures
        spec_gcd((n - 1) as nat, n) == 1,
{
    let p = (n - 1) as nat;
    lemma_small_mod(p, n);
    assert(spec_gcd(p, n) == spec_gcd(n, p));
    if n == 2 {
        assert(spec_gcd(2, 1) == spec_gcd(1, 2nat % 1nat));
        assert(2nat % 1nat == 0);
    } else {
        assert(n % p == 1) by {
            assert(n == p * 1 + 1);
            vstd::arithmetic::div_mod::lemma_fundamental_div_mod_converse(
                n as int, p as int, 1, 1);
        }
        assert(spec_gcd(n, p) == spec_gcd(p, 1));
        assert(spec_gcd(p, 1) == spec_gcd(1, p % 1));
        assert(p % 1 == 0);
        lemma_gcd_one(p);
    }
}

} // verus!
