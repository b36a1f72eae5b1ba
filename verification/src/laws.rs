//! The algebraic laws of the ring Z/NZ, stated over the specification-level
//! operations that the executable operations are proved to implement:
//! canonicalization of conversions, the ring axioms, the consistency of
//! subtraction with the additive inverse, the power laws, the
//! characterization of invertible elements by coprimality, and Fermat's
//! little theorem.
use crate::Congruence;
use crate::number_theory::{
    gcd, lemma_bezout, lemma_coprime_of_unit_combination,
};
use crate::residue;
use vstd::arithmetic::div_mod::{
    lemma_add_mod_noop_right, lemma_fundamental_div_mod, lemma_mod_bound,
    lemma_mod_multiples_vanish, lemma_mod_self_0, lemma_mul_mod_noop_general,
    lemma_mul_mod_noop_left, lemma_mul_mod_noop_right, lemma_small_mod,
};
use vstd::arithmetic::power::{lemma_pow0, lemma_pow1, lemma_pow_adds};
use vstd::prelude::*;

verus! {

/// Canonicalization of a backward count: for a positive modulus, the residue
/// of `-k` is the complement `(n - (k mod n)) mod n` of the residue of `k`.
pub proof fn lemma_negative_canonicalization(k: nat, n: nat)
    requires
        n > 0,
    ensures
        residue(-(k as int), n) == (n - residue(k as int, n)) % (n as int),
{
    let ni = n as int;
    let m = residue(k as int, n);
    lemma_mod_bound(k as int, ni);
    if k == 0 {
        lemma_small_mod(0, n);
        lemma_mod_self_0(ni);
    } else {
        crate::conversions::lemma_negative_residue(-(k as int), k, n);
        if m == 0 {
            lemma_mod_self_0(ni);
        } else {
            lemma_small_mod((n - m) as nat, n);
        }
    }
}

impl<const MODULUS: usize> Congruence<MODULUS> {
    /// Addition is commutative.
    pub proof fn lemma_add_commutative(a: Self, b: Self)
        ensures
            a.spec_add(b) == b.spec_add(a),
    {
    }

    /// Addition is associative.
    pub proof fn lemma_add_associative(a: Self, b: Self, c: Self)
        ensures
            a.spec_add(b).spec_add(c) == a.spec_add(b.spec_add(c)),
    {
        if MODULUS > 0 {
            let ni = MODULUS as int;
            let x = a.representative as int;
            let y = b.representative as int;
            let z = c.representative as int;
            lemma_add_mod_noop_right(z, x + y, ni);
            lemma_add_mod_noop_right(x, y + z, ni);
        }
    }

    /// ZERO is the additive identity.
    pub proof fn lemma_add_zero_identity(a: Self)
        requires
            a.wf(),
        ensures
            a.spec_add(Self::spec_zero()) == a,
            Self::spec_zero().spec_add(a) == a,
    {
        if MODULUS > 0 {
            lemma_small_mod(a.representative as nat, MODULUS as nat);
        }
    }

    /// Multiplication is commutative.
    pub proof fn lemma_mul_commutative(a: Self, b: Self)
        ensures
            a.spec_mul(b) == b.spec_mul(a),
    {
    }

    /// Multiplication is associative.
    pub proof fn lemma_mul_associative(a: Self, b: Self, c: Self)
        ensures
            a.spec_mul(b).spec_mul(c) == a.spec_mul(b.spec_mul(c)),
    {
        let x = a.representative as int;
        let y = b.representative as int;
        let z = c.representative as int;
        if MODULUS > 0 {
            let ni = MODULUS as int;
            lemma_mul_mod_noop_left(x * y, z, ni);
            lemma_mul_mod_noop_right(x, y * z, ni);
            assert(x * y * z == x * (y * z)) by (nonlinear_arith);
        } else {
            assert(residue(x * y, 0) * z == 0) by (nonlinear_arith)
                requires
                    residue(x * y, 0) == 0,
            ;
            assert(x * residue(y * z, 0) == 0) by (nonlinear_arith)
                requires
                    residue(y * z, 0) == 0,
            ;
        }
    }

    /// ONE is the multiplicative identity.
    pub proof fn lemma_mul_one_identity(a: Self)
        requires
            a.wf(),
        ensures
            a.spec_mul(Self::spec_one()) == a,
            Self::spec_one().spec_mul(a) == a,
    {
        let x = a.representative as int;
        let u = Self::spec_one().representative as int;
        if MODULUS == 0 {
        } else if MODULUS == 1 {
            lemma_mod_self_0(1);
            lemma_small_mod(0, 1);
            assert(x * u == 0 && u * x == 0) by (nonlinear_arith)
                requires
                    x == 0,
            ;
        } else {
            lemma_small_mod(1, MODULUS as nat);
            lemma_small_mod(a.representative as nat, MODULUS as nat);
            assert(x * u == x && u * x == x) by (nonlinear_arith)
                requires
                    u == 1,
            ;
        }
    }

    /// Multiplication distributes over addition.
    pub proof fn lemma_mul_distributive(a: Self, b: Self, c: Self)
        ensures
            a.spec_mul(b.spec_add(c)) == a.spec_mul(b).spec_add(a.spec_mul(c)),
    {
        let x = a.representative as int;
        let y = b.representative as int;
        let z = c.representative as int;
        if MODULUS > 0 {
            let ni = MODULUS as int;
            lemma_mul_mod_noop_right(x, y + z, ni);
            vstd::arithmetic::div_mod::lemma_add_mod_noop(x * y, x * z, ni);
            assert(x * (y + z) == x * y + x * z) by (nonlinear_arith);
        } else {
            assert(x * residue(y + z, 0) == 0) by (nonlinear_arith)
                requires
                    residue(y + z, 0) == 0,
            ;
        }
    }

    /// ZERO is absorbing under multiplication.
    pub proof fn lemma_mul_zero_absorbing(a: Self)
        ensures
            a.spec_mul(Self::spec_zero()) == Self::spec_zero(),
            Self::spec_zero().spec_mul(a) == Self::spec_zero(),
    {
        let x = a.representative as int;
        assert(x * 0 == 0) by (nonlinear_arith);
        if MODULUS > 0 {
            lemma_small_mod(0, MODULUS as nat);
        }
    }

    /// Subtracting a value from itself lands on ZERO.
    pub proof fn lemma_sub_self(a: Self)
        ensures
            a.spec_sub(a) == Self::spec_zero(),
    {
        if MODULUS > 0 {
            lemma_small_mod(0, MODULUS as nat);
        }
    }

    /// Subtraction from ZERO yields the additive inverse: adding it back
    /// returns to ZERO.
    pub proof fn lemma_sub_gives_additive_inverse(a: Self)
        ensures
            a.spec_add(Self::spec_zero().spec_sub(a)) == Self::spec_zero(),
    {
        let x = a.representative as int;
        if MODULUS > 0 {
            let ni = MODULUS as int;
            lemma_add_mod_noop_right(x, 0 - x, ni);
            lemma_small_mod(0, MODULUS as nat);
        }
    }

    /// The zeroth power of any value is ONE: the empty product is the
    /// multiplicative identity.
    pub proof fn lemma_pow_zero_is_one(x: Self)
        ensures
            x.spec_pow(0) == Self::spec_one(),
    {
        lemma_pow0(x.representative as int);
    }

    /// The first power of a value is the value itself.
    pub proof fn lemma_pow_one_is_self(x: Self)
        requires
            x.wf(),
        ensures
            x.spec_pow(1) == x,
    {
        lemma_pow1(x.representative as int);
        if MODULUS > 0 {
            lemma_small_mod(x.representative as nat, MODULUS as nat);
        }
    }

    /// Powers add: the power at a sum of exponents is the product of the
    /// powers at each exponent.
    pub proof fn lemma_pow_sum(x: Self, m: nat, n: nat)
        ensures
            x.spec_pow(m + n) == x.spec_pow(m).spec_mul(x.spec_pow(n)),
    {
        let b = x.representative as int;
        lemma_pow_adds(b, m, n);
        if MODULUS > 0 {
            lemma_mul_mod_noop_general(
                vstd::arithmetic::power::pow(b, m),
                vstd::arithmetic::power::pow(b, n),
                MODULUS as int,
            );
        } else {
            assert(residue(vstd::arithmetic::power::pow(b, m), 0) * residue(
                vstd::arithmetic::power::pow(b, n),
                0,
            ) == 0) by (nonlinear_arith)
                requires
                    residue(vstd::arithmetic::power::pow(b, m), 0) == 0,
            ;
        }
    }

    /// Fermat's little theorem in the ring: with a prime modulus, every
    /// non-zero element raised to `MODULUS - 1` is ONE, and raised to
    /// `MODULUS` is the element itself.
    pub proof fn lemma_fermat_little_theorem(x: Self)
        requires
            crate::number_theory::is_prime_spec(MODULUS as nat),
            x.wf(),
            x.representative != 0,
        ensures
            x.spec_pow((MODULUS - 1) as nat) == Self::spec_one(),
            x.spec_pow(MODULUS as nat) == x,
    {
        let p = MODULUS as nat;
        let pi = MODULUS as int;
        let b = x.representative as int;
        let e = (MODULUS - 1) as nat;
        lemma_small_mod(x.representative as nat, p);
        crate::number_theory::lemma_fermat_little(p, b);
        lemma_small_mod(1, p);
        lemma_pow1(b);
        lemma_pow_adds(b, e, 1);
        lemma_mul_mod_noop_left(vstd::arithmetic::power::pow(b, e), b, pi);
        assert(1 * b == b) by (nonlinear_arith);
    }

    /// An element is invertible exactly when its representative is coprime
    /// to the modulus: some multiplier in `1 .. MODULUS` reaches the residue
    /// of one exactly when the greatest common divisor of representative and
    /// modulus is one. The ring of modulus one is excluded: its only
    /// element is its own identity, yet the search range is empty there.
    pub proof fn lemma_inverse_exists_iff_coprime(x: Self)
        requires
            x.wf(),
            MODULUS != 1,
        ensures
            (exists|y: int|
                1 <= y < MODULUS && #[trigger] residue(x.representative * y, MODULUS as nat)
                    == residue(1, MODULUS as nat)) <==> gcd(
                x.representative as nat,
                MODULUS as nat,
            ) == 1,
    {
        let n = MODULUS as nat;
        let ni = MODULUS as int;
        let a = x.representative as int;
        if MODULUS > 0 {
            lemma_small_mod(1, n);
            if exists|y: int|
                1 <= y < MODULUS && #[trigger] residue(x.representative * y, n) == residue(
                    1,
                    n,
                ) {
                let y = choose|y: int|
                    1 <= y < MODULUS && #[trigger] residue(x.representative * y, n) == residue(
                        1,
                        n,
                    );
                lemma_fundamental_div_mod(a * y, ni);
                let q = (a * y) / ni;
                assert(y * a + (-q) * ni == 1) by (nonlinear_arith)
                    requires
                        a * y == ni * q + 1,
                ;
                lemma_coprime_of_unit_combination(x.representative as nat, n, y, -q);
            }
            if gcd(x.representative as nat, n) == 1 {
                let (s, t) = lemma_bezout(x.representative as nat, n);
                lemma_mod_bound(s, ni);
                let y = s % ni;
                lemma_mul_mod_noop_right(a, s, ni);
                assert(a * s == (-t) * ni + 1) by (nonlinear_arith)
                    requires
                        s * a + t * ni == 1,
                ;
                lemma_mod_multiples_vanish(-t, 1, ni);
                assert(residue(a * y, n) == residue(1, n));
                if y == 0 {
                    assert(a * 0 == 0) by (nonlinear_arith);
                    lemma_small_mod(0, n);
                }
                assert(1 <= y < MODULUS);
            }
        }
    }
}

} // verus!
