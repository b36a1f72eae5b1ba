//! The primality test, derived from the ring's algebraic structure: Z/NZ is
//! a field exactly when `N` is prime, and a finite ring is a field exactly
//! when it has no zero divisors. The test multiplies the squares of all
//! non-zero residues; a prime modulus divides no such product, while a
//! composite modulus always divides it, because the product carries two
//! factors whose product the modulus is.
use crate::Congruence;
use crate::number_theory::{
    is_prime_spec, lemma_composite_divides_square_product, lemma_prime_square_product_nonzero,
};
use crate::residue;
use vstd::arithmetic::div_mod::{lemma_mul_mod_noop_left, lemma_small_mod};
use vstd::prelude::*;

verus! {

/// Determines whether the modulus is prime, from ring closure alone: the
/// product of the squares of the non-zero residues stays non-zero exactly
/// when the ring has no zero divisors, that is, exactly when the modulus is
/// prime. The degenerate rings of modulus 0 and 1 are not fields in the
/// required sense and report not prime outright.
pub fn is_prime<const MODULUS: usize>() -> (r: bool)
    ensures
        r == is_prime_spec(MODULUS as nat),
{
    if MODULUS < 2 {
        return false;
    }
    let mut acc: Congruence<MODULUS> = Congruence::one();
    let mut i: usize = 1;
    proof {
        lemma_small_mod(1, MODULUS as nat);
    }
    while i < MODULUS
        invariant
            2 <= MODULUS,
            1 <= i <= MODULUS,
            acc.wf(),
            acc.representative == residue(
                crate::number_theory::square_product(i as nat),
                MODULUS as nat,
            ),
        decreases MODULUS - i,
    {
        proof {
            lemma_small_mod(i as nat, MODULUS as nat);
        }
        let factor = Congruence::<MODULUS>::from_unsigned(i);
        proof {
            lemma_fold_in_square(
                crate::number_theory::square_product(i as nat),
                i as int,
                MODULUS as nat,
            );
        }
        acc = acc * factor;
        acc = acc * factor;
        i = i + 1;
    }
    proof {
        if is_prime_spec(MODULUS as nat) {
            lemma_prime_square_product_nonzero(MODULUS as nat);
        } else {
            lemma_composite_divides_square_product(MODULUS as nat);
        }
    }
    acc.representative != 0
}

/// Folding the square of the next residue into a canonical accumulator:
/// multiplying the reduced product by the factor twice lands on the residue
/// of the product with the factor's square.
proof fn lemma_fold_in_square(x: int, f: int, n: nat)
    requires
        n > 0,
    ensures
        residue(residue(residue(x, n) * f, n) * f, n) == residue(x * (f * f), n),
{
    let ni = n as int;
    lemma_mul_mod_noop_left(x, f, ni);
    lemma_mul_mod_noop_left(x * f, f, ni);
    assert(x * f * f == x * (f * f)) by (nonlinear_arith);
}

} // verus!
