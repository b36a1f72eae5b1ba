//! Modular arithmetic over the integers: the ring Z/NZ of congruence classes
//! modulo a fixed modulus `N`, with the modulus chosen once per type
//! instantiation. The crate provides the congruence-class value type, its
//! ring operations, exponentiation, multiplicative inverse, and a primality
//! test derived from the ring's closure under multiplication.
use vstd::prelude::*;

mod conversions;
pub mod laws;
pub mod number_theory;
mod operations;
mod primality;

pub use primality::is_prime;

verus! {

/// The canonical residue of `k` modulo `n`: the unique member of `[0, n)`
/// congruent to `k` when `n > 0`, and `0` for the degenerate modulus `n == 0`,
/// where the ring has no valid residues and every value collapses to `0`.
pub open spec fn residue(k: int, n: nat) -> int {
    if n == 0 {
        0
    } else {
        k % (n as int)
    }
}

/// A congruence class in Z/NZ, held as its canonical representative.
///
/// Two values interact only at the same `MODULUS`. Every operation returns a
/// fresh value and leaves its operands unchanged; equality is equality of
/// representatives.
#[derive(Clone, Copy, Debug, Eq)]
pub struct Congruence<const MODULUS: usize> {
    /// The canonical representative: in `[0, MODULUS)` whenever `MODULUS > 0`,
    /// and fixed at `0` in the degenerate ring with modulus `0`.
    pub representative: usize,
}

impl<const MODULUS: usize> PartialEq for Congruence<MODULUS> {
    fn eq(&self, other: &Self) -> (r: bool) {
        self.representative == other.representative
    }
}

impl<const MODULUS: usize> vstd::std_specs::cmp::PartialEqSpecImpl for Congruence<MODULUS> {
    open spec fn obeys_eq_spec() -> bool {
        true
    }

    open spec fn eq_spec(&self, other: &Self) -> bool {
        self.representative == other.representative
    }
}

impl<const MODULUS: usize> Congruence<MODULUS> {
    /// The representative is canonical for this modulus.
    pub open spec fn wf(self) -> bool {
        if MODULUS == 0 {
            self.representative == 0
        } else {
            self.representative < MODULUS
        }
    }

    /// The additive identity.
    pub open spec fn spec_zero() -> Self {
        Congruence { representative: 0 }
    }

    /// The multiplicative identity. Its representative is the residue of `1`,
    /// so it coincides with zero in the degenerate rings of modulus 0 and 1.
    pub open spec fn spec_one() -> Self {
        Congruence { representative: residue(1, MODULUS as nat) as usize }
    }

    /// Returns the additive identity, `ZERO`.
    pub fn zero() -> (r: Self)
        ensures
            r == Self::spec_zero(),
            r.wf(),
    {
        Congruence { representative: 0 }
    }

    /// Returns the multiplicative identity, `ONE`.
    pub fn one() -> (r: Self)
        ensures
            r == Self::spec_one(),
            r.wf(),
    {
        proof {
            if MODULUS == 1 {
                vstd::arithmetic::div_mod::lemma_mod_self_0(1);
            } else if MODULUS >= 2 {
                vstd::arithmetic::div_mod::lemma_small_mod(1, MODULUS as nat);
            }
        }
        if MODULUS <= 1 {
            Congruence { representative: 0 }
        } else {
            Congruence { representative: 1 }
        }
    }
}

} // verus!

