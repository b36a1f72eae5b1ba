//! Conversion of native integers into congruence classes: any unsigned or
//! signed integer is folded into its canonical residue modulo `MODULUS`.
use crate::Congruence;
use crate::residue;
use vstd::prelude::*;

verus! {

impl<const MODULUS: usize> Congruence<MODULUS> {
    /// Builds the congruence class of an unsigned integer: the representative
    /// is `k mod MODULUS`, or `0` in the degenerate ring with modulus `0`.
    pub fn from_unsigned(k: usize) -> (r: Self)
        ensures
            r.representative == residue(k as int, MODULUS as nat),
            r.wf(),
    {
        if MODULUS == 0 {
            Congruence { representative: 0 }
        } else {
            Congruence { representative: k % MODULUS }
        }
    }

    /// Builds the congruence class of a signed integer. A non-negative `k`
    /// folds forward as `from_unsigned` does; a negative `k` counts backward
    /// from zero, landing on `(MODULUS - (|k| mod MODULUS)) mod MODULUS`. In
    /// the degenerate ring with modulus `0` every input, negative inputs
    /// included, yields the fallback representative `0`.
    pub fn from_signed(k: isize) -> (r: Self)
        ensures
            r.representative == residue(k as int, MODULUS as nat),
            r.wf(),
    {
        if k >= 0 {
            Self::from_unsigned(k as usize)
        } else if MODULUS == 0 {
            Congruence { representative: 0 }
        } else {
            // |k|, computed without overflowing on the smallest isize.
            let magnitude: usize = ((-(k + 1)) as usize) + 1;
            let m: usize = magnitude % MODULUS;
            proof {
                lemma_negative_residue(k as int, magnitude as nat, MODULUS as nat);
            }
            if m == 0 {
                Congruence { representative: 0 }
            } else {
                Congruence { representative: MODULUS - m }
            }
        }
    }
}

/// The residue of a negative integer `k` is determined by the residue of its
/// magnitude: zero when the magnitude divides evenly, and the complement
/// `n - (|k| mod n)` otherwise.
pub(crate) proof fn lemma_negative_residue(k: int, magnitude: nat, n: nat)
    requires
        n > 0,
        k < 0,
        magnitude == -k,
    ensures
        magnitude % n == 0 ==> k % (n as int) == 0,
        magnitude % n != 0 ==> k % (n as int) == n - (magnitude % n),
{
    let ni = n as int;
    let mi = magnitude as int;
    let q = mi / ni;
    let m = mi % ni;
    vstd::arithmetic::div_mod::lemma_fundamental_div_mod(mi, ni);
    // k == -mi == (-q) * ni + (-m)
    assert(k == (-q) * ni + (-m)) by (nonlinear_arith)
        requires
            k == -mi,
            mi == q * ni + m,
    ;
    vstd::arithmetic::div_mod::lemma_mod_multiples_vanish(-q, -m, ni);
    assert(k % ni == (-m) % ni);
    if m == 0 {
        vstd::arithmetic::div_mod::lemma_small_mod(0, n);
        assert((-m) % ni == 0);
    } else {
        // -m is congruent to n - m, which already lies in [0, n).
        vstd::arithmetic::div_mod::lemma_mod_add_multiples_vanish(-m, ni);
        vstd::arithmetic::div_mod::lemma_small_mod((n - m) as nat, n);
        assert((-m) % ni == ni - m);
    }
}

impl<const MODULUS: usize> core::convert::From<usize> for Congruence<MODULUS> {
    fn from(number: usize) -> (r: Self) {
        Self::from_unsigned(number)
    }
}

impl<const MODULUS: usize> vstd::std_specs::convert::FromSpecImpl<usize> for Congruence<MODULUS> {
    open spec fn obeys_from_spec() -> bool {
        true
    }

    open spec fn from_spec(number: usize) -> Self {
        Congruence { representative: residue(number as int, MODULUS as nat) as usize }
    }
}

impl<const MODULUS: usize> core::convert::From<isize> for Congruence<MODULUS> {
    fn from(number: isize) -> (r: Self) {
        Self::from_signed(number)
    }
}

impl<const MODULUS: usize> vstd::std_specs::convert::FromSpecImpl<isize> for Congruence<MODULUS> {
    open spec fn obeys_from_spec() -> bool {
        true
    }

    open spec fn from_spec(number: isize) -> Self {
        Congruence { representative: residue(number as int, MODULUS as nat) as usize }
    }
}

} // verus!
