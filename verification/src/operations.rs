//! The ring operations on congruence classes: addition, subtraction and
//! multiplication through the standard operators, exponentiation, and the
//! product reduction of a sequence of values.
use crate::Congruence;
use crate::residue;
use vstd::arithmetic::div_mod::{
    lemma_mod_add_multiples_vanish, lemma_mul_mod_noop_left, lemma_small_mod,
};
use vstd::prelude::*;

verus! {

impl<const MODULUS: usize> Congruence<MODULUS> {
    /// The sum of two classes: the class of the sum of the representatives.
    pub open spec fn spec_add(self, other: Self) -> Self {
        Congruence {
            representative: residue(
                self.representative + other.representative,
                MODULUS as nat,
            ) as usize,
        }
    }

    /// The difference of two classes: the class of the difference of the
    /// representatives, which equals the sum with the additive inverse.
    pub open spec fn spec_sub(self, other: Self) -> Self {
        Congruence {
            representative: residue(
                self.representative - other.representative,
                MODULUS as nat,
            ) as usize,
        }
    }

    /// The product of two classes: the class of the product of the
    /// representatives.
    pub open spec fn spec_mul(self, other: Self) -> Self {
        Congruence {
            representative: residue(
                self.representative * other.representative,
                MODULUS as nat,
            ) as usize,
        }
    }

    /// The `e`-th power of a class: the class of the `e`-th power of the
    /// representative, the empty product being the multiplicative identity.
    pub open spec fn spec_pow(self, e: nat) -> Self {
        Congruence {
            representative: residue(
                vstd::arithmetic::power::pow(self.representative as int, e),
                MODULUS as nat,
            ) as usize,
        }
    }

    /// The product of a sequence of classes, folded from the left starting
    /// at the multiplicative identity; the empty product is the identity.
    pub open spec fn spec_product(s: Seq<Self>) -> Self
        decreases s.len(),
    {
        if s.len() == 0 {
            Self::spec_one()
        } else {
            Self::spec_product(s.drop_last()).spec_mul(s.last())
        }
    }
}

impl<const MODULUS: usize> vstd::std_specs::ops::AddSpecImpl for Congruence<MODULUS> {
    open spec fn obeys_add_spec() -> bool {
        true
    }

    open spec fn add_req(self, rhs: Self) -> bool {
        self.wf() && rhs.wf()
    }

    open spec fn add_spec(self, rhs: Self) -> Self::Output {
        self.spec_add(rhs)
    }
}

impl<const MODULUS: usize> std::ops::Add for Congruence<MODULUS> {
    type Output = Self;

    /// Adds two congruence classes; the representatives fold back into the
    /// canonical range without any intermediate value leaving it.
    fn add(self, other: Self) -> (r: Self)
        ensures
            r == self.spec_add(other),
            r.wf(),
    {
        proof {
            lemma_canonical_sum(
                self.representative as int,
                other.representative as int,
                MODULUS as nat,
            );
        }
        if self.representative >= MODULUS - other.representative {
            Congruence { representative: self.representative - (MODULUS - other.representative) }
        } else {
            Congruence { representative: self.representative + other.representative }
        }
    }
}

impl<const MODULUS: usize> vstd::std_specs::ops::SubSpecImpl for Congruence<MODULUS> {
    open spec fn obeys_sub_spec() -> bool {
        true
    }

    open spec fn sub_req(self, rhs: Self) -> bool {
        self.wf() && rhs.wf()
    }

    open spec fn sub_spec(self, rhs: Self) -> Self::Output {
        self.spec_sub(rhs)
    }
}

impl<const MODULUS: usize> std::ops::Sub for Congruence<MODULUS> {
    type Output = Self;

    /// Subtracts a congruence class: adding the additive inverse of the
    /// second operand's representative.
    fn sub(self, other: Self) -> (r: Self)
        ensures
            r == self.spec_sub(other),
            r.wf(),
    {
        proof {
            lemma_canonical_difference(
                self.representative as int,
                other.representative as int,
                MODULUS as nat,
            );
        }
        if self.representative >= other.representative {
            Congruence { representative: self.representative - other.representative }
        } else {
            Congruence { representative: self.representative + (MODULUS - other.representative) }
        }
    }
}

impl<const MODULUS: usize> vstd::std_specs::ops::MulSpecImpl for Congruence<MODULUS> {
    open spec fn obeys_mul_spec() -> bool {
        true
    }

    open spec fn mul_req(self, rhs: Self) -> bool {
        self.wf() && rhs.wf()
    }

    open spec fn mul_spec(self, rhs: Self) -> Self::Output {
        self.spec_mul(rhs)
    }
}

impl<const MODULUS: usize> std::ops::Mul for Congruence<MODULUS> {
    type Output = Self;

    /// Multiplies two congruence classes. A zero operand short-circuits to
    /// zero; otherwise the product of the representatives is formed in a
    /// wider integer and folded back, so no intermediate value overflows.
    fn mul(self, other: Self) -> (r: Self)
        ensures
            r == self.spec_mul(other),
            r.wf(),
    {
        if self.representative == 0 || other.representative == 0 {
            proof {
                if MODULUS > 0 {
                    lemma_small_mod(0, MODULUS as nat);
                }
                assert(self.representative * other.representative == 0) by (nonlinear_arith)
                    requires
                        self.representative == 0 || other.representative == 0,
                ;
                assert(residue(self.representative * other.representative, MODULUS as nat) == 0);
            }
            Congruence { representative: 0 }
        } else {
            proof {
                lemma_mul_fits_wide(self.representative as int, other.representative as int);
            }
            let wide: u128 = (self.representative as u128) * (other.representative as u128);
            let folded: u128 = wide % (MODULUS as u128);
            proof {
                vstd::arithmetic::div_mod::lemma_mod_bound(wide as int, MODULUS as int);
            }
            Congruence { representative: folded as usize }
        }
    }
}

impl<const MODULUS: usize> Congruence<MODULUS> {
    /// Raises self to the power of the exponent: the product of `exponent`
    /// copies of self, the empty product being the multiplicative identity.
    pub fn pow(self, exponent: usize) -> (r: Self)
        requires
            self.wf(),
        ensures
            r == self.spec_pow(exponent as nat),
            r.wf(),
    {
        let ghost base: int = self.representative as int;
        let mut acc = Self::one();
        let mut i: usize = 0;
        proof {
            vstd::arithmetic::power::lemma_pow0(base);
        }
        while i < exponent
            invariant
                self.wf(),
                acc.wf(),
                i <= exponent,
                base == self.representative as int,
                acc.representative == residue(
                    vstd::arithmetic::power::pow(base, i as nat),
                    MODULUS as nat,
                ),
            decreases exponent - i,
        {
            proof {
                lemma_fold_in_factor(
                    vstd::arithmetic::power::pow(base, i as nat),
                    base,
                    MODULUS as nat,
                );
                vstd::arithmetic::power::lemma_pow1(base);
                vstd::arithmetic::power::lemma_pow_adds(base, i as nat, 1);
                assert(vstd::arithmetic::power::pow(base, (i + 1) as nat)
                    == vstd::arithmetic::power::pow(base, i as nat) * base);
            }
            acc = acc * self;
            i = i + 1;
        }
        acc
    }

    /// Returns the multiplicative inverse wrapped in Some if it exists.
    ///
    /// The representatives `1..MODULUS` are searched in order, and the first
    /// `y` whose product with self is the multiplicative identity is
    /// returned; when no representative inverts self the result is None,
    /// never a panic.
    pub fn inverse(self) -> (r: Option<Self>)
        requires
            self.wf(),
        ensures
            match r {
                Some(y) => {
                    &&& y.wf()
                    &&& 1 <= y.representative < MODULUS
                    &&& self.spec_mul(y) == Self::spec_one()
                    &&& forall|j: int|
                        1 <= j < y.representative ==> #[trigger] residue(
                            self.representative * j,
                            MODULUS as nat,
                        ) != residue(1, MODULUS as nat)
                },
                None => forall|j: int|
                    1 <= j < MODULUS ==> #[trigger] residue(self.representative * j, MODULUS as nat)
                        != residue(1, MODULUS as nat),
            },
    {
        let one = Self::one();
        let mut i: usize = 1;
        while i < MODULUS
            invariant
                self.wf(),
                one == Self::spec_one(),
                1 <= i,
                MODULUS > 0 ==> i <= MODULUS,
                forall|j: int|
                    1 <= j < i ==> #[trigger] residue(self.representative * j, MODULUS as nat)
                        != residue(1, MODULUS as nat),
            decreases MODULUS - i,
        {
            proof {
                lemma_small_mod(i as nat, MODULUS as nat);
            }
            let candidate = Self::from_unsigned(i);
            if candidate * self == one {
                return Some(candidate);
            }
            i = i + 1;
        }
        None
    }

    /// Reduces a sequence of values to their product, folding from the left
    /// and starting at the multiplicative identity, so that an empty
    /// sequence reduces to ONE.
    pub fn product(values: &Vec<Self>) -> (r: Self)
        requires
            forall|j: int| 0 <= j < values@.len() ==> values@[j].wf(),
        ensures
            r == Self::spec_product(values@),
            r.wf(),
    {
        let mut acc = Self::one();
        let mut i: usize = 0;
        while i < values.len()
            invariant
                forall|j: int| 0 <= j < values@.len() ==> values@[j].wf(),
                i <= values.len(),
                acc.wf(),
                acc == Self::spec_product(values@.take(i as int)),
            decreases values.len() - i,
        {
            proof {
                assert(values@.take(i as int + 1).drop_last() =~= values@.take(i as int));
                assert(values@.take(i as int + 1).last() == values@[i as int]);
            }
            acc = acc * values[i];
            i = i + 1;
        }
        proof {
            assert(values@.take(values@.len() as int) =~= values@);
        }
        acc
    }
}

/// Folding one more factor into a canonical accumulator: reducing `x` before
/// multiplying by `y` does not change the residue of the product.
proof fn lemma_fold_in_factor(x: int, y: int, n: nat)
    ensures
        residue(residue(x, n) * y, n) == residue(x * y, n),
{
    if n > 0 {
        lemma_mul_mod_noop_left(x, y, n as int);
    } else {
        assert(residue(x, 0) * y == 0) by (nonlinear_arith)
            requires
                residue(x, 0) == 0,
        ;
    }
}

/// The product of two representatives fits the wide integer used to fold it.
proof fn lemma_mul_fits_wide(a: int, b: int)
    requires
        0 <= a <= usize::MAX,
        0 <= b <= usize::MAX,
    ensures
        a * b <= u128::MAX,
{
    assert(a * b <= u128::MAX) by (nonlinear_arith)
        requires
            0 <= a <= u64::MAX,
            0 <= b <= u64::MAX,
    ;
}

/// The canonical sum: for representatives below a positive modulus `n`, the
/// residue of their sum is the sum itself, or the sum less `n` once it
/// reaches `n`; the degenerate modulus keeps everything at zero.
proof fn lemma_canonical_sum(a: int, b: int, n: nat)
    requires
        if n == 0 {
            a == 0 && b == 0
        } else {
            0 <= a < n && 0 <= b < n
        },
    ensures
        a + b < n ==> residue(a + b, n) == a + b,
        n > 0 && a + b >= n ==> residue(a + b, n) == a + b - n,
        n == 0 ==> residue(a + b, n) == 0,
{
    if n > 0 {
        if a + b < n {
            lemma_small_mod((a + b) as nat, n);
        } else {
            lemma_mod_add_multiples_vanish(a + b - n, n as int);
            lemma_small_mod((a + b - n) as nat, n);
        }
    }
}

/// The canonical difference: the residue of `a - b` is the plain difference
/// when it is non-negative, and the difference shifted up by `n` otherwise.
proof fn lemma_canonical_difference(a: int, b: int, n: nat)
    requires
        if n == 0 {
            a == 0 && b == 0
        } else {
            0 <= a < n && 0 <= b < n
        },
    ensures
        a >= b ==> residue(a - b, n) == a - b,
        n > 0 && a < b ==> residue(a - b, n) == a + n - b,
        n == 0 ==> residue(a - b, n) == 0,
{
    if n > 0 {
        if a >= b {
            lemma_small_mod((a - b) as nat, n);
        } else {
            lemma_mod_add_multiples_vanish(a - b, n as int);
            lemma_small_mod((a + n - b) as nat, n);
        }
    }
}

} // verus!
