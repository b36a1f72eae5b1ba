//! Elementary number theory over the integers: divisibility, the greatest
//! common divisor, Bézout coefficients, and the facts about prime moduli
//! that the inverse search and the primality test rest on.
use vstd::arithmetic::div_mod::{
    lemma_fundamental_div_mod, lemma_mod_bound, lemma_mod_multiples_basic, lemma_mul_mod_noop_left,
};
use vstd::prelude::*;

verus! {

/// `d` divides `x`: some integer multiple of `d` equals `x`.
pub open spec fn divides(d: int, x: int) -> bool {
    exists|q: int| x == #[trigger] (d * q)
}

/// The greatest common divisor, by Euclid's recursion.
pub open spec fn gcd(a: nat, b: nat) -> nat
    decreases b,
{
    if b == 0 {
        a
    } else {
        gcd(b, a % b)
    }
}

/// `n` is prime: at least two, and no smaller number above one divides it.
pub open spec fn is_prime_spec(n: nat) -> bool {
    n >= 2 && forall|d: int| 2 <= d < n ==> #[trigger] ((n as int) % d) != 0
}

/// Divisibility survives multiplying the dividend by anything.
pub proof fn lemma_divides_mul(d: int, x: int, y: int)
    requires
        divides(d, x),
    ensures
        divides(d, x * y),
{
    let q = choose|q: int| x == #[trigger] (d * q);
    assert(x * y == d * (q * y)) by (nonlinear_arith)
        requires
            x == d * q,
    ;
}

/// Divisibility is closed under integer linear combinations.
pub proof fn lemma_divides_linear(d: int, x: int, y: int, s: int, t: int)
    requires
        divides(d, x),
        divides(d, y),
    ensures
        divides(d, s * x + t * y),
{
    let qx = choose|q: int| x == #[trigger] (d * q);
    let qy = choose|q: int| y == #[trigger] (d * q);
    assert(s * x + t * y == d * (s * qx + t * qy)) by (nonlinear_arith)
        requires
            x == d * qx,
            y == d * qy,
    ;
}

/// A positive divisor of a positive number is no larger than it.
pub proof fn lemma_divides_le(d: int, x: int)
    requires
        divides(d, x),
        d > 0,
        x > 0,
    ensures
        d <= x,
{
    let q = choose|q: int| x == #[trigger] (d * q);
    assert(d <= x) by (nonlinear_arith)
        requires
            x == d * q,
            d > 0,
            x > 0,
    ;
}

/// For a positive candidate, divisibility is the vanishing of the remainder.
pub proof fn lemma_divides_iff_mod_zero(d: int, x: int)
    requires
        d > 0,
    ensures
        divides(d, x) <==> x % d == 0,
{
    if x % d == 0 {
        lemma_fundamental_div_mod(x, d);
        assert(x == d * (x / d));
        assert(divides(d, x));
    }
    if divides(d, x) {
        let q = choose|q: int| x == #[trigger] (d * q);
        lemma_mod_multiples_basic(q, d);
        assert((q * d) % d == 0);
        assert(x == q * d) by (nonlinear_arith)
            requires
                x == d * q,
        ;
        assert(x % d == 0);
    }
}

/// The greatest common divisor divides both of its arguments.
pub proof fn lemma_gcd_divides(a: nat, b: nat)
    ensures
        divides(gcd(a, b) as int, a as int),
        divides(gcd(a, b) as int, b as int),
    decreases b,
{
    let g = gcd(a, b) as int;
    if b == 0 {
        assert(a as int == g * 1);
        assert(b as int == g * 0);
    } else {
        lemma_gcd_divides(b, a % b);
        let q1 = choose|q: int| b as int == #[trigger] (g * q);
        let q2 = choose|q: int| (a % b) as int == #[trigger] (g * q);
        lemma_fundamental_div_mod(a as int, b as int);
        let d = a as int / b as int;
        assert(a as int == g * (q1 * d + q2)) by (nonlinear_arith)
            requires
                a as int == (b as int) * d + (a % b) as int,
                b as int == g * q1,
                (a % b) as int == g * q2,
        ;
    }
}

/// The greatest common divisor of numbers that are not both zero is positive.
pub proof fn lemma_gcd_pos(a: nat, b: nat)
    requires
        a > 0 || b > 0,
    ensures
        gcd(a, b) > 0,
    decreases b,
{
    if b > 0 {
        lemma_gcd_pos(b, a % b);
    }
}

/// Bézout's identity: coefficients that combine the two numbers into their
/// greatest common divisor.
pub proof fn lemma_bezout(a: nat, b: nat) -> (c: (int, int))
    ensures
        c.0 * a + c.1 * b == gcd(a, b),
    decreases b,
{
    if b == 0 {
        (1, 0)
    } else {
        let (s, t) = lemma_bezout(b, a % b);
        lemma_fundamental_div_mod(a as int, b as int);
        let d = a as int / b as int;
        assert(t * a + (s - t * d) * b == s * b + t * (a % b)) by (nonlinear_arith)
            requires
                a as int == (b as int) * d + (a % b) as int,
        ;
        (t, s - t * d)
    }
}

/// A linear combination of two numbers that reaches one forces their
/// greatest common divisor to one.
pub proof fn lemma_coprime_of_unit_combination(a: nat, b: nat, s: int, t: int)
    requires
        s * a + t * b == 1,
    ensures
        gcd(a, b) == 1,
{
    if a == 0 && b == 0 {
        assert(s * a + t * b == 0) by (nonlinear_arith)
            requires
                a == 0 && b == 0,
        ;
    }
    lemma_gcd_pos(a, b);
    lemma_gcd_divides(a, b);
    let g = gcd(a, b) as int;
    lemma_divides_linear(g, a as int, b as int, s, t);
    lemma_divides_le(g, 1);
}

/// A prime modulus is coprime to every number it does not divide.
pub proof fn lemma_prime_coprime(p: nat, x: nat)
    requires
        is_prime_spec(p),
        1 <= x < p,
    ensures
        gcd(x, p) == 1,
{
    lemma_gcd_pos(x, p);
    lemma_gcd_divides(x, p);
    let g = gcd(x, p) as int;
    lemma_divides_le(g, x as int);
    if g >= 2 {
        lemma_divides_iff_mod_zero(g, p as int);
        assert((p as int) % g == 0);
    }
}

/// With a prime modulus, a product of two numbers that the modulus divides
/// neither of is itself not divided by the modulus: a prime ring has no
/// zero divisors.
pub proof fn lemma_prime_preserves_nonzero_product(p: nat, x: int, y: int)
    requires
        is_prime_spec(p),
        x % (p as int) != 0,
        y % (p as int) != 0,
    ensures
        (x * y) % (p as int) != 0,
{
    let pi = p as int;
    lemma_mod_bound(x, pi);
    let xr = x % pi;
    lemma_prime_coprime(p, xr as nat);
    let (s, t) = lemma_bezout(xr as nat, p);
    if (x * y) % pi == 0 {
        lemma_mul_mod_noop_left(x, y, pi);
        assert((xr * y) % pi == 0);
        lemma_divides_iff_mod_zero(pi, xr * y);
        assert(y == s * (xr * y) + (t * y) * pi) by (nonlinear_arith)
            requires
                s * xr + t * pi == 1,
        ;
        assert(pi == pi * 1);
        lemma_divides_linear(pi, xr * y, pi, s, t * y);
        lemma_divides_iff_mod_zero(pi, y);
        assert(y % pi == 0);
    }
}

/// The product of the squares of the numbers `1 .. i`: the square of the
/// factorial of `i - 1`, written as the running product the primality test
/// computes. The empty product is one.
pub open spec fn square_product(i: nat) -> int
    decreases i,
{
    if i <= 1 {
        1
    } else {
        square_product((i - 1) as nat) * (((i - 1) * (i - 1)) as int)
    }
}

/// Each square whose base lies below `i` divides the square product of `i`.
pub proof fn lemma_square_product_factor(j: nat, i: nat)
    requires
        1 <= j < i,
    ensures
        divides((j * j) as int, square_product(i)),
    decreases i,
{
    let ji = j as int;
    if i - 1 == j {
        assert(square_product(i) == (ji * ji) * square_product(j)) by (nonlinear_arith)
            requires
                square_product(i) == square_product(j) * ((ji * ji) as int),
        ;
    } else {
        lemma_square_product_factor(j, (i - 1) as nat);
        lemma_divides_mul(
            ji * ji,
            square_product((i - 1) as nat),
            ((i - 1) * (i - 1)) as int,
        );
    }
}

/// Two distinct bases below `i` contribute their product as a divisor of the
/// square product of `i`.
pub proof fn lemma_square_product_two_factors(a: nat, b: nat, i: nat)
    requires
        1 <= a < b < i,
    ensures
        divides((a * b) as int, square_product(i)),
    decreases i,
{
    let ai = a as int;
    let bi = b as int;
    if i - 1 == b {
        lemma_square_product_factor(a, b);
        let q = choose|q: int| square_product(b) == #[trigger] ((ai * ai) * q);
        assert(square_product(i) == (ai * bi) * (ai * q * bi)) by (nonlinear_arith)
            requires
                square_product(i) == square_product(b) * ((bi * bi) as int),
                square_product(b) == (ai * ai) * q,
        ;
    } else {
        lemma_square_product_two_factors(a, b, (i - 1) as nat);
        lemma_divides_mul(
            ai * bi,
            square_product((i - 1) as nat),
            ((i - 1) * (i - 1)) as int,
        );
    }
}

/// A composite modulus divides the product of the squares of its non-zero
/// residues: it factors as `a * b` with both factors among `1 .. n`, and the
/// product carries `a * a` and `b * b`, or `n` itself when `a == b`.
pub proof fn lemma_composite_divides_square_product(n: nat)
    requires
        n >= 2,
        !is_prime_spec(n),
    ensures
        square_product(n) % (n as int) == 0,
{
    let ni = n as int;
    assert(exists|d: int| 2 <= d < n && #[trigger] (ni % d) == 0);
    let d = choose|d: int| 2 <= d < n && #[trigger] (ni % d) == 0;
    lemma_fundamental_div_mod(ni, d);
    let b = ni / d;
    assert(ni == d * b);
    assert(2 <= b && b < ni) by (nonlinear_arith)
        requires
            ni == d * b,
            2 <= d < ni,
            ni >= 2,
    ;
    assert(2 <= b < n);
    if d == b {
        lemma_square_product_factor(d as nat, n);
        assert(divides(ni, square_product(n)));
    } else if d < b {
        lemma_square_product_two_factors(d as nat, b as nat, n);
        assert(divides(ni, square_product(n)));
    } else {
        lemma_square_product_two_factors(b as nat, d as nat, n);
        assert((b * d) as int == ni) by (nonlinear_arith)
            requires
                ni == d * b,
        ;
        assert(divides(ni, square_product(n)));
    }
    lemma_divides_iff_mod_zero(ni, square_product(n));
}

/// A prime modulus divides no product of squares of residues below it: the
/// ring has no zero divisors, so the non-zero factors keep the running
/// product non-zero.
pub proof fn lemma_prime_square_product_nonzero(n: nat)
    requires
        is_prime_spec(n),
    ensures
        square_product(n) % (n as int) != 0,
{
    lemma_square_product_nonzero_upto(n, n);
}

/// The running square product over `1 .. i` stays outside the prime
/// modulus's multiples, for every stage `i` up to the modulus.
proof fn lemma_square_product_nonzero_upto(n: nat, i: nat)
    requires
        is_prime_spec(n),
        1 <= i <= n,
    ensures
        square_product(i) % (n as int) != 0,
    decreases i,
{
    let ni = n as int;
    if i <= 1 {
        vstd::arithmetic::div_mod::lemma_small_mod(1, n);
    } else {
        lemma_square_product_nonzero_upto(n, (i - 1) as nat);
        let f = (i - 1) as int;
        vstd::arithmetic::div_mod::lemma_small_mod((i - 1) as nat, n);
        assert(f % ni != 0);
        lemma_prime_preserves_nonzero_product(n, square_product((i - 1) as nat), f);
        lemma_prime_preserves_nonzero_product(n, square_product((i - 1) as nat) * f, f);
        assert(square_product((i - 1) as nat) * f * f == square_product((i - 1) as nat) * ((f
            * f) as int)) by (nonlinear_arith);
    }
}

/// Reducing a product modulo `p` at every step commutes: the fold operator
/// of the modular product may take its two factors in either order.
proof fn lemma_mod_mul_fold_commutes(p: nat, f: spec_fn(int, int) -> int)
    requires
        p >= 1,
        forall|x: int, y: int| #[trigger] f(x, y) == (x * y) % (p as int),
    ensures
        vstd::seq_lib::commutative_foldr(f),
{
    let pi = p as int;
    assert forall|x: int, y: int, v: int| #[trigger] f(x, f(y, v)) == f(y, f(x, v)) by {
        vstd::arithmetic::div_mod::lemma_mul_mod_noop_right(x, y * v, pi);
        vstd::arithmetic::div_mod::lemma_mul_mod_noop_right(y, x * v, pi);
        assert(x * (y * v) == y * (x * v)) by (nonlinear_arith);
    }
}

/// With a prime modulus, folding the modular product over factors that the
/// modulus divides none of yields a result that the modulus does not divide.
proof fn lemma_fold_product_nonzero(p: nat, s: Seq<int>, f: spec_fn(int, int) -> int)
    requires
        is_prime_spec(p),
        forall|x: int, y: int| #[trigger] f(x, y) == (x * y) % (p as int),
        forall|i: int| 0 <= i < s.len() ==> s[i] % (p as int) != 0,
    ensures
        s.fold_right(f, 1) % (p as int) != 0,
    decreases s.len(),
{
    let pi = p as int;
    if s.len() == 0 {
        vstd::arithmetic::div_mod::lemma_small_mod(1, p);
    } else {
        lemma_mod_mul_fold_commutes(p, f);
        let rest = s.drop_last();
        let t = s.last();
        rest.lemma_fold_right_commute_one(t, f, 1);
        assert(s.fold_right(f, 1) == f(t, rest.fold_right(f, 1)));
        lemma_fold_product_nonzero(p, rest, f);
        lemma_prime_preserves_nonzero_product(p, t, rest.fold_right(f, 1));
        vstd::arithmetic::div_mod::lemma_mod_bound(t * rest.fold_right(f, 1), pi);
        vstd::arithmetic::div_mod::lemma_small_mod(
            ((t * rest.fold_right(f, 1)) % pi) as nat,
            p,
        );
    }
}

/// Folding the modular product over a sequence scaled by `a` equals the
/// power of `a` at the length times the fold of the original sequence,
/// modulo `p`.
proof fn lemma_fold_product_scaled(p: nat, a: int, s: Seq<int>, f: spec_fn(int, int) -> int)
    requires
        p >= 2,
        forall|x: int, y: int| #[trigger] f(x, y) == (x * y) % (p as int),
    ensures
        Seq::new(s.len(), |j: int| (a * s[j]) % (p as int)).fold_right(f, 1) == (
        vstd::arithmetic::power::pow(a, s.len()) * s.fold_right(f, 1)) % (p as int),
    decreases s.len(),
{
    let pi = p as int;
    let mapped = Seq::new(s.len(), |j: int| (a * s[j]) % pi);
    if s.len() == 0 {
        vstd::arithmetic::power::lemma_pow0(a);
        vstd::arithmetic::div_mod::lemma_small_mod(1, p);
        assert(mapped.fold_right(f, 1) == 1);
        assert((1 * s.fold_right(f, 1)) % pi == 1) by {
            assert(1 * s.fold_right(f, 1) == 1) by (nonlinear_arith)
                requires
                    s.fold_right(f, 1) == 1,
            ;
            vstd::arithmetic::div_mod::lemma_small_mod(1, p);
        }
    } else {
        lemma_mod_mul_fold_commutes(p, f);
        let rest = s.drop_last();
        let t = s.last();
        let rp = rest.fold_right(f, 1);
        let mrest = Seq::new(rest.len(), |j: int| (a * rest[j]) % pi);
        assert(mapped.drop_last() =~= mrest);
        assert(mapped.last() == (a * t) % pi);
        mrest.lemma_fold_right_commute_one((a * t) % pi, f, 1);
        assert(mapped.fold_right(f, 1) == f((a * t) % pi, mrest.fold_right(f, 1)));
        lemma_fold_product_scaled(p, a, rest, f);
        let powr = vstd::arithmetic::power::pow(a, rest.len());
        assert(mrest.fold_right(f, 1) == (powr * rp) % pi);
        // Fold the reductions of both factors back into one product.
        vstd::arithmetic::div_mod::lemma_mul_mod_noop_general(a * t, powr * rp, pi);
        assert(f((a * t) % pi, (powr * rp) % pi) == ((a * t) * (powr * rp)) % pi);
        // Regroup: the new factor joins the power, the rest joins the fold.
        vstd::arithmetic::power::lemma_pow1(a);
        vstd::arithmetic::power::lemma_pow_adds(a, rest.len(), 1);
        let pows = vstd::arithmetic::power::pow(a, s.len());
        assert((a * t) * (powr * rp) == pows * (t * rp)) by (nonlinear_arith)
            requires
                pows == powr * a,
        ;
        rest.lemma_fold_right_commute_one(t, f, 1);
        assert(s.fold_right(f, 1) == f(t, rp));
        vstd::arithmetic::div_mod::lemma_mul_mod_noop_right(pows, t * rp, pi);
    }
}

/// Scaling the non-zero residues by a number coprime to a prime modulus
/// permutes them: the scaled sequence holds the same values as `1 .. p`.
proof fn lemma_scaled_residues_permute(p: nat, a: int)
    requires
        is_prime_spec(p),
        a % (p as int) != 0,
    ensures
        Seq::new((p - 1) as nat, |j: int| j + 1).to_multiset() == Seq::new(
            (p - 1) as nat,
            |j: int| (a * (j + 1)) % (p as int),
        ).to_multiset(),
{
    broadcast use vstd::seq_lib::group_seq_properties;

    let pi = p as int;
    let m = (p - 1) as nat;
    let s1 = Seq::new(m, |j: int| j + 1);
    let s2 = Seq::new(m, |j: int| (a * (j + 1)) % pi);
    assert(s1.no_duplicates());
    // Every scaled residue is non-zero and below the modulus.
    assert forall|k: int| 0 <= k < m implies 1 <= #[trigger] s2[k] < p by {
        vstd::arithmetic::div_mod::lemma_mod_bound(a * (k + 1), pi);
        vstd::arithmetic::div_mod::lemma_small_mod((k + 1) as nat, p);
        lemma_prime_preserves_nonzero_product(p, a, k + 1);
    }
    // Distinct indices scale to distinct residues: equal residues would put
    // the scaled difference, a product of two non-multiples of the prime,
    // among the prime's multiples.
    assert forall|i: int, j: int|
        0 <= i < m && 0 <= j < m && i != j implies s2[i] != s2[j] by {
        let lo = if i < j {
            i
        } else {
            j
        };
        let hi = if i < j {
            j
        } else {
            i
        };
        if s2[lo] == s2[hi] {
            vstd::arithmetic::div_mod::lemma_mod_equivalence(a * (hi + 1), a * (lo + 1), pi);
            assert(a * (hi + 1) - a * (lo + 1) == a * (hi - lo)) by (nonlinear_arith);
            vstd::arithmetic::div_mod::lemma_small_mod((hi - lo) as nat, p);
            lemma_prime_preserves_nonzero_product(p, a, hi - lo);
        }
    }
    assert(s2.no_duplicates());
    // The scaled residues form a subset of `1 .. p` of the same size, hence
    // the same set, hence the same multiset once duplicates are ruled out.
    s1.unique_seq_to_set();
    s2.unique_seq_to_set();
    assert forall|v: int| s2.to_set().contains(v) implies s1.to_set().contains(v) by {
        assert(s2.contains(v));
        assert(1 <= v < p);
        assert(s1[v - 1] == v);
        assert(s1.contains(v));
    }
    vstd::set_lib::lemma_subset_equality(s2.to_set(), s1.to_set());
    s1.lemma_multiset_has_no_duplicates();
    s2.lemma_multiset_has_no_duplicates();
    assert forall|v: int| s1.to_multiset().count(v) == #[trigger] s2.to_multiset().count(v) by {
        assert(s1.contains(v) <==> s1.to_set().contains(v));
        assert(s2.contains(v) <==> s2.to_set().contains(v));
        if s1.contains(v) {
            assert(s1.to_multiset().count(v) == 1);
            assert(s2.to_multiset().count(v) == 1);
        } else {
            assert(s1.to_multiset().count(v) == 0);
            assert(s2.to_multiset().count(v) == 0);
        }
    }
    assert(s1.to_multiset() =~= s2.to_multiset());
}

/// Fermat's little theorem: a prime modulus `p` divides `a^(p-1) - 1`
/// whenever it does not divide `a`. Scaling the non-zero residues by `a`
/// permutes them, so the two products agree modulo `p`; cancelling the
/// common product of residues, itself coprime to `p`, leaves the power.
pub proof fn lemma_fermat_little(p: nat, a: int)
    requires
        is_prime_spec(p),
        a % (p as int) != 0,
    ensures
        vstd::arithmetic::power::pow(a, (p - 1) as nat) % (p as int) == 1,
{
    let pi = p as int;
    let m = (p - 1) as nat;
    let f = |x: int, y: int| (x * y) % pi;
    let s1 = Seq::new(m, |j: int| j + 1);
    let s2 = Seq::new(m, |j: int| (a * (j + 1)) % pi);
    let prod = s1.fold_right(f, 1);
    let big = vstd::arithmetic::power::pow(a, m);
    lemma_mod_mul_fold_commutes(p, f);
    // The scaled fold carries the power of `a` out front.
    assert(s2 =~= Seq::new(s1.len(), |j: int| (a * s1[j]) % pi));
    lemma_fold_product_scaled(p, a, s1, f);
    assert(s2.fold_right(f, 1) == (big * prod) % pi);
    // The scaled residues are a permutation, so the folds coincide.
    lemma_scaled_residues_permute(p, a);
    vstd::seq_lib::lemma_fold_right_permutation(s1, s2, f, 1);
    assert(prod == (big * prod) % pi);
    // The product of residues is coprime to the prime modulus.
    assert forall|i: int| 0 <= i < s1.len() implies s1[i] % pi != 0 by {
        vstd::arithmetic::div_mod::lemma_small_mod((i + 1) as nat, p);
    }
    lemma_fold_product_nonzero(p, s1, f);
    vstd::arithmetic::div_mod::lemma_mod_bound(big * prod, pi);
    vstd::arithmetic::div_mod::lemma_small_mod(prod as nat, p);
    lemma_prime_coprime(p, prod as nat);
    let (s, t) = lemma_bezout(prod as nat, p);
    // The prime divides `(a^(p-1) - 1) * prod`, and Bézout removes `prod`.
    vstd::arithmetic::div_mod::lemma_mod_equivalence(big * prod, prod, pi);
    assert(big * prod - prod == (big - 1) * prod) by (nonlinear_arith);
    lemma_divides_iff_mod_zero(pi, (big - 1) * prod);
    assert(big - 1 == s * ((big - 1) * prod) + ((big - 1) * t) * pi) by (nonlinear_arith)
        requires
            s * prod + t * pi == 1,
    ;
    assert(pi == pi * 1);
    lemma_divides_linear(pi, (big - 1) * prod, pi, s, (big - 1) * t);
    lemma_divides_iff_mod_zero(pi, big - 1);
    vstd::arithmetic::div_mod::lemma_mod_equivalence(big, 1, pi);
    vstd::arithmetic::div_mod::lemma_small_mod(1, p);
}

} // verus!
