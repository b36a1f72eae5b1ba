//! Tests of the algebraic properties on concrete values: canonicalization,
//! the ring axioms, subtraction consistency, the power laws, inverse
//! correctness, Fermat's little theorem, and primality against trial
//! division over a whole range.
use congruence::Congruence;
use congruence::is_prime;

#[test]
fn canonicalization_forward() {
    // from_unsigned lands on k mod N.
    assert_eq!(0_usize, Congruence::<7>::from_unsigned(0).representative);
    assert_eq!(5_usize, Congruence::<7>::from_unsigned(5).representative);
    assert_eq!(0_usize, Congruence::<7>::from_unsigned(7).representative);
    assert_eq!(3_usize, Congruence::<7>::from_unsigned(24).representative);
}

#[test]
fn canonicalization_backward() {
    // from_signed on -k lands on (N - (k mod N)) mod N.
    assert_eq!(4_usize, Congruence::<7>::from_signed(-3).representative);
    assert_eq!(0_usize, Congruence::<7>::from_signed(-7).representative);
    assert_eq!(6_usize, Congruence::<7>::from_signed(-8).representative);
    assert_eq!(2_usize, Congruence::<3>::from_unsigned(5).representative);
    assert_eq!(1_usize, Congruence::<3>::from_signed(-5).representative);
}

#[test]
fn smallest_signed_input() {
    // |isize::MIN| has no isize counterpart; the conversion still folds it.
    // 2^63 is congruent to 2 modulo 3, so its negation lands on 1.
    let x = Congruence::<3>::from_signed(isize::MIN);
    assert_eq!(1_usize, x.representative);
}

#[test]
fn distributivity() {
    const MODULUS: usize = 9;
    let x = Congruence::<MODULUS>::from(4_usize);
    let y = Congruence::<MODULUS>::from(7_usize);
    let z = Congruence::<MODULUS>::from(5_usize);
    assert_eq!(x * (y + z), x * y + x * z);
}

#[test]
fn sub_self_is_zero() {
    const MODULUS: usize = 11;
    let x = Congruence::<MODULUS>::from(8_usize);
    assert_eq!(Congruence::<MODULUS>::zero(), x - x);
}

#[test]
fn sub_from_zero_gives_additive_inverse() {
    const MODULUS: usize = 11;
    let x = Congruence::<MODULUS>::from(8_usize);
    let minus_x = Congruence::<MODULUS>::zero() - x;
    assert_eq!(3_usize, minus_x.representative);
    assert_eq!(Congruence::<MODULUS>::zero(), x + minus_x);
}

#[test]
fn pow_zero_is_one() {
    const MODULUS: usize = 10;
    let x = Congruence::<MODULUS>::from(6_usize);
    assert_eq!(Congruence::<MODULUS>::one(), x.pow(0));
}

#[test]
fn pow_one_is_self() {
    const MODULUS: usize = 10;
    let x = Congruence::<MODULUS>::from(6_usize);
    assert_eq!(x, x.pow(1));
}

#[test]
fn pow_adds_exponents() {
    const MODULUS: usize = 13;
    let x = Congruence::<MODULUS>::from(6_usize);
    assert_eq!(x.pow(9), x.pow(4) * x.pow(5));
}

#[test]
fn empty_product_is_one() {
    const MODULUS: usize = 8;
    let values: Vec<Congruence<MODULUS>> = Vec::new();
    assert_eq!(Congruence::<MODULUS>::one(), Congruence::<MODULUS>::product(&values));
}

#[test]
fn inverse_iff_coprime() {
    const MODULUS: usize = 12;
    // 5 is coprime to 12 and is its own inverse: 5 * 5 = 25 = 2 * 12 + 1.
    let five = Congruence::<MODULUS>::from(5_usize);
    let inverse = five.inverse().unwrap();
    assert_eq!(5_usize, inverse.representative);
    assert_eq!(Congruence::<MODULUS>::one(), five * inverse);
    // 8 shares the factor 4 with 12 and has no inverse.
    let eight = Congruence::<MODULUS>::from(8_usize);
    assert_eq!(None, eight.inverse());
}

#[test]
fn fermat_little_theorem() {
    const MODULUS: usize = 11;
    let one = Congruence::<MODULUS>::one();
    for k in 1..MODULUS {
        let x = Congruence::<MODULUS>::from(k);
        assert_eq!(one, x.pow(MODULUS - 1));
        assert_eq!(x, x.pow(MODULUS));
    }
}

#[test]
fn zero_divisors_in_composite_ring() {
    const MODULUS: usize = 6;
    let four = Congruence::<MODULUS>::from(4_usize);
    let three = Congruence::<MODULUS>::from(3_usize);
    let zero = Congruence::<MODULUS>::zero();
    assert_eq!(four * three, three * four);
    assert_eq!(zero, four * three);
}

#[test]
fn prime_scenarios() {
    assert!(is_prime::<5_usize>());
    assert!(!is_prime::<4_usize>());
    assert!(!is_prime::<1_usize>());
    assert!(!is_prime::<0_usize>());
}

fn trial_division(n: usize) -> bool {
    n >= 2 && (2..n).all(|d| n % d != 0)
}

#[test]
fn primality_matches_trial_division() {
    assert_eq!(trial_division(0), is_prime::<0>());
    assert_eq!(trial_division(1), is_prime::<1>());
    assert_eq!(trial_division(2), is_prime::<2>());
    assert_eq!(trial_division(3), is_prime::<3>());
    assert_eq!(trial_division(4), is_prime::<4>());
    assert_eq!(trial_division(5), is_prime::<5>());
    assert_eq!(trial_division(6), is_prime::<6>());
    assert_eq!(trial_division(7), is_prime::<7>());
    assert_eq!(trial_division(8), is_prime::<8>());
    assert_eq!(trial_division(9), is_prime::<9>());
    assert_eq!(trial_division(10), is_prime::<10>());
    assert_eq!(trial_division(11), is_prime::<11>());
    assert_eq!(trial_division(12), is_prime::<12>());
    assert_eq!(trial_division(13), is_prime::<13>());
    assert_eq!(trial_division(14), is_prime::<14>());
    assert_eq!(trial_division(15), is_prime::<15>());
    assert_eq!(trial_division(16), is_prime::<16>());
    assert_eq!(trial_division(17), is_prime::<17>());
    assert_eq!(trial_division(18), is_prime::<18>());
    assert_eq!(trial_division(19), is_prime::<19>());
    assert_eq!(trial_division(20), is_prime::<20>());
    assert_eq!(trial_division(21), is_prime::<21>());
    assert_eq!(trial_division(22), is_prime::<22>());
    assert_eq!(trial_division(23), is_prime::<23>());
    assert_eq!(trial_division(24), is_prime::<24>());
    assert_eq!(trial_division(25), is_prime::<25>());
    assert_eq!(trial_division(26), is_prime::<26>());
    assert_eq!(trial_division(27), is_prime::<27>());
    assert_eq!(trial_division(28), is_prime::<28>());
    assert_eq!(trial_division(29), is_prime::<29>());
    assert_eq!(trial_division(30), is_prime::<30>());
}

#[test]
fn degenerate_ring_operations() {
    const MODULUS: usize = 0;
    let x = Congruence::<MODULUS>::from_signed(-9);
    let y = Congruence::<MODULUS>::from_unsigned(4);
    assert_eq!(0_usize, x.representative);
    assert_eq!(0_usize, y.representative);
    assert_eq!(0_usize, (x + y).representative);
    assert_eq!(0_usize, (x - y).representative);
    assert_eq!(0_usize, (x * y).representative);
    assert_eq!(0_usize, x.pow(3).representative);
    assert_eq!(None, x.inverse());
}

#[test]
fn modulus_one_ring() {
    const MODULUS: usize = 1;
    let x = Congruence::<MODULUS>::from(5_usize);
    assert_eq!(0_usize, x.representative);
    assert_eq!(Congruence::<MODULUS>::zero(), Congruence::<MODULUS>::one());
    // The search range 1..1 is empty, so even the identity reports none.
    assert_eq!(None, x.inverse());
}
