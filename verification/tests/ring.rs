//! Tests of the congruence-class type: conversions, the ring operations,
//! exponentiation, product reduction, the inverse search, and primality.
use congruence::Congruence;
use congruence::is_prime;

#[test]
fn conversions_from_usize() {
    let congruence = Congruence::<3_usize>::from(5_usize);
    assert_eq!(2_usize, congruence.representative);
}

#[test]
fn conversions_from_isize() {
    let congruence = Congruence::<3_usize>::from(-5_isize);
    assert_eq!(1_usize, congruence.representative);
}

#[test]
fn conversions_zero_to_congruence() {
    const MODULUS: usize = 5;
    let congruence_from_usize = Congruence::<MODULUS>::from(0_usize);
    let congruence_from_isize = Congruence::<MODULUS>::from(0_isize);
    assert_eq!(0_usize, congruence_from_usize.representative);
    assert_eq!(0_usize, congruence_from_isize.representative);
}

#[test]
fn zero_modulus() {
    const MODULUS: usize = 0;
    let one = Congruence::<MODULUS>::from(1_usize);
    let zero = Congruence::<MODULUS>::from(0_usize);
    assert_eq!(zero, one);
}

#[test]
fn addition_add() {
    const MODULUS: usize = 3;
    let x = Congruence::<MODULUS>::from(1_usize);
    let y = Congruence::<MODULUS>::from(7_usize);
    let two = Congruence::<MODULUS>::from(2_usize);
    assert_eq!(two, x + y);
}

#[test]
fn associativity() {
    const MODULUS: usize = 7;
    let x = Congruence::<MODULUS>::from(2_usize);
    let y = Congruence::<MODULUS>::from(3_usize);
    let z = Congruence::<MODULUS>::from(5_usize);
    assert_eq!(x + (y + z), (x + y) + z);
}

#[test]
fn identity() {
    const MODULUS: usize = 2;
    let x = Congruence::<MODULUS>::from(1_usize);
    assert_eq!(x, x + Congruence::<MODULUS>::zero());
    assert_eq!(x, Congruence::<MODULUS>::zero() + x);
}

#[test]
fn commutativity() {
    const MODULUS: usize = 6;
    let x = Congruence::<MODULUS>::from(4_usize);
    let y = Congruence::<MODULUS>::from(3_usize);
    assert_eq!(x + y, y + x);
}

#[test]
fn mod_pow() {
    const MODULUS: usize = 7;
    let x = Congruence::<MODULUS>::from(3_usize);
    let one = Congruence::<MODULUS>::from(1_usize);
    let two = Congruence::<MODULUS>::from(2_usize);
    assert_eq!(two, x.pow(2));
    // The next two follow from Fermat's little theorem.
    assert_eq!(one, x.pow(6));
    assert_eq!(x, x.pow(MODULUS));
}

#[test]
fn mod_product() {
    const MODULUS: usize = 8;
    let values: Vec<Congruence<MODULUS>> = [2_usize, 3, 5]
        .iter()
        .map(|i| Congruence::<MODULUS>::from(*i))
        .collect();
    let prod = Congruence::<MODULUS>::product(&values);
    let six = Congruence::<MODULUS>::from(6_usize);
    assert_eq!(six, prod);
}

#[test]
fn mod_inverse() {
    const MODULUS: usize = 14;
    let seven = Congruence::<MODULUS>::from(7_usize);
    let five = Congruence::<MODULUS>::from(5_usize);
    let three = Congruence::<MODULUS>::from(3_usize);
    assert_eq!(None, seven.inverse());
    assert_eq!(three, five.inverse().unwrap());
}

#[test]
fn multiplication_mul() {
    const MODULUS: usize = 5;
    let x = Congruence::<MODULUS>::from(3_usize);
    let y = Congruence::<MODULUS>::from(4_usize);
    let two = Congruence::<MODULUS>::from(2_usize);
    assert_eq!(two, x * y);
}

#[test]
fn mul_by_zero() {
    const MODULUS: usize = 3;
    let x = Congruence::<MODULUS>::from(2_usize);
    let y = Congruence::<MODULUS>::from(3_usize);
    let zero = Congruence::<MODULUS>::zero();
    assert_eq!(zero, x * y);
    assert_eq!(zero, y * x);
}

#[test]
fn mul_by_one() {
    const MODULUS: usize = 6;
    let one = Congruence::<MODULUS>::one();
    let x = Congruence::<MODULUS>::from(23_usize);
    assert_eq!(x, x * one);
    assert_eq!(x, one * x);
}

#[test]
fn mul_is_associative() {
    const MODULUS: usize = 14;
    let x = Congruence::<MODULUS>::from(2_usize);
    let y = Congruence::<MODULUS>::from(4_usize);
    let z = Congruence::<MODULUS>::from(3_usize);
    assert_eq!(x * (y * z), (x * y) * z);
}

#[test]
fn mul_is_commutative() {
    const MODULUS: usize = 6;
    let x = Congruence::<MODULUS>::from(2_usize);
    let y = Congruence::<MODULUS>::from(5_usize);
    assert_eq!(x * y, y * x);
}

#[test]
fn subtraction_sub() {
    const MODULUS: usize = 5;
    let x = Congruence::<MODULUS>::from(4_usize);
    let y = Congruence::<MODULUS>::from(2_usize);
    let two = Congruence::<MODULUS>::from(2_usize);
    let three = Congruence::<MODULUS>::from(3_usize);
    assert_eq!(two, x - y);
    assert_eq!(three, y - x);
}

#[test]
fn additive_inverse() {
    const MODULUS: usize = 3;
    let x = Congruence::<MODULUS>::from(2_usize);
    let identity = Congruence::<MODULUS>::zero();
    let minus_x = identity - x;
    assert_eq!(identity, x + minus_x);
    assert_eq!(minus_x + x, identity);
}

#[test]
fn lib_from_usize() {
    let congruence = Congruence::<3_usize>::from(5_usize);
    assert_eq!(2_usize, congruence.representative);
}

#[test]
fn lib_from_isize() {
    let congruence = Congruence::<3_usize>::from(-5_isize);
    assert_eq!(1_usize, congruence.representative);
}

#[test]
fn lib_zero_to_congruence() {
    const MODULUS: usize = 5;
    let congruence_from_usize = Congruence::<MODULUS>::from(0_usize);
    let congruence_from_isize = Congruence::<MODULUS>::from(0_isize);
    assert_eq!(0_usize, congruence_from_usize.representative);
    assert_eq!(0_usize, congruence_from_isize.representative);
}

#[test]
fn zero_ring() {
    const MODULUS: usize = 0;
    let one = Congruence::<MODULUS>::from(1_usize);
    let zero = Congruence::<MODULUS>::from(0_usize);
    assert_eq!(zero, one);
}

#[test]
fn lib_add() {
    const MODULUS: usize = 3;
    let x = Congruence::<MODULUS>::from(1_usize);
    let y = Congruence::<MODULUS>::from(2_usize);
    let zero = Congruence::<MODULUS>::from(0_usize);
    assert_eq!(zero, x + y);
}

#[test]
fn lib_sub() {
    const MODULUS: usize = 5;
    let x = Congruence::<MODULUS>::from(4_usize);
    let y = Congruence::<MODULUS>::from(2_usize);
    assert_eq!(2_usize, (x - y).representative);
    assert_eq!(3_usize, (y - x).representative);
}

#[test]
fn lib_mul() {
    const MODULUS: usize = 5;
    let x = Congruence::<MODULUS>::from(0_usize);
    let y = Congruence::<MODULUS>::from(4_usize);
    // A zero operand short-circuits the product to zero.
    let zero = Congruence::<MODULUS>::zero();
    assert_eq!(zero, x * y);
}

#[test]
fn lib_pow() {
    const MODULUS: usize = 7;
    let x = Congruence::<MODULUS>::from(3_usize);
    let one = Congruence::<MODULUS>::from(1_usize);
    let two = Congruence::<MODULUS>::from(2_usize);
    assert_eq!(two, x.pow(2));
    // The next two follow from Fermat's little theorem.
    assert_eq!(one, x.pow(6));
    assert_eq!(x, x.pow(MODULUS));
}

#[test]
fn lib_product() {
    const MODULUS: usize = 8;
    let values: Vec<Congruence<MODULUS>> = [2_usize, 3, 5]
        .iter()
        .map(|i| Congruence::<MODULUS>::from(*i))
        .collect();
    let prod = Congruence::<MODULUS>::product(&values);
    let six = Congruence::<MODULUS>::from(6_usize);
    assert_eq!(six, prod);
}

#[test]
fn lib_inverse() {
    const MODULUS: usize = 14;
    let seven = Congruence::<MODULUS>::from(7_usize);
    let five = Congruence::<MODULUS>::from(5_usize);
    let three = Congruence::<MODULUS>::from(3_usize);
    assert_eq!(None, seven.inverse());
    assert_eq!(three, five.inverse().unwrap());
}

#[test]
fn const_is_prime() {
    assert!(is_prime::<5_usize>());
}
