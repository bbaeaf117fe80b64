use circom_algebra::bigint::BigInt;
use circom_algebra::modular_arithmetic::{self, ArithmeticError};
use circom_algebra::text::usize_decimal;

fn big(v: i64) -> BigInt {
    BigInt::from_i64(v)
}

fn field() -> BigInt {
    big(257)
}

#[test]
fn bigint_conversions() {
    assert_eq!(big(-1234).to_decimal_string(), "-1234");
    assert_eq!(big(0).to_decimal_string(), "0");
    assert_eq!(big(300).to_usize(), Some(300));
    assert_eq!(big(-3).to_usize(), None);
    assert!(big(0).is_zero());
    assert!(!big(5).is_zero());
    assert!(big(5).equals(&big(5)));
    assert!(!big(5).equals(&big(-5)));
    assert_eq!(usize_decimal(0), "0");
    assert_eq!(usize_decimal(90817), "90817");
}

#[test]
fn field_operations() {
    let f = field();
    assert_eq!(modular_arithmetic::add(&big(200), &big(100), &f), big(43));
    assert_eq!(modular_arithmetic::sub(&big(1), &big(2), &f), big(256));
    assert_eq!(modular_arithmetic::mul(&big(-3), &big(5), &f), big(242));
    assert_eq!(modular_arithmetic::modulus_exec(&big(-1), &f), big(256));
    assert_eq!(modular_arithmetic::div(&big(3), &big(2), &f), Ok(big(130)));
    assert_eq!(modular_arithmetic::div(&big(3), &big(514), &f), Err(ArithmeticError::DivisionByZero));
    assert_eq!(modular_arithmetic::idiv(&big(9), &big(4), &f), Ok(big(2)));
    assert_eq!(modular_arithmetic::idiv(&big(9), &big(257), &f), Err(ArithmeticError::DivisionByZero));
    assert_eq!(modular_arithmetic::mod_op(&big(9), &big(4), &f), Ok(big(1)));
    assert_eq!(modular_arithmetic::mod_op(&big(9), &big(0), &f), Err(ArithmeticError::DivisionByZero));
    assert_eq!(modular_arithmetic::pow_op(&big(2), &big(8), &f), big(256));
    assert_eq!(modular_arithmetic::pow_op(&big(2), &big(9), &f), big(255));
}

#[test]
fn field_shifts_and_bits() {
    let f = field();
    assert_eq!(modular_arithmetic::shift_l(&big(1), &big(8), &f), Ok(big(256)));
    assert_eq!(modular_arithmetic::shift_l(&big(1), &big(9), &f), Ok(big(0)));
    assert_eq!(modular_arithmetic::shift_r(&big(256), &big(8), &f), Ok(big(1)));
    assert_eq!(modular_arithmetic::shift_r(&big(1), &big(256), &f), Ok(big(2)));
    assert_eq!(modular_arithmetic::shift_r(&big(1), &big(-5), &f), Err(ArithmeticError::BitOverFlowInShift));
    assert_eq!(modular_arithmetic::complement(&big(5), &f), big(506 % 257));
    assert_eq!(modular_arithmetic::bit_and(&big(6), &big(3), &f), big(2));
    assert_eq!(modular_arithmetic::bit_or(&big(6), &big(3), &f), big(7));
    assert_eq!(modular_arithmetic::bit_xor(&big(6), &big(3), &f), big(5));
}

#[test]
fn field_booleans_and_comparisons() {
    let f = field();
    assert!(modular_arithmetic::as_bool(&big(258), &f));
    assert!(!modular_arithmetic::as_bool(&big(514), &f));
    assert_eq!(modular_arithmetic::not(&big(0), &f), big(1));
    assert_eq!(modular_arithmetic::not(&big(7), &f), big(0));
    assert_eq!(modular_arithmetic::bool_or(&big(0), &big(0), &f), big(0));
    assert_eq!(modular_arithmetic::bool_and(&big(2), &big(3), &f), big(1));
    assert_eq!(modular_arithmetic::eq(&big(1), &big(258), &f), big(1));
    assert_eq!(modular_arithmetic::not_eq(&big(1), &big(258), &f), big(0));
    // 129..256 read as negative numbers
    assert_eq!(modular_arithmetic::lesser(&big(129), &big(128), &f), big(1));
    assert_eq!(modular_arithmetic::lesser_eq(&big(128), &big(128), &f), big(1));
    assert_eq!(modular_arithmetic::greater(&big(128), &big(129), &f), big(1));
    assert_eq!(modular_arithmetic::greater_eq(&big(256), &big(0), &f), big(0));
}

#[test]
fn powers_as_the_library_raises_them() {
    let five = big(5);
    assert_eq!(modular_arithmetic::pow_op(&big(3), &big(2), &five), big(4));
    // A negative base is raised by its magnitude and the residue taken from the modulus.
    assert_eq!(modular_arithmetic::pow_op(&big(-2), &big(2), &five), big(1));
    assert_eq!(modular_arithmetic::pow_op(&big(-2), &big(3), &five), big(2));
    assert_eq!(modular_arithmetic::pow_op(&big(-5), &big(3), &five), big(0));
}

#[test]
fn bitwise_operations_in_twos_complement() {
    let f = big(1000);
    assert_eq!(modular_arithmetic::bit_and(&big(-2), &big(7), &f), big(6));
    assert_eq!(modular_arithmetic::bit_or(&big(-4), &big(1), &f), big(997));
    assert_eq!(modular_arithmetic::bit_xor(&big(12), &big(10), &f), big(6));
    assert_eq!(modular_arithmetic::bit_xor(&big(-1), &big(5), &f), big(994));
}
