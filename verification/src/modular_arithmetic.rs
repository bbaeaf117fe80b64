//! Arithmetic in the prime field of a circuit.
//!
//! Every function takes the field's modulus `field` (positive) and returns
//! its result reduced into `[0, field)`, except integer shifts to the right,
//! which divide the raw value.  Comparisons read a residue `z` as the signed
//! number `z - field` when `z` lies in the upper half of the field.
use crate::bigint::{bit_length, int_bitand, int_bitor, int_bitxor, modpow_value, trunc_div, trunc_rem, BigInt};
use vstd::arithmetic::div_mod::{
    lemma_fundamental_div_mod, lemma_mod_add_multiples_vanish, lemma_mod_multiples_vanish, lemma_mul_mod_noop_left,
};
use vstd::arithmetic::power::pow;
use vstd::prelude::*;

verus! {

/// Errors of the field operations.
#[derive(Debug, Clone, Copy, PartialEq, Eq)]
pub enum ArithmeticError {
    /// The divisor has no inverse, or is zero in the field.
    DivisionByZero,
    /// A shift amount does not fit in a machine word.
    BitOverFlowInShift,
}

/// Residue of `a` in `[0, p)` (for `p > 0`).
pub open spec fn modulus(a: int, p: int) -> int {
    a % p
}

/// `b` has a multiplicative inverse modulo `p`.
pub open spec fn invertible(b: int, p: int) -> bool {
    exists|y: int| #[trigger] ((b * y) % p) == 1int % p
}

/// `p` is a prime: greater than 1, with no divisor strictly between 1 and
/// itself.
pub open spec fn is_prime(p: int) -> bool {
    p > 1 && forall|d: int| 1 < d < p ==> #[trigger] (p % d) != 0
}

/// Every nonzero residue of a prime has an inverse (by the steps of
/// Euclid's algorithm: `p = q*x + r` with `0 < r < x`, and the inverse of
/// `r` gives one of `x`).
pub proof fn lemma_prime_residue_invertible(x: int, p: int)
    requires
        is_prime(p),
        0 < x < p,
    ensures
        invertible(x, p),
    decreases x,
{
    if x == 1 {
        assert((x * 1) % p == 1int % p);
    } else {
        let q = p / x;
        let r = p % x;
        lemma_fundamental_div_mod(p, x);
        assert(p % x != 0);
        assert(0 < r < x);
        lemma_prime_residue_invertible(r, p);
        let z = choose|z: int| #[trigger] ((r * z) % p) == 1int % p;
        let y = -(q * z);
        assert(x * y == p * (-z) + r * z) by (nonlinear_arith)
            requires
                p == x * q + r,
                y == -(q * z),
        ;
        lemma_mod_multiples_vanish(-z, r * z, p);
        assert((x * y) % p == 1int % p);
    }
}

/// In a prime field, every number that is not a multiple of the prime has
/// an inverse.
pub proof fn lemma_prime_invertible(b: int, p: int)
    requires
        is_prime(p),
        b % p != 0,
    ensures
        invertible(b, p),
{
    let x = b % p;
    lemma_prime_residue_invertible(x, p);
    let y = choose|y: int| #[trigger] ((x * y) % p) == 1int % p;
    lemma_mul_mod_noop_left(b, y, p);
    assert((b * y) % p == 1int % p);
}

/// The quotient `a / b` in the field: the residue `q` with `q * b = a`.
/// It is unique when `b` is invertible.
pub open spec fn field_div(a: int, b: int, p: int) -> int {
    choose|q: int| 0 <= q < p && #[trigger] modulus(q * b, p) == modulus(a, p)
}

/// The field quotient is the only residue that multiplies back to the dividend.
pub proof fn lemma_field_div_unique(a: int, b: int, q: int, p: int)
    requires
        p > 0,
        invertible(b, p),
        0 <= q < p,
        modulus(q * b, p) == modulus(a, p),
    ensures
        q == field_div(a, b, p),
{
    let q2 = field_div(a, b, p);
    assert(0 <= q2 < p && modulus(q2 * b, p) == modulus(a, p));
    let y = choose|y: int| #[trigger] ((b * y) % p) == 1int % p;
    lemma_cancel(q, q2, b, y, p);
}

proof fn lemma_cancel(q: int, q2: int, b: int, y: int, p: int)
    requires
        p > 0,
        (b * y) % p == 1int % p,
        0 <= q < p,
        0 <= q2 < p,
        (q * b) % p == (q2 * b) % p,
    ensures
        q == q2,
{
    vstd::arithmetic::div_mod::lemma_mul_mod_noop_left(q * b, y, p);
    vstd::arithmetic::div_mod::lemma_mul_mod_noop_left(q2 * b, y, p);
    assert((q * b) * y == q * (b * y)) by (nonlinear_arith);
    assert((q2 * b) * y == q2 * (b * y)) by (nonlinear_arith);
    vstd::arithmetic::div_mod::lemma_mul_mod_noop_right(q, b * y, p);
    vstd::arithmetic::div_mod::lemma_mul_mod_noop_right(q2, b * y, p);
    vstd::arithmetic::div_mod::lemma_mul_mod_noop_right(q, 1, p);
    vstd::arithmetic::div_mod::lemma_mul_mod_noop_right(q2, 1, p);
    vstd::arithmetic::div_mod::lemma_small_mod(q as nat, p as nat);
    vstd::arithmetic::div_mod::lemma_small_mod(q2 as nat, p as nat);
}

/// All ones in the bit width of the field's modulus.
pub open spec fn field_mask(p: int) -> int {
    pow(2, bit_length(p as nat)) - 1
}

/// Complement of a residue in the bit width of the field's modulus.
pub open spec fn spec_complement(a: int, p: int) -> int {
    modulus(field_mask(p) - modulus(a, p), p)
}

/// Left shift by a small amount: the shifted value cut to the field's bit
/// width, then reduced.
pub open spec fn spec_shift_left_by(a: int, k: nat, p: int) -> int {
    modulus(int_bitand(a * pow(2, k), field_mask(p)), p)
}

/// Right shift by a small amount: the value divided by `2^k`, rounded toward zero.
pub open spec fn spec_shift_right_by(a: int, k: nat) -> int {
    trunc_div(a, pow(2, k))
}

/// A shift amount that fits in a machine word.
pub open spec fn fits_usize(k: int) -> bool {
    0 <= k <= usize::MAX
}

/// `a << k` in the field: for `k` up to half the field a left shift, above
/// that a right shift by `p - k`.
pub open spec fn spec_shift_l(a: int, k: int, p: int) -> Result<int, ArithmeticError> {
    if k <= p / 2 {
        if fits_usize(k) { Ok(spec_shift_left_by(a, k as nat, p)) } else { Err(ArithmeticError::BitOverFlowInShift) }
    } else {
        if fits_usize(p - k) { Ok(spec_shift_right_by(a, (p - k) as nat)) } else { Err(ArithmeticError::BitOverFlowInShift) }
    }
}

/// `a >> k` in the field: for `k` up to half the field a right shift, above
/// that a left shift by `p - k`.
pub open spec fn spec_shift_r(a: int, k: int, p: int) -> Result<int, ArithmeticError> {
    if k <= p / 2 {
        if fits_usize(k) { Ok(spec_shift_right_by(a, k as nat)) } else { Err(ArithmeticError::BitOverFlowInShift) }
    } else {
        if fits_usize(p - k) { Ok(spec_shift_left_by(a, (p - k) as nat, p)) } else { Err(ArithmeticError::BitOverFlowInShift) }
    }
}

/// Truth of a field element: it is not zero.
pub open spec fn spec_as_bool(a: int, p: int) -> bool {
    modulus(a, p) != 0
}

/// A boolean as a field element.
pub open spec fn bool_value(b: bool) -> int {
    if b { 1 } else { 0 }
}

/// Signed reading of a residue: the upper half of the field stands for
/// negative numbers.
pub open spec fn signed_value(z: int, p: int) -> int {
    if p / 2 + 1 <= z && z < p { z - p } else { z }
}

/// Signed reading of any integer through its residue.
pub open spec fn comparable(a: int, p: int) -> int {
    signed_value(modulus(a, p), p)
}

proof fn lemma_trunc_rem(a: int, b: int)
    requires
        b > 0,
    ensures
        -b < trunc_rem(a, b) < b,
        trunc_rem(a, b) % b == a % b,
        a >= 0 ==> trunc_rem(a, b) == a % b,
{
    if a >= 0 {
        lemma_fundamental_div_mod(a, b);
        vstd::arithmetic::div_mod::lemma_mod_bound(a, b);
        vstd::arithmetic::div_mod::lemma_mod_twice(a, b);
    } else {
        lemma_fundamental_div_mod(-a, b);
        vstd::arithmetic::div_mod::lemma_mod_bound(-a, b);
        let q = (-a) / b;
        assert(b * (-q) == -(b * q)) by (nonlinear_arith);
        assert(trunc_rem(a, b) == a + b * q);
        lemma_mod_multiples_vanish(q, a, b);
    }
}

proof fn lemma_trunc_div_nonneg(a: int, b: int)
    requires
        a >= 0,
        b > 0,
    ensures
        trunc_div(a, b) == a / b,
{
}

/// `((a % b) + b) % b`: the residue of `a` modulo a positive `b`.
pub fn modulus_exec(a: &BigInt, b: &BigInt) -> (r: BigInt)
    requires
        b@ > 0,
    ensures
        r@ == modulus(a@, b@),
        0 <= r@ < b@,
{
    let r1 = BigInt::rem_trunc(a, b);
    let s = BigInt::add(&r1, b);
    let r = BigInt::rem_trunc(&s, b);
    proof {
        lemma_trunc_rem(a@, b@);
        lemma_trunc_rem(s@, b@);
        lemma_mod_add_multiples_vanish(r1@, b@);
    }
    r
}

/// Sum in the field.
pub fn add(left: &BigInt, right: &BigInt, field: &BigInt) -> (r: BigInt)
    requires
        field@ > 0,
    ensures
        r@ == modulus(left@ + right@, field@),
{
    modulus_exec(&BigInt::add(left, right), field)
}

/// Product in the field.
pub fn mul(left: &BigInt, right: &BigInt, field: &BigInt) -> (r: BigInt)
    requires
        field@ > 0,
    ensures
        r@ == modulus(left@ * right@, field@),
{
    modulus_exec(&BigInt::mul(left, right), field)
}

/// Difference in the field.
pub fn sub(left: &BigInt, right: &BigInt, field: &BigInt) -> (r: BigInt)
    requires
        field@ > 0,
    ensures
        r@ == modulus(left@ - right@, field@),
{
    modulus_exec(&BigInt::sub(left, right), field)
}

/// Division in the field: `left` times the inverse of `right`; an error when
/// `right` has no inverse.
pub fn div(left: &BigInt, right: &BigInt, field: &BigInt) -> (r: Result<BigInt, ArithmeticError>)
    requires
        field@ > 0,
    ensures
        r is Err <==> !invertible(right@, field@),
        r matches Err(e) ==> e == ArithmeticError::DivisionByZero,
        r matches Ok(v) ==> v@ == field_div(left@, right@, field@) && 0 <= v@ < field@
            && modulus(v@ * right@, field@) == modulus(left@, field@),
{
    match BigInt::mod_inverse(right, field) {
        None => {
            Err(ArithmeticError::DivisionByZero)
        },
        Some(inv) => {
            let v = self::mul(left, &inv, field);
            proof {
                let p = field@;
                assert((right@ * inv@) % p == 1int % p);
                assert(invertible(right@, p));
                lemma_div_result(left@, right@, inv@, p);
                lemma_field_div_unique(left@, right@, v@, p);
            }
            Ok(v)
        },
    }
}

pub(crate) proof fn lemma_div_result(a: int, b: int, inv: int, p: int)
    requires
        p > 0,
        (b * inv) % p == 1int % p,
    ensures
        (((a * inv) % p) * b) % p == a % p,
{
    vstd::arithmetic::div_mod::lemma_mul_mod_noop_left(a * inv, b, p);
    assert((a * inv) * b == a * (b * inv)) by (nonlinear_arith);
    vstd::arithmetic::div_mod::lemma_mul_mod_noop_right(a, b * inv, p);
    vstd::arithmetic::div_mod::lemma_mul_mod_noop_right(a, 1, p);
}

/// Integer division of the residues; an error when the divisor is zero in
/// the field.
pub fn idiv(left: &BigInt, right: &BigInt, field: &BigInt) -> (r: Result<BigInt, ArithmeticError>)
    requires
        field@ > 0,
    ensures
        r is Err <==> modulus(right@, field@) == 0,
        r matches Err(e) ==> e == ArithmeticError::DivisionByZero,
        r matches Ok(v) ==> v@ == modulus(left@, field@) / modulus(right@, field@),
{
    let l = modulus_exec(left, field);
    let rr = modulus_exec(right, field);
    if BigInt::is_zero(&rr) {
        Err(ArithmeticError::DivisionByZero)
    } else {
        let v = BigInt::div_trunc(&l, &rr);
        Ok(v)
    }
}

/// Remainder of the residues; an error when the divisor is zero in the field.
pub fn mod_op(left: &BigInt, right: &BigInt, field: &BigInt) -> (r: Result<BigInt, ArithmeticError>)
    requires
        field@ > 0,
    ensures
        r is Err <==> modulus(right@, field@) == 0,
        r matches Err(e) ==> e == ArithmeticError::DivisionByZero,
        r matches Ok(v) ==> v@ == modulus(left@, field@) % modulus(right@, field@),
{
    let l = modulus_exec(left, field);
    let rr = modulus_exec(right, field);
    if BigInt::is_zero(&rr) {
        Err(ArithmeticError::DivisionByZero)
    } else {
        Ok(modulus_exec(&l, &rr))
    }
}

/// Power in the field, as `modpow` computes it: for a base in the field
/// (`base >= 0`) this is `base^exp mod field`; a negative base is raised by
/// its magnitude and the residue taken from `field` (see `modpow_value`).
pub fn pow_op(base: &BigInt, exp: &BigInt, field: &BigInt) -> (r: BigInt)
    requires
        field@ > 0,
        exp@ >= 0,
    ensures
        r@ == modpow_value(base@, exp@ as nat, field@),
        base@ >= 0 ==> r@ == modulus(pow(base@, exp@ as nat), field@),
{
    BigInt::modpow(base, exp, field)
}

fn mask(field: &BigInt) -> (r: BigInt)
    requires
        field@ > 0,
    ensures
        r@ == field_mask(field@),
{
    let b = BigInt::bits(field);
    let one = BigInt::from_i64(1);
    BigInt::sub(&BigInt::pow2(b), &one)
}

/// Complement of a field element in the bit width of the modulus.
pub fn complement(elem: &BigInt, field: &BigInt) -> (r: BigInt)
    requires
        field@ > 0,
    ensures
        r@ == spec_complement(elem@, field@),
{
    let m = mask(field);
    let e = modulus_exec(elem, field);
    modulus_exec(&BigInt::sub(&m, &e), field)
}

fn shift_left_by(a: &BigInt, k: usize, field: &BigInt) -> (r: BigInt)
    requires
        field@ > 0,
    ensures
        r@ == spec_shift_left_by(a@, k as nat, field@),
{
    let shifted = BigInt::mul(a, &BigInt::pow2(k));
    let m = mask(field);
    modulus_exec(&BigInt::bitand(&shifted, &m), field)
}

fn shift_right_by(a: &BigInt, k: usize) -> (r: BigInt)
    ensures
        r@ == spec_shift_right_by(a@, k as nat),
{
    let d = BigInt::pow2(k);
    proof {
        vstd::arithmetic::power::lemma_pow_positive(2, k as nat);
    }
    BigInt::div_trunc(a, &d)
}

/// Left shift in the field.
pub fn shift_l(left: &BigInt, right: &BigInt, field: &BigInt) -> (r: Result<BigInt, ArithmeticError>)
    requires
        field@ > 0,
    ensures
        r matches Ok(v) ==> spec_shift_l(left@, right@, field@) == Ok::<int, ArithmeticError>(v@),
        r matches Err(e) ==> spec_shift_l(left@, right@, field@) == Err::<int, ArithmeticError>(e),
{
    let two = BigInt::from_i64(2);
    let top = BigInt::div_trunc(field, &two);
    if !BigInt::less_than(&top, right) {
        match BigInt::to_usize(right) {
            Some(k) => Ok(shift_left_by(left, k, field)),
            None => Err(ArithmeticError::BitOverFlowInShift),
        }
    } else {
        let back = BigInt::sub(field, right);
        match BigInt::to_usize(&back) {
            Some(k) => Ok(shift_right_by(left, k)),
            None => Err(ArithmeticError::BitOverFlowInShift),
        }
    }
}

/// Right shift in the field.
pub fn shift_r(left: &BigInt, right: &BigInt, field: &BigInt) -> (r: Result<BigInt, ArithmeticError>)
    requires
        field@ > 0,
    ensures
        r matches Ok(v) ==> spec_shift_r(left@, right@, field@) == Ok::<int, ArithmeticError>(v@),
        r matches Err(e) ==> spec_shift_r(left@, right@, field@) == Err::<int, ArithmeticError>(e),
{
    let two = BigInt::from_i64(2);
    let top = BigInt::div_trunc(field, &two);
    if !BigInt::less_than(&top, right) {
        match BigInt::to_usize(right) {
            Some(k) => Ok(shift_right_by(left, k)),
            None => Err(ArithmeticError::BitOverFlowInShift),
        }
    } else {
        let back = BigInt::sub(field, right);
        match BigInt::to_usize(&back) {
            Some(k) => Ok(shift_left_by(left, k, field)),
            None => Err(ArithmeticError::BitOverFlowInShift),
        }
    }
}

/// Bitwise or, reduced into the field.
pub fn bit_or(left: &BigInt, right: &BigInt, field: &BigInt) -> (r: BigInt)
    requires
        field@ > 0,
    ensures
        r@ == modulus(int_bitor(left@, right@), field@),
{
    modulus_exec(&BigInt::bitor(left, right), field)
}

/// Bitwise and, reduced into the field.
pub fn bit_and(left: &BigInt, right: &BigInt, field: &BigInt) -> (r: BigInt)
    requires
        field@ > 0,
    ensures
        r@ == modulus(int_bitand(left@, right@), field@),
{
    modulus_exec(&BigInt::bitand(left, right), field)
}

/// Bitwise exclusive or, reduced into the field.
pub fn bit_xor(left: &BigInt, right: &BigInt, field: &BigInt) -> (r: BigInt)
    requires
        field@ > 0,
    ensures
        r@ == modulus(int_bitxor(left@, right@), field@),
{
    modulus_exec(&BigInt::bitxor(left, right), field)
}

fn from_bool(b: bool) -> (r: BigInt)
    ensures
        r@ == bool_value(b),
{
    if b { BigInt::from_i64(1) } else { BigInt::from_i64(0) }
}

/// Truth of a field element.
pub fn as_bool(elem: &BigInt, field: &BigInt) -> (r: bool)
    requires
        field@ > 0,
    ensures
        r == spec_as_bool(elem@, field@),
{
    !BigInt::is_zero(&modulus_exec(elem, field))
}

/// Boolean negation: 1 for a zero element, else 0.
pub fn not(elem: &BigInt, field: &BigInt) -> (r: BigInt)
    requires
        field@ > 0,
    ensures
        r@ == bool_value(!spec_as_bool(elem@, field@)),
{
    from_bool(!as_bool(elem, field))
}

/// Boolean or of two field elements.
pub fn bool_or(left: &BigInt, right: &BigInt, field: &BigInt) -> (r: BigInt)
    requires
        field@ > 0,
    ensures
        r@ == bool_value(spec_as_bool(left@, field@) || spec_as_bool(right@, field@)),
{
    let l = as_bool(left, field);
    let rr = as_bool(right, field);
    from_bool(l || rr)
}

/// Boolean and of two field elements.
pub fn bool_and(left: &BigInt, right: &BigInt, field: &BigInt) -> (r: BigInt)
    requires
        field@ > 0,
    ensures
        r@ == bool_value(spec_as_bool(left@, field@) && spec_as_bool(right@, field@)),
{
    let l = as_bool(left, field);
    let rr = as_bool(right, field);
    from_bool(l && rr)
}

/// 1 when the elements are equal in the field, else 0.
pub fn eq(left: &BigInt, right: &BigInt, field: &BigInt) -> (r: BigInt)
    requires
        field@ > 0,
    ensures
        r@ == bool_value(modulus(left@, field@) == modulus(right@, field@)),
{
    let l = modulus_exec(left, field);
    let rr = modulus_exec(right, field);
    from_bool(BigInt::equals(&l, &rr))
}

/// 1 when the elements differ in the field, else 0.
pub fn not_eq(left: &BigInt, right: &BigInt, field: &BigInt) -> (r: BigInt)
    requires
        field@ > 0,
    ensures
        r@ == bool_value(modulus(left@, field@) != modulus(right@, field@)),
{
    let l = modulus_exec(left, field);
    let rr = modulus_exec(right, field);
    from_bool(!BigInt::equals(&l, &rr))
}

fn comparable_element(elem: &BigInt, field: &BigInt) -> (r: BigInt)
    requires
        field@ > 0,
    ensures
        r@ == comparable(elem@, field@),
{
    let z = modulus_exec(elem, field);
    let two = BigInt::from_i64(2);
    let one = BigInt::from_i64(1);
    let c = BigInt::add(&BigInt::div_trunc(field, &two), &one);
    if !BigInt::less_than(&z, &c) && BigInt::less_than(&z, field) {
        BigInt::sub(&z, field)
    } else {
        z
    }
}

/// 1 when `left < right` in the signed reading of the field, else 0.
pub fn lesser(left: &BigInt, right: &BigInt, field: &BigInt) -> (r: BigInt)
    requires
        field@ > 0,
    ensures
        r@ == bool_value(comparable(left@, field@) < comparable(right@, field@)),
{
    let l = comparable_element(left, field);
    let rr = comparable_element(right, field);
    from_bool(BigInt::less_than(&l, &rr))
}

/// 1 when `left <= right` in the signed reading of the field, else 0.
pub fn lesser_eq(left: &BigInt, right: &BigInt, field: &BigInt) -> (r: BigInt)
    requires
        field@ > 0,
    ensures
        r@ == bool_value(comparable(left@, field@) <= comparable(right@, field@)),
{
    let l = comparable_element(left, field);
    let rr = comparable_element(right, field);
    from_bool(!BigInt::less_than(&rr, &l))
}

/// 1 when `left > right` in the signed reading of the field, else 0.
pub fn greater(left: &BigInt, right: &BigInt, field: &BigInt) -> (r: BigInt)
    requires
        field@ > 0,
    ensures
        r@ == bool_value(comparable(left@, field@) > comparable(right@, field@)),
{
    let l = comparable_element(left, field);
    let rr = comparable_element(right, field);
    from_bool(BigInt::less_than(&rr, &l))
}

/// 1 when `left >= right` in the signed reading of the field, else 0.
pub fn greater_eq(left: &BigInt, right: &BigInt, field: &BigInt) -> (r: BigInt)
    requires
        field@ > 0,
    ensures
        r@ == bool_value(comparable(left@, field@) >= comparable(right@, field@)),
{
    let l = comparable_element(left, field);
    let rr = comparable_element(right, field);
    from_bool(!BigInt::less_than(&l, &rr))
}

} // verus!
