//! Arbitrary-precision integers.
//!
//! A `BigInt` holds its value as two's-complement bytes in little-endian
//! order, the exchange format of `num_bigint_dig`.  Every arithmetic
//! operation hands the bytes to `num_bigint_dig`, which computes; the
//! contracts below state what each operation returns in terms of the
//! integer that the bytes denote (`x@`).
use vstd::arithmetic::power::pow;
use vstd::prelude::*;

verus! {

/// Unsigned little-endian value of a byte sequence.
pub open spec fn le_value(s: Seq<u8>) -> nat
    decreases s.len(),
{
    if s.len() == 0 {
        0
    } else {
        s[0] as nat + 256 * le_value(s.drop_first())
    }
}

/// Value of a byte sequence read as a two's-complement little-endian number.
pub open spec fn signed_le_value(s: Seq<u8>) -> int {
    if s.len() > 0 && s.last() >= 128 {
        le_value(s) - pow(256, s.len())
    } else {
        le_value(s) as int
    }
}

/// Truncated quotient (rounds toward zero), as Rust's `/` on integers.
pub open spec fn trunc_div(a: int, b: int) -> int {
    if a >= 0 {
        if b > 0 { a / b } else { -(a / -b) }
    } else {
        if b > 0 { -((-a) / b) } else { (-a) / (-b) }
    }
}

/// Remainder of the truncated division, as Rust's `%` on integers.
pub open spec fn trunc_rem(a: int, b: int) -> int {
    a - b * trunc_div(a, b)
}

/// Character of a decimal digit.
pub open spec fn digit_char(d: int) -> char {
    (48 + d) as char
}

/// Decimal digits of a natural number, most significant first.
pub open spec fn decimal_digits(n: nat) -> Seq<char>
    decreases n,
{
    if n < 10 {
        seq![digit_char(n as int)]
    } else {
        decimal_digits(n / 10).push(digit_char((n % 10) as int))
    }
}

/// Decimal notation of an integer, with a leading '-' when it is negative.
pub open spec fn decimal(i: int) -> Seq<char> {
    if i < 0 {
        seq!['-'] + decimal_digits((-i) as nat)
    } else {
        decimal_digits(i as nat)
    }
}

/// Number of bits of the binary notation of a natural number (0 for 0).
pub open spec fn bit_length(n: nat) -> nat
    decreases n,
{
    if n == 0 {
        0
    } else {
        1 + bit_length(n / 2)
    }
}

/// What `modpow` gives for a positive modulus `m`: `r0`, the power of the
/// magnitude of `b` modulo `m`; for a negative `b`, `m - r0` where `r0` is
/// not zero. For `b >= 0` it is `b^e mod m`.
pub open spec fn modpow_value(b: int, e: nat, m: int) -> int {
    let r0 = pow(if b < 0 { -b } else { b }, e) % m;
    if b < 0 && r0 != 0 {
        m - r0
    } else {
        r0
    }
}

/// Magnitude of an integer.
pub open spec fn magnitude(a: int) -> int {
    if a < 0 {
        -a
    } else {
        a
    }
}

/// Bitwise AND of two integers in two's complement of unbounded width:
/// `0` is all zero bits and `-1` all one bits; otherwise the lowest bits
/// (`a % 2`, `b % 2`) combine and the rest (`a / 2`, `b / 2`, rounded down)
/// go on.
pub open spec fn int_bitand(a: int, b: int) -> int
    decreases magnitude(a) + magnitude(b),
{
    if a == 0 || b == 0 {
        0
    } else if a == -1 {
        b
    } else if b == -1 {
        a
    } else {
        2 * int_bitand(a / 2, b / 2) + if a % 2 == 1 && b % 2 == 1 { 1int } else { 0int }
    }
}

/// Bitwise OR of two integers in two's complement of unbounded width.
pub open spec fn int_bitor(a: int, b: int) -> int
    decreases magnitude(a) + magnitude(b),
{
    if a == 0 {
        b
    } else if b == 0 {
        a
    } else if a == -1 || b == -1 {
        -1
    } else {
        2 * int_bitor(a / 2, b / 2) + if a % 2 == 1 || b % 2 == 1 { 1int } else { 0int }
    }
}

/// Bitwise XOR of two integers in two's complement of unbounded width
/// (`-1 - x` flips every bit of `x`).
pub open spec fn int_bitxor(a: int, b: int) -> int
    decreases magnitude(a) + magnitude(b),
{
    if a == 0 {
        b
    } else if b == 0 {
        a
    } else if a == -1 {
        -1 - b
    } else if b == -1 {
        -1 - a
    } else {
        2 * int_bitxor(a / 2, b / 2) + if a % 2 != b % 2 { 1int } else { 0int }
    }
}

/// An integer of unbounded size.
#[derive(Debug, PartialEq, Eq)]
pub struct BigInt {
    /// Two's-complement bytes, least significant first.
    pub bytes: Vec<u8>,
}

impl View for BigInt {
    type V = int;

    open spec fn view(&self) -> int {
        signed_le_value(self.bytes@)
    }
}

impl Clone for BigInt {
    fn clone(&self) -> (r: Self)
        ensures
            r@ == self@,
    {
        BigInt { bytes: self.bytes.clone() }
    }
}

/// `num_bigint_dig::BigInt::from(i64)`: the integer equal to `v`.
#[verifier::external_body]
fn from_i64_raw(v: i64) -> (r: BigInt)
    ensures
        r@ == v as int,
{
    BigInt { bytes: num_bigint_dig::BigInt::from(v).to_signed_bytes_le() }
}

/// `==` of `num_bigint_dig::BigInt`: equality of the two integers.
#[verifier::external_body]
fn eq_raw(a: &BigInt, b: &BigInt) -> (r: bool)
    ensures
        r == (a@ == b@),
{
    let x = num_bigint_dig::BigInt::from_signed_bytes_le(&a.bytes);
    let y = num_bigint_dig::BigInt::from_signed_bytes_le(&b.bytes);
    x == y
}

/// `num_traits::Zero::is_zero` on `num_bigint_dig::BigInt`.
#[verifier::external_body]
fn is_zero_raw(a: &BigInt) -> (r: bool)
    ensures
        r == (a@ == 0),
{
    num_traits::Zero::is_zero(&num_bigint_dig::BigInt::from_signed_bytes_le(&a.bytes))
}

/// `num_traits::ToPrimitive::to_usize` on `num_bigint_dig::BigInt`: the
/// value as a `usize` when it is one.
#[verifier::external_body]
fn to_usize_raw(a: &BigInt) -> (r: Option<usize>)
    ensures
        r matches Some(u) ==> u as int == a@,
        r is None <==> !(0 <= a@ <= usize::MAX),
{
    num_traits::ToPrimitive::to_usize(&num_bigint_dig::BigInt::from_signed_bytes_le(&a.bytes))
}

/// `num_bigint_dig::BigInt::to_str_radix` with radix 10: the decimal notation.
#[verifier::external_body]
fn to_decimal_raw(a: &BigInt) -> (r: String)
    ensures
        r@ == decimal(a@),
{
    num_bigint_dig::BigInt::from_signed_bytes_le(&a.bytes).to_str_radix(10)
}

impl BigInt {
    /// `+` of `num_bigint_dig::BigInt`: the exact sum.
    #[verifier::external_body]
    pub(crate) fn add(a: &BigInt, b: &BigInt) -> (r: BigInt)
        ensures
            r@ == a@ + b@,
    {
        let x = num_bigint_dig::BigInt::from_signed_bytes_le(&a.bytes);
        let y = num_bigint_dig::BigInt::from_signed_bytes_le(&b.bytes);
        BigInt { bytes: (x + y).to_signed_bytes_le() }
    }

    /// `-` of `num_bigint_dig::BigInt`: the exact difference.
    #[verifier::external_body]
    pub(crate) fn sub(a: &BigInt, b: &BigInt) -> (r: BigInt)
        ensures
            r@ == a@ - b@,
    {
        let x = num_bigint_dig::BigInt::from_signed_bytes_le(&a.bytes);
        let y = num_bigint_dig::BigInt::from_signed_bytes_le(&b.bytes);
        BigInt { bytes: (x - y).to_signed_bytes_le() }
    }

    /// `*` of `num_bigint_dig::BigInt`: the exact product.
    #[verifier::external_body]
    pub(crate) fn mul(a: &BigInt, b: &BigInt) -> (r: BigInt)
        ensures
            r@ == a@ * b@,
    {
        let x = num_bigint_dig::BigInt::from_signed_bytes_le(&a.bytes);
        let y = num_bigint_dig::BigInt::from_signed_bytes_le(&b.bytes);
        BigInt { bytes: (x * y).to_signed_bytes_le() }
    }

    /// `/` of `num_bigint_dig::BigInt`: the quotient rounded toward zero.  It
    /// panics on a zero divisor, which `requires` leaves out.
    #[verifier::external_body]
    pub(crate) fn div_trunc(a: &BigInt, b: &BigInt) -> (r: BigInt)
        requires
            b@ != 0,
        ensures
            r@ == trunc_div(a@, b@),
    {
        let x = num_bigint_dig::BigInt::from_signed_bytes_le(&a.bytes);
        let y = num_bigint_dig::BigInt::from_signed_bytes_le(&b.bytes);
        BigInt { bytes: (x / y).to_signed_bytes_le() }
    }

    /// `%` of `num_bigint_dig::BigInt`: the remainder of the division rounded
    /// toward zero (its sign follows the dividend).  It panics on a zero divisor.
    #[verifier::external_body]
    pub(crate) fn rem_trunc(a: &BigInt, b: &BigInt) -> (r: BigInt)
        requires
            b@ != 0,
        ensures
            r@ == trunc_rem(a@, b@),
    {
        let x = num_bigint_dig::BigInt::from_signed_bytes_le(&a.bytes);
        let y = num_bigint_dig::BigInt::from_signed_bytes_le(&b.bytes);
        BigInt { bytes: (x % y).to_signed_bytes_le() }
    }

    /// `<` of `num_bigint_dig::BigInt`: the order of the integers.
    #[verifier::external_body]
    pub(crate) fn less_than(a: &BigInt, b: &BigInt) -> (r: bool)
        ensures
            r == (a@ < b@),
    {
        let x = num_bigint_dig::BigInt::from_signed_bytes_le(&a.bytes);
        let y = num_bigint_dig::BigInt::from_signed_bytes_le(&b.bytes);
        x < y
    }

    /// `num_bigint_dig::ModInverse::mod_inverse` for a positive modulus: some
    /// inverse of `a` modulo `m` exactly when one exists.  Which of the inverses
    /// comes back is left unsaid here; callers only use its residue.
    #[verifier::external_body]
    pub(crate) fn mod_inverse(a: &BigInt, m: &BigInt) -> (r: Option<BigInt>)
        requires
            m@ > 0,
        ensures
            match r {
                Some(x) => (a@ * x@) % m@ == 1int % m@,
                None => forall|y: int| #[trigger] ((a@ * y) % m@) != 1int % m@,
            },
    {
        let x = num_bigint_dig::BigInt::from_signed_bytes_le(&a.bytes);
        let y = num_bigint_dig::BigInt::from_signed_bytes_le(&m.bytes);
        match num_bigint_dig::ModInverse::mod_inverse(x, &y) {
            Some(inv) => Some(BigInt { bytes: inv.to_signed_bytes_le() }),
            None => None,
        }
    }

    /// `num_bigint_dig::BigInt::modpow` for a positive modulus: the power of
    /// the magnitude of the base, modulo `m`; for a negative base, `m` minus
    /// that residue where it is not zero (whatever the parity of the
    /// exponent). It panics on a negative exponent or a zero modulus;
    /// `requires` leaves both out (and negative moduli, unused here).
    #[verifier::external_body]
    pub(crate) fn modpow(b: &BigInt, e: &BigInt, m: &BigInt) -> (r: BigInt)
        requires
            e@ >= 0,
            m@ > 0,
        ensures
            r@ == modpow_value(b@, e@ as nat, m@),
    {
        let x = num_bigint_dig::BigInt::from_signed_bytes_le(&b.bytes);
        let y = num_bigint_dig::BigInt::from_signed_bytes_le(&e.bytes);
        let z = num_bigint_dig::BigInt::from_signed_bytes_le(&m.bytes);
        BigInt { bytes: x.modpow(&y, &z).to_signed_bytes_le() }
    }

    /// `num_traits::pow` on `num_bigint_dig::BigInt`: `2` raised to `k`.
    #[verifier::external_body]
    pub(crate) fn pow2(k: usize) -> (r: BigInt)
        ensures
            r@ == pow(2, k as nat),
    {
        let two = num_bigint_dig::BigInt::from(2);
        BigInt { bytes: num_traits::pow(two, k).to_signed_bytes_le() }
    }

    /// `num_bigint_dig::BigInt::bits`: the number of bits of the magnitude.
    #[verifier::external_body]
    pub(crate) fn bits(a: &BigInt) -> (r: usize)
        ensures
            r as nat == bit_length((if a@ < 0 { -a@ } else { a@ }) as nat),
    {
        num_bigint_dig::BigInt::from_signed_bytes_le(&a.bytes).bits()
    }

    /// `&` of `num_bigint_dig::BigInt`: the two's-complement AND, `int_bitand`.
    #[verifier::external_body]
    pub(crate) fn bitand(a: &BigInt, b: &BigInt) -> (r: BigInt)
        ensures
            r@ == int_bitand(a@, b@),
    {
        let x = num_bigint_dig::BigInt::from_signed_bytes_le(&a.bytes);
        let y = num_bigint_dig::BigInt::from_signed_bytes_le(&b.bytes);
        BigInt { bytes: (x & y).to_signed_bytes_le() }
    }

    /// `|` of `num_bigint_dig::BigInt`: the two's-complement OR, `int_bitor`.
    #[verifier::external_body]
    pub(crate) fn bitor(a: &BigInt, b: &BigInt) -> (r: BigInt)
        ensures
            r@ == int_bitor(a@, b@),
    {
        let x = num_bigint_dig::BigInt::from_signed_bytes_le(&a.bytes);
        let y = num_bigint_dig::BigInt::from_signed_bytes_le(&b.bytes);
        BigInt { bytes: (x | y).to_signed_bytes_le() }
    }

    /// `^` of `num_bigint_dig::BigInt`: the two's-complement XOR, `int_bitxor`.
    #[verifier::external_body]
    pub(crate) fn bitxor(a: &BigInt, b: &BigInt) -> (r: BigInt)
        ensures
            r@ == int_bitxor(a@, b@),
    {
        let x = num_bigint_dig::BigInt::from_signed_bytes_le(&a.bytes);
        let y = num_bigint_dig::BigInt::from_signed_bytes_le(&b.bytes);
        BigInt { bytes: (x ^ y).to_signed_bytes_le() }
    }

    /// The integer equal to `v`.
    pub fn from_i64(v: i64) -> (r: BigInt)
        ensures
            r@ == v as int,
    {
        from_i64_raw(v)
    }

    /// Equality of the integers.
    pub fn equals(&self, other: &BigInt) -> (r: bool)
        ensures
            r == (self@ == other@),
    {
        eq_raw(self, other)
    }

    /// Whether the integer is zero.
    pub fn is_zero(&self) -> (r: bool)
        ensures
            r == (self@ == 0),
    {
        is_zero_raw(self)
    }

    /// The value as a `usize`, when it is one.
    pub fn to_usize(&self) -> (r: Option<usize>)
        ensures
            r matches Some(u) ==> u as int == self@,
            r is None <==> !(0 <= self@ <= usize::MAX),
    {
        to_usize_raw(self)
    }

    /// Decimal notation.
    pub fn to_decimal_string(&self) -> (r: String)
        ensures
            r@ == decimal(self@),
    {
        to_decimal_raw(self)
    }
}

} // verus!
