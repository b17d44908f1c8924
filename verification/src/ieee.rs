//! Binary floating point through `rustc_apfloat`: decimal parsing, width
//! conversion, arithmetic, comparison and printing of IEEE binary32, binary64
//! and binary128 values, each value carried as the bit pattern that
//! `Float::to_bits` gives.

use rustc_apfloat::ieee::{Double, Quad, Single};
use rustc_apfloat::{Float, FloatConvert, Round};
use vstd::prelude::*;

verus! {

/// What `Single::from_str_r(text, NearestTiesToEven)` returns: the bit pattern
/// and status bits of the rounded value, or the `Debug` text of the
/// `ParseError`.
pub uninterp spec fn single_from_decimal(text: Seq<char>) -> Result<(u128, u8), Seq<char>>;

/// What `Double::from_str_r(text, NearestTiesToEven)` returns.
pub uninterp spec fn double_from_decimal(text: Seq<char>) -> Result<(u128, u8), Seq<char>>;

/// What `Quad::from_str_r(text, NearestTiesToEven)` returns.
pub uninterp spec fn quad_from_decimal(text: Seq<char>) -> Result<(u128, u8), Seq<char>>;

/// What `FloatConvert::convert` returns for a binary32 bit pattern widened to binary64.
pub uninterp spec fn single_to_double(bits: u128) -> (u128, u8);

/// What `FloatConvert::convert` returns for binary32 to binary128.
pub uninterp spec fn single_to_quad(bits: u128) -> (u128, u8);

/// What `FloatConvert::convert` returns for binary64 to binary32.
pub uninterp spec fn double_to_single(bits: u128) -> (u128, u8);

/// What `FloatConvert::convert` returns for binary64 to binary128.
pub uninterp spec fn double_to_quad(bits: u128) -> (u128, u8);

/// What `FloatConvert::convert` returns for binary128 to binary32.
pub uninterp spec fn quad_to_single(bits: u128) -> (u128, u8);

/// What `FloatConvert::convert` returns for binary128 to binary64.
pub uninterp spec fn quad_to_double(bits: u128) -> (u128, u8);

/// `Single::from_str_r` with round-to-nearest, ties-to-even. The result is
/// named only: it is the bit pattern and `Status` bits of the parsed value, or
/// the `Debug` text of the `ParseError`, as the outside function gives them.
#[verifier::external_body]
pub(crate) fn parse_single(text: &str) -> (r: Result<(u128, u8), String>)
    ensures
        match r {
            Ok(v) => single_from_decimal(text@) == Ok::<(u128, u8), Seq<char>>(v),
            Err(e) => single_from_decimal(text@) == Err::<(u128, u8), Seq<char>>(e@),
        },
{
    match Single::from_str_r(text, Round::NearestTiesToEven) {
        Ok(parsed) => Ok((parsed.value.to_bits(), parsed.status.bits())),
        Err(error) => Err(format!("{error:?}")),
    }
}

/// `Double::from_str_r` with round-to-nearest, ties-to-even; result named only.
#[verifier::external_body]
pub(crate) fn parse_double(text: &str) -> (r: Result<(u128, u8), String>)
    ensures
        match r {
            Ok(v) => double_from_decimal(text@) == Ok::<(u128, u8), Seq<char>>(v),
            Err(e) => double_from_decimal(text@) == Err::<(u128, u8), Seq<char>>(e@),
        },
{
    match Double::from_str_r(text, Round::NearestTiesToEven) {
        Ok(parsed) => Ok((parsed.value.to_bits(), parsed.status.bits())),
        Err(error) => Err(format!("{error:?}")),
    }
}

/// `Quad::from_str_r` with round-to-nearest, ties-to-even; result named only.
#[verifier::external_body]
pub(crate) fn parse_quad(text: &str) -> (r: Result<(u128, u8), String>)
    ensures
        match r {
            Ok(v) => quad_from_decimal(text@) == Ok::<(u128, u8), Seq<char>>(v),
            Err(e) => quad_from_decimal(text@) == Err::<(u128, u8), Seq<char>>(e@),
        },
{
    match Quad::from_str_r(text, Round::NearestTiesToEven) {
        Ok(parsed) => Ok((parsed.value.to_bits(), parsed.status.bits())),
        Err(error) => Err(format!("{error:?}")),
    }
}

/// `FloatConvert::<Double>::convert` on `Single::from_bits(bits)`: the new bit
/// pattern and the status bits, named only.
#[verifier::external_body]
pub(crate) fn convert_single_to_double(bits: u128) -> (r: (u128, u8))
    ensures
        r == single_to_double(bits),
{
    let result = FloatConvert::<Double>::convert(Single::from_bits(bits), &mut false);
    (result.value.to_bits(), result.status.bits())
}

/// `FloatConvert::<Quad>::convert` on `Single::from_bits(bits)`, named only.
#[verifier::external_body]
pub(crate) fn convert_single_to_quad(bits: u128) -> (r: (u128, u8))
    ensures
        r == single_to_quad(bits),
{
    let result = FloatConvert::<Quad>::convert(Single::from_bits(bits), &mut false);
    (result.value.to_bits(), result.status.bits())
}

/// `FloatConvert::<Single>::convert` on `Double::from_bits(bits)`, named only.
#[verifier::external_body]
pub(crate) fn convert_double_to_single(bits: u128) -> (r: (u128, u8))
    ensures
        r == double_to_single(bits),
{
    let result = FloatConvert::<Single>::convert(Double::from_bits(bits), &mut false);
    (result.value.to_bits(), result.status.bits())
}

/// `FloatConvert::<Quad>::convert` on `Double::from_bits(bits)`, named only.
#[verifier::external_body]
pub(crate) fn convert_double_to_quad(bits: u128) -> (r: (u128, u8))
    ensures
        r == double_to_quad(bits),
{
    let result = FloatConvert::<Quad>::convert(Double::from_bits(bits), &mut false);
    (result.value.to_bits(), result.status.bits())
}

/// `FloatConvert::<Single>::convert` on `Quad::from_bits(bits)`, named only.
#[verifier::external_body]
pub(crate) fn convert_quad_to_single(bits: u128) -> (r: (u128, u8))
    ensures
        r == quad_to_single(bits),
{
    let result = FloatConvert::<Single>::convert(Quad::from_bits(bits), &mut false);
    (result.value.to_bits(), result.status.bits())
}

/// `FloatConvert::<Double>::convert` on `Quad::from_bits(bits)`, named only.
#[verifier::external_body]
pub(crate) fn convert_quad_to_double(bits: u128) -> (r: (u128, u8))
    ensures
        r == quad_to_double(bits),
{
    let result = FloatConvert::<Double>::convert(Quad::from_bits(bits), &mut false);
    (result.value.to_bits(), result.status.bits())
}

/// What `Single::from_bits(a) + Single::from_bits(b)` gives (round to nearest,
/// ties to even): the bit pattern of the rounded sum and its status bits.
pub uninterp spec fn single_add(a: u128, b: u128) -> (u128, u8);

/// What `Single::from_bits(a) - Single::from_bits(b)` gives (round to nearest,
/// ties to even): the bit pattern of the rounded difference and its status bits.
pub uninterp spec fn single_sub(a: u128, b: u128) -> (u128, u8);

/// What `Single::from_bits(a) * Single::from_bits(b)` gives (round to nearest,
/// ties to even): the bit pattern of the rounded product and its status bits.
pub uninterp spec fn single_mul(a: u128, b: u128) -> (u128, u8);

/// What `Single::from_bits(a) / Single::from_bits(b)` gives (round to nearest,
/// ties to even): the bit pattern of the rounded quotient and its status bits.
pub uninterp spec fn single_div(a: u128, b: u128) -> (u128, u8);

/// The bit pattern of `-Single::from_bits(bits)`: `from_bits` reads the low
/// 32 bits, `Neg` flips the sign and `to_bits` writes the pattern back, so
/// the low 32 bits with the sign bit flipped.
pub open spec fn single_neg(bits: u128) -> u128 {
    (bits & 0xffff_ffffu128) ^ 0x8000_0000u128
}

/// What `Single::from_bits(a).partial_cmp(&Single::from_bits(b))` gives.
pub uninterp spec fn single_compare(a: u128, b: u128) -> Option<i8>;

/// The bit pattern that `Single::from_bits(bits).to_bits()` gives back: the
/// low 32 bits (sign, exponent and significand, a NaN payload included, are
/// read and written back as they are).
pub open spec fn single_canonical(bits: u128) -> u128 {
    bits & 0xffff_ffffu128
}

/// What `Double::from_bits(a) + Double::from_bits(b)` gives (round to nearest,
/// ties to even): the bit pattern of the rounded sum and its status bits.
pub uninterp spec fn double_add(a: u128, b: u128) -> (u128, u8);

/// What `Double::from_bits(a) - Double::from_bits(b)` gives (round to nearest,
/// ties to even): the bit pattern of the rounded difference and its status bits.
pub uninterp spec fn double_sub(a: u128, b: u128) -> (u128, u8);

/// What `Double::from_bits(a) * Double::from_bits(b)` gives (round to nearest,
/// ties to even): the bit pattern of the rounded product and its status bits.
pub uninterp spec fn double_mul(a: u128, b: u128) -> (u128, u8);

/// What `Double::from_bits(a) / Double::from_bits(b)` gives (round to nearest,
/// ties to even): the bit pattern of the rounded quotient and its status bits.
pub uninterp spec fn double_div(a: u128, b: u128) -> (u128, u8);

/// The bit pattern of `-Double::from_bits(bits)`: the low 64 bits with the
/// sign bit flipped (see `single_neg`).
pub open spec fn double_neg(bits: u128) -> u128 {
    (bits & 0xffff_ffff_ffff_ffffu128) ^ 0x8000_0000_0000_0000u128
}

/// What `Double::from_bits(a).partial_cmp(&Double::from_bits(b))` gives.
pub uninterp spec fn double_compare(a: u128, b: u128) -> Option<i8>;

/// The bit pattern that `Double::from_bits(bits).to_bits()` gives back: the
/// low 64 bits (see `single_canonical`).
pub open spec fn double_canonical(bits: u128) -> u128 {
    bits & 0xffff_ffff_ffff_ffffu128
}

/// What `Quad::from_bits(a) + Quad::from_bits(b)` gives (round to nearest,
/// ties to even): the bit pattern of the rounded sum and its status bits.
pub uninterp spec fn quad_add(a: u128, b: u128) -> (u128, u8);

/// What `Quad::from_bits(a) - Quad::from_bits(b)` gives (round to nearest,
/// ties to even): the bit pattern of the rounded difference and its status bits.
pub uninterp spec fn quad_sub(a: u128, b: u128) -> (u128, u8);

/// What `Quad::from_bits(a) * Quad::from_bits(b)` gives (round to nearest,
/// ties to even): the bit pattern of the rounded product and its status bits.
pub uninterp spec fn quad_mul(a: u128, b: u128) -> (u128, u8);

/// What `Quad::from_bits(a) / Quad::from_bits(b)` gives (round to nearest,
/// ties to even): the bit pattern of the rounded quotient and its status bits.
pub uninterp spec fn quad_div(a: u128, b: u128) -> (u128, u8);

/// The bit pattern of `-Quad::from_bits(bits)`: all 128 bits with the sign
/// bit flipped (see `single_neg`).
pub open spec fn quad_neg(bits: u128) -> u128 {
    bits ^ 0x8000_0000_0000_0000_0000_0000_0000_0000u128
}

/// What `Quad::from_bits(a).partial_cmp(&Quad::from_bits(b))` gives.
pub uninterp spec fn quad_compare(a: u128, b: u128) -> Option<i8>;

/// The bit pattern that `Quad::from_bits(bits).to_bits()` gives back: the
/// pattern itself (see `single_canonical`).
pub open spec fn quad_canonical(bits: u128) -> u128 {
    bits
}

/// `Single::from_bits(a) + Single::from_bits(b)` through the `Add` impl of
/// `rustc_apfloat`, which rounds to nearest, ties to even: the bit pattern of
/// the result and its `Status` bits, named only.
#[verifier::external_body]
pub(crate) fn single_sum(a: u128, b: u128) -> (r: (u128, u8))
    ensures
        r == single_add(a, b),
{
    let result = Single::from_bits(a) + Single::from_bits(b);
    (result.value.to_bits(), result.status.bits())
}

/// `Single::from_bits(a) - Single::from_bits(b)` through the `Sub` impl of
/// `rustc_apfloat`, which rounds to nearest, ties to even: the bit pattern of
/// the result and its `Status` bits, named only.
#[verifier::external_body]
pub(crate) fn single_difference(a: u128, b: u128) -> (r: (u128, u8))
    ensures
        r == single_sub(a, b),
{
    let result = Single::from_bits(a) - Single::from_bits(b);
    (result.value.to_bits(), result.status.bits())
}

/// `Single::from_bits(a) * Single::from_bits(b)` through the `Mul` impl of
/// `rustc_apfloat`, which rounds to nearest, ties to even: the bit pattern of
/// the result and its `Status` bits, named only.
#[verifier::external_body]
pub(crate) fn single_product(a: u128, b: u128) -> (r: (u128, u8))
    ensures
        r == single_mul(a, b),
{
    let result = Single::from_bits(a) * Single::from_bits(b);
    (result.value.to_bits(), result.status.bits())
}

/// `Single::from_bits(a) / Single::from_bits(b)` through the `Div` impl of
/// `rustc_apfloat`, which rounds to nearest, ties to even: the bit pattern of
/// the result and its `Status` bits, named only.
#[verifier::external_body]
pub(crate) fn single_quotient(a: u128, b: u128) -> (r: (u128, u8))
    ensures
        r == single_div(a, b),
{
    let result = Single::from_bits(a) / Single::from_bits(b);
    (result.value.to_bits(), result.status.bits())
}

/// `-Single::from_bits(bits)` through the `Neg` impl of `rustc_apfloat`, which
/// flips the sign: the low 32 bits with the sign bit flipped (`single_neg`).
#[verifier::external_body]
pub(crate) fn single_negation(bits: u128) -> (r: u128)
    ensures
        r == single_neg(bits),
{
    (-Single::from_bits(bits)).to_bits()
}

/// `PartialOrd::partial_cmp` of `rustc_apfloat` on two `Single` bit patterns:
/// less, equal and greater as `-1`, `0` and `1`, and `None` when a NaN takes
/// part; named only.
#[verifier::external_body]
pub(crate) fn single_order(a: u128, b: u128) -> (r: Option<i8>)
    ensures
        r == single_compare(a, b),
{
    match Single::from_bits(a).partial_cmp(&Single::from_bits(b)) {
        Some(core::cmp::Ordering::Less) => Some(-1),
        Some(core::cmp::Ordering::Equal) => Some(0),
        Some(core::cmp::Ordering::Greater) => Some(1),
        None => None,
    }
}

/// `Single::from_bits(bits).to_bits()`: the pattern that the value reads back
/// as, its low 32 bits (`single_canonical`).
#[verifier::external_body]
pub(crate) fn single_reencode(bits: u128) -> (r: u128)
    ensures
        r == single_canonical(bits),
{
    Single::from_bits(bits).to_bits()
}

/// `Double::from_bits(a) + Double::from_bits(b)` through the `Add` impl of
/// `rustc_apfloat`, which rounds to nearest, ties to even: the bit pattern of
/// the result and its `Status` bits, named only.
#[verifier::external_body]
pub(crate) fn double_sum(a: u128, b: u128) -> (r: (u128, u8))
    ensures
        r == double_add(a, b),
{
    let result = Double::from_bits(a) + Double::from_bits(b);
    (result.value.to_bits(), result.status.bits())
}

/// `Double::from_bits(a) - Double::from_bits(b)` through the `Sub` impl of
/// `rustc_apfloat`, which rounds to nearest, ties to even: the bit pattern of
/// the result and its `Status` bits, named only.
#[verifier::external_body]
pub(crate) fn double_difference(a: u128, b: u128) -> (r: (u128, u8))
    ensures
        r == double_sub(a, b),
{
    let result = Double::from_bits(a) - Double::from_bits(b);
    (result.value.to_bits(), result.status.bits())
}

/// `Double::from_bits(a) * Double::from_bits(b)` through the `Mul` impl of
/// `rustc_apfloat`, which rounds to nearest, ties to even: the bit pattern of
/// the result and its `Status` bits, named only.
#[verifier::external_body]
pub(crate) fn double_product(a: u128, b: u128) -> (r: (u128, u8))
    ensures
        r == double_mul(a, b),
{
    let result = Double::from_bits(a) * Double::from_bits(b);
    (result.value.to_bits(), result.status.bits())
}

/// `Double::from_bits(a) / Double::from_bits(b)` through the `Div` impl of
/// `rustc_apfloat`, which rounds to nearest, ties to even: the bit pattern of
/// the result and its `Status` bits, named only.
#[verifier::external_body]
pub(crate) fn double_quotient(a: u128, b: u128) -> (r: (u128, u8))
    ensures
        r == double_div(a, b),
{
    let result = Double::from_bits(a) / Double::from_bits(b);
    (result.value.to_bits(), result.status.bits())
}

/// `-Double::from_bits(bits)` through the `Neg` impl of `rustc_apfloat`, which
/// flips the sign: the pattern with the sign bit flipped (`double_neg`).
#[verifier::external_body]
pub(crate) fn double_negation(bits: u128) -> (r: u128)
    ensures
        r == double_neg(bits),
{
    (-Double::from_bits(bits)).to_bits()
}

/// `PartialOrd::partial_cmp` of `rustc_apfloat` on two `Double` bit patterns:
/// less, equal and greater as `-1`, `0` and `1`, and `None` when a NaN takes
/// part; named only.
#[verifier::external_body]
pub(crate) fn double_order(a: u128, b: u128) -> (r: Option<i8>)
    ensures
        r == double_compare(a, b),
{
    match Double::from_bits(a).partial_cmp(&Double::from_bits(b)) {
        Some(core::cmp::Ordering::Less) => Some(-1),
        Some(core::cmp::Ordering::Equal) => Some(0),
        Some(core::cmp::Ordering::Greater) => Some(1),
        None => None,
    }
}

/// `Double::from_bits(bits).to_bits()`: the pattern that the value reads back
/// as (`double_canonical`).
#[verifier::external_body]
pub(crate) fn double_reencode(bits: u128) -> (r: u128)
    ensures
        r == double_canonical(bits),
{
    Double::from_bits(bits).to_bits()
}

/// `Quad::from_bits(a) + Quad::from_bits(b)` through the `Add` impl of
/// `rustc_apfloat`, which rounds to nearest, ties to even: the bit pattern of
/// the result and its `Status` bits, named only.
#[verifier::external_body]
pub(crate) fn quad_sum(a: u128, b: u128) -> (r: (u128, u8))
    ensures
        r == quad_add(a, b),
{
    let result = Quad::from_bits(a) + Quad::from_bits(b);
    (result.value.to_bits(), result.status.bits())
}

/// `Quad::from_bits(a) - Quad::from_bits(b)` through the `Sub` impl of
/// `rustc_apfloat`, which rounds to nearest, ties to even: the bit pattern of
/// the result and its `Status` bits, named only.
#[verifier::external_body]
pub(crate) fn quad_difference(a: u128, b: u128) -> (r: (u128, u8))
    ensures
        r == quad_sub(a, b),
{
    let result = Quad::from_bits(a) - Quad::from_bits(b);
    (result.value.to_bits(), result.status.bits())
}

/// `Quad::from_bits(a) * Quad::from_bits(b)` through the `Mul` impl of
/// `rustc_apfloat`, which rounds to nearest, ties to even: the bit pattern of
/// the result and its `Status` bits, named only.
#[verifier::external_body]
pub(crate) fn quad_product(a: u128, b: u128) -> (r: (u128, u8))
    ensures
        r == quad_mul(a, b),
{
    let result = Quad::from_bits(a) * Quad::from_bits(b);
    (result.value.to_bits(), result.status.bits())
}

/// `Quad::from_bits(a) / Quad::from_bits(b)` through the `Div` impl of
/// `rustc_apfloat`, which rounds to nearest, ties to even: the bit pattern of
/// the result and its `Status` bits, named only.
#[verifier::external_body]
pub(crate) fn quad_quotient(a: u128, b: u128) -> (r: (u128, u8))
    ensures
        r == quad_div(a, b),
{
    let result = Quad::from_bits(a) / Quad::from_bits(b);
    (result.value.to_bits(), result.status.bits())
}

/// `-Quad::from_bits(bits)` through the `Neg` impl of `rustc_apfloat`, which
/// flips the sign: the pattern with the sign bit flipped (`quad_neg`).
#[verifier::external_body]
pub(crate) fn quad_negation(bits: u128) -> (r: u128)
    ensures
        r == quad_neg(bits),
{
    (-Quad::from_bits(bits)).to_bits()
}

/// `PartialOrd::partial_cmp` of `rustc_apfloat` on two `Quad` bit patterns:
/// less, equal and greater as `-1`, `0` and `1`, and `None` when a NaN takes
/// part; named only.
#[verifier::external_body]
pub(crate) fn quad_order(a: u128, b: u128) -> (r: Option<i8>)
    ensures
        r == quad_compare(a, b),
{
    match Quad::from_bits(a).partial_cmp(&Quad::from_bits(b)) {
        Some(core::cmp::Ordering::Less) => Some(-1),
        Some(core::cmp::Ordering::Equal) => Some(0),
        Some(core::cmp::Ordering::Greater) => Some(1),
        None => None,
    }
}

/// `Quad::from_bits(bits).to_bits()`: the pattern that the value reads back
/// as (`quad_canonical`).
#[verifier::external_body]
pub(crate) fn quad_reencode(bits: u128) -> (r: u128)
    ensures
        r == quad_canonical(bits),
{
    Quad::from_bits(bits).to_bits()
}


/// The decimal text that `Display` of `rustc_apfloat` writes for
/// `Quad::from_bits(bits)`.
pub uninterp spec fn quad_decimal(bits: u128) -> Seq<char>;

/// `Quad::from_bits(bits).to_string()`: the shortest decimal text that reads
/// back as the same value, as `rustc_apfloat` writes it; named only.
#[verifier::external_body]
pub(crate) fn quad_text(bits: u128) -> (r: String)
    ensures
        r@ == quad_decimal(bits),
{
    Quad::from_bits(bits).to_string()
}

} // verus!
