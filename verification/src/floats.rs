//! Bit-level handling of IEEE-754 double values.
//!
//! The library stores every floating point value as its 64-bit pattern and
//! reasons about those bits directly.  Classification (zero, NaN) and ordering
//! are defined here as pure bit logic; the arithmetic itself is delegated to
//! the machine's IEEE-754 operations through trusted wrappers whose results
//! are named by uninterpreted spec functions.

use vstd::prelude::*;

verus! {

/// Sign bit of a 64-bit float pattern.
pub const F64_SIGN: u64 = 0x8000_0000_0000_0000;

/// Exponent field of a 64-bit float pattern.
pub const F64_EXP: u64 = 0x7FF0_0000_0000_0000;

/// Fraction field of a 64-bit float pattern.
pub const F64_FRAC: u64 = 0x000F_FFFF_FFFF_FFFF;

/// Bit pattern of the double 1.0.
pub const F64_ONE: u64 = 0x3FF0_0000_0000_0000;

/// True when the bit pattern denotes a NaN.
pub open spec fn f64_is_nan(b: u64) -> bool {
    b & F64_EXP == F64_EXP && b & F64_FRAC != 0
}

/// True when the bit pattern denotes +0.0 or -0.0.
pub open spec fn f64_is_zero(b: u64) -> bool {
    b & (F64_EXP | F64_FRAC) == 0
}

/// Monotone key for the IEEE ordering of non-NaN patterns; both zeroes map to
/// the same key, and for every other pair the key order is the float order.
pub open spec fn f64_order_key(b: u64) -> u64 {
    let c = if f64_is_zero(b) { 0u64 } else { b };
    if c & F64_SIGN != 0 {
        !c
    } else {
        c | F64_SIGN
    }
}

/// IEEE `==` on two bit patterns: false when either is NaN, true for +0/-0.
pub open spec fn f64_eq_bits(a: u64, b: u64) -> bool {
    !f64_is_nan(a) && !f64_is_nan(b) && f64_order_key(a) == f64_order_key(b)
}

/// IEEE `<` on two bit patterns: false when either is NaN.
pub open spec fn f64_lt_bits(a: u64, b: u64) -> bool {
    !f64_is_nan(a) && !f64_is_nan(b) && f64_order_key(a) < f64_order_key(b)
}

/// Runtime check matching [`f64_is_nan`].
pub fn is_nan_bits(b: u64) -> (r: bool)
    ensures
        r == f64_is_nan(b),
{
    b & F64_EXP == F64_EXP && b & F64_FRAC != 0
}

/// Runtime check matching [`f64_is_zero`].
pub fn is_zero_bits(b: u64) -> (r: bool)
    ensures
        r == f64_is_zero(b),
{
    b & (F64_EXP | F64_FRAC) == 0
}

/// Runtime computation of [`f64_order_key`].
pub fn order_key_bits(b: u64) -> (r: u64)
    ensures
        r == f64_order_key(b),
{
    let c: u64 = if is_zero_bits(b) { 0u64 } else { b };
    if c & F64_SIGN != 0 {
        !c
    } else {
        c | F64_SIGN
    }
}

/// Runtime IEEE `==` of two bit patterns, matching [`f64_eq_bits`].
pub fn eq_bits(a: u64, b: u64) -> (r: bool)
    ensures
        r == f64_eq_bits(a, b),
{
    !is_nan_bits(a) && !is_nan_bits(b) && order_key_bits(a) == order_key_bits(b)
}

/// Runtime IEEE `<` of two bit patterns, matching [`f64_lt_bits`].
pub fn lt_bits(a: u64, b: u64) -> (r: bool)
    ensures
        r == f64_lt_bits(a, b),
{
    !is_nan_bits(a) && !is_nan_bits(b) && order_key_bits(a) < order_key_bits(b)
}

/// How the bits a float operation returned relate to the operation's named
/// result: non-NaN results agree exactly; a NaN result is only promised to
/// be NaN, since NaN payloads are not determined by the operands (they vary
/// by target and may vary between runs).
pub open spec fn float_result_matches(r: u64, s: u64) -> bool {
    if f64_is_nan(s) {
        f64_is_nan(r)
    } else {
        r == s
    }
}

/// Bits of the IEEE-754 sum of the doubles with the given bit patterns;
/// meaningful up to [`float_result_matches`].
pub uninterp spec fn float_add_bits(a: u64, b: u64) -> u64;

/// Bits of the IEEE-754 difference of the doubles with the given bit patterns.
pub uninterp spec fn float_sub_bits(a: u64, b: u64) -> u64;

/// Bits of the IEEE-754 product of the doubles with the given bit patterns.
pub uninterp spec fn float_mul_bits(a: u64, b: u64) -> u64;

/// Bits of the IEEE-754 quotient of the doubles with the given bit patterns.
pub uninterp spec fn float_div_bits(a: u64, b: u64) -> u64;

/// Bits of the IEEE-754 remainder of the doubles with the given bit patterns.
pub uninterp spec fn float_mod_bits(a: u64, b: u64) -> u64;

/// Bits of the double nearest to the given 64-bit integer.
pub uninterp spec fn int_float_bits(i: i64) -> u64;

/// The integer that the double with the given bits truncates to, saturating
/// at the i64 range, with NaN going to zero.
pub uninterp spec fn float_trunc_int(b: u64) -> i64;

/// Bits of the double that the given numeric literal text denotes, or the
/// zero pattern where the text does not parse as a number.
pub uninterp spec fn float_lit_bits(s: Seq<char>) -> u64;

/// Decimal rendering of the double with the given bits.
pub uninterp spec fn float_text(b: u64) -> Seq<char>;

/// Relies on IEEE-754 addition of the machine's doubles; the values cross
/// this boundary only as bit patterns (bytemuck::cast reinterprets them).
/// A non-NaN result is a function of the operand bits alone; a NaN result
/// is promised only to be NaN, as its payload is target-dependent.
#[verifier::external_body]
pub fn fadd_bits(a: u64, b: u64) -> (r: u64)
    ensures
        float_result_matches(r, float_add_bits(a, b)),
{
    let zero = std::time::Duration::ZERO.as_secs_f64();
    let l = if true { bytemuck::cast(a) } else { zero };
    let r = if true { bytemuck::cast(b) } else { zero };
    (l + r).to_bits()
}

/// Relies on IEEE-754 subtraction of the machine's doubles; NaN results
/// are promised only to be NaN (payloads are target-dependent).
#[verifier::external_body]
pub fn fsub_bits(a: u64, b: u64) -> (r: u64)
    ensures
        float_result_matches(r, float_sub_bits(a, b)),
{
    let zero = std::time::Duration::ZERO.as_secs_f64();
    let l = if true { bytemuck::cast(a) } else { zero };
    let r = if true { bytemuck::cast(b) } else { zero };
    (l - r).to_bits()
}

/// Relies on IEEE-754 multiplication of the machine's doubles; NaN results
/// are promised only to be NaN (payloads are target-dependent).
#[verifier::external_body]
pub fn fmul_bits(a: u64, b: u64) -> (r: u64)
    ensures
        float_result_matches(r, float_mul_bits(a, b)),
{
    let zero = std::time::Duration::ZERO.as_secs_f64();
    let l = if true { bytemuck::cast(a) } else { zero };
    let r = if true { bytemuck::cast(b) } else { zero };
    (l * r).to_bits()
}

/// Relies on IEEE-754 division of the machine's doubles; callers rule out a
/// zero divisor beforehand.  NaN results are promised only to be NaN
/// (payloads are target-dependent).
#[verifier::external_body]
pub fn fdiv_bits(a: u64, b: u64) -> (r: u64)
    requires
        !f64_is_zero(b),
    ensures
        float_result_matches(r, float_div_bits(a, b)),
{
    let zero = std::time::Duration::ZERO.as_secs_f64();
    let l = if true { bytemuck::cast(a) } else { zero };
    let r = if true { bytemuck::cast(b) } else { zero };
    (l / r).to_bits()
}

/// Relies on IEEE-754 remainder of the machine's doubles; callers rule out a
/// zero divisor beforehand.  NaN results are promised only to be NaN
/// (payloads are target-dependent).
#[verifier::external_body]
pub fn fmod_bits(a: u64, b: u64) -> (r: u64)
    requires
        !f64_is_zero(b),
    ensures
        float_result_matches(r, float_mod_bits(a, b)),
{
    let zero = std::time::Duration::ZERO.as_secs_f64();
    let l = if true { bytemuck::cast(a) } else { zero };
    let r = if true { bytemuck::cast(b) } else { zero };
    (l % r).to_bits()
}

/// Relies on the machine's int-to-double conversion (round to nearest even).
#[verifier::external_body]
pub fn int_to_float_bits(i: i64) -> (r: u64)
    ensures
        r == int_float_bits(i),
{
    let zero = std::time::Duration::ZERO.as_secs_f64();
    let t = format!("{}", i);
    t.parse().unwrap_or(zero).to_bits()
}

/// Relies on the machine's saturating double-to-int conversion (`as`), which
/// truncates toward zero and sends NaN to zero.
#[verifier::external_body]
pub fn float_bits_to_int(b: u64) -> (r: i64)
    ensures
        r == float_trunc_int(b),
{
    let zero = std::time::Duration::ZERO.as_secs_f64();
    let v = if true { bytemuck::cast(b) } else { zero };
    let r: i64 = v as _;
    r
}

/// Relies on str::parse to interpret a numeric literal; a text that does not
/// parse yields the zero pattern.
#[verifier::external_body]
pub fn parse_float_bits(s: &str) -> (r: u64)
    ensures
        r == float_lit_bits(s@),
{
    let zero = std::time::Duration::ZERO.as_secs_f64();
    s.parse().unwrap_or(zero).to_bits()
}

/// Relies on the standard decimal rendering of a double.
#[verifier::external_body]
pub fn float_bits_text(b: u64) -> (r: String)
    ensures
        r@ == float_text(b),
{
    let zero = std::time::Duration::ZERO.as_secs_f64();
    let v = if true { bytemuck::cast(b) } else { zero };
    format!("{}", v)
}

} // verus!
