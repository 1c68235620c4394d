//! Properties that relate the operations on `FpxIEEE` to one another.
use crate::digits::{
    all_digits,
    digits_value,
    lemma_digits_value_bound,
    lemma_digits_value_full,
    lemma_digits_value_injective,
    lemma_digits_value_zero,
};
use crate::fpx_ieee::FpxIEEE;
use vstd::arithmetic::power2::lemma2_to64;
use vstd::prelude::*;

verus! {

/// Decoding a word into fields and encoding the fields again gives back the
/// same word, for every one of the 2^32 words: `to_bits(from_bits(b)) == b`.
pub proof fn lemma_word_round_trip(v: FpxIEEE, b: u32)
    requires
        v.encodes(b),
    ensures
        v.word() == b,
{
    assert(b == (b >> 31u32) * 0x8000_0000 + ((b >> 23u32) & 0xff) * 0x80_0000 + (b & 0x7f_ffff)
        && b >> 31u32 <= 1) by (bit_vector);
}

/// Every value has a 32-bit word, and that word decodes to the same fields:
/// `from_bits(to_bits(v))` equals `v`.
pub proof fn lemma_fields_round_trip(v: FpxIEEE, w: FpxIEEE)
    requires
        w.encodes(v.word() as u32),
    ensures
        v.word() < 0x1_0000_0000,
        v.encodes(v.word() as u32),
        w.same_as(&v),
{
    v.lemma_widths();
    w.lemma_widths();
    lemma2_to64();
    lemma_digits_value_bound(v.exponent());
    lemma_digits_value_bound(v.mantissa());
    let sg: u32 = if v.sign() {
        1
    } else {
        0
    };
    let e: u32 = digits_value(v.exponent()) as u32;
    let m: u32 = digits_value(v.mantissa()) as u32;
    let x: u32 = v.word() as u32;
    assert(x == sg * 0x8000_0000 + e * 0x80_0000 + m);
    assert(x >> 31u32 == sg && (x >> 23u32) & 0xff == e && x & 0x7f_ffff == m) by (bit_vector)
        requires
            sg <= 1,
            e < 256,
            m < 0x80_0000,
            x == sg * 0x8000_0000 + e * 0x80_0000 + m,
    ;
    lemma_digits_value_injective(w.exponent(), v.exponent());
    lemma_digits_value_injective(w.mantissa(), v.mantissa());
}

/// The class of a decoded word follows from its exponent and mantissa bits:
/// exponent bits all ones with zero mantissa bits is an infinity (of the
/// word's sign), all ones with nonzero mantissa bits a NaN, all zeros a zero
/// or a subnormal, anything else a normalized value.
pub proof fn lemma_word_classes(v: FpxIEEE, b: u32)
    requires
        v.encodes(b),
    ensures
        v.spec_is_infinite() <==> ((b >> 23u32) & 0xff == 0xff && b & 0x7f_ffff == 0),
        v.spec_is_nan() <==> ((b >> 23u32) & 0xff == 0xff && b & 0x7f_ffff != 0),
        v.spec_is_zero() <==> ((b >> 23u32) & 0xff == 0 && b & 0x7f_ffff == 0),
        v.spec_is_subnormal() <==> ((b >> 23u32) & 0xff == 0 && b & 0x7f_ffff != 0),
        v.spec_is_normalized() <==> ((b >> 23u32) & 0xff != 0 && (b >> 23u32) & 0xff != 0xff),
        v.sign() <==> b >= 0x8000_0000,
{
    v.lemma_widths();
    lemma2_to64();
    lemma_digits_value_zero(v.exponent());
    lemma_digits_value_zero(v.mantissa());
    lemma_digits_value_full(v.exponent());
    assert((b >> 31u32 == 1) <==> b >= 0x8000_0000) by (bit_vector);
}

/// Equality is reflexive, symmetric and transitive.
pub proof fn lemma_equals_equivalence(a: FpxIEEE, b: FpxIEEE, c: FpxIEEE)
    ensures
        a.same_as(&a),
        a.same_as(&b) ==> b.same_as(&a),
        a.same_as(&b) && b.same_as(&c) ==> a.same_as(&c),
{
}

/// Equality is stricter than native float equality: a NaN equals itself,
/// NaNs with different payloads differ, and the two zeros differ.
pub proof fn lemma_equals_stricter_than_native(a: FpxIEEE, b: FpxIEEE)
    ensures
        a.spec_is_nan() ==> a.same_as(&a),
        a.spec_is_nan() && b.spec_is_nan() && a.mantissa() != b.mantissa() ==> !a.same_as(&b),
        a.spec_is_zero() && b.spec_is_zero() && a.sign() != b.sign() ==> !a.same_as(&b),
{
}

/// How many of the five classes a value is in.
pub open spec fn class_count(v: FpxIEEE) -> int {
    (if v.spec_is_zero() { 1int } else { 0 }) + (if v.spec_is_subnormal() { 1int } else { 0 }) + (
    if v.spec_is_normalized() { 1int } else { 0 }) + (if v.spec_is_infinite() { 1int } else { 0 })
        + (if v.spec_is_nan() { 1int } else { 0 })
}

/// Every value is in exactly one of the classes zero, subnormal, normalized,
/// infinite and NaN.
pub proof fn lemma_partition(v: FpxIEEE)
    ensures
        class_count(v) == 1,
{
    v.lemma_widths();
    let e = v.exponent();
    if all_digits(e, true) {
        assert(e[0]);
    }
}

} // verus!
