//! The explicit representation of a single-precision IEEE-754 value.
use crate::digits::{
    all_digits,
    all_equal_to,
    digit_char,
    digits_text,
    digits_value,
    pack,
    push_digits,
    same_digits,
    unpack,
};
use vstd::arithmetic::power2::{lemma2_to64, pow2};
use vstd::prelude::*;

verus! {

/// A single-precision IEEE-754 value held as its three fields, digit by digit,
/// most significant digit first: one sign digit, eight digits of biased
/// exponent (bias 127) and twenty-three digits of mantissa.
pub struct FpxIEEE {
    s: bool,
    c: [bool; 8],
    f: [bool; 23],
}

impl FpxIEEE {
    /// The sign digit: `false` for positive, `true` for negative.
    pub closed spec fn sign(&self) -> bool {
        self.s
    }

    /// The biased exponent digits.
    pub closed spec fn exponent(&self) -> Seq<bool> {
        self.c@
    }

    /// The mantissa digits.
    pub closed spec fn mantissa(&self) -> Seq<bool> {
        self.f@
    }

    /// The fields have their fixed widths.
    pub proof fn lemma_widths(&self)
        ensures
            self.exponent().len() == 8,
            self.mantissa().len() == 23,
    {
    }

    pub open spec fn spec_is_infinite(&self) -> bool {
        all_digits(self.exponent(), true) && all_digits(self.mantissa(), false)
    }

    pub open spec fn spec_is_nan(&self) -> bool {
        all_digits(self.exponent(), true) && !all_digits(self.mantissa(), false)
    }

    pub open spec fn spec_is_zero(&self) -> bool {
        all_digits(self.exponent(), false) && all_digits(self.mantissa(), false)
    }

    pub open spec fn spec_is_subnormal(&self) -> bool {
        all_digits(self.exponent(), false) && !all_digits(self.mantissa(), false)
    }

    pub open spec fn spec_is_normalized(&self) -> bool {
        !all_digits(self.exponent(), false) && !all_digits(self.exponent(), true)
    }

    /// All three fields agree digit by digit.
    pub open spec fn same_as(&self, other: &FpxIEEE) -> bool {
        &&& self.sign() == other.sign()
        &&& self.exponent() == other.exponent()
        &&& self.mantissa() == other.mantissa()
    }

    /// The diagnostic rendering: `fpx_s`, the sign digit (`0` for positive),
    /// `c`, the exponent digits, `f`, the mantissa digits.
    pub open spec fn text(&self) -> Seq<char> {
        "fpx_s"@ + seq![digit_char(self.sign())] + "c"@ + digits_text(self.exponent()) + "f"@
            + digits_text(self.mantissa())
    }

    /// The 32-bit IEEE-754 word with these fields: sign in bit 31, biased
    /// exponent in bits 30 to 23, mantissa in bits 22 to 0.
    pub open spec fn word(&self) -> nat {
        (if self.sign() { 0x8000_0000nat } else { 0nat }) + digits_value(self.exponent())
            * 0x80_0000 + digits_value(self.mantissa())
    }

    /// The fields are those of the 32-bit word `b`.
    pub open spec fn encodes(&self, b: u32) -> bool {
        &&& self.sign() == (b >> 31u32 == 1)
        &&& digits_value(self.exponent()) == (b >> 23u32) & 0xff
        &&& digits_value(self.mantissa()) == b & 0x7f_ffff
    }

    /// Assembles a value from its fields; every combination is a value.
    pub fn new(s: bool, c: [bool; 8], f: [bool; 23]) -> (r: FpxIEEE)
        ensures
            r.sign() == s,
            r.exponent() == c@,
            r.mantissa() == f@,
    {
        FpxIEEE { s, c, f }
    }

    /// Positive infinity.
    pub fn infinite() -> (r: FpxIEEE)
        ensures
            !r.sign(),
            r.spec_is_infinite(),
    {
        FpxIEEE { s: false, c: [true; 8], f: [false; 23] }
    }

    /// Negative infinity.
    pub fn infinite_negative() -> (r: FpxIEEE)
        ensures
            r.sign(),
            r.spec_is_infinite(),
    {
        FpxIEEE { s: true, c: [true; 8], f: [false; 23] }
    }

    /// The NaN with the sign and every exponent and mantissa digit set.
    pub fn nan() -> (r: FpxIEEE)
        ensures
            r.sign(),
            all_digits(r.exponent(), true),
            all_digits(r.mantissa(), true),
            r.spec_is_nan(),
    {
        let r = FpxIEEE { s: true, c: [true; 8], f: [true; 23] };
        assert(r.mantissa()[0]);
        r
    }

    /// Structural equality over all 32 digits: NaNs are equal only when
    /// their payloads match, and the two zeros differ.
    pub fn equals(fpx_self: &FpxIEEE, fpx_other: &FpxIEEE) -> (r: bool)
        ensures
            r == fpx_self.same_as(fpx_other),
    {
        fpx_self.s == fpx_other.s && same_digits(fpx_self.c.as_slice(), fpx_other.c.as_slice())
            && same_digits(fpx_self.f.as_slice(), fpx_other.f.as_slice())
    }

    /// The exponent is all ones and the mantissa all zeros, whatever the sign.
    pub fn is_infinite(fpx_: &FpxIEEE) -> (r: bool)
        ensures
            r == fpx_.spec_is_infinite(),
    {
        all_equal_to(fpx_.c.as_slice(), true) && all_equal_to(fpx_.f.as_slice(), false)
    }

    /// The exponent is all ones and the mantissa (the payload) is not all zeros.
    pub fn is_nan(fpx_: &FpxIEEE) -> (r: bool)
        ensures
            r == fpx_.spec_is_nan(),
    {
        all_equal_to(fpx_.c.as_slice(), true) && !all_equal_to(fpx_.f.as_slice(), false)
    }

    /// A signed zero: exponent and mantissa all zeros.
    pub fn is_zero(fpx_: &FpxIEEE) -> (r: bool)
        ensures
            r == fpx_.spec_is_zero(),
    {
        all_equal_to(fpx_.c.as_slice(), false) && all_equal_to(fpx_.f.as_slice(), false)
    }

    /// A subnormal value: exponent all zeros, mantissa not.
    pub fn is_subnormal(fpx_: &FpxIEEE) -> (r: bool)
        ensures
            r == fpx_.spec_is_subnormal(),
    {
        all_equal_to(fpx_.c.as_slice(), false) && !all_equal_to(fpx_.f.as_slice(), false)
    }

    /// A normalized value: the exponent is neither all zeros nor all ones.
    pub fn is_normalized(fpx_: &FpxIEEE) -> (r: bool)
        ensures
            r == fpx_.spec_is_normalized(),
    {
        !all_equal_to(fpx_.c.as_slice(), false) && !all_equal_to(fpx_.c.as_slice(), true)
    }

    /// The diagnostic rendering, 39 characters long, for example
    /// `fpx_s0c11111111f00000000000000000000000` for positive infinity.
    pub fn to_string(fpx_: FpxIEEE) -> (r: String)
        ensures
            r@ == fpx_.text(),
            r@.len() == 39,
    {
        proof {
            reveal_strlit("fpx_s");
            reveal_strlit("0");
            reveal_strlit("1");
            reveal_strlit("c");
            reveal_strlit("f");
        }
        let mut text: String = String::from_str("fpx_s");
        if fpx_.s {
            text.append("1");
        } else {
            text.append("0");
        }
        assert(text@ =~= "fpx_s"@ + seq![digit_char(fpx_.s)]);
        text.append("c");
        push_digits(&mut text, fpx_.c.as_slice());
        text.append("f");
        push_digits(&mut text, fpx_.f.as_slice());
        assert(text@ =~= fpx_.text());
        assert(digits_text(fpx_.exponent()).len() == 8);
        assert(digits_text(fpx_.mantissa()).len() == 23);
        assert("fpx_s"@.len() == 5 && "c"@.len() == 1 && "f"@.len() == 1);
        text
    }

    /// The value whose fields are those of the 32-bit IEEE-754 word `bits`.
    /// A NaN keeps its sign and payload.
    pub fn from_bits(bits: u32) -> (r: FpxIEEE)
        ensures
            r.encodes(bits),
    {
        proof {
            lemma2_to64();
            assert((bits >> 23u32) & 0xff < 256) by (bit_vector);
            assert(bits & 0x7f_ffff < 0x80_0000) by (bit_vector);
        }
        let c: [bool; 8] = unpack::<8>((bits >> 23u32) & 0xff);
        let f: [bool; 23] = unpack::<23>(bits & 0x7f_ffff);
        FpxIEEE { s: bits >> 31u32 == 1, c, f }
    }

    /// The 32-bit IEEE-754 word with the fields of `fpx_`.
    pub fn to_bits(fpx_: &FpxIEEE) -> (r: u32)
        ensures
            r == fpx_.word(),
    {
        proof {
            lemma2_to64();
            crate::digits::lemma_digits_value_bound(fpx_.c@);
            crate::digits::lemma_digits_value_bound(fpx_.f@);
        }
        let e: u32 = pack(fpx_.c.as_slice());
        let m: u32 = pack(fpx_.f.as_slice());
        let s: u32 = if fpx_.s {
            0x8000_0000
        } else {
            0
        };
        s + e * 0x80_0000 + m
    }
}

} // verus!
