//! Arbitrary-precision integers of literals and constant folding.
//!
//! The values are held as a sign and base-2^32 digits; the arithmetic is
//! done by `num_bigint::BigInt`.

use vstd::prelude::*;
use num_bigint::{BigInt, Sign};
use num_traits::Zero;
use crate::text::decimal_text;

verus! {

/// The value of little-endian base-2^32 digits.
pub open spec fn mag_value(ds: Seq<u32>) -> nat
    decreases ds.len(),
{
    if ds.len() == 0 {
        0
    } else {
        ds[0] as nat + 0x1_0000_0000 * mag_value(ds.drop_first())
    }
}

/// An arbitrary-precision integer: a sign and the magnitude's base-2^32
/// digits, least significant first.
#[derive(Debug, PartialEq, Eq)]
pub struct BigNum {
    pub negative: bool,
    pub magnitude: Vec<u32>,
}

impl View for BigNum {
    type V = int;

    open spec fn view(&self) -> int {
        if self.negative {
            -(mag_value(self.magnitude@) as int)
        } else {
            mag_value(self.magnitude@) as int
        }
    }
}

impl Clone for BigNum {
    fn clone(&self) -> (r: Self)
        ensures
            r@ == self@,
    {
        let mut magnitude: Vec<u32> = Vec::new();
        let mut i: usize = 0;
        while i < self.magnitude.len()
            invariant
                i <= self.magnitude@.len(),
                magnitude@ == self.magnitude@.subrange(0, i as int),
            decreases self.magnitude@.len() - i,
        {
            magnitude.push(self.magnitude[i]);
            i += 1;
            assert(magnitude@ =~= self.magnitude@.subrange(0, i as int));
        }
        assert(magnitude@ =~= self.magnitude@);
        BigNum { negative: self.negative, magnitude }
    }
}

/// Rust's integer division: the quotient rounded toward zero.
pub open spec fn trunc_div(a: int, b: int) -> int {
    let q = (if a >= 0 { a } else { -a }) / (if b >= 0 { b } else { -b });
    if (a >= 0) == (b >= 0) {
        q
    } else {
        -q
    }
}

// ---------------------------------------------------------------------------
// Parsing (`BigInt::parse_bytes`)
// ---------------------------------------------------------------------------

/// The digit value of an ASCII byte (letters count from 10), 255 for other bytes.
pub open spec fn digit_value(b: u8) -> nat {
    if 0x30 <= b <= 0x39 {
        (b - 0x30) as nat
    } else if 0x61 <= b <= 0x7a {
        (b - 0x61 + 10) as nat
    } else if 0x41 <= b <= 0x5a {
        (b - 0x41 + 10) as nat
    } else {
        255
    }
}

/// The value of big-endian digits in base `radix`, underscores skipped.
pub open spec fn digits_value(s: Seq<u8>, radix: nat) -> nat
    decreases s.len(),
{
    if s.len() == 0 {
        0
    } else if s.last() == 0x5f {
        digits_value(s.drop_last(), radix)
    } else {
        digits_value(s.drop_last(), radix) * radix + digit_value(s.last())
    }
}

/// The unsigned value `s` spells in base `radix`: an optional `+` (not
/// followed by another `+`), then a digit, then digits and underscores.
pub open spec fn spec_parse_unsigned(s: Seq<u8>, radix: nat) -> Option<nat> {
    let t = if s.len() > 0 && s[0] == 0x2b && !(s.len() > 1 && s[1] == 0x2b) {
        s.drop_first()
    } else {
        s
    };
    if t.len() == 0 || t[0] == 0x5f {
        None
    } else if exists|i: int| 0 <= i < t.len() && t[i] != 0x5f && digit_value(t[i]) >= radix {
        None
    } else {
        Some(digits_value(t, radix))
    }
}

/// The integer `s` spells in base `radix` (what `BigInt::parse_bytes` accepts):
/// an optional `-` (not followed by `+`) before an unsigned numeral.
pub open spec fn spec_parse_int(s: Seq<u8>, radix: nat) -> Option<int> {
    if s.len() > 0 && s[0] == 0x2d && !(s.len() > 1 && s[1] == 0x2b) {
        match spec_parse_unsigned(s.drop_first(), radix) {
            Some(v) => Some(-(v as int)),
            None => None,
        }
    } else {
        match spec_parse_unsigned(s, radix) {
            Some(v) => Some(v as int),
            None => None,
        }
    }
}

/// `BigInt::parse_bytes`: parses `buf` as an integer in base `radix`.  The
/// contract claims a result exactly for the numerals `spec_parse_int`
/// describes (the forms the crate's parser accepts), holding their value;
/// radixes outside 2..=36 make it panic and are left out.
#[verifier::external_body]
pub(crate) fn parse_bytes(buf: &[u8], radix: u32) -> (r: Option<BigNum>)
    requires
        2 <= radix <= 36,
    ensures
        match r {
            Some(v) => spec_parse_int(buf@, radix as nat) == Some(v@),
            None => spec_parse_int(buf@, radix as nat) is None,
        },
{
    match BigInt::parse_bytes(buf, radix) {
        Some(x) => {
            let (sign, magnitude) = x.to_u32_digits();
            Some(BigNum { negative: match sign { Sign::Minus => true, Sign::NoSign => false, Sign::Plus => false }, magnitude })
        },
        None => None,
    }
}

// ---------------------------------------------------------------------------
// Arithmetic and comparison (`BigInt` operators)
// ---------------------------------------------------------------------------

impl BigNum {
    /// Zero.
    pub fn zero() -> (r: BigNum)
        ensures
            r@ == 0,
    {
        BigNum { negative: false, magnitude: Vec::new() }
    }

    /// `&a + &b` on `BigInt`; the contract claims the sum of the two values.
    #[verifier::external_body]
    pub(crate) fn add(&self, other: &BigNum) -> (r: BigNum)
        ensures
            r@ == self@ + other@,
    {
        let x = BigInt::from_slice(if self.negative { Sign::Minus } else { Sign::Plus }, &self.magnitude);
        let y = BigInt::from_slice(if other.negative { Sign::Minus } else { Sign::Plus }, &other.magnitude);
        let (sign, magnitude) = (x + y).to_u32_digits();
        BigNum { negative: match sign { Sign::Minus => true, Sign::NoSign => false, Sign::Plus => false }, magnitude }
    }

    /// `&a - &b` on `BigInt`; the contract claims the difference of the two values.
    #[verifier::external_body]
    pub(crate) fn sub(&self, other: &BigNum) -> (r: BigNum)
        ensures
            r@ == self@ - other@,
    {
        let x = BigInt::from_slice(if self.negative { Sign::Minus } else { Sign::Plus }, &self.magnitude);
        let y = BigInt::from_slice(if other.negative { Sign::Minus } else { Sign::Plus }, &other.magnitude);
        let (sign, magnitude) = (x - y).to_u32_digits();
        BigNum { negative: match sign { Sign::Minus => true, Sign::NoSign => false, Sign::Plus => false }, magnitude }
    }

    /// `&a * &b` on `BigInt`; the contract claims the product of the two values.
    #[verifier::external_body]
    pub(crate) fn mul(&self, other: &BigNum) -> (r: BigNum)
        ensures
            r@ == self@ * other@,
    {
        let x = BigInt::from_slice(if self.negative { Sign::Minus } else { Sign::Plus }, &self.magnitude);
        let y = BigInt::from_slice(if other.negative { Sign::Minus } else { Sign::Plus }, &other.magnitude);
        let (sign, magnitude) = (x * y).to_u32_digits();
        BigNum { negative: match sign { Sign::Minus => true, Sign::NoSign => false, Sign::Plus => false }, magnitude }
    }

    /// `&a / &b` on `BigInt`, which panics on a zero divisor (hence the
    /// `requires`); the contract claims the quotient rounded toward zero.
    #[verifier::external_body]
    pub(crate) fn div(&self, other: &BigNum) -> (r: BigNum)
        requires
            other@ != 0,
        ensures
            r@ == trunc_div(self@, other@),
    {
        let x = BigInt::from_slice(if self.negative { Sign::Minus } else { Sign::Plus }, &self.magnitude);
        let y = BigInt::from_slice(if other.negative { Sign::Minus } else { Sign::Plus }, &other.magnitude);
        let (sign, magnitude) = (x / y).to_u32_digits();
        BigNum { negative: match sign { Sign::Minus => true, Sign::NoSign => false, Sign::Plus => false }, magnitude }
    }

    /// `-a` on `BigInt`; the contract claims the negated value.
    #[verifier::external_body]
    pub(crate) fn neg(&self) -> (r: BigNum)
        ensures
            r@ == -self@,
    {
        let x = BigInt::from_slice(if self.negative { Sign::Minus } else { Sign::Plus }, &self.magnitude);
        let (sign, magnitude) = (-x).to_u32_digits();
        BigNum { negative: match sign { Sign::Minus => true, Sign::NoSign => false, Sign::Plus => false }, magnitude }
    }

    /// `Zero::is_zero` (`num_traits`) on `BigInt`; the contract claims it
    /// holds exactly for the value 0.
    #[verifier::external_body]
    pub(crate) fn is_zero(&self) -> (r: bool)
        ensures
            r == (self@ == 0),
    {
        BigInt::from_slice(if self.negative { Sign::Minus } else { Sign::Plus }, &self.magnitude).is_zero()
    }

    /// `a == b` on `BigInt`; the contract claims equality of the values.
    #[verifier::external_body]
    pub(crate) fn eq_value(&self, other: &BigNum) -> (r: bool)
        ensures
            r == (self@ == other@),
    {
        let x = BigInt::from_slice(if self.negative { Sign::Minus } else { Sign::Plus }, &self.magnitude);
        let y = BigInt::from_slice(if other.negative { Sign::Minus } else { Sign::Plus }, &other.magnitude);
        x == y
    }

    /// `a < b` on `BigInt`; the contract claims the order of the values.
    #[verifier::external_body]
    pub(crate) fn lt_value(&self, other: &BigNum) -> (r: bool)
        ensures
            r == (self@ < other@),
    {
        let x = BigInt::from_slice(if self.negative { Sign::Minus } else { Sign::Plus }, &self.magnitude);
        let y = BigInt::from_slice(if other.negative { Sign::Minus } else { Sign::Plus }, &other.magnitude);
        x < y
    }

    /// `a <= b` on `BigInt`; the contract claims the order of the values.
    #[verifier::external_body]
    pub(crate) fn le_value(&self, other: &BigNum) -> (r: bool)
        ensures
            r == (self@ <= other@),
    {
        let x = BigInt::from_slice(if self.negative { Sign::Minus } else { Sign::Plus }, &self.magnitude);
        let y = BigInt::from_slice(if other.negative { Sign::Minus } else { Sign::Plus }, &other.magnitude);
        x <= y
    }

    /// `a > b` on `BigInt`; the contract claims the order of the values.
    #[verifier::external_body]
    pub(crate) fn gt_value(&self, other: &BigNum) -> (r: bool)
        ensures
            r == (self@ > other@),
    {
        let x = BigInt::from_slice(if self.negative { Sign::Minus } else { Sign::Plus }, &self.magnitude);
        let y = BigInt::from_slice(if other.negative { Sign::Minus } else { Sign::Plus }, &other.magnitude);
        x > y
    }

    /// `a >= b` on `BigInt`; the contract claims the order of the values.
    #[verifier::external_body]
    pub(crate) fn ge_value(&self, other: &BigNum) -> (r: bool)
        ensures
            r == (self@ >= other@),
    {
        let x = BigInt::from_slice(if self.negative { Sign::Minus } else { Sign::Plus }, &self.magnitude);
        let y = BigInt::from_slice(if other.negative { Sign::Minus } else { Sign::Plus }, &other.magnitude);
        x >= y
    }

    /// The decimal spelling (`BigInt`'s `to_string`); the contract claims the
    /// digits of the magnitude without leading zeros, after `-` when negative.
    #[verifier::external_body]
    pub(crate) fn to_decimal(&self) -> (r: String)
        ensures
            r@ == decimal_spelling(self@),
    {
        BigInt::from_slice(if self.negative { Sign::Minus } else { Sign::Plus }, &self.magnitude).to_string()
    }
}

/// The decimal spelling of an integer: digits, preceded by `-` when negative.
pub open spec fn decimal_spelling(v: int) -> Seq<char> {
    if v < 0 {
        seq!['-'].add(decimal_text((-v) as nat))
    } else {
        decimal_text(v as nat)
    }
}

} // verus!
