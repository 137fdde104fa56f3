//! Floating-point numbers as the text std prints for them.

use vstd::prelude::*;

verus! {

/// A 64-bit binary floating-point number, held as the decimal text that
/// prints it (`0.5`, `-3`, `inf`, `NaN`).
#[derive(Debug, Clone, PartialEq, Eq)]
pub struct Real {
    pub text: String,
}

/// The bit pattern that std reads out of a decimal text.
pub uninterp spec fn float_bits(text: Seq<char>) -> u64;

/// The text that std prints for the float nearest to an integer.
pub uninterp spec fn float_of_int(i: int) -> Seq<char>;

/// The text that std prints for the float with these bits.
pub uninterp spec fn float_text(bits: u64) -> Seq<char>;

/// Calls std's `str::parse` for a 64-bit float and hands over the bits of the
/// result; a text that is no number gives zero. The result is a function of
/// the text alone. The parsed number passes through `toml::Value::Float`,
/// which holds it unchanged.
#[verifier::external_body]
fn parse_bits(text: &str) -> (r: u64)
    ensures
        r == float_bits(text@),
{
    toml::Value::Float(text.parse().unwrap_or_default()).as_float().map_or(0, |x| x.to_bits())
}

/// Calls `serde_json::Number::from_i128` and `as_f64`, which converts an
/// integer of at most 64 bits to the nearest float, and prints that float
/// with std's `to_string`. The result is a function of the integer alone.
#[verifier::external_body]
fn print_int(i: i128) -> (r: String)
    requires
        i64::MIN <= i <= u64::MAX,
    ensures
        r@ == float_of_int(i as int),
{
    serde_json::Number::from_i128(i).and_then(|n| n.as_f64()).unwrap_or_default().to_string()
}

/// The bits below the sign.
pub open spec fn magnitude(bits: u64) -> int {
    bits as int % 0x8000_0000_0000_0000
}

/// The number's place on the number line: magnitudes grow with the bit
/// pattern, the sign bit turns them round, and both zeros share a place.
pub open spec fn place(bits: u64) -> int {
    if bits < 0x8000_0000_0000_0000 {
        magnitude(bits)
    } else {
        -magnitude(bits)
    }
}

/// Neither infinite nor NaN.
pub open spec fn finite(bits: u64) -> bool {
    magnitude(bits) < 0x7ff0_0000_0000_0000
}

/// Not a number.
pub open spec fn not_a_number(bits: u64) -> bool {
    magnitude(bits) > 0x7ff0_0000_0000_0000
}

/// `a < b` among floats; false where either is NaN.
pub open spec fn float_lt(a: u64, b: u64) -> bool {
    !not_a_number(a) && !not_a_number(b) && place(a) < place(b)
}

/// `a == b` among floats; false where either is NaN.
pub open spec fn float_eq(a: u64, b: u64) -> bool {
    !not_a_number(a) && !not_a_number(b) && place(a) == place(b)
}

fn place_of(bits: u64) -> (r: i64)
    ensures
        r == place(bits),
{
    if bits < 0x8000_0000_0000_0000 {
        bits as i64
    } else {
        -((bits - 0x8000_0000_0000_0000) as i64)
    }
}

fn magnitude_of(bits: u64) -> (r: u64)
    ensures
        r == magnitude(bits),
{
    if bits < 0x8000_0000_0000_0000 {
        bits
    } else {
        bits - 0x8000_0000_0000_0000
    }
}

impl Real {
    /// The bit pattern of the number.
    pub open spec fn bits(&self) -> u64 {
        float_bits(self.text@)
    }

    /// The float nearest to an integer.
    pub fn from_int(i: i128) -> (r: Real)
        requires
            i64::MIN <= i <= u64::MAX,
        ensures
            r.text@ == float_of_int(i as int),
    {
        Real { text: print_int(i) }
    }

    /// Whether this number is less than the other.
    pub fn less(&self, other: &Real) -> (r: bool)
        ensures
            r == float_lt(self.bits(), other.bits()),
    {
        let a = parse_bits(self.text.as_str());
        let b = parse_bits(other.text.as_str());
        magnitude_of(a) <= 0x7ff0_0000_0000_0000 && magnitude_of(b) <= 0x7ff0_0000_0000_0000
            && place_of(a) < place_of(b)
    }

    /// Whether the two are the same number.
    pub fn equals(&self, other: &Real) -> (r: bool)
        ensures
            r == float_eq(self.bits(), other.bits()),
    {
        let a = parse_bits(self.text.as_str());
        let b = parse_bits(other.text.as_str());
        magnitude_of(a) <= 0x7ff0_0000_0000_0000 && magnitude_of(b) <= 0x7ff0_0000_0000_0000
            && place_of(a) == place_of(b)
    }

    /// Whether the number is greater than zero and finite.
    pub fn positive_finite(&self) -> (r: bool)
        ensures
            r == (place(self.bits()) > 0 && finite(self.bits())),
    {
        let a = parse_bits(self.text.as_str());
        place_of(a) > 0 && magnitude_of(a) < 0x7ff0_0000_0000_0000
    }

    /// Whether the number is neither infinite nor NaN.
    pub fn is_finite(&self) -> (r: bool)
        ensures
            r == finite(self.bits()),
    {
        magnitude_of(parse_bits(self.text.as_str())) < 0x7ff0_0000_0000_0000
    }

    /// The same number once more.
    pub fn copy(&self) -> (r: Real)
        ensures
            r == *self,
    {
        Real { text: self.text.clone() }
    }
}

} // verus!
