//! Runtime numbers are IEEE-754 binary64 values, carried as their 64-bit
//! encodings. The arithmetic itself is done by the software float
//! implementation in `rustc_apfloat`; each operation is named by an
//! uninterpreted function of the operand encodings, which is sound because
//! every operation here is deterministic in its operands.
use core::str::FromStr;
use rustc_apfloat::Float;
use rustc_apfloat::ieee::Double;
use vstd::prelude::*;
use vstd::string::*;

verus! {

/// The encoding of the value a numeric lexeme denotes, or the reason it
/// denotes none.
pub uninterp spec fn parse_num(s: Seq<char>) -> Result<u64, Seq<char>>;

/// The encoding of the sum of the two encoded operands.
pub uninterp spec fn add_num(a: u64, b: u64) -> u64;

/// The encoding of the difference of the two encoded operands.
pub uninterp spec fn sub_num(a: u64, b: u64) -> u64;

/// The encoding of the product of the two encoded operands.
pub uninterp spec fn mul_num(a: u64, b: u64) -> u64;

/// The encoding of the quotient of the two encoded operands.
pub uninterp spec fn div_num(a: u64, b: u64) -> u64;

/// Whether the first encoded operand is less than the second.
pub uninterp spec fn lt_num(a: u64, b: u64) -> bool;

/// Whether the first encoded operand is at most the second.
pub uninterp spec fn le_num(a: u64, b: u64) -> bool;

/// Whether the first encoded operand is greater than the second.
pub uninterp spec fn gt_num(a: u64, b: u64) -> bool;

/// Whether the first encoded operand is at least the second.
pub uninterp spec fn ge_num(a: u64, b: u64) -> bool;

/// Whether the two encoded operands compare equal.
pub uninterp spec fn eq_num(a: u64, b: u64) -> bool;

/// The decimal rendering of an encoded value.
pub uninterp spec fn fmt_num(a: u64) -> Seq<char>;

/// Whether `c` is an ASCII decimal digit.
pub open spec fn is_digit_char(c: char) -> bool {
    48 <= (c as u32) <= 57
}

/// Whether every character of `s` is an ASCII decimal digit.
pub open spec fn all_digits(s: Seq<char>) -> bool {
    forall|i: int| 0 <= i < s.len() ==> is_digit_char(s[i])
}

/// The shape of a numeric lexeme: a nonempty digit run, optionally split by a
/// single dot with digits on both sides.
pub open spec fn is_number_lexeme(s: Seq<char>) -> bool {
    s.len() > 0 && (all_digits(s) || (exists|k: int|
        1 <= k < s.len() - 1 && s[k] == '.' && all_digits(s.take(k)) && all_digits(
            s.skip(k + 1),
        )))
}

/// Relies on `rustc_apfloat::ieee::Double`'s `FromStr`: correctly rounded
/// decimal-to-binary64 conversion, a function of the lexeme alone. Its parser
/// rejects only empty input, missing digits, repeated dots and characters
/// outside its grammar, so a well-shaped numeric lexeme always converts.
#[verifier::external_body]
pub fn parse_number_bits(s: &str) -> (r: Result<u64, String>)
    ensures
        match r {
            Result::Ok(v) => parse_num(s@) == Result::<u64, Seq<char>>::Ok(v),
            Result::Err(e) => parse_num(s@) == Result::<u64, Seq<char>>::Err(e@),
        },
        is_number_lexeme(s@) ==> r is Ok,
{
    match Double::from_str(s) {
        Ok(d) => Ok(d.to_bits() as u64),
        Err(e) => Err(e.0.to_string()),
    }
}

/// Relies on `rustc_apfloat::ieee::Double`'s `Add`: IEEE-754 binary64
/// addition, rounding to nearest even, a function of the operands alone.
#[verifier::external_body]
pub fn add_bits(a: u64, b: u64) -> (r: u64)
    ensures
        r == add_num(a, b),
{
    (Double::from_bits(a as u128) + Double::from_bits(b as u128)).value.to_bits() as u64
}

/// Relies on `rustc_apfloat::ieee::Double`'s `Sub`: IEEE-754 binary64
/// subtraction, rounding to nearest even, a function of the operands alone.
#[verifier::external_body]
pub fn sub_bits(a: u64, b: u64) -> (r: u64)
    ensures
        r == sub_num(a, b),
{
    (Double::from_bits(a as u128) - Double::from_bits(b as u128)).value.to_bits() as u64
}

/// Relies on `rustc_apfloat::ieee::Double`'s `Mul`: IEEE-754 binary64
/// multiplication, rounding to nearest even, a function of the operands alone.
#[verifier::external_body]
pub fn mul_bits(a: u64, b: u64) -> (r: u64)
    ensures
        r == mul_num(a, b),
{
    (Double::from_bits(a as u128) * Double::from_bits(b as u128)).value.to_bits() as u64
}

/// Relies on `rustc_apfloat::ieee::Double`'s `Div`: IEEE-754 binary64
/// division, rounding to nearest even, a function of the operands alone.
/// Division by zero yields an infinity or NaN encoding, never a failure.
#[verifier::external_body]
pub fn div_bits(a: u64, b: u64) -> (r: u64)
    ensures
        r == div_num(a, b),
{
    (Double::from_bits(a as u128) / Double::from_bits(b as u128)).value.to_bits() as u64
}

/// Relies on `rustc_apfloat::ieee::Double`'s `PartialOrd`: the IEEE-754
/// ordering predicate, false on NaN operands, a function of the operands
/// alone.
#[verifier::external_body]
pub fn lt_bits(a: u64, b: u64) -> (r: bool)
    ensures
        r == lt_num(a, b),
{
    Double::from_bits(a as u128) < Double::from_bits(b as u128)
}

/// Relies on `rustc_apfloat::ieee::Double`'s `PartialOrd`, as `lt_bits` does.
#[verifier::external_body]
pub fn le_bits(a: u64, b: u64) -> (r: bool)
    ensures
        r == le_num(a, b),
{
    Double::from_bits(a as u128) <= Double::from_bits(b as u128)
}

/// Relies on `rustc_apfloat::ieee::Double`'s `PartialOrd`, as `lt_bits` does.
#[verifier::external_body]
pub fn gt_bits(a: u64, b: u64) -> (r: bool)
    ensures
        r == gt_num(a, b),
{
    Double::from_bits(a as u128) > Double::from_bits(b as u128)
}

/// Relies on `rustc_apfloat::ieee::Double`'s `PartialOrd`, as `lt_bits` does.
#[verifier::external_body]
pub fn ge_bits(a: u64, b: u64) -> (r: bool)
    ensures
        r == ge_num(a, b),
{
    Double::from_bits(a as u128) >= Double::from_bits(b as u128)
}

/// Relies on `rustc_apfloat::ieee::Double`'s `PartialEq`: IEEE-754 equality,
/// under which NaN equals nothing and the two zeroes are equal, a function of
/// the operands alone.
#[verifier::external_body]
pub fn eq_bits(a: u64, b: u64) -> (r: bool)
    ensures
        r == eq_num(a, b),
{
    Double::from_bits(a as u128) == Double::from_bits(b as u128)
}

/// Relies on `rustc_apfloat::ieee::Double`'s `Display`: a decimal rendering
/// determined by the value alone.
#[verifier::external_body]
pub fn format_bits(a: u64) -> (r: String)
    ensures
        r@ == fmt_num(a),
{
    Double::from_bits(a as u128).to_string()
}

/// The encoding of the negated value: IEEE-754 negation flips the sign bit
/// and leaves the rest of the encoding unchanged.
pub open spec fn neg_num(a: u64) -> u64 {
    a ^ 0x8000_0000_0000_0000
}

pub fn negate_bits(a: u64) -> (r: u64)
    ensures
        r == neg_num(a),
{
    a ^ 0x8000_0000_0000_0000
}

} // verus!
