//! Arbitrary-precision naturals, held as base 2^32 digits.
//!
//! The digits are plain data, so contracts can speak of the number they
//! denote. The arithmetic itself is done by `num_bigint`; each call into it
//! sits behind a small function whose contract is taken on trust.

use num_bigint::BigUint;
use num_traits::ToPrimitive;
use vstd::prelude::*;

verus! {

/// The radix of the digits of a [`BigNat`].
pub open spec fn radix() -> nat {
    0x1_0000_0000
}

/// The natural number that `digits` denote, least significant digit first.
pub open spec fn digits_value(digits: Seq<u32>) -> nat
    decreases digits.len(),
{
    if digits.len() == 0 {
        0
    } else {
        digits[0] as nat + radix() * digits_value(digits.drop_first())
    }
}

/// An arbitrary-precision natural number.
///
/// `digits` are in base 2^32, least significant first. High zero digits are
/// allowed and do not change the number.
#[derive(Debug)]
pub struct BigNat {
    pub digits: Vec<u32>,
}

impl View for BigNat {
    type V = nat;

    open spec fn view(&self) -> nat {
        digits_value(self.digits@)
    }
}

/// The numbers held by a table of naturals, in order.
pub open spec fn table_values(table: Seq<BigNat>) -> Seq<nat> {
    Seq::new(table.len(), |i: int| table[i]@)
}

/// Whether `c` is one of the ten decimal digits.
pub open spec fn is_digit(c: char) -> bool {
    0x30 <= c as u32 <= 0x39
}

/// What is left of `text` for the digits: a single leading `+` is dropped,
/// unless another `+` follows it.
pub open spec fn unsigned(text: Seq<char>) -> Seq<char> {
    if text.len() > 0 && text[0] == '+' && !(text.len() > 1 && text[1] == '+') {
        text.drop_first()
    } else {
        text
    }
}

/// Whether `text` is a decimal numeral: an optional `+`, then at least one
/// digit, with `_` allowed between and after the digits.
pub open spec fn is_decimal(text: Seq<char>) -> bool {
    let body = unsigned(text);
    &&& body.len() > 0
    &&& body[0] != '_'
    &&& forall|i: int| 0 <= i < body.len() ==> is_digit(#[trigger] body[i]) || body[i] == '_'
}

/// The number that the digits of `body` spell, most significant first; `_`
/// counts for nothing.
pub open spec fn decimal_value(body: Seq<char>) -> nat
    decreases body.len(),
{
    if body.len() == 0 {
        0
    } else if body.last() == '_' {
        decimal_value(body.drop_last())
    } else {
        10 * decimal_value(body.drop_last()) + (body.last() as u32 - 0x30) as nat
    }
}

/// The number that `text` spells, where it is a decimal numeral.
pub open spec fn parsed_number(text: Seq<char>) -> Option<nat> {
    if is_decimal(text) {
        Some(decimal_value(unsigned(text)))
    } else {
        None
    }
}

/// Builds both operands with `BigUint::from_slice` and compares them with
/// `<` (`PartialOrd for BigUint`). Trusted: `from_slice` reads base 2^32
/// digits, least significant first, and the order of `BigUint` is the order
/// of the numbers.
#[verifier::external_body]
fn digits_lt(a: &Vec<u32>, b: &Vec<u32>) -> (r: bool)
    ensures
        r == (digits_value(a@) < digits_value(b@)),
{
    BigUint::from_slice(a) < BigUint::from_slice(b)
}

/// Subtracts with `-` (`Sub for BigUint`) and hands back the difference's
/// digits, as `BigUint::to_u32_digits` gives them. Trusted: the difference is
/// the difference of the numbers. `BigUint` panics when the subtrahend is
/// the larger, so that is ruled out.
#[verifier::external_body]
fn digits_sub(a: &Vec<u32>, b: &Vec<u32>) -> (r: Vec<u32>)
    requires
        digits_value(b@) <= digits_value(a@),
    ensures
        digits_value(r@) == digits_value(a@) - digits_value(b@),
{
    (BigUint::from_slice(a) - BigUint::from_slice(b)).to_u32_digits()
}

/// Takes the remainder with `%` (`Rem for BigUint`). Trusted: the result is
/// the remainder of the numbers. `BigUint` panics on a zero divisor, so that
/// is ruled out.
#[verifier::external_body]
fn digits_rem(a: &Vec<u32>, b: &Vec<u32>) -> (r: Vec<u32>)
    requires
        digits_value(b@) > 0,
    ensures
        digits_value(r@) == digits_value(a@) % digits_value(b@),
{
    (BigUint::from_slice(a) % BigUint::from_slice(b)).to_u32_digits()
}

/// Converts with `BigUint::from` (`From<usize> for BigUint`). Trusted: the
/// digits handed back denote `n`.
#[verifier::external_body]
fn digits_from_usize(n: usize) -> (r: Vec<u32>)
    ensures
        digits_value(r@) == n,
{
    BigUint::from(n).to_u32_digits()
}

/// Converts with `ToPrimitive::to_usize` as `BigUint` implements it.
/// Trusted: the result is the number itself where a `usize` can hold it, and
/// `None` where it cannot.
#[verifier::external_body]
fn digits_to_usize(a: &Vec<u32>) -> (r: Option<usize>)
    ensures
        digits_value(a@) <= usize::MAX ==> r == Some(digits_value(a@) as usize),
        digits_value(a@) > usize::MAX ==> r is None,
{
    BigUint::from_slice(a).to_usize()
}

/// Parses with `str::parse::<BigUint>`, which is `BigUint::from_str` and
/// reads radix 10. Trusted: it accepts exactly the decimal numerals (one
/// leading `+` allowed, a digit first, `_` skipped, nothing else) and gives
/// the number that the digits spell.
#[verifier::external_body]
fn digits_from_decimal(text: &str) -> (r: Option<Vec<u32>>)
    ensures
        match r {
            Some(digits) => parsed_number(text@) == Some(digits_value(digits@)),
            None => parsed_number(text@) is None,
        },
{
    match text.parse::<BigUint>() {
        Ok(n) => Some(n.to_u32_digits()),
        Err(_) => None,
    }
}

impl BigNat {
    /// The number that `text` spells in decimal, or `None` where `text` is
    /// no decimal numeral.
    pub fn from_decimal(text: &str) -> (r: Option<BigNat>)
        ensures
            match r {
                Some(n) => parsed_number(text@) == Some(n@),
                None => parsed_number(text@) is None,
            },
    {
        match digits_from_decimal(text) {
            Some(digits) => Some(BigNat { digits }),
            None => None,
        }
    }

    /// The number that `digits` denote in base 2^32, least significant first.
    pub fn from_digits(digits: Vec<u32>) -> (r: BigNat)
        ensures
            r.digits@ == digits@,
            r@ == digits_value(digits@),
    {
        BigNat { digits }
    }

    /// The number `n`.
    pub fn from_usize(n: usize) -> (r: BigNat)
        ensures
            r@ == n,
    {
        BigNat { digits: digits_from_usize(n) }
    }

    /// The number as a `usize`, or `None` where it is too large for one.
    pub fn to_usize(&self) -> (r: Option<usize>)
        ensures
            self@ <= usize::MAX ==> r == Some(self@ as usize),
            self@ > usize::MAX ==> r is None,
    {
        digits_to_usize(&self.digits)
    }

    /// A copy that denotes the same number.
    pub fn duplicate(&self) -> (r: BigNat)
        ensures
            r@ == self@,
            r.digits@ == self.digits@,
    {
        BigNat { digits: self.digits.clone() }
    }

    /// Whether `self` is strictly less than `other`.
    pub fn lt(&self, other: &BigNat) -> (r: bool)
        ensures
            r == (self@ < other@),
    {
        digits_lt(&self.digits, &other.digits)
    }

    /// Whether `self` is at most `other`.
    pub fn le(&self, other: &BigNat) -> (r: bool)
        ensures
            r == (self@ <= other@),
    {
        !digits_lt(&other.digits, &self.digits)
    }

    /// The difference `self - other`, where `other` is not the larger.
    pub fn sub(&self, other: &BigNat) -> (r: BigNat)
        requires
            other@ <= self@,
        ensures
            r@ == self@ - other@,
    {
        BigNat { digits: digits_sub(&self.digits, &other.digits) }
    }

    /// The difference `self - other`, or `None` where `other` is the larger.
    pub fn checked_sub(&self, other: &BigNat) -> (r: Option<BigNat>)
        ensures
            other@ <= self@ ==> r is Some && r->0@ == self@ - other@,
            other@ > self@ ==> r is None,
    {
        if self.lt(other) {
            None
        } else {
            Some(self.sub(other))
        }
    }

    /// The remainder of `self` on division by `other`, which is not zero.
    pub fn rem(&self, other: &BigNat) -> (r: BigNat)
        requires
            other@ > 0,
        ensures
            r@ == self@ % other@,
    {
        BigNat { digits: digits_rem(&self.digits, &other.digits) }
    }

    /// Whether the number is zero.
    pub fn is_zero(&self) -> (r: bool)
        ensures
            r == (self@ == 0),
    {
        let zero = BigNat::from_usize(0);
        !zero.lt(self)
    }
}

impl Clone for BigNat {
    fn clone(&self) -> (r: BigNat)
        ensures
            r@ == self@,
    {
        self.duplicate()
    }
}

} // verus!
