//! Integers of unbounded size.
//!
//! An [`Int`] keeps its sign and its base-2^32 limbs as plain data, so that
//! contracts can speak of its mathematical value. The arithmetic itself is
//! done by `num`'s `BigInt`; the functions that call it are marked as trusted
//! below and state what they rely on.

use num::bigint::{BigInt, Sign};
use vstd::prelude::*;

verus! {

/// An integer of any size: a sign and a magnitude in base 2^32, least
/// significant limb first.
#[derive(Debug, PartialEq, Eq)]
pub struct Int {
    negative: bool,
    magnitude: Vec<u32>,
}

/// The number that a sequence of base-2^32 limbs denotes, least significant first.
pub open spec fn limbs_value(limbs: Seq<u32>) -> nat
    decreases limbs.len(),
{
    if limbs.len() == 0 {
        0
    } else {
        limbs[0] as nat + 0x1_0000_0000 * limbs_value(limbs.drop_first())
    }
}

/// Whether `c` is one of the ten ASCII decimal digits.
pub open spec fn is_decimal_digit(c: char) -> bool {
    '0' <= c <= '9'
}

/// Whether `text` is a non-empty run of decimal digits.
pub open spec fn is_decimal(text: Seq<char>) -> bool {
    &&& text.len() > 0
    &&& forall|i: int| 0 <= i < text.len() ==> is_decimal_digit(#[trigger] text[i])
}

/// The number that a run of decimal digits denotes, most significant first.
pub open spec fn decimal_value(text: Seq<char>) -> nat
    decreases text.len(),
{
    if text.len() == 0 {
        0
    } else {
        (10 * decimal_value(text.drop_last()) + (text.last() as int - '0' as int)) as nat
    }
}

/// The character that shows the digit `d`.
pub open spec fn digit_char(d: nat) -> char {
    (('0' as nat) + d) as char
}

/// The decimal digits of `n`, most significant first, without leading zeros.
pub open spec fn decimal_digits(n: nat) -> Seq<char>
    decreases n,
{
    if n < 10 {
        seq![digit_char(n)]
    } else {
        decimal_digits(n / 10).push(digit_char(n % 10))
    }
}

/// The decimal text of `n`: its digits, after a minus sign where `n` is negative.
pub open spec fn decimal_text(n: int) -> Seq<char> {
    if n < 0 {
        seq!['-'] + decimal_digits((-n) as nat)
    } else {
        decimal_digits(n as nat)
    }
}

/// The digits of a number are a non-empty run of decimal digits.
pub proof fn lemma_decimal_digits_are_decimal(n: nat)
    ensures
        is_decimal(decimal_digits(n)),
    decreases n,
{
    if n >= 10 {
        lemma_decimal_digits_are_decimal(n / 10);
    }
}

/// Reading the digits of a number gives the number back.
pub proof fn lemma_decimal_round_trip(n: nat)
    ensures
        decimal_value(decimal_digits(n)) == n,
    decreases n,
{
    if n < 10 {
        let text = decimal_digits(n);
        assert(decimal_value(text.drop_last()) == 0);
    } else {
        lemma_decimal_round_trip(n / 10);
        let text = decimal_digits(n);
        assert(text.drop_last() =~= decimal_digits(n / 10));
    }
}

impl View for Int {
    type V = int;

    closed spec fn view(&self) -> int {
        if self.negative {
            -(limbs_value(self.magnitude@) as int)
        } else {
            limbs_value(self.magnitude@) as int
        }
    }
}

impl Clone for Int {
    fn clone(&self) -> (r: Self)
        ensures
            r@ == self@,
    {
        let magnitude = self.magnitude.clone();
        Int { negative: self.negative, magnitude }
    }
}

impl Int {
    /// The integer `value`.
    pub fn from_i64(value: i64) -> (r: Int)
        ensures
            r@ == value,
    {
        let negative = value < 0;
        let size: u64 = if negative {
            (-(value + 1)) as u64 + 1
        } else {
            value as u64
        };
        let low: u32 = (size & 0xffff_ffff) as u32;
        let high: u32 = (size >> 32) as u32;
        assert(size == low + 0x1_0000_0000 * high) by (bit_vector)
            requires
                low == (size & 0xffff_ffff) as u32,
                high == (size >> 32) as u32,
        ;
        let mut magnitude: Vec<u32> = Vec::new();
        if size != 0 {
            magnitude.push(low);
            if high != 0 {
                magnitude.push(high);
            }
        }
        proof {
            let limbs = magnitude@;
            if limbs.len() == 2 {
                assert(limbs_value(limbs.drop_first()) == high) by {
                    assert(limbs_value(limbs.drop_first().drop_first()) == 0);
                }
            } else if limbs.len() == 1 {
                assert(limbs.drop_first().len() == 0);
            }
        }
        Int { negative, magnitude }
    }

    /// The integer that `digits` denotes, where it is a non-empty run of
    /// decimal digits.
    pub fn from_decimal(digits: &str) -> (r: Option<Int>)
        ensures
            match r {
                Some(n) => is_decimal(digits@) && n@ == decimal_value(digits@),
                None => !is_decimal(digits@),
            },
    {
        let chars = crate::text::characters(digits);
        if chars.len() == 0 {
            return None;
        }
        let mut i: usize = 0;
        while i < chars.len()
            invariant
                i <= chars.len(),
                chars@ == digits@,
                forall|k: int| 0 <= k < i ==> is_decimal_digit(#[trigger] chars[k]),
            decreases chars.len() - i,
        {
            if !('0' <= chars[i] && chars[i] <= '9') {
                return None;
            }
            i = i + 1;
        }
        Some(parse(digits))
    }

    /// The decimal text of the integer: its digits without leading zeros,
    /// after a minus sign where it is negative.
    pub fn to_decimal(&self) -> (r: String)
        ensures
            r@ == decimal_text(self@),
    {
        display(self)
    }

    /// The sum of `self` and `other`.
    pub fn plus(&self, other: &Int) -> (r: Int)
        ensures
            r@ == self@ + other@,
    {
        sum(self, other)
    }

    /// The difference of `self` and `other`.
    pub fn minus(&self, other: &Int) -> (r: Int)
        ensures
            r@ == self@ - other@,
    {
        difference(self, other)
    }

    /// The product of `self` and `other`.
    pub fn times(&self, other: &Int) -> (r: Int)
        ensures
            r@ == self@ * other@,
    {
        product(self, other)
    }
}

/// Trusted: `BigInt`'s `FromStr`, which reads a non-empty run of decimal
/// digits as the number that it denotes in base ten, and
/// `BigInt::to_u32_digits`, which gives the sign of a number and its limbs in
/// base 2^32, least significant first.
#[verifier::external_body]
pub(crate) fn parse(digits: &str) -> (r: Int)
    requires
        is_decimal(digits@),
    ensures
        r@ == decimal_value(digits@),
{
    let (sign, magnitude) = digits.parse::<BigInt>().unwrap().to_u32_digits();
    Int { negative: sign == Sign::Minus, magnitude }
}

/// Trusted: `BigInt::from_slice`, which builds the number with the given sign
/// and limbs in base 2^32, least significant first, and `BigInt`'s `Display`,
/// which writes a number in base ten without leading zeros, after `-` where
/// it is negative.
#[verifier::external_body]
fn display(n: &Int) -> (r: String)
    ensures
        r@ == decimal_text(n@),
{
    let sign = if n.negative { Sign::Minus } else { Sign::Plus };
    BigInt::from_slice(sign, &n.magnitude).to_string()
}

/// Trusted: `BigInt`'s `Add`, the sum of two numbers, on numbers built by
/// `BigInt::from_slice` and read back by `BigInt::to_u32_digits`.
#[verifier::external_body]
fn sum(a: &Int, b: &Int) -> (r: Int)
    ensures
        r@ == a@ + b@,
{
    let x = BigInt::from_slice(if a.negative { Sign::Minus } else { Sign::Plus }, &a.magnitude);
    let y = BigInt::from_slice(if b.negative { Sign::Minus } else { Sign::Plus }, &b.magnitude);
    let (sign, magnitude) = (x + y).to_u32_digits();
    Int { negative: sign == Sign::Minus, magnitude }
}

/// Trusted: `BigInt`'s `Sub`, the difference of two numbers, on numbers built
/// by `BigInt::from_slice` and read back by `BigInt::to_u32_digits`.
#[verifier::external_body]
fn difference(a: &Int, b: &Int) -> (r: Int)
    ensures
        r@ == a@ - b@,
{
    let x = BigInt::from_slice(if a.negative { Sign::Minus } else { Sign::Plus }, &a.magnitude);
    let y = BigInt::from_slice(if b.negative { Sign::Minus } else { Sign::Plus }, &b.magnitude);
    let (sign, magnitude) = (x - y).to_u32_digits();
    Int { negative: sign == Sign::Minus, magnitude }
}

/// Trusted: `BigInt`'s `Mul`, the product of two numbers, on numbers built by
/// `BigInt::from_slice` and read back by `BigInt::to_u32_digits`.
#[verifier::external_body]
fn product(a: &Int, b: &Int) -> (r: Int)
    ensures
        r@ == a@ * b@,
{
    let x = BigInt::from_slice(if a.negative { Sign::Minus } else { Sign::Plus }, &a.magnitude);
    let y = BigInt::from_slice(if b.negative { Sign::Minus } else { Sign::Plus }, &b.magnitude);
    let (sign, magnitude) = (x * y).to_u32_digits();
    Int { negative: sign == Sign::Minus, magnitude }
}

} // verus!
