//! Unsigned 256-bit integers. The arithmetic is that of `alloy::primitives`;
//! each operation is stated on the number that the four words stand for.
use vstd::prelude::*;

use crate::text::{decimal, digit_char, digit_value, is_digit};

verus! {

/// Two to the power of 256.
pub open spec fn u256_limit() -> nat {
    0x1_0000000000000000_0000000000000000_0000000000000000_0000000000000000nat
}

/// An unsigned 256-bit integer as four 64-bit words, the least significant first.
#[derive(Clone, Copy, Debug, PartialEq, Eq, Structural)]
pub struct U256 {
    pub w0: u64,
    pub w1: u64,
    pub w2: u64,
    pub w3: u64,
}

impl View for U256 {
    type V = nat;

    open spec fn view(&self) -> nat {
        (self.w0 + self.w1 * 0x1_0000000000000000int + self.w2
            * 0x1_0000000000000000_0000000000000000int + self.w3
            * 0x1_0000000000000000_0000000000000000_0000000000000000int) as nat
    }
}

/// A number has one representation, and fits in 256 bits.
pub proof fn lemma_u256_view(a: U256, b: U256)
    ensures
        a@ < u256_limit(),
        a@ == b@ <==> a == b,
        a@ <= b@ <==> (a.w3 < b.w3 || (a.w3 == b.w3 && (a.w2 < b.w2 || (a.w2 == b.w2 && (a.w1
            < b.w1 || (a.w1 == b.w1 && a.w0 <= b.w0)))))),
{
}

/// The value of decimal digits, in which underscores are passed over; `None`
/// where another character stands among them.
pub open spec fn decimal_value(s: Seq<char>) -> Option<nat>
    decreases s.len(),
{
    if s.len() == 0 {
        Some(0nat)
    } else {
        match decimal_value(s.drop_last()) {
            None => None,
            Some(value) => if s.last() == '_' {
                Some(value)
            } else if is_digit(s.last()) {
                Some(10 * value + digit_value(s.last()))
            } else {
                None
            },
        }
    }
}

/// The 256-bit integer that a decimal text stands for, if it stands for one.
pub open spec fn parsed_u256(s: Seq<char>) -> Option<nat> {
    match decimal_value(s) {
        Some(value) => if value < u256_limit() {
            Some(value)
        } else {
            None
        },
        None => None,
    }
}

/// What `Uint::from_str_radix` of `ruint` says of a decimal text that it refuses.
pub uninterp spec fn u256_error_text(s: Seq<char>) -> Seq<char>;

/// `Uint::from_str_radix` of `ruint`, on radix 10: digits give their value,
/// underscores are ignored, and an empty text is zero. Another character, or a
/// value of more than 256 bits, is an error, whose text is named.
#[verifier::external_body]
pub(crate) fn parse_decimal(text: &str) -> (parsed: Result<U256, String>)
    ensures
        match parsed {
            Ok(value) => parsed_u256(text@) == Some(value@),
            Err(error) => parsed_u256(text@) is None && error@ == u256_error_text(text@),
        },
{
    let value = alloy::primitives::U256::from_str_radix(text, 10).map_err(|error| error.to_string())?;
    let [w0, w1, w2, w3] = value.into_limbs();
    Ok(U256 { w0, w1, w2, w3 })
}

/// The `Display` of `ruint::Uint`: the number in decimal.
#[verifier::external_body]
fn display(a: U256) -> (text: String)
    ensures
        text@ == decimal(a@),
{
    alloy::primitives::U256::from_limbs([a.w0, a.w1, a.w2, a.w3]).to_string()
}

/// The operator `+` of `ruint::Uint`, which wraps around.
#[verifier::external_body]
fn add_words(a: U256, b: U256) -> (sum: U256)
    ensures
        sum@ == (a@ + b@) % u256_limit(),
{
    let a = alloy::primitives::U256::from_limbs([a.w0, a.w1, a.w2, a.w3]);
    let b = alloy::primitives::U256::from_limbs([b.w0, b.w1, b.w2, b.w3]);
    let [w0, w1, w2, w3] = (a + b).into_limbs();
    U256 { w0, w1, w2, w3 }
}

/// The operator `-` of `ruint::Uint`, where nothing has to wrap around.
#[verifier::external_body]
fn sub_words(a: U256, b: U256) -> (difference: U256)
    requires
        b@ <= a@,
    ensures
        difference@ == a@ - b@,
{
    let a = alloy::primitives::U256::from_limbs([a.w0, a.w1, a.w2, a.w3]);
    let b = alloy::primitives::U256::from_limbs([b.w0, b.w1, b.w2, b.w3]);
    let [w0, w1, w2, w3] = (a - b).into_limbs();
    U256 { w0, w1, w2, w3 }
}

/// The operator `*` of `ruint::Uint`, which wraps around.
#[verifier::external_body]
fn mul_words(a: U256, b: U256) -> (product: U256)
    ensures
        product@ == (a@ * b@) % u256_limit(),
{
    let a = alloy::primitives::U256::from_limbs([a.w0, a.w1, a.w2, a.w3]);
    let b = alloy::primitives::U256::from_limbs([b.w0, b.w1, b.w2, b.w3]);
    let [w0, w1, w2, w3] = (a * b).into_limbs();
    U256 { w0, w1, w2, w3 }
}

/// `Uint::saturating_mul` of `ruint`: the product, or the largest number where
/// the product does not fit.
#[verifier::external_body]
fn saturating_mul_words(a: U256, b: U256) -> (product: U256)
    ensures
        product@ == saturated(a@ * b@),
{
    let a = alloy::primitives::U256::from_limbs([a.w0, a.w1, a.w2, a.w3]);
    let b = alloy::primitives::U256::from_limbs([b.w0, b.w1, b.w2, b.w3]);
    let [w0, w1, w2, w3] = a.saturating_mul(b).into_limbs();
    U256 { w0, w1, w2, w3 }
}

/// `Uint::div_rem` of `ruint`: the quotient, rounded down, and the remainder. It
/// panics where the divisor is zero.
#[verifier::external_body]
fn div_rem_words(a: U256, b: U256) -> (result: (U256, U256))
    requires
        b@ != 0,
    ensures
        result.0@ == a@ / b@,
        result.1@ == a@ % b@,
{
    let a = alloy::primitives::U256::from_limbs([a.w0, a.w1, a.w2, a.w3]);
    let b = alloy::primitives::U256::from_limbs([b.w0, b.w1, b.w2, b.w3]);
    let (quotient, remainder) = a.div_rem(b);
    let [q0, q1, q2, q3] = quotient.into_limbs();
    let [r0, r1, r2, r3] = remainder.into_limbs();
    (U256 { w0: q0, w1: q1, w2: q2, w3: q3 }, U256 { w0: r0, w1: r1, w2: r2, w3: r3 })
}

/// `n`, or the largest 256-bit integer where `n` does not fit.
pub open spec fn saturated(n: nat) -> nat {
    if n < u256_limit() {
        n
    } else {
        (u256_limit() - 1) as nat
    }
}

/// The smaller of two numbers.
pub open spec fn smaller(a: nat, b: nat) -> nat {
    if a <= b {
        a
    } else {
        b
    }
}

/// The larger of two numbers.
pub open spec fn larger(a: nat, b: nat) -> nat {
    if a >= b {
        a
    } else {
        b
    }
}

/// The distance between two numbers.
pub open spec fn distance(a: nat, b: nat) -> nat {
    if a >= b {
        (a - b) as nat
    } else {
        (b - a) as nat
    }
}

/// The distance of two numbers leads from the smaller to the larger, either way round,
/// and the smaller and the larger are the two numbers.
pub proof fn law_distance_leads_to_the_larger(a: nat, b: nat)
    ensures
        smaller(a, b) + distance(a, b) == larger(a, b),
        distance(a, b) == distance(b, a),
        distance(a, b) == 0 <==> a == b,
        smaller(a, b) <= a <= larger(a, b),
        smaller(a, b) <= b <= larger(a, b),
        smaller(a, b) + larger(a, b) == a + b,
{
}

impl From<u64> for U256 {
    fn from(n: u64) -> (value: U256) {
        U256 { w0: n, w1: 0, w2: 0, w3: 0 }
    }
}

impl vstd::std_specs::convert::FromSpecImpl<u64> for U256 {
    open spec fn obeys_from_spec() -> bool {
        true
    }

    open spec fn from_spec(n: u64) -> U256 {
        U256 { w0: n, w1: 0, w2: 0, w3: 0 }
    }
}

impl U256 {
    /// Zero.
    pub fn zero() -> (value: U256)
        ensures
            value@ == 0,
    {
        U256 { w0: 0, w1: 0, w2: 0, w3: 0 }
    }

    /// The largest 256-bit integer.
    pub fn max_value() -> (value: U256)
        ensures
            value@ == u256_limit() - 1,
    {
        U256 { w0: u64::MAX, w1: u64::MAX, w2: u64::MAX, w3: u64::MAX }
    }

    /// Whether the number is zero.
    pub fn is_zero(self) -> (zero: bool)
        ensures
            zero == (self@ == 0),
    {
        self.w0 == 0 && self.w1 == 0 && self.w2 == 0 && self.w3 == 0
    }

    /// Whether the number is at most `other`.
    pub fn at_most(self, other: U256) -> (holds: bool)
        ensures
            holds == (self@ <= other@),
    {
        proof {
            lemma_u256_view(self, other);
        }
        self.w3 < other.w3 || (self.w3 == other.w3 && (self.w2 < other.w2 || (self.w2 == other.w2
            && (self.w1 < other.w1 || (self.w1 == other.w1 && self.w0 <= other.w0)))))
    }

    /// The larger of two numbers.
    pub fn larger(self, other: U256) -> (result: U256)
        ensures
            result@ == larger(self@, other@),
    {
        if other.at_most(self) {
            self
        } else {
            other
        }
    }

    /// The smaller of two numbers.
    pub fn smaller(self, other: U256) -> (result: U256)
        ensures
            result@ == smaller(self@, other@),
    {
        if self.at_most(other) {
            self
        } else {
            other
        }
    }

    /// The sum modulo two to the power of 256.
    pub fn wrapping_sum(self, other: U256) -> (sum: U256)
        ensures
            sum@ == (self@ + other@) % u256_limit(),
    {
        add_words(self, other)
    }

    /// The difference of a number and one that is not larger.
    pub fn minus(self, other: U256) -> (difference: U256)
        requires
            other@ <= self@,
        ensures
            difference@ == self@ - other@,
    {
        sub_words(self, other)
    }

    /// The difference, or zero where `other` is larger.
    pub fn saturating_minus(self, other: U256) -> (difference: U256)
        ensures
            difference@ == if other@ <= self@ {
                (self@ - other@) as nat
            } else {
                0
            },
    {
        if other.at_most(self) {
            sub_words(self, other)
        } else {
            U256::zero()
        }
    }

    /// The product modulo two to the power of 256.
    pub fn wrapping_product(self, other: U256) -> (product: U256)
        ensures
            product@ == (self@ * other@) % u256_limit(),
    {
        mul_words(self, other)
    }

    /// The product, or the largest number where the product does not fit.
    pub fn saturating_product(self, other: U256) -> (product: U256)
        ensures
            product@ == saturated(self@ * other@),
    {
        saturating_mul_words(self, other)
    }

    /// The quotient, rounded down.
    pub fn quotient(self, divisor: U256) -> (quotient: U256)
        requires
            divisor@ != 0,
        ensures
            quotient@ == self@ / divisor@,
    {
        div_rem_words(self, divisor).0
    }

    /// The remainder of the division.
    pub fn remainder(self, divisor: U256) -> (remainder: U256)
        requires
            divisor@ != 0,
        ensures
            remainder@ == self@ % divisor@,
    {
        div_rem_words(self, divisor).1
    }

    /// The number, or the largest 64-bit integer where it does not fit.
    pub fn capped(self) -> (value: u64)
        ensures
            value == smaller(self@, u64::MAX as nat),
    {
        if self.w1 == 0 && self.w2 == 0 && self.w3 == 0 {
            self.w0
        } else {
            u64::MAX
        }
    }

    /// The number in decimal.
    pub fn to_decimal(self) -> (text: String)
        ensures
            text@ == decimal(self@),
    {
        display(self)
    }
}

/// A 256-bit integer printed in decimal reads back as the integer.
pub proof fn lemma_number_reads_back(n: U256)
    ensures
        parsed_u256(decimal(n@)) == Some(n@),
{
    lemma_u256_view(n, n);
    law_decimal_reads_back(n@);
}

/// A number printed in decimal reads back as the number.
pub proof fn law_decimal_reads_back(n: nat)
    ensures
        decimal_value(decimal(n)) == Some(n),
        n < u256_limit() ==> parsed_u256(decimal(n)) == Some(n),
        decimal(n).len() > 0,
        forall|i: int| 0 <= i < decimal(n).len() ==> is_digit(#[trigger] decimal(n)[i]),
        n > 0 ==> decimal(n)[0] != '0',
        n == 0 ==> decimal(n).len() == 1,
    decreases n,
{
    let empty = Seq::<char>::empty();
    if n < 10 {
        let text = seq![digit_char(n)];
        assert(text.drop_last() =~= empty);
        assert(decimal_value(empty) == Some(0nat));
    } else {
        law_decimal_reads_back(n / 10);
        let front = decimal(n / 10);
        assert(decimal(n).drop_last() =~= front);
        assert forall|i: int| 0 <= i < decimal(n).len() implies is_digit(
            #[trigger] decimal(n)[i],
        ) by {
            if i < front.len() {
                assert(decimal(n)[i] == front[i]);
            }
        }
    }
}

} // verus!
