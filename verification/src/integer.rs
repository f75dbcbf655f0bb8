//! Arbitrary-precision integers: a machine integer while the value fits
//! in an `i64`, a big integer beyond.
//!
//! Big values are held as a sign and base-2^32 digits; their arithmetic
//! is done by the `num-bigint` crate.

use core::cmp::Ordering;
use num_bigint::{BigInt, Sign};
use num_traits::{Signed, ToPrimitive};
use vstd::prelude::*;
use vstd::arithmetic::div_mod::{lemma_div_is_ordered_by_denominator, lemma_div_pos_is_pos};
use crate::text::{decimal_text, push_decimal};

verus! {

// ---------------------------------------------------------------------------
// Big numbers
// ---------------------------------------------------------------------------

/// The value of base-2^32 digits, least significant first.
pub open spec fn digits_value(d: Seq<u32>) -> nat
    decreases d.len(),
{
    if d.len() == 0 {
        0
    } else {
        d[0] as nat + 0x1_0000_0000 * digits_value(d.drop_first())
    }
}

/// A big integer as plain values: a sign and base-2^32 digits, least
/// significant first. A negative zero is zero.
#[derive(Debug)]
pub struct BigNum {
    /// Whether the value is below zero.
    pub negative: bool,
    /// The digits of the magnitude, least significant first.
    pub magnitude: Vec<u32>,
}

impl BigNum {
    /// The value.
    pub open spec fn value(&self) -> int {
        if self.negative {
            -(digits_value(self.magnitude@) as int)
        } else {
            digits_value(self.magnitude@) as int
        }
    }

    /// The digits have no leading zero and zero is not negative.
    pub open spec fn normalized(&self) -> bool {
        &&& (self.magnitude@.len() > 0 ==> self.magnitude@.last() != 0)
        &&& (self.magnitude@.len() == 0 ==> !self.negative)
    }

    /// The big number for `v`.
    pub fn from_i64(v: i64) -> (r: Self)
        ensures
            r.value() == v,
            r.normalized(),
    {
        big_from_i64(v)
    }

    /// A copy.
    pub fn copy(&self) -> (r: Self)
        ensures
            r.value() == self.value(),
            r.negative == self.negative,
            r.magnitude@ == self.magnitude@,
    {
        let mut m: Vec<u32> = Vec::new();
        let mut i: usize = 0;
        while i < self.magnitude.len()
            invariant
                i <= self.magnitude@.len(),
                m@ == self.magnitude@.subrange(0, i as int),
            decreases self.magnitude@.len() - i,
        {
            m.push(self.magnitude[i]);
            i = i + 1;
            assert(m@ =~= self.magnitude@.subrange(0, i as int));
        }
        assert(m@ =~= self.magnitude@);
        BigNum { negative: self.negative, magnitude: m }
    }
}

/// The quotient of `x` by `d` rounded toward zero.
pub open spec fn tdiv(x: int, d: int) -> int {
    if x == 0 {
        0
    } else if x > 0 && d > 0 {
        x / d
    } else if x < 0 && d < 0 {
        (x * -1) / (d * -1)
    } else if x < 0 {
        ((x * -1) / d) * -1
    } else {
        (x / (d * -1)) * -1
    }
}

/// The remainder of `x` by `d` with the sign of `x`.
pub open spec fn trem(x: int, d: int) -> int {
    if x == 0 {
        0
    } else if x > 0 && d > 0 {
        x % d
    } else if x < 0 && d < 0 {
        -((-x) % (-d))
    } else if x < 0 {
        -((-x) % d)
    } else {
        x % (-d)
    }
}

/// `d` divides `x`.
pub open spec fn divides(d: int, x: int) -> bool {
    exists|k: int| x == #[trigger] (d * k)
}

/// A quotient rounded toward zero of 64-bit values fits in 64 bits, but
/// for the smallest value divided by -1.
proof fn lemma_tdiv_fits(x: int, d: int)
    requires
        fits_i64(x),
        fits_i64(d),
        d != 0,
        !(x == i64::MIN && d == -1),
    ensures
        fits_i64(tdiv(x, d)),
{
    if x > 0 && d > 0 {
        lemma_div_is_ordered_by_denominator(x, 1, d);
        lemma_div_pos_is_pos(x, d);
    } else if x < 0 && d < 0 {
        if x == i64::MIN {
            lemma_div_is_ordered_by_denominator(x * -1, 2, d * -1);
        } else {
            lemma_div_is_ordered_by_denominator(x * -1, 1, d * -1);
        }
        lemma_div_pos_is_pos(x * -1, d * -1);
    } else if x < 0 {
        lemma_div_is_ordered_by_denominator(x * -1, 1, d);
        lemma_div_pos_is_pos(x * -1, d);
    } else if x > 0 {
        lemma_div_is_ordered_by_denominator(x, 1, d * -1);
        lemma_div_pos_is_pos(x, d * -1);
    }
}

/// `x` lies in the range of `i64`.
pub open spec fn fits_i64(x: int) -> bool {
    i64::MIN <= x <= i64::MAX
}

/// The decimal numeral of `x`, with a minus sign when negative.
pub open spec fn signed_decimal(x: int) -> Seq<char> {
    if x < 0 {
        seq!['-'] + decimal_text((-x) as nat)
    } else {
        decimal_text(x as nat)
    }
}

/// The outcome of comparing two values.
#[derive(Debug, Clone, Copy, PartialEq, Eq, Structural)]
pub enum Cmp {
    /// The first is smaller.
    Less,
    /// They are equal.
    Equal,
    /// The first is larger.
    Greater,
}

/// `BigInt::from(i64)`, read back as sign and digits: the same value,
/// with normalized digits.
#[verifier::external_body]
fn big_from_i64(v: i64) -> (r: BigNum)
    ensures
        r.value() == v,
        r.normalized(),
{
    from_bigint_parts(BigInt::from(v))
}

/// `ToPrimitive::to_i64` on the big integer of `a`: its value when that
/// fits in an `i64`.
#[verifier::external_body]
fn big_to_i64(a: &BigNum) -> (r: Option<i64>)
    ensures
        r == (if fits_i64(a.value()) { Some(a.value() as i64) } else { None::<i64> }),
{
    to_bigint_value(a).to_i64()
}

/// `BigInt` addition: the sum.
#[verifier::external_body]
fn big_add(a: &BigNum, b: &BigNum) -> (r: BigNum)
    ensures
        r.value() == a.value() + b.value(),
        r.normalized(),
{
    from_bigint_parts(to_bigint_value(a) + to_bigint_value(b))
}

/// `BigInt` subtraction: the difference.
#[verifier::external_body]
fn big_sub(a: &BigNum, b: &BigNum) -> (r: BigNum)
    ensures
        r.value() == a.value() - b.value(),
        r.normalized(),
{
    from_bigint_parts(to_bigint_value(a) - to_bigint_value(b))
}

/// `BigInt` multiplication: the product.
#[verifier::external_body]
fn big_mul(a: &BigNum, b: &BigNum) -> (r: BigNum)
    ensures
        r.value() == a.value() * b.value(),
        r.normalized(),
{
    from_bigint_parts(to_bigint_value(a) * to_bigint_value(b))
}

/// `BigInt` division, which panics on a zero divisor: the quotient
/// rounded toward zero.
#[verifier::external_body]
fn big_div(a: &BigNum, b: &BigNum) -> (r: BigNum)
    requires
        b.value() != 0,
    ensures
        r.value() == tdiv(a.value(), b.value()),
        r.normalized(),
{
    from_bigint_parts(to_bigint_value(a) / to_bigint_value(b))
}

/// `BigInt` remainder, which panics on a zero divisor: the remainder
/// with the sign of the dividend.
#[verifier::external_body]
fn big_rem(a: &BigNum, b: &BigNum) -> (r: BigNum)
    requires
        b.value() != 0,
    ensures
        r.value() == trem(a.value(), b.value()),
        r.normalized(),
{
    from_bigint_parts(to_bigint_value(a) % to_bigint_value(b))
}

/// `BigInt` negation.
#[verifier::external_body]
fn big_neg(a: &BigNum) -> (r: BigNum)
    ensures
        r.value() == -a.value(),
        r.normalized(),
{
    from_bigint_parts(-to_bigint_value(a))
}

/// `Signed::abs` on `BigInt`: the absolute value.
#[verifier::external_body]
fn big_abs(a: &BigNum) -> (r: BigNum)
    ensures
        r.value() == (if a.value() < 0 { -a.value() } else { a.value() }),
        r.normalized(),
{
    from_bigint_parts(to_bigint_value(a).abs())
}

/// `num_integer::Integer::gcd` on `BigInt`: the greatest common divisor,
/// never negative; a divisor of both that every common divisor divides.
#[verifier::external_body]
fn big_gcd(a: &BigNum, b: &BigNum) -> (r: BigNum)
    ensures
        r.value() >= 0,
        divides(r.value(), a.value()),
        divides(r.value(), b.value()),
        forall|c: int| divides(c, a.value()) && divides(c, b.value()) ==> #[trigger] divides(c, r.value()),
        r.normalized(),
{
    from_bigint_parts(num_integer::Integer::gcd(&to_bigint_value(a), &to_bigint_value(b)))
}

/// `Ord::cmp` on `BigInt`: how the values compare.
#[verifier::external_body]
fn big_cmp(a: &BigNum, b: &BigNum) -> (r: Cmp)
    ensures
        r == (if a.value() < b.value() {
            Cmp::Less
        } else if a.value() == b.value() {
            Cmp::Equal
        } else {
            Cmp::Greater
        }),
{
    match to_bigint_value(a).cmp(&to_bigint_value(b)) {
        Ordering::Less => Cmp::Less,
        Ordering::Equal => Cmp::Equal,
        Ordering::Greater => Cmp::Greater,
    }
}

/// `PartialEq` on `BigInt`: whether the values are equal.
#[verifier::external_body]
fn big_eq(a: &BigNum, b: &BigNum) -> (r: bool)
    ensures
        r == (a.value() == b.value()),
{
    to_bigint_value(a) == to_bigint_value(b)
}

/// `Display` of `BigInt`: the decimal numeral, with a minus sign when
/// negative.
#[verifier::external_body]
fn big_to_string(a: &BigNum) -> (r: String)
    ensures
        r@ == signed_decimal(a.value()),
{
    to_bigint_value(a).to_string()
}

// ---------------------------------------------------------------------------
// Integers
// ---------------------------------------------------------------------------

/// Whether all digits are zero, that is, the magnitude is zero.
fn magnitude_is_zero(d: &Vec<u32>) -> (r: bool)
    ensures
        r == (digits_value(d@) == 0),
{
    let mut i: usize = 0;
    while i < d.len()
        invariant
            i <= d@.len(),
            forall|j: int| 0 <= j < i ==> d@[j] == 0,
        decreases d@.len() - i,
    {
        if d[i] != 0 {
            proof {
                lemma_digits_zero(d@);
            }
            return false;
        }
        i = i + 1;
    }
    proof {
        lemma_digits_zero(d@);
    }
    true
}

/// Digits are worth zero exactly when they are all zero.
proof fn lemma_digits_zero(d: Seq<u32>)
    ensures
        (digits_value(d) == 0) == (forall|j: int| 0 <= j < d.len() ==> d[j] == 0),
    decreases d.len(),
{
    if d.len() > 0 {
        lemma_digits_zero(d.drop_first());
        if forall|j: int| 0 <= j < d.len() ==> d[j] == 0 {
            assert forall|j: int| 0 <= j < d.drop_first().len() implies d.drop_first()[j] == 0 by {
                assert(d[j + 1] == 0);
            }
        } else {
            let j = choose|j: int| 0 <= j < d.len() && d[j] != 0;
            if j > 0 {
                assert(d.drop_first()[j - 1] != 0);
            }
        }
    }
}

/// An integer of any size.
#[derive(Debug)]
#[non_exhaustive]
pub enum Integer {
    /// A value that fits in 64 bits.
    Small(i64),
    /// A value of any size.
    Big(BigNum),
}

impl Integer {
    /// The value.
    pub open spec fn value(&self) -> int {
        match self {
            Integer::Small(v) => *v as int,
            Integer::Big(b) => b.value(),
        }
    }

    /// The integer `value`, as a machine integer.
    pub fn from_i64(value: i64) -> (r: Self)
        ensures
            r == Integer::Small(value),
    {
        Integer::Small(value)
    }

    /// The integer with the value of `value`: a machine integer when it
    /// fits, a big one otherwise.
    pub fn from_bigint(value: BigNum) -> (r: Self)
        ensures
            r.value() == value.value(),
            fits_i64(value.value()) <==> r is Small,
    {
        match big_to_i64(&value) {
            Some(v) => Integer::Small(v),
            None => Integer::Big(value),
        }
    }

    /// Whether the value is above zero.
    pub fn is_positive(&self) -> (r: bool)
        ensures
            r == (self.value() > 0),
    {
        match self {
            Integer::Small(v) => *v > 0,
            Integer::Big(b) => !b.negative && !magnitude_is_zero(&b.magnitude),
        }
    }

    /// Whether the value is below zero.
    pub fn is_negative(&self) -> (r: bool)
        ensures
            r == (self.value() < 0),
    {
        match self {
            Integer::Small(v) => *v < 0,
            Integer::Big(b) => b.negative && !magnitude_is_zero(&b.magnitude),
        }
    }

    /// Whether the value is zero.
    pub fn is_zero(&self) -> (r: bool)
        ensures
            r == (self.value() == 0),
    {
        match self {
            Integer::Small(v) => *v == 0,
            Integer::Big(b) => magnitude_is_zero(&b.magnitude),
        }
    }

    /// Zero.
    pub fn zero() -> (r: Self)
        ensures
            r == Integer::Small(0),
    {
        Integer::Small(0)
    }

    /// One.
    pub fn one() -> (r: Self)
        ensures
            r == Integer::Small(1),
    {
        Integer::Small(1)
    }

    /// The value as an `i64`, when it fits.
    pub fn to_i64(&self) -> (r: Option<i64>)
        ensures
            r == (if fits_i64(self.value()) { Some(self.value() as i64) } else { None::<i64> }),
    {
        match self {
            Integer::Small(v) => Some(*v),
            Integer::Big(b) => big_to_i64(b),
        }
    }

    /// The value as a big number.
    pub fn to_bigint(&self) -> (r: BigNum)
        ensures
            r.value() == self.value(),
    {
        match self {
            Integer::Small(v) => BigNum::from_i64(*v),
            Integer::Big(b) => b.copy(),
        }
    }

    /// The absolute value.
    pub fn abs(&self) -> (r: Self)
        ensures
            r.value() == (if self.value() < 0 { -self.value() } else { self.value() }),
    {
        match self {
            Integer::Small(v) => {
                if *v == i64::MIN {
                    Integer::Big(big_abs(&BigNum::from_i64(*v)))
                } else if *v < 0 {
                    Integer::Small(-*v)
                } else {
                    Integer::Small(*v)
                }
            },
            Integer::Big(b) => Integer::from_bigint(big_abs(b)),
        }
    }

    /// The greatest common divisor: never negative, a divisor of both
    /// that every common divisor divides.
    pub fn gcd(&self, other: &Self) -> (r: Self)
        ensures
            r.value() >= 0,
            divides(r.value(), self.value()),
            divides(r.value(), other.value()),
            forall|c: int| divides(c, self.value()) && divides(c, other.value()) ==> #[trigger] divides(c, r.value()),
    {
        let g = big_gcd(&self.to_bigint(), &other.to_bigint());
        Integer::from_bigint(g)
    }

    /// The quotient rounded toward zero, or `None` for a zero divisor.
    pub fn checked_div(&self, other: &Self) -> (r: Option<Self>)
        ensures
            match r {
                Some(q) => other.value() != 0 && q.value() == tdiv(self.value(), other.value()),
                None => other.value() == 0,
            },
    {
        if other.is_zero() {
            return None;
        }
        match (self, other) {
            (Integer::Small(left), Integer::Small(right)) => {
                if *left == i64::MIN && *right == -1 {
                    Some(Integer::Big(big_div(&BigNum::from_i64(*left), &BigNum::from_i64(*right))))
                } else {
                    proof {
                        lemma_tdiv_fits(*left as int, *right as int);
                    }
                    match left.checked_div(*right) {
                        Some(q) => Some(Integer::Small(q)),
                        None => None,
                    }
                }
            },
            _ => {
                let q = big_div(&self.to_bigint(), &other.to_bigint());
                Some(Integer::from_bigint(q))
            },
        }
    }

    /// The remainder with the sign of the dividend, or `None` for a zero
    /// divisor.
    pub fn checked_rem(&self, other: &Self) -> (r: Option<Self>)
        ensures
            match r {
                Some(m) => other.value() != 0 && m.value() == trem(self.value(), other.value()),
                None => other.value() == 0,
            },
    {
        if other.is_zero() {
            return None;
        }
        match (self, other) {
            (Integer::Small(left), Integer::Small(right)) => {
                if *left == i64::MIN && *right == -1 {
                    Some(Integer::Small(0))
                } else {
                    match left.checked_rem(*right) {
                        Some(m) => Some(Integer::Small(m)),
                        None => None,
                    }
                }
            },
            _ => {
                let m = big_rem(&self.to_bigint(), &other.to_bigint());
                Some(Integer::from_bigint(m))
            },
        }
    }

    /// `left + right`, big when it does not fit in an `i64`.
    pub fn add_small(left: i64, right: i64) -> (r: Self)
        ensures
            r.value() == left + right,
    {
        match left.checked_add(right) {
            Some(v) => Integer::Small(v),
            None => Integer::from_bigint(big_add(&BigNum::from_i64(left), &BigNum::from_i64(right))),
        }
    }

    /// `left - right`, big when it does not fit in an `i64`.
    pub fn sub_small(left: i64, right: i64) -> (r: Self)
        ensures
            r.value() == left - right,
    {
        match left.checked_sub(right) {
            Some(v) => Integer::Small(v),
            None => Integer::from_bigint(big_sub(&BigNum::from_i64(left), &BigNum::from_i64(right))),
        }
    }

    /// `left * right`, big when it does not fit in an `i64`.
    pub fn mul_small(left: i64, right: i64) -> (r: Self)
        ensures
            r.value() == left * right,
    {
        match left.checked_mul(right) {
            Some(v) => Integer::Small(v),
            None => Integer::from_bigint(big_mul(&BigNum::from_i64(left), &BigNum::from_i64(right))),
        }
    }

    /// The sum.
    pub fn plus(&self, other: &Self) -> (r: Self)
        ensures
            r.value() == self.value() + other.value(),
    {
        match (self, other) {
            (Integer::Small(l), Integer::Small(r)) => Integer::add_small(*l, *r),
            _ => Integer::from_bigint(big_add(&self.to_bigint(), &other.to_bigint())),
        }
    }

    /// The difference.
    pub fn minus(&self, other: &Self) -> (r: Self)
        ensures
            r.value() == self.value() - other.value(),
    {
        match (self, other) {
            (Integer::Small(l), Integer::Small(r)) => Integer::sub_small(*l, *r),
            _ => Integer::from_bigint(big_sub(&self.to_bigint(), &other.to_bigint())),
        }
    }

    /// The product.
    pub fn times(&self, other: &Self) -> (r: Self)
        ensures
            r.value() == self.value() * other.value(),
    {
        match (self, other) {
            (Integer::Small(l), Integer::Small(r)) => Integer::mul_small(*l, *r),
            _ => Integer::from_bigint(big_mul(&self.to_bigint(), &other.to_bigint())),
        }
    }

    /// The negation.
    pub fn negated(&self) -> (r: Self)
        ensures
            r.value() == -self.value(),
    {
        match self {
            Integer::Small(v) => {
                if *v == i64::MIN {
                    Integer::Big(big_neg(&BigNum::from_i64(*v)))
                } else {
                    Integer::Small(-*v)
                }
            },
            Integer::Big(b) => Integer::from_bigint(big_neg(b)),
        }
    }

    /// The decimal numeral, with a minus sign when negative.
    pub fn to_string(&self) -> (r: String)
        ensures
            r@ == signed_decimal(self.value()),
    {
        match self {
            Integer::Small(v) => {
                let mut s = String::new();
                if *v < 0 {
                    crate::text::push_char(&mut s, '-');
                    let m: u64 = if *v == i64::MIN {
                        0x8000_0000_0000_0000u64
                    } else {
                        (-*v) as u64
                    };
                    push_decimal(&mut s, m);
                } else {
                    push_decimal(&mut s, *v as u64);
                }
                assert(s@ =~= signed_decimal(self.value()));
                s
            },
            Integer::Big(b) => big_to_string(b),
        }
    }
}

impl Clone for Integer {
    fn clone(&self) -> (r: Self)
        ensures
            r.value() == self.value(),
            r is Small <==> self is Small,
    {
        match self {
            Integer::Small(v) => Integer::Small(*v),
            Integer::Big(b) => Integer::Big(b.copy()),
        }
    }
}

impl Default for Integer {
    fn default() -> (r: Self)
        ensures
            r == Integer::Small(0),
    {
        Integer::Small(0)
    }
}

impl PartialEq for Integer {
    fn eq(&self, other: &Self) -> (r: bool) {
        match (self, other) {
            (Integer::Small(l), Integer::Small(r)) => *l == *r,
            _ => big_eq(&self.to_bigint(), &other.to_bigint()),
        }
    }
}

impl vstd::std_specs::cmp::PartialEqSpecImpl for Integer {
    open spec fn obeys_eq_spec() -> bool {
        true
    }

    open spec fn eq_spec(&self, other: &Self) -> bool {
        self.value() == other.value()
    }
}

impl Eq for Integer {}

impl PartialOrd for Integer {
    fn partial_cmp(&self, other: &Self) -> (r: Option<Ordering>) {
        let c = match (self, other) {
            (Integer::Small(l), Integer::Small(r)) => {
                if *l < *r {
                    Cmp::Less
                } else if *l == *r {
                    Cmp::Equal
                } else {
                    Cmp::Greater
                }
            },
            _ => big_cmp(&self.to_bigint(), &other.to_bigint()),
        };
        match c {
            Cmp::Less => Some(Ordering::Less),
            Cmp::Equal => Some(Ordering::Equal),
            Cmp::Greater => Some(Ordering::Greater),
        }
    }
}

impl vstd::std_specs::cmp::PartialOrdSpecImpl for Integer {
    open spec fn obeys_partial_cmp_spec() -> bool {
        true
    }

    open spec fn partial_cmp_spec(&self, other: &Self) -> Option<Ordering> {
        if self.value() < other.value() {
            Some(Ordering::Less)
        } else if self.value() == other.value() {
            Some(Ordering::Equal)
        } else {
            Some(Ordering::Greater)
        }
    }
}

impl core::ops::Add for Integer {
    type Output = Integer;

    /// The sum.
    fn add(self, rhs: Integer) -> (r: Integer)
        ensures
            r.value() == self.value() + rhs.value(),
    {
        self.plus(&rhs)
    }
}

impl vstd::std_specs::ops::AddSpecImpl for Integer {
    open spec fn obeys_add_spec() -> bool {
        false
    }

    open spec fn add_req(self, rhs: Integer) -> bool {
        true
    }

    open spec fn add_spec(self, rhs: Integer) -> Integer {
        arbitrary()
    }
}

impl<'a> core::ops::Add for &'a Integer {
    type Output = Integer;

    /// The sum.
    fn add(self, rhs: &'a Integer) -> (r: Integer)
        ensures
            r.value() == self.value() + rhs.value(),
    {
        self.plus(rhs)
    }
}

impl<'a> vstd::std_specs::ops::AddSpecImpl for &'a Integer {
    open spec fn obeys_add_spec() -> bool {
        false
    }

    open spec fn add_req(self, rhs: &'a Integer) -> bool {
        true
    }

    open spec fn add_spec(self, rhs: &'a Integer) -> Integer {
        arbitrary()
    }
}

impl core::ops::Sub for Integer {
    type Output = Integer;

    /// The difference.
    fn sub(self, rhs: Integer) -> (r: Integer)
        ensures
            r.value() == self.value() - rhs.value(),
    {
        self.minus(&rhs)
    }
}

impl vstd::std_specs::ops::SubSpecImpl for Integer {
    open spec fn obeys_sub_spec() -> bool {
        false
    }

    open spec fn sub_req(self, rhs: Integer) -> bool {
        true
    }

    open spec fn sub_spec(self, rhs: Integer) -> Integer {
        arbitrary()
    }
}

impl<'a> core::ops::Sub for &'a Integer {
    type Output = Integer;

    /// The difference.
    fn sub(self, rhs: &'a Integer) -> (r: Integer)
        ensures
            r.value() == self.value() - rhs.value(),
    {
        self.minus(rhs)
    }
}

impl<'a> vstd::std_specs::ops::SubSpecImpl for &'a Integer {
    open spec fn obeys_sub_spec() -> bool {
        false
    }

    open spec fn sub_req(self, rhs: &'a Integer) -> bool {
        true
    }

    open spec fn sub_spec(self, rhs: &'a Integer) -> Integer {
        arbitrary()
    }
}

impl core::ops::Mul for Integer {
    type Output = Integer;

    /// The product.
    fn mul(self, rhs: Integer) -> (r: Integer)
        ensures
            r.value() == self.value() * rhs.value(),
    {
        self.times(&rhs)
    }
}

impl vstd::std_specs::ops::MulSpecImpl for Integer {
    open spec fn obeys_mul_spec() -> bool {
        false
    }

    open spec fn mul_req(self, rhs: Integer) -> bool {
        true
    }

    open spec fn mul_spec(self, rhs: Integer) -> Integer {
        arbitrary()
    }
}

impl<'a> core::ops::Mul for &'a Integer {
    type Output = Integer;

    /// The product.
    fn mul(self, rhs: &'a Integer) -> (r: Integer)
        ensures
            r.value() == self.value() * rhs.value(),
    {
        self.times(rhs)
    }
}

impl<'a> vstd::std_specs::ops::MulSpecImpl for &'a Integer {
    open spec fn obeys_mul_spec() -> bool {
        false
    }

    open spec fn mul_req(self, rhs: &'a Integer) -> bool {
        true
    }

    open spec fn mul_spec(self, rhs: &'a Integer) -> Integer {
        arbitrary()
    }
}

impl core::ops::Div for Integer {
    type Output = Integer;

    /// The quotient rounded toward zero (a zero divisor is refused).
    fn div(self, rhs: Integer) -> (r: Integer)
        ensures
            r.value() == tdiv(self.value(), rhs.value()),
    {
        match self.checked_div(&rhs) {
            Some(q) => q,
            None => Integer::Small(0),
        }
    }
}

impl vstd::std_specs::ops::DivSpecImpl for Integer {
    open spec fn obeys_div_spec() -> bool {
        false
    }

    open spec fn div_req(self, rhs: Integer) -> bool {
        rhs.value() != 0
    }

    open spec fn div_spec(self, rhs: Integer) -> Integer {
        arbitrary()
    }
}

impl<'a> core::ops::Div for &'a Integer {
    type Output = Integer;

    /// The quotient rounded toward zero (a zero divisor is refused).
    fn div(self, rhs: &'a Integer) -> (r: Integer)
        ensures
            r.value() == tdiv(self.value(), rhs.value()),
    {
        match self.checked_div(rhs) {
            Some(q) => q,
            None => Integer::Small(0),
        }
    }
}

impl<'a> vstd::std_specs::ops::DivSpecImpl for &'a Integer {
    open spec fn obeys_div_spec() -> bool {
        false
    }

    open spec fn div_req(self, rhs: &'a Integer) -> bool {
        rhs.value() != 0
    }

    open spec fn div_spec(self, rhs: &'a Integer) -> Integer {
        arbitrary()
    }
}

impl core::ops::Rem for Integer {
    type Output = Integer;

    /// The remainder with the sign of the dividend (a zero divisor is refused).
    fn rem(self, rhs: Integer) -> (r: Integer)
        ensures
            r.value() == trem(self.value(), rhs.value()),
    {
        match self.checked_rem(&rhs) {
            Some(q) => q,
            None => Integer::Small(0),
        }
    }
}

impl vstd::std_specs::ops::RemSpecImpl for Integer {
    open spec fn obeys_rem_spec() -> bool {
        false
    }

    open spec fn rem_req(self, rhs: Integer) -> bool {
        rhs.value() != 0
    }

    open spec fn rem_spec(self, rhs: Integer) -> Integer {
        arbitrary()
    }
}

impl<'a> core::ops::Rem for &'a Integer {
    type Output = Integer;

    /// The remainder with the sign of the dividend (a zero divisor is refused).
    fn rem(self, rhs: &'a Integer) -> (r: Integer)
        ensures
            r.value() == trem(self.value(), rhs.value()),
    {
        match self.checked_rem(rhs) {
            Some(q) => q,
            None => Integer::Small(0),
        }
    }
}

impl<'a> vstd::std_specs::ops::RemSpecImpl for &'a Integer {
    open spec fn obeys_rem_spec() -> bool {
        false
    }

    open spec fn rem_req(self, rhs: &'a Integer) -> bool {
        rhs.value() != 0
    }

    open spec fn rem_spec(self, rhs: &'a Integer) -> Integer {
        arbitrary()
    }
}

impl core::ops::Neg for Integer {
    type Output = Integer;

    /// The negation.
    fn neg(self) -> (r: Integer)
        ensures
            r.value() == -self.value(),
    {
        self.negated()
    }
}

impl vstd::std_specs::ops::NegSpecImpl for Integer {
    open spec fn obeys_neg_spec() -> bool {
        false
    }

    open spec fn neg_req(self) -> bool {
        true
    }

    open spec fn neg_spec(self) -> Integer {
        arbitrary()
    }
}

impl<'a> core::ops::Neg for &'a Integer {
    type Output = Integer;

    /// The negation.
    fn neg(self) -> (r: Integer)
        ensures
            r.value() == -self.value(),
    {
        self.negated()
    }
}

impl<'a> vstd::std_specs::ops::NegSpecImpl for &'a Integer {
    open spec fn obeys_neg_spec() -> bool {
        false
    }

    open spec fn neg_req(self) -> bool {
        true
    }

    open spec fn neg_spec(self) -> Integer {
        arbitrary()
    }
}

impl From<i64> for Integer {
    fn from(value: i64) -> (r: Integer)
        ensures
            r.value() == value,
    {
        Integer::Small(value)
    }
}

impl vstd::std_specs::convert::FromSpecImpl<i64> for Integer {
    open spec fn obeys_from_spec() -> bool {
        false
    }

    open spec fn from_spec(v: i64) -> Integer {
        arbitrary()
    }
}

impl From<i32> for Integer {
    fn from(value: i32) -> (r: Integer)
        ensures
            r.value() == value,
    {
        Integer::Small(value as i64)
    }
}

impl vstd::std_specs::convert::FromSpecImpl<i32> for Integer {
    open spec fn obeys_from_spec() -> bool {
        false
    }

    open spec fn from_spec(v: i32) -> Integer {
        arbitrary()
    }
}

impl From<u32> for Integer {
    fn from(value: u32) -> (r: Integer)
        ensures
            r.value() == value,
    {
        Integer::Small(value as i64)
    }
}

impl vstd::std_specs::convert::FromSpecImpl<u32> for Integer {
    open spec fn obeys_from_spec() -> bool {
        false
    }

    open spec fn from_spec(v: u32) -> Integer {
        arbitrary()
    }
}

impl From<BigNum> for Integer {
    fn from(value: BigNum) -> (r: Integer)
        ensures
            r.value() == value.value(),
    {
        Integer::from_bigint(value)
    }
}

impl vstd::std_specs::convert::FromSpecImpl<BigNum> for Integer {
    open spec fn obeys_from_spec() -> bool {
        false
    }

    open spec fn from_spec(v: BigNum) -> Integer {
        arbitrary()
    }
}

#[verifier::external_type_specification]
#[verifier::external_body]
pub struct ExBigInt(BigInt);

/// `BigInt::from_slice`: the big integer with the sign and digits of `a`.
/// Its value is not modelled; only the wrappers above read it.
#[verifier::external_body]
fn to_bigint_value(a: &BigNum) -> BigInt {
    BigInt::from_slice(if a.negative { Sign::Minus } else { Sign::Plus }, &a.magnitude)
}

/// `BigInt::to_u32_digits`: the sign and digits of `b`. Nothing is stated
/// here; the wrappers above state what they return.
#[verifier::external_body]
fn from_bigint_parts(b: BigInt) -> BigNum {
    let (sign, magnitude) = b.to_u32_digits();
    BigNum { negative: sign == Sign::Minus, magnitude }
}

impl crate::text::ToText for Integer {
    open spec fn text(&self) -> Seq<char> {
        signed_decimal(self.value())
    }

    fn to_text(&self) -> (r: String) {
        self.to_string()
    }
}

impl crate::text::ToText for i64 {
    open spec fn text(&self) -> Seq<char> {
        signed_decimal(*self as int)
    }

    fn to_text(&self) -> (r: String) {
        Integer::from_i64(*self).to_string()
    }
}

} // verus!
