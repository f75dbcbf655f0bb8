//! Exact fractions of arbitrary-precision integers, kept in lowest terms
//! with a positive denominator.

use core::cmp::Ordering;
use vstd::prelude::*;
use crate::integer::{divides, Integer};
use crate::text::push_char;

verus! {

/// The only common divisors of `a` and `b` are 1 and -1.
pub open spec fn coprime(a: int, b: int) -> bool {
    forall|c: int| #[trigger] divides(c, a) && divides(c, b) ==> c == 1 || c == -1
}

/// A product equal to one has factors one or minus one.
proof fn lemma_unit(c: int, s: int)
    requires
        c * s == 1,
    ensures
        c == 1 || c == -1,
{
    if c > 1 {
        if s >= 1 {
            assert(c * s >= 2) by (nonlinear_arith)
                requires
                    c > 1,
                    s >= 1,
            ;
        } else if s == 0 {
        } else {
            assert(c * s <= -2) by (nonlinear_arith)
                requires
                    c > 1,
                    s <= -1,
            ;
        }
    } else if c < -1 {
        if s >= 1 {
            assert(c * s <= -2) by (nonlinear_arith)
                requires
                    c < -1,
                    s >= 1,
            ;
        } else if s == 0 {
        } else {
            assert(c * s >= 2) by (nonlinear_arith)
                requires
                    c < -1,
                    s <= -1,
            ;
        }
    } else if c == 0 {
    }
}

/// The quotient of a multiple of a positive number by that number.
proof fn lemma_exact_tdiv(g: int, k: int)
    requires
        g > 0,
    ensures
        crate::integer::tdiv(g * k, g) == k,
{
    vstd::arithmetic::div_mod::lemma_div_multiples_vanish(k, g);
    vstd::arithmetic::div_mod::lemma_div_multiples_vanish(-k, g);
    if k > 0 {
        assert(g * k > 0) by (nonlinear_arith)
            requires
                g > 0,
                k > 0,
        ;
    } else if k < 0 {
        assert(g * k < 0) by (nonlinear_arith)
            requires
                g > 0,
                k < 0,
        ;
        assert((g * k) * -1 == g * (-k)) by (nonlinear_arith);
    } else {
        assert(g * k == 0) by (nonlinear_arith)
            requires
                k == 0,
        ;
    }
}

/// Dividing a nonzero `n` and `d` by their greatest common divisor `g`
/// leaves coprime numbers equal as a fraction.
proof fn lemma_reduce(n: int, d: int, g: int, k: int, m: int)
    requires
        n != 0,
        d != 0,
        g >= 0,
        n == g * k,
        d == g * m,
        forall|c: int| divides(c, n) && divides(c, d) ==> #[trigger] divides(c, g),
    ensures
        g > 0,
        coprime(k, m),
        coprime(-k, -m),
        k * d == n * m,
        (-k) * d == n * (-m),
{
    if g == 0 {
        assert(n == 0) by (nonlinear_arith)
            requires
                n == g * k,
                g == 0,
        ;
    }
    assert forall|c: int| #[trigger] divides(c, k) && divides(c, m) implies c == 1 || c == -1 by {
        let t = choose|t: int| k == #[trigger] (c * t);
        let u = choose|u: int| m == #[trigger] (c * u);
        assert(n == (c * g) * t) by (nonlinear_arith)
            requires
                n == g * k,
                k == c * t,
        ;
        assert(d == (c * g) * u) by (nonlinear_arith)
            requires
                d == g * m,
                m == c * u,
        ;
        assert(divides(c * g, n));
        assert(divides(c * g, d));
        assert(divides(c * g, g));
        let s = choose|s: int| g == #[trigger] ((c * g) * s);
        assert(c * s == 1) by (nonlinear_arith)
            requires
                g == (c * g) * s,
                g > 0,
        ;
        lemma_unit(c, s);
    }
    assert forall|c: int| #[trigger] divides(c, -k) && divides(c, -m) implies c == 1 || c == -1 by {
        let t = choose|t: int| -k == #[trigger] (c * t);
        let u = choose|u: int| -m == #[trigger] (c * u);
        assert(k == c * (-t)) by (nonlinear_arith)
            requires
                -k == c * t,
        ;
        assert(m == c * (-u)) by (nonlinear_arith)
            requires
                -m == c * u,
        ;
        assert(divides(c, k));
        assert(divides(c, m));
    }
    assert(k * d == n * m) by (nonlinear_arith)
        requires
            n == g * k,
            d == g * m,
    ;
    assert((-k) * d == n * (-m)) by (nonlinear_arith)
        requires
            k * d == n * m,
    ;
}

/// Negating one number keeps a pair coprime.
proof fn lemma_coprime_neg(n: int, d: int)
    requires
        coprime(n, d),
    ensures
        coprime(-n, d),
{
    assert forall|c: int| #[trigger] divides(c, -n) && divides(c, d) implies c == 1 || c == -1 by {
        let t = choose|t: int| -n == #[trigger] (c * t);
        assert(n == c * (-t)) by (nonlinear_arith)
            requires
                -n == c * t,
        ;
        assert(divides(c, n));
    }
}

/// A product of nonzero numbers is nonzero.
proof fn lemma_nonzero_product(a: int, b: int)
    ensures
        a != 0 && b != 0 ==> a * b != 0,
{
    if a != 0 && b != 0 {
        assert(a * b != 0) by (nonlinear_arith)
            requires
                a != 0,
                b != 0,
        ;
    }
}

/// Only one and minus one divide one.
proof fn lemma_coprime_one(n: int)
    ensures
        coprime(n, 1),
{
    assert forall|c: int| #[trigger] divides(c, n) && divides(c, 1) implies c == 1 || c == -1 by {
        let s = choose|s: int| 1 == #[trigger] (c * s);
        lemma_unit(c, s);
    }
}

/// A fraction `n / d` is in lowest terms: its denominator is positive and
/// shares no divisor with its numerator but one and minus one.
pub open spec fn lowest_terms(n: int, d: int) -> bool {
    d > 0 && coprime(n, d)
}

/// Bézout's identity: some integer combination of two nonnegative numbers
/// is a nonnegative common divisor of both.
proof fn lemma_bezout(a: int, b: int) -> (r: (int, int, int))
    requires
        a >= 0,
        b >= 0,
    ensures
        r.0 >= 0,
        divides(r.0, a),
        divides(r.0, b),
        a * r.1 + b * r.2 == r.0,
    decreases b,
{
    if b == 0 {
        assert(a == a * 1);
        assert(0 == a * 0);
        (a, 1, 0)
    } else {
        let q = a / b;
        let m = a % b;
        vstd::arithmetic::div_mod::lemma_fundamental_div_mod(a, b);
        vstd::arithmetic::div_mod::lemma_mod_pos_bound(a, b);
        let (g, x, y) = lemma_bezout(b, m);
        let s = choose|s: int| b == #[trigger] (g * s);
        let t = choose|t: int| m == #[trigger] (g * t);
        assert(a == g * (s * q + t)) by (nonlinear_arith)
            requires
                a == b * q + m,
                b == g * s,
                m == g * t,
        ;
        assert(a * y + b * (x - q * y) == g) by (nonlinear_arith)
            requires
                b * x + m * y == g,
                a == b * q + m,
        ;
        (g, y, x - q * y)
    }
}

/// Coprime numbers, the first positive, have a combination equal to one.
proof fn lemma_coprime_bezout(a: int, b: int) -> (r: (int, int))
    requires
        a > 0,
        coprime(a, b),
    ensures
        a * r.0 + b * r.1 == 1,
{
    let nb = if b < 0 { -b } else { b };
    let (g, x, y) = lemma_bezout(a, nb);
    let t = choose|t: int| nb == #[trigger] (g * t);
    if b < 0 {
        assert(b == g * (-t)) by (nonlinear_arith)
            requires
                nb == g * t,
                nb == -b,
        ;
    }
    assert(divides(g, b));
    assert(g == 1 || g == -1);
    if g == 0 {
        let u = choose|u: int| a == #[trigger] (g * u);
        assert(a == 0) by (nonlinear_arith)
            requires
                a == g * u,
                g == 0,
        ;
    }
    if b < 0 {
        assert(a * x + b * (-y) == 1) by (nonlinear_arith)
            requires
                a * x + nb * y == g,
                nb == -b,
                g == 1,
        ;
        (x, -y)
    } else {
        (x, y)
    }
}

/// Euclid's lemma: a positive number that divides a product and is
/// coprime to one factor divides the other.
proof fn lemma_euclid(d: int, n: int, e: int)
    requires
        d > 0,
        coprime(d, n),
        divides(d, n * e),
    ensures
        divides(d, e),
{
    let (x, y) = lemma_coprime_bezout(d, n);
    let k = choose|k: int| n * e == #[trigger] (d * k);
    assert(e == d * (e * x + k * y)) by (nonlinear_arith)
        requires
            d * x + n * y == 1,
            n * e == d * k,
    ;
}

/// Fractions in lowest terms that denote one number are written alike.
pub proof fn law_lowest_terms_unique(n1: int, d1: int, n2: int, d2: int)
    requires
        lowest_terms(n1, d1),
        lowest_terms(n2, d2),
        n1 * d2 == n2 * d1,
    ensures
        n1 == n2,
        d1 == d2,
{
    assert(coprime(d1, n1));
    assert(coprime(d2, n2));
    assert(n1 * d2 == d1 * n2) by (nonlinear_arith)
        requires
            n1 * d2 == n2 * d1,
    ;
    assert(divides(d1, n1 * d2));
    lemma_euclid(d1, n1, d2);
    assert(n2 * d1 == d2 * n1) by (nonlinear_arith)
        requires
            n1 * d2 == n2 * d1,
    ;
    assert(divides(d2, n2 * d1));
    lemma_euclid(d2, n2, d1);
    let p = choose|p: int| d2 == #[trigger] (d1 * p);
    let q = choose|q: int| d1 == #[trigger] (d2 * q);
    assert(p * q == 1) by (nonlinear_arith)
        requires
            d2 == d1 * p,
            d1 == d2 * q,
            d1 > 0,
    ;
    lemma_unit(p, q);
    assert(p == 1) by (nonlinear_arith)
        requires
            d2 == d1 * p,
            d1 > 0,
            d2 > 0,
            p == 1 || p == -1,
    ;
    assert(n1 == n2) by (nonlinear_arith)
        requires
            n1 * d2 == n2 * d1,
            d1 == d2,
            d2 > 0,
    ;
}

/// A fraction in lowest terms with a positive denominator.
#[derive(Debug)]
pub struct Ratio {
    numer: Integer,
    denom: Integer,
}

impl Ratio {
    #[verifier::type_invariant]
    spec fn inv(self) -> bool {
        &&& self.denom.value() > 0
        &&& coprime(self.numer.value(), self.denom.value())
    }

    /// The numerator's value.
    pub closed spec fn num(self) -> int {
        self.numer.value()
    }

    /// The denominator's value.
    pub closed spec fn den(self) -> int {
        self.denom.value()
    }

    /// The fraction `n / d` in lowest terms with a positive denominator.
    fn normalize(numer: &Integer, denom: &Integer) -> (r: Self)
        requires
            denom.value() != 0,
        ensures
            lowest_terms(r.num(), r.den()),
            r.num() * denom.value() == numer.value() * r.den(),
    {
        if numer.is_zero() {
            proof {
                lemma_coprime_one(0);
                let d = denom.value();
                assert(0 * d == 0) by (nonlinear_arith);
            }
            return Ratio { numer: Integer::from_i64(0), denom: Integer::from_i64(1) };
        }
        let g = numer.gcd(denom);
        let ghost n = numer.value();
        let ghost d = denom.value();
        let ghost gv = g.value();
        let ghost k = choose|k: int| n == #[trigger] (gv * k);
        let ghost m = choose|m: int| d == #[trigger] (gv * m);
        proof {
            lemma_reduce(n, d, gv, k, m);
            lemma_exact_tdiv(gv, k);
            lemma_exact_tdiv(gv, m);
        }
        let nn = match numer.checked_div(&g) {
            Some(q) => q,
            None => Integer::from_i64(0),
        };
        let dd = match denom.checked_div(&g) {
            Some(q) => q,
            None => Integer::from_i64(1),
        };
        if dd.is_negative() {
            Ratio { numer: nn.negated(), denom: dd.negated() }
        } else {
            proof {
                assert(m != 0) by (nonlinear_arith)
                    requires
                        d == gv * m,
                        d != 0,
                ;
            }
            Ratio { numer: nn, denom: dd }
        }
    }

    /// The fraction `numer / denom` in lowest terms.
    pub fn new(numer: &Integer, denom: &Integer) -> (r: Self)
        requires
            denom.value() != 0,
        ensures
            lowest_terms(r.num(), r.den()),
            r.num() * denom.value() == numer.value() * r.den(),
    {
        Ratio::normalize(numer, denom)
    }

    /// The fraction `numer / denom` in lowest terms.
    pub fn from_i64(numer: i64, denom: i64) -> (r: Self)
        requires
            denom != 0,
        ensures
            lowest_terms(r.num(), r.den()),
            r.num() * denom == numer * r.den(),
    {
        Ratio::normalize(&Integer::from_i64(numer), &Integer::from_i64(denom))
    }

    /// The fraction `numer / 1`.
    pub fn from_integer(numer: Integer) -> (r: Self)
        ensures
            lowest_terms(r.num(), r.den()),
            r.num() == numer.value(),
            r.den() == 1,
    {
        proof {
            lemma_coprime_one(numer.value());
        }
        Ratio { numer, denom: Integer::from_i64(1) }
    }

    /// The numerator.
    pub fn numer(&self) -> (r: &Integer)
        ensures
            r.value() == self.num(),
    {
        &self.numer
    }

    /// The denominator, always positive.
    pub fn denom(&self) -> (r: &Integer)
        ensures
            r.value() == self.den(),
            r.value() > 0,
    {
        proof {
            use_type_invariant(self);
        }
        &self.denom
    }

    /// Whether the fraction is a whole number.
    pub fn is_integer(&self) -> (r: bool)
        ensures
            r == (self.den() == 1),
    {
        self.denom == Integer::from_i64(1)
    }

    /// The whole number the fraction equals, if it is one.
    pub fn to_integer(&self) -> (r: Option<Integer>)
        ensures
            match r {
                Some(i) => self.den() == 1 && i.value() == self.num(),
                None => self.den() != 1,
            },
    {
        if self.is_integer() {
            Some(self.numer.clone())
        } else {
            None
        }
    }

    /// Whether the fraction is zero.
    pub fn is_zero(&self) -> (r: bool)
        ensures
            r == (self.num() == 0),
    {
        self.numer.is_zero()
    }

    /// Whether the fraction is above zero.
    pub fn is_positive(&self) -> (r: bool)
        ensures
            r == (self.num() > 0),
    {
        self.numer.is_positive()
    }

    /// Whether the fraction is below zero.
    pub fn is_negative(&self) -> (r: bool)
        ensures
            r == (self.num() < 0),
    {
        self.numer.is_negative()
    }

    /// The absolute value.
    pub fn abs(&self) -> (r: Self)
        ensures
            lowest_terms(r.num(), r.den()),
            r.num() == (if self.num() < 0 { -self.num() } else { self.num() }),
            r.den() == self.den(),
    {
        proof {
            use_type_invariant(self);
            lemma_coprime_neg(self.num(), self.den());
        }
        Ratio { numer: self.numer.abs(), denom: self.denom.clone() }
    }

    /// The reciprocal, of a nonzero fraction.
    pub fn recip(&self) -> (r: Self)
        requires
            self.num() != 0,
        ensures
            lowest_terms(r.num(), r.den()),
            r.num() * self.num() == self.den() * r.den(),
    {
        Ratio::normalize(&self.denom, &self.numer)
    }

    /// The numeral: `n` for a whole number, `n/d` otherwise.
    pub fn to_string(&self) -> (r: String)
        ensures
            r@ == (if self.den() == 1 {
                crate::integer::signed_decimal(self.num())
            } else {
                crate::integer::signed_decimal(self.num()) + seq!['/'] + crate::integer::signed_decimal(
                    self.den(),
                )
            }),
    {
        if self.is_integer() {
            self.numer.to_string()
        } else {
            let mut s = self.numer.to_string();
            push_char(&mut s, '/');
            let d = self.denom.to_string();
            crate::text::push_str_chars(&mut s, d.as_str());
            s
        }
    }
}

impl core::ops::Add for Ratio {
    type Output = Ratio;

    /// The sum.
    fn add(self, rhs: Ratio) -> (r: Ratio)
        ensures
            lowest_terms(r.num(), r.den()),
            r.num() * (self.den() * rhs.den()) == (self.num() * rhs.den() + rhs.num() * self.den()) * r.den(),
    {
        proof {
            use_type_invariant(&self);
            use_type_invariant(&rhs);
            lemma_nonzero_product(self.den(), rhs.den());
        }
        let a = self.numer.times(&rhs.denom);
        let b = rhs.numer.times(&self.denom);
        let numer = a.plus(&b);
        let denom = self.denom.times(&rhs.denom);
        Ratio::normalize(&numer, &denom)
    }
}

impl vstd::std_specs::ops::AddSpecImpl for Ratio {
    open spec fn obeys_add_spec() -> bool {
        false
    }

    open spec fn add_req(self, rhs: Ratio) -> bool {
        true
    }

    open spec fn add_spec(self, rhs: Ratio) -> Ratio {
        arbitrary()
    }
}

impl<'a> core::ops::Add for &'a Ratio {
    type Output = Ratio;

    /// The sum.
    fn add(self, rhs: &'a Ratio) -> (r: Ratio)
        ensures
            lowest_terms(r.num(), r.den()),
            r.num() * (self.den() * rhs.den()) == (self.num() * rhs.den() + rhs.num() * self.den()) * r.den(),
    {
        proof {
            use_type_invariant(&self);
            use_type_invariant(&rhs);
            lemma_nonzero_product(self.den(), rhs.den());
        }
        let a = self.numer.times(&rhs.denom);
        let b = rhs.numer.times(&self.denom);
        let numer = a.plus(&b);
        let denom = self.denom.times(&rhs.denom);
        Ratio::normalize(&numer, &denom)
    }
}

impl<'a> vstd::std_specs::ops::AddSpecImpl for &'a Ratio {
    open spec fn obeys_add_spec() -> bool {
        false
    }

    open spec fn add_req(self, rhs: &'a Ratio) -> bool {
        true
    }

    open spec fn add_spec(self, rhs: &'a Ratio) -> Ratio {
        arbitrary()
    }
}

impl core::ops::Sub for Ratio {
    type Output = Ratio;

    /// The difference.
    fn sub(self, rhs: Ratio) -> (r: Ratio)
        ensures
            lowest_terms(r.num(), r.den()),
            r.num() * (self.den() * rhs.den()) == (self.num() * rhs.den() - rhs.num() * self.den()) * r.den(),
    {
        proof {
            use_type_invariant(&self);
            use_type_invariant(&rhs);
            lemma_nonzero_product(self.den(), rhs.den());
        }
        let a = self.numer.times(&rhs.denom);
        let b = rhs.numer.times(&self.denom);
        let numer = a.minus(&b);
        let denom = self.denom.times(&rhs.denom);
        Ratio::normalize(&numer, &denom)
    }
}

impl vstd::std_specs::ops::SubSpecImpl for Ratio {
    open spec fn obeys_sub_spec() -> bool {
        false
    }

    open spec fn sub_req(self, rhs: Ratio) -> bool {
        true
    }

    open spec fn sub_spec(self, rhs: Ratio) -> Ratio {
        arbitrary()
    }
}

impl<'a> core::ops::Sub for &'a Ratio {
    type Output = Ratio;

    /// The difference.
    fn sub(self, rhs: &'a Ratio) -> (r: Ratio)
        ensures
            lowest_terms(r.num(), r.den()),
            r.num() * (self.den() * rhs.den()) == (self.num() * rhs.den() - rhs.num() * self.den()) * r.den(),
    {
        proof {
            use_type_invariant(&self);
            use_type_invariant(&rhs);
            lemma_nonzero_product(self.den(), rhs.den());
        }
        let a = self.numer.times(&rhs.denom);
        let b = rhs.numer.times(&self.denom);
        let numer = a.minus(&b);
        let denom = self.denom.times(&rhs.denom);
        Ratio::normalize(&numer, &denom)
    }
}

impl<'a> vstd::std_specs::ops::SubSpecImpl for &'a Ratio {
    open spec fn obeys_sub_spec() -> bool {
        false
    }

    open spec fn sub_req(self, rhs: &'a Ratio) -> bool {
        true
    }

    open spec fn sub_spec(self, rhs: &'a Ratio) -> Ratio {
        arbitrary()
    }
}

impl core::ops::Mul for Ratio {
    type Output = Ratio;

    /// The product.
    fn mul(self, rhs: Ratio) -> (r: Ratio)
        ensures
            lowest_terms(r.num(), r.den()),
            r.num() * (self.den() * rhs.den()) == (self.num() * rhs.num()) * r.den(),
    {
        proof {
            use_type_invariant(&self);
            use_type_invariant(&rhs);
            lemma_nonzero_product(self.den(), rhs.den());
        }
        let numer = self.numer.times(&rhs.numer);
        let denom = self.denom.times(&rhs.denom);
        Ratio::normalize(&numer, &denom)
    }
}

impl vstd::std_specs::ops::MulSpecImpl for Ratio {
    open spec fn obeys_mul_spec() -> bool {
        false
    }

    open spec fn mul_req(self, rhs: Ratio) -> bool {
        true
    }

    open spec fn mul_spec(self, rhs: Ratio) -> Ratio {
        arbitrary()
    }
}

impl<'a> core::ops::Mul for &'a Ratio {
    type Output = Ratio;

    /// The product.
    fn mul(self, rhs: &'a Ratio) -> (r: Ratio)
        ensures
            lowest_terms(r.num(), r.den()),
            r.num() * (self.den() * rhs.den()) == (self.num() * rhs.num()) * r.den(),
    {
        proof {
            use_type_invariant(&self);
            use_type_invariant(&rhs);
            lemma_nonzero_product(self.den(), rhs.den());
        }
        let numer = self.numer.times(&rhs.numer);
        let denom = self.denom.times(&rhs.denom);
        Ratio::normalize(&numer, &denom)
    }
}

impl<'a> vstd::std_specs::ops::MulSpecImpl for &'a Ratio {
    open spec fn obeys_mul_spec() -> bool {
        false
    }

    open spec fn mul_req(self, rhs: &'a Ratio) -> bool {
        true
    }

    open spec fn mul_spec(self, rhs: &'a Ratio) -> Ratio {
        arbitrary()
    }
}

impl core::ops::Div for Ratio {
    type Output = Ratio;

    /// The quotient, by a nonzero fraction.
    fn div(self, rhs: Ratio) -> (r: Ratio)
        ensures
            lowest_terms(r.num(), r.den()),
            r.num() * (self.den() * rhs.num()) == (self.num() * rhs.den()) * r.den(),
    {
        proof {
            use_type_invariant(&self);
            use_type_invariant(&rhs);
            lemma_nonzero_product(self.den(), rhs.num());
        }
        let numer = self.numer.times(&rhs.denom);
        let denom = self.denom.times(&rhs.numer);
        Ratio::normalize(&numer, &denom)
    }
}

impl vstd::std_specs::ops::DivSpecImpl for Ratio {
    open spec fn obeys_div_spec() -> bool {
        false
    }

    open spec fn div_req(self, rhs: Ratio) -> bool {
        rhs.num() != 0
    }

    open spec fn div_spec(self, rhs: Ratio) -> Ratio {
        arbitrary()
    }
}

impl<'a> core::ops::Div for &'a Ratio {
    type Output = Ratio;

    /// The quotient, by a nonzero fraction.
    fn div(self, rhs: &'a Ratio) -> (r: Ratio)
        ensures
            lowest_terms(r.num(), r.den()),
            r.num() * (self.den() * rhs.num()) == (self.num() * rhs.den()) * r.den(),
    {
        proof {
            use_type_invariant(&self);
            use_type_invariant(&rhs);
            lemma_nonzero_product(self.den(), rhs.num());
        }
        let numer = self.numer.times(&rhs.denom);
        let denom = self.denom.times(&rhs.numer);
        Ratio::normalize(&numer, &denom)
    }
}

impl<'a> vstd::std_specs::ops::DivSpecImpl for &'a Ratio {
    open spec fn obeys_div_spec() -> bool {
        false
    }

    open spec fn div_req(self, rhs: &'a Ratio) -> bool {
        rhs.num() != 0
    }

    open spec fn div_spec(self, rhs: &'a Ratio) -> Ratio {
        arbitrary()
    }
}

impl core::ops::Neg for Ratio {
    type Output = Ratio;

    /// The negation.
    fn neg(self) -> (r: Ratio)
        ensures
            lowest_terms(r.num(), r.den()),
            r.num() == -self.num(),
            r.den() == self.den(),
    {
        proof {
            use_type_invariant(&self);
            lemma_coprime_neg(self.num(), self.den());
        }
        Ratio { numer: self.numer.negated(), denom: self.denom.clone() }
    }
}

impl vstd::std_specs::ops::NegSpecImpl for Ratio {
    open spec fn obeys_neg_spec() -> bool {
        false
    }

    open spec fn neg_req(self) -> bool {
        true
    }

    open spec fn neg_spec(self) -> Ratio {
        arbitrary()
    }
}

impl<'a> core::ops::Neg for &'a Ratio {
    type Output = Ratio;

    /// The negation.
    fn neg(self) -> (r: Ratio)
        ensures
            lowest_terms(r.num(), r.den()),
            r.num() == -self.num(),
            r.den() == self.den(),
    {
        proof {
            use_type_invariant(&self);
            lemma_coprime_neg(self.num(), self.den());
        }
        Ratio { numer: self.numer.negated(), denom: self.denom.clone() }
    }
}

impl<'a> vstd::std_specs::ops::NegSpecImpl for &'a Ratio {
    open spec fn obeys_neg_spec() -> bool {
        false
    }

    open spec fn neg_req(self) -> bool {
        true
    }

    open spec fn neg_spec(self) -> Ratio {
        arbitrary()
    }
}

impl From<Integer> for Ratio {
    fn from(value: Integer) -> (r: Ratio)
        ensures
            lowest_terms(r.num(), r.den()),
            r.num() == value.value(),
            r.den() == 1,
    {
        Ratio::from_integer(value)
    }
}

impl vstd::std_specs::convert::FromSpecImpl<Integer> for Ratio {
    open spec fn obeys_from_spec() -> bool {
        false
    }

    open spec fn from_spec(v: Integer) -> Ratio {
        arbitrary()
    }
}

impl From<i64> for Ratio {
    fn from(value: i64) -> (r: Ratio)
        ensures
            lowest_terms(r.num(), r.den()),
            r.num() == value,
            r.den() == 1,
    {
        Ratio::from_integer(Integer::from_i64(value))
    }
}

impl vstd::std_specs::convert::FromSpecImpl<i64> for Ratio {
    open spec fn obeys_from_spec() -> bool {
        false
    }

    open spec fn from_spec(v: i64) -> Ratio {
        arbitrary()
    }
}

impl From<i32> for Ratio {
    fn from(value: i32) -> (r: Ratio)
        ensures
            lowest_terms(r.num(), r.den()),
            r.num() == value,
            r.den() == 1,
    {
        Ratio::from_integer(Integer::from(value))
    }
}

impl vstd::std_specs::convert::FromSpecImpl<i32> for Ratio {
    open spec fn obeys_from_spec() -> bool {
        false
    }

    open spec fn from_spec(v: i32) -> Ratio {
        arbitrary()
    }
}

impl Default for Ratio {
    fn default() -> (r: Self)
        ensures
            lowest_terms(r.num(), r.den()),
            r.num() == 0,
            r.den() == 1,
    {
        Ratio::from_integer(Integer::from_i64(0))
    }
}

impl Clone for Ratio {
    fn clone(&self) -> (r: Self)
        ensures
            lowest_terms(r.num(), r.den()),
            r.num() == self.num(),
            r.den() == self.den(),
    {
        proof {
            use_type_invariant(self);
        }
        Ratio { numer: self.numer.clone(), denom: self.denom.clone() }
    }
}

impl PartialEq for Ratio {
    /// Two fractions are equal exactly when they denote the same number.
    fn eq(&self, other: &Self) -> (r: bool)
        ensures
            r == (self.num() * other.den() == other.num() * self.den()),
    {
        proof {
            use_type_invariant(self);
            use_type_invariant(other);
            if self.num() * other.den() == other.num() * self.den() {
                law_lowest_terms_unique(self.num(), self.den(), other.num(), other.den());
            }
        }
        self.numer == other.numer && self.denom == other.denom
    }
}

impl vstd::std_specs::cmp::PartialEqSpecImpl for Ratio {
    open spec fn obeys_eq_spec() -> bool {
        true
    }

    open spec fn eq_spec(&self, other: &Self) -> bool {
        self.num() == other.num() && self.den() == other.den()
    }
}

impl Eq for Ratio {}

impl PartialOrd for Ratio {
    fn partial_cmp(&self, other: &Self) -> (r: Option<Ordering>) {
        let left = self.numer.times(&other.denom);
        let right = other.numer.times(&self.denom);
        left.partial_cmp(&right)
    }
}

impl vstd::std_specs::cmp::PartialOrdSpecImpl for Ratio {
    open spec fn obeys_partial_cmp_spec() -> bool {
        true
    }

    /// Fractions with positive denominators compare as their cross
    /// products.
    open spec fn partial_cmp_spec(&self, other: &Self) -> Option<Ordering> {
        let left = self.num() * other.den();
        let right = other.num() * self.den();
        if left < right {
            Some(Ordering::Less)
        } else if left == right {
            Some(Ordering::Equal)
        } else {
            Some(Ordering::Greater)
        }
    }
}

} // verus!
