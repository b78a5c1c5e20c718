//! Exact rational numbers and non-negative integer literals.
//!
//! Both types hold their integers as little-endian byte strings; all arithmetic
//! on them is carried out by `num-bigint` and `num-rational`.

use num_bigint::{BigInt, BigUint};
use num_rational::Ratio;
use num_traits::Zero;
use vstd::prelude::*;

verus! {

/// `256^n`.
pub open spec fn pow256(n: nat) -> int
    decreases n,
{
    if n == 0 {
        1
    } else {
        256 * pow256((n - 1) as nat)
    }
}

/// The value of a little-endian unsigned byte string.
pub open spec fn unsigned_le(b: Seq<u8>) -> int
    decreases b.len(),
{
    if b.len() == 0 {
        0
    } else {
        unsigned_le(b.drop_last()) + b.last() * pow256((b.len() - 1) as nat)
    }
}

/// The value of a little-endian two's complement byte string.
pub open spec fn signed_le(b: Seq<u8>) -> int {
    if b.len() > 0 && b.last() >= 128 {
        unsigned_le(b) - pow256(b.len())
    } else {
        unsigned_le(b)
    }
}

/// The value of a string of ASCII decimal digits.
pub open spec fn decimal_value(s: Seq<u8>) -> nat
    decreases s.len(),
{
    if s.len() == 0 {
        0
    } else {
        decimal_value(s.drop_last()) * 10 + (s.last() - 48) as nat
    }
}

pub open spec fn is_decimal_digit(c: u8) -> bool {
    48 <= c <= 57
}

/// A fraction `q.0 / q.1` is in lowest terms: a positive denominator that
/// shares no factor greater than one with the numerator.
pub open spec fn lowest_terms(q: (int, int)) -> bool {
    &&& q.1 > 0
    &&& forall|k: int| #![trigger q.0 % k, q.1 % k] k > 1 ==> !(q.0 % k == 0 && q.1 % k == 0)
}

/// Two fractions with non-zero denominators denote the same number.
pub open spec fn same_value(a: (int, int), b: (int, int)) -> bool {
    a.0 * b.1 == b.0 * a.1
}

/// The fraction in lowest terms equal to `q` (for `q.1 != 0`).
pub open spec fn reduce(q: (int, int)) -> (int, int) {
    choose|r: (int, int)| lowest_terms(r) && same_value(r, q)
}

pub open spec fn q_add(a: (int, int), b: (int, int)) -> (int, int) {
    reduce((a.0 * b.1 + b.0 * a.1, a.1 * b.1))
}

pub open spec fn q_sub(a: (int, int), b: (int, int)) -> (int, int) {
    reduce((a.0 * b.1 - b.0 * a.1, a.1 * b.1))
}

pub open spec fn q_mul(a: (int, int), b: (int, int)) -> (int, int) {
    reduce((a.0 * b.0, a.1 * b.1))
}

pub open spec fn q_div(a: (int, int), b: (int, int)) -> (int, int) {
    reduce((a.0 * b.1, a.1 * b.0))
}

/// Remainder of integer division truncated toward zero: its sign is that of `p`.
pub open spec fn trunc_rem(p: int, q: int) -> int {
    let m = if q < 0 { -q } else { q };
    if p >= 0 {
        p % m
    } else {
        -((-p) % m)
    }
}

/// `a - b * t` where `t` is `a / b` truncated toward zero.
pub open spec fn q_rem(a: (int, int), b: (int, int)) -> (int, int) {
    reduce((trunc_rem(a.0 * b.1, b.0 * a.1), a.1 * b.1))
}

pub open spec fn q_neg(a: (int, int)) -> (int, int) {
    (-a.0, a.1)
}

pub open spec fn q_lt(a: (int, int), b: (int, int)) -> bool {
    a.0 * b.1 < b.0 * a.1
}

/// A non-negative integer of any size, as little-endian bytes.
#[derive(Clone, Debug, PartialEq, Eq)]
pub struct Natural {
    pub bytes: Vec<u8>,
}

impl View for Natural {
    type V = nat;

    open spec fn view(&self) -> nat {
        unsigned_le(self.bytes@) as nat
    }
}

/// A rational number: numerator and denominator as little-endian two's
/// complement bytes, kept in lowest terms with a positive denominator.
#[derive(Clone, Debug, PartialEq, Eq)]
pub struct Rational {
    pub numer: Vec<u8>,
    pub denom: Vec<u8>,
}

impl View for Rational {
    type V = (int, int);

    open spec fn view(&self) -> (int, int) {
        (signed_le(self.numer@), signed_le(self.denom@))
    }
}

impl Rational {
    pub open spec fn wf(&self) -> bool {
        lowest_terms(self@)
    }
}

/// Relies on `BigUint::parse_bytes` in base ten: a non-empty run `b[start..end]`
/// of ASCII digits is read as the decimal number it spells; `BigUint::to_bytes_le`
/// gives its little-endian bytes.
#[verifier::external_body]
pub(crate) fn parse_decimal(b: &[u8], start: usize, end: usize) -> (r: Option<Natural>)
    requires
        start < end <= b@.len(),
        forall|i: int| start <= i < end ==> is_decimal_digit(#[trigger] b@[i]),
    ensures
        r is Some,
        r.unwrap()@ == decimal_value(b@.subrange(start as int, end as int)),
{
    BigUint::parse_bytes(&b[start..end], 10).map(|n| Natural { bytes: n.to_bytes_le() })
}

/// Relies on `BigInt::from(i64)` and `BigInt::to_signed_bytes_le`.
#[verifier::external_body]
fn int_bytes(n: i64) -> (r: Vec<u8>)
    ensures
        signed_le(r@) == n,
{
    BigInt::from(n).to_signed_bytes_le()
}

/// Relies on `BigInt::from(BigUint)` and `BigInt::to_signed_bytes_le`.
#[verifier::external_body]
fn natural_bytes(n: &Natural) -> (r: Vec<u8>)
    ensures
        signed_le(r@) == n@,
{
    BigInt::from(BigUint::from_bytes_le(&n.bytes)).to_signed_bytes_le()
}

/// Relies on `Ratio<BigInt> + Ratio<BigInt>`, which reduces its result.
#[verifier::external_body]
fn big_add(a: &Rational, b: &Rational) -> (r: Rational)
    requires
        a.wf(),
        b.wf(),
    ensures
        r.wf(),
        r@ == q_add(a@, b@),
{
    let x = Ratio::new_raw(BigInt::from_signed_bytes_le(&a.numer), BigInt::from_signed_bytes_le(&a.denom));
    let y = Ratio::new_raw(BigInt::from_signed_bytes_le(&b.numer), BigInt::from_signed_bytes_le(&b.denom));
    let z = x + y;
    Rational { numer: z.numer().to_signed_bytes_le(), denom: z.denom().to_signed_bytes_le() }
}

/// Relies on `Ratio<BigInt> - Ratio<BigInt>`, which reduces its result.
#[verifier::external_body]
fn big_sub(a: &Rational, b: &Rational) -> (r: Rational)
    requires
        a.wf(),
        b.wf(),
    ensures
        r.wf(),
        r@ == q_sub(a@, b@),
{
    let x = Ratio::new_raw(BigInt::from_signed_bytes_le(&a.numer), BigInt::from_signed_bytes_le(&a.denom));
    let y = Ratio::new_raw(BigInt::from_signed_bytes_le(&b.numer), BigInt::from_signed_bytes_le(&b.denom));
    let z = x - y;
    Rational { numer: z.numer().to_signed_bytes_le(), denom: z.denom().to_signed_bytes_le() }
}

/// Relies on `Ratio<BigInt> * Ratio<BigInt>`, which reduces its result.
#[verifier::external_body]
fn big_mul(a: &Rational, b: &Rational) -> (r: Rational)
    requires
        a.wf(),
        b.wf(),
    ensures
        r.wf(),
        r@ == q_mul(a@, b@),
{
    let x = Ratio::new_raw(BigInt::from_signed_bytes_le(&a.numer), BigInt::from_signed_bytes_le(&a.denom));
    let y = Ratio::new_raw(BigInt::from_signed_bytes_le(&b.numer), BigInt::from_signed_bytes_le(&b.denom));
    let z = x * y;
    Rational { numer: z.numer().to_signed_bytes_le(), denom: z.denom().to_signed_bytes_le() }
}

/// Relies on `Ratio<BigInt> / Ratio<BigInt>`, which reduces its result and
/// panics on a zero divisor.
#[verifier::external_body]
fn big_div(a: &Rational, b: &Rational) -> (r: Rational)
    requires
        a.wf(),
        b.wf(),
        b@.0 != 0,
    ensures
        r.wf(),
        r@ == q_div(a@, b@),
{
    let x = Ratio::new_raw(BigInt::from_signed_bytes_le(&a.numer), BigInt::from_signed_bytes_le(&a.denom));
    let y = Ratio::new_raw(BigInt::from_signed_bytes_le(&b.numer), BigInt::from_signed_bytes_le(&b.denom));
    let z = x / y;
    Rational { numer: z.numer().to_signed_bytes_le(), denom: z.denom().to_signed_bytes_le() }
}

/// Relies on `Ratio<BigInt> % Ratio<BigInt>`: both sides are brought to a
/// common denominator and their numerators divided with `BigInt`'s remainder,
/// which truncates toward zero; it panics on a zero divisor.
#[verifier::external_body]
fn big_rem(a: &Rational, b: &Rational) -> (r: Rational)
    requires
        a.wf(),
        b.wf(),
        b@.0 != 0,
    ensures
        r.wf(),
        r@ == q_rem(a@, b@),
{
    let x = Ratio::new_raw(BigInt::from_signed_bytes_le(&a.numer), BigInt::from_signed_bytes_le(&a.denom));
    let y = Ratio::new_raw(BigInt::from_signed_bytes_le(&b.numer), BigInt::from_signed_bytes_le(&b.denom));
    let z = x % y;
    Rational { numer: z.numer().to_signed_bytes_le(), denom: z.denom().to_signed_bytes_le() }
}

/// Relies on `-Ratio<BigInt>`, which negates the numerator.
#[verifier::external_body]
fn big_neg(a: &Rational) -> (r: Rational)
    requires
        a.wf(),
    ensures
        r@ == q_neg(a@),
{
    let x = Ratio::new_raw(BigInt::from_signed_bytes_le(&a.numer), BigInt::from_signed_bytes_le(&a.denom));
    let z = -x;
    Rational { numer: z.numer().to_signed_bytes_le(), denom: z.denom().to_signed_bytes_le() }
}

/// Relies on `Ord::cmp` of `Ratio<BigInt>`, the order of the numbers.
#[verifier::external_body]
fn big_cmp(a: &Rational, b: &Rational) -> (r: core::cmp::Ordering)
    requires
        a.wf(),
        b.wf(),
    ensures
        (r == core::cmp::Ordering::Less) == q_lt(a@, b@),
        (r == core::cmp::Ordering::Equal) == same_value(a@, b@),
        (r == core::cmp::Ordering::Greater) == q_lt(b@, a@),
{
    let x = Ratio::new_raw(BigInt::from_signed_bytes_le(&a.numer), BigInt::from_signed_bytes_le(&a.denom));
    let y = Ratio::new_raw(BigInt::from_signed_bytes_le(&b.numer), BigInt::from_signed_bytes_le(&b.denom));
    x.cmp(&y)
}

/// Relies on `Zero::is_zero` of `Ratio<BigInt>`: whether the numerator is zero.
#[verifier::external_body]
fn big_is_zero(a: &Rational) -> (r: bool)
    requires
        a.wf(),
    ensures
        r == (a@.0 == 0),
{
    Ratio::new_raw(BigInt::from_signed_bytes_le(&a.numer), BigInt::from_signed_bytes_le(&a.denom)).is_zero()
}

proof fn lemma_one_bytes()
    ensures
        signed_le(seq![1u8]) == 1,
{
    let s = seq![1u8];
    assert(s.drop_last() =~= Seq::<u8>::empty());
    assert(pow256(0) == 1);
    assert(unsigned_le(s) == unsigned_le(s.drop_last()) + 1 * pow256(0));
}

proof fn lemma_integer_lowest_terms(n: int)
    ensures
        lowest_terms((n, 1)),
{
    assert forall|k: int| #![trigger n % k] k > 1 implies !(n % k == 0 && 1int % k == 0) by {
        vstd::arithmetic::div_mod::lemma_small_mod(1, k as nat);
    }
}

impl Rational {
    /// The integer `n` as a rational number.
    pub fn from_integer(n: i64) -> (r: Rational)
        ensures
            r.wf(),
            r@ == (n as int, 1int),
    {
        let denom = vec![1u8];
        proof {
            assert(denom@ =~= seq![1u8]);
            lemma_one_bytes();
            lemma_integer_lowest_terms(n as int);
        }
        Rational { numer: int_bytes(n), denom }
    }

    /// The literal `n` as a rational number.
    pub fn from_natural(n: &Natural) -> (r: Rational)
        ensures
            r.wf(),
            r@ == (n@ as int, 1int),
    {
        let denom = vec![1u8];
        proof {
            assert(denom@ =~= seq![1u8]);
            lemma_one_bytes();
            lemma_integer_lowest_terms(n@ as int);
        }
        Rational { numer: natural_bytes(n), denom }
    }

    pub fn add(&self, other: &Rational) -> (r: Rational)
        requires
            self.wf(),
            other.wf(),
        ensures
            r.wf(),
            r@ == q_add(self@, other@),
    {
        big_add(self, other)
    }

    pub fn sub(&self, other: &Rational) -> (r: Rational)
        requires
            self.wf(),
            other.wf(),
        ensures
            r.wf(),
            r@ == q_sub(self@, other@),
    {
        big_sub(self, other)
    }

    pub fn mul(&self, other: &Rational) -> (r: Rational)
        requires
            self.wf(),
            other.wf(),
        ensures
            r.wf(),
            r@ == q_mul(self@, other@),
    {
        big_mul(self, other)
    }

    pub fn div(&self, other: &Rational) -> (r: Rational)
        requires
            self.wf(),
            other.wf(),
            other@.0 != 0,
        ensures
            r.wf(),
            r@ == q_div(self@, other@),
    {
        big_div(self, other)
    }

    pub fn rem(&self, other: &Rational) -> (r: Rational)
        requires
            self.wf(),
            other.wf(),
            other@.0 != 0,
        ensures
            r.wf(),
            r@ == q_rem(self@, other@),
    {
        big_rem(self, other)
    }

    pub fn neg(&self) -> (r: Rational)
        requires
            self.wf(),
        ensures
            r.wf(),
            r@ == q_neg(self@),
    {
        let r = big_neg(self);
        proof {
            let a = self@;
            assert forall|k: int| #![trigger (-a.0) % k, a.1 % k] k > 1 implies !((-a.0) % k == 0 && a.1 % k == 0) by {
                if (-a.0) % k == 0 {
                    vstd::arithmetic::div_mod::lemma_fundamental_div_mod(-a.0, k);
                    vstd::arithmetic::div_mod::lemma_mod_multiples_basic(-((-a.0) / k), k);
                    assert(a.0 == k * (-((-a.0) / k))) by (nonlinear_arith)
                        requires -a.0 == k * ((-a.0) / k) + 0;
                    assert(a.0 % k == 0) by {
                        vstd::arithmetic::div_mod::lemma_mod_multiples_basic(-((-a.0) / k), k);
                    }
                }
            }
        }
        r
    }

    /// A copy of this number.
    pub fn duplicate(&self) -> (r: Rational)
        ensures
            r@ == self@,
    {
        Rational { numer: self.numer.clone(), denom: self.denom.clone() }
    }

    pub fn is_zero(&self) -> (r: bool)
        requires
            self.wf(),
        ensures
            r == (self@.0 == 0),
    {
        big_is_zero(self)
    }

    pub fn compare(&self, other: &Rational) -> (r: core::cmp::Ordering)
        requires
            self.wf(),
            other.wf(),
        ensures
            (r == core::cmp::Ordering::Less) == q_lt(self@, other@),
            (r == core::cmp::Ordering::Equal) == same_value(self@, other@),
            (r == core::cmp::Ordering::Greater) == q_lt(other@, self@),
    {
        big_cmp(self, other)
    }
}

} // verus!
