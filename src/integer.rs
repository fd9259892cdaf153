use num_bigint::{BigInt, Sign};
use vstd::arithmetic::power2::{lemma2_to64, lemma_pow2_adds, lemma_pow2_pos, pow2};
use vstd::prelude::*;

verus! {

/// Numeric value of little-endian base-2^32 digits.
pub open spec fn magnitude(d: Seq<u32>) -> nat
    decreases d.len(),
{
    if d.len() == 0 {
        0
    } else {
        magnitude(d.drop_last()) + d.last() as nat * pow2((32 * (d.len() - 1)) as nat)
    }
}

/// Lower bound of the integers a stack slot may hold: `-2^256`.
pub open spec fn int_min() -> int {
    -(pow2(256) as int)
}

/// Upper bound (exclusive) of the integers a stack slot may hold: `2^256`.
pub open spec fn int_max() -> int {
    pow2(256) as int
}

/// The integer range of a stack slot: 257-bit signed.
pub open spec fn fits_int257(v: int) -> bool {
    int_min() <= v < int_max()
}

/// An arbitrary-precision signed integer, as a sign and a magnitude in
/// little-endian base-2^32 digits.
#[derive(Debug)]
pub struct IntValue {
    pub negative: bool,
    pub digits: Vec<u32>,
}

impl IntValue {
    pub open spec fn value(&self) -> int {
        if self.negative {
            -(magnitude(self.digits@) as int)
        } else {
            magnitude(self.digits@) as int
        }
    }

    /// The integer `x`.
    pub fn from_i64(x: i64) -> (r: IntValue)
        ensures
            r.value() == x,
    {
        let negative = x < 0;
        let m: u64 = if negative {
            (-(x as i128)) as u64
        } else {
            x as u64
        };
        let lo = (m % 4294967296) as u32;
        let hi = (m / 4294967296) as u32;
        let mut digits: Vec<u32> = Vec::new();
        digits.push(lo);
        digits.push(hi);
        proof {
            lemma2_to64();
            let d = digits@;
            let s1 = d.drop_last();
            assert(s1.drop_last() =~= Seq::<u32>::empty());
            assert(magnitude(s1.drop_last()) == 0);
            assert(s1.last() == lo);
            assert(s1.len() == 1);
            assert(pow2(0) == 1);
            assert(magnitude(s1) == magnitude(s1.drop_last()) + s1.last() as nat * pow2(0));
            assert(magnitude(s1) == lo as nat);
            assert(magnitude(d) == lo as nat + hi as nat * 4294967296);
        }
        IntValue { negative, digits }
    }

    /// The integer with the opposite sign.
    pub fn negate(self) -> (r: IntValue)
        ensures
            r.value() == -self.value(),
    {
        IntValue { negative: !self.negative, digits: self.digits }
    }

    /// Whether the value lies in `[-2^256, 2^256)`.
    pub fn fits_257(&self) -> (r: bool)
        ensures
            r == fits_int257(self.value()),
    {
        let d = &self.digits;
        let n = significant_len(d, d.len());
        proof {
            lemma2_to64();
            lemma_magnitude_prefix_zeros(d@, n as int);
        }
        if n <= 8 {
            proof {
                lemma_magnitude_bound(d@.subrange(0, n as int));
                if n < 8 {
                    vstd::arithmetic::power2::lemma_pow2_strictly_increases((32 * n) as nat, 256);
                }
                assert(magnitude(d@) < pow2(256));
            }
            true
        } else if n >= 10 {
            proof {
                let s = d@.subrange(0, n as int);
                assert(s.last() >= 1);
                lemma_pow2_pos((32 * (n - 1)) as nat);
                if n > 10 {
                    vstd::arithmetic::power2::lemma_pow2_strictly_increases(288, (32 * (n - 1)) as nat);
                }
                lemma_pow2_adds(256, 32);
                assert(magnitude(s) >= pow2((32 * (n - 1)) as nat)) by (nonlinear_arith)
                    requires
                        magnitude(s) == magnitude(s.drop_last()) + s.last() as nat * pow2((32 * (n - 1)) as nat),
                        s.last() >= 1,
                ;
                assert(pow2(288) == pow2(256) * 4294967296);
                assert(pow2(256) > 0) by { lemma_pow2_pos(256); }
                assert(magnitude(d@) > pow2(256));
            }
            false
        } else if d[8] >= 2 {
            proof {
                let s = d@.subrange(0, 9);
                assert(s.last() == d[8]);
                lemma_pow2_pos(256);
                assert(magnitude(s) >= 2 * pow2(256)) by (nonlinear_arith)
                    requires
                        magnitude(s) == magnitude(s.drop_last()) + s.last() as nat * pow2(256),
                        s.last() >= 2,
                ;
                assert(magnitude(d@) > pow2(256));
            }
            false
        } else {
            let low = significant_len(d, 8);
            proof {
                let s = d@.subrange(0, 9);
                assert(n == 9);
                assert(s.last() == 1);
                assert(magnitude(s) == magnitude(s.drop_last()) + s.last() as nat * pow2(256));
                assert(s.drop_last() =~= d@.subrange(0, 8));
                lemma_magnitude_prefix_zeros(d@.subrange(0, 8), low as int);
                assert(d@.subrange(0, 8).subrange(0, low as int) =~= d@.subrange(0, low as int));
                lemma_pow2_pos(256);
                if low > 0 {
                    let t = d@.subrange(0, low as int);
                    assert(t.last() >= 1);
                    lemma_pow2_pos((32 * (low - 1)) as nat);
                    assert(magnitude(t) > 0) by (nonlinear_arith)
                        requires
                            magnitude(t) == magnitude(t.drop_last()) + t.last() as nat * pow2((32 * (low - 1)) as nat),
                            t.last() >= 1,
                            pow2((32 * (low - 1)) as nat) > 0,
                    ;
                } else {
                    assert(d@.subrange(0, 0) =~= Seq::<u32>::empty());
                }
                assert(magnitude(d@) == magnitude(d@.subrange(0, 8)) + pow2(256));
            }
            self.negative && low == 0
        }
    }
}

/// Length of `d[..n]` without its trailing zero digits.
fn significant_len(d: &Vec<u32>, n: usize) -> (r: usize)
    requires
        n <= d@.len(),
    ensures
        r <= n,
        forall|i: int| r <= i < n ==> d@[i] == 0,
        r > 0 ==> d@[r - 1] != 0,
{
    let mut k = n;
    while k > 0 && d[k - 1] == 0
        invariant
            k <= n <= d@.len(),
            forall|i: int| k <= i < n ==> d@[i] == 0,
        decreases k,
    {
        k -= 1;
    }
    k
}

/// Zero digits at the top do not change the magnitude.
proof fn lemma_magnitude_prefix_zeros(d: Seq<u32>, n: int)
    requires
        0 <= n <= d.len(),
        forall|i: int| n <= i < d.len() ==> d[i] == 0,
    ensures
        magnitude(d.subrange(0, n)) == magnitude(d),
    decreases d.len() - n,
{
    if n < d.len() {
        lemma_magnitude_prefix_zeros(d.drop_last(), n);
        assert(d.drop_last().subrange(0, n) =~= d.subrange(0, n));
        assert(d.last() == 0);
    } else {
        assert(d.subrange(0, n) =~= d);
    }
}

/// `n` digits hold less than `2^(32 n)`.
proof fn lemma_magnitude_bound(d: Seq<u32>)
    ensures
        magnitude(d) < pow2((32 * d.len()) as nat),
    decreases d.len(),
{
    if d.len() == 0 {
        lemma2_to64();
    } else {
        let k = (32 * (d.len() - 1)) as nat;
        lemma_magnitude_bound(d.drop_last());
        lemma_pow2_adds(k, 32);
        lemma2_to64();
        assert((32 * d.len()) as nat == k + 32);
        assert(magnitude(d) < pow2(k + 32)) by (nonlinear_arith)
            requires
                magnitude(d) == magnitude(d.drop_last()) + d.last() as nat * pow2(k),
                magnitude(d.drop_last()) < pow2(k),
                d.last() <= 4294967295,
                pow2(k + 32) == pow2(k) * 4294967296,
        ;
    }
}

/// Relies on `num_bigint::BigInt::from_slice` and `to_u32_digits` to carry
/// values in and out, and on `BigInt + BigInt` to add them.
#[verifier::external_body]
fn big_add(a: &IntValue, b: &IntValue) -> (r: IntValue)
    ensures
        r.value() == a.value() + b.value(),
{
    let x = BigInt::from_slice(if a.negative { Sign::Minus } else { Sign::Plus }, &a.digits);
    let y = BigInt::from_slice(if b.negative { Sign::Minus } else { Sign::Plus }, &b.digits);
    let (sign, digits) = (x + y).to_u32_digits();
    IntValue { negative: sign == Sign::Minus, digits }
}

/// Relies on `num_bigint::BigInt::from_slice` and `to_u32_digits` to carry
/// values in and out, and on `BigInt - BigInt` to subtract them.
#[verifier::external_body]
fn big_sub(a: &IntValue, b: &IntValue) -> (r: IntValue)
    ensures
        r.value() == a.value() - b.value(),
{
    let x = BigInt::from_slice(if a.negative { Sign::Minus } else { Sign::Plus }, &a.digits);
    let y = BigInt::from_slice(if b.negative { Sign::Minus } else { Sign::Plus }, &b.digits);
    let (sign, digits) = (x - y).to_u32_digits();
    IntValue { negative: sign == Sign::Minus, digits }
}

/// Relies on `num_bigint::BigInt::from_slice` and `to_u32_digits` to carry
/// values in and out, and on `BigInt * BigInt` to multiply them.
#[verifier::external_body]
fn big_mul(a: &IntValue, b: &IntValue) -> (r: IntValue)
    ensures
        r.value() == a.value() * b.value(),
{
    let x = BigInt::from_slice(if a.negative { Sign::Minus } else { Sign::Plus }, &a.digits);
    let y = BigInt::from_slice(if b.negative { Sign::Minus } else { Sign::Plus }, &b.digits);
    let (sign, digits) = (x * y).to_u32_digits();
    IntValue { negative: sign == Sign::Minus, digits }
}

/// Relies on `BigInt << u32` applied to one: the power of two `2^x`.
#[verifier::external_body]
fn big_pow2(x: u32) -> (r: IntValue)
    ensures
        r.value() == pow2(x as nat),
{
    let (sign, digits) = (BigInt::from(1u32) << x).to_u32_digits();
    IntValue { negative: sign == Sign::Minus, digits }
}

impl IntValue {
    /// `self + other`.
    pub fn add(&self, other: &IntValue) -> (r: IntValue)
        ensures
            r.value() == self.value() + other.value(),
    {
        big_add(self, other)
    }

    /// `self - other`.
    pub fn sub(&self, other: &IntValue) -> (r: IntValue)
        ensures
            r.value() == self.value() - other.value(),
    {
        big_sub(self, other)
    }

    /// `self * other`.
    pub fn mul(&self, other: &IntValue) -> (r: IntValue)
        ensures
            r.value() == self.value() * other.value(),
    {
        big_mul(self, other)
    }

    /// `2^x`.
    pub fn pow2(x: u32) -> (r: IntValue)
        ensures
            r.value() == pow2(x as nat),
    {
        big_pow2(x)
    }
}

impl IntValue {
    /// The value, when it lies in `[0, 65536)`.
    pub fn as_u16(&self) -> (r: Option<u16>)
        ensures
            r is Some <==> 0 <= self.value() < 65536,
            r matches Some(v) ==> v == self.value(),
    {
        let d = &self.digits;
        let n = significant_len(d, d.len());
        proof {
            lemma2_to64();
            lemma_magnitude_prefix_zeros(d@, n as int);
        }
        if n == 0 {
            proof {
                assert(d@.subrange(0, 0) =~= Seq::<u32>::empty());
            }
            Some(0)
        } else if n == 1 {
            proof {
                let s = d@.subrange(0, 1);
                assert(s.drop_last() =~= Seq::<u32>::empty());
                assert(pow2(0) == 1);
                assert(magnitude(s) == magnitude(s.drop_last()) + s.last() as nat * pow2(0));
                assert(magnitude(d@) == d@[0]);
            }
            if !self.negative && d[0] < 65536 {
                Some(d[0] as u16)
            } else {
                None
            }
        } else {
            proof {
                let s = d@.subrange(0, n as int);
                assert(s.last() >= 1);
                lemma_pow2_pos((32 * (n - 1)) as nat);
                if n > 2 {
                    vstd::arithmetic::power2::lemma_pow2_strictly_increases(32, (32 * (n - 1)) as nat);
                }
                assert(magnitude(s) >= pow2((32 * (n - 1)) as nat)) by (nonlinear_arith)
                    requires
                        magnitude(s) == magnitude(s.drop_last()) + s.last() as nat * pow2((32 * (n - 1)) as nat),
                        s.last() >= 1,
                ;
            }
            None
        }
    }

    /// Whether both values are equal.
    pub fn equals(&self, other: &IntValue) -> (r: bool)
        ensures
            r == (self.value() == other.value()),
    {
        let diff = big_sub(self, other);
        diff.as_u16() == Some(0u16)
    }
}

impl IntValue {
    /// `-self`, leaving `self` as it is.
    pub fn neg(&self) -> (r: IntValue)
        ensures
            r.value() == -self.value(),
    {
        IntValue { negative: !self.negative, digits: self.digits.clone() }
    }
}

/// Integers of 32 bits fit a stack slot.
pub proof fn lemma_small_fits(x: int)
    requires
        -0x80000000 <= x < 0x80000000,
    ensures
        fits_int257(x),
{
    lemma2_to64();
    vstd::arithmetic::power2::lemma_pow2_strictly_increases(31, 256);
}

} // verus!
