//! Decimal numbers in fixed-point form, and their conversion to field elements.
//!
//! A [`Decimal`] is a mantissa of at most 96 bits with a sign, and a scale of at most 28: it
//! stands for the mantissa divided by ten to the scale. Differences and products are computed by
//! the `rust_decimal` crate; the conversion to a field element is done here.

use crate::field::fr_of;
use crate::field::Fr;
use vstd::arithmetic::power::lemma_pow0;
use vstd::arithmetic::power::lemma_pow1;
use vstd::arithmetic::power::lemma_pow_adds;
use vstd::arithmetic::power::lemma_pow_positive;
use vstd::arithmetic::power::pow;
use vstd::prelude::*;

verus! {

/// The largest mantissa, `2^96 - 1`.
pub const MAX_MANTISSA: i128 = 0x0000_0000_FFFF_FFFF_FFFF_FFFF_FFFF_FFFF;

/// The largest scale.
pub const MAX_SCALE: u32 = 28;

/// A decimal number. Its view is the pair of its mantissa and its scale.
#[derive(Clone, Copy, Debug, PartialEq, Eq, Structural)]
pub struct Decimal {
    mantissa: i128,
    scale: u32,
}

impl View for Decimal {
    type V = (int, nat);

    closed spec fn view(&self) -> (int, nat) {
        (self.mantissa as int, self.scale as nat)
    }
}

/// The decimal number with the given mantissa and scale.
pub closed spec fn decimal_of(v: (int, nat)) -> Decimal {
    Decimal { mantissa: v.0 as i128, scale: v.1 as u32 }
}

/// A decimal number is determined by its mantissa and scale.
pub proof fn lemma_decimal_of_view(d: Decimal)
    ensures
        decimal_of(d@) == d,
{
}

/// Whether a mantissa and a scale are those of a decimal number.
pub open spec fn in_range(mantissa: int, scale: nat) -> bool {
    -MAX_MANTISSA <= mantissa <= MAX_MANTISSA && scale <= MAX_SCALE
}

/// What `checked_sub` of `rust_decimal` gives for two decimal numbers, each given by its
/// mantissa and scale: the mantissa and scale of the difference, or nothing on overflow.
pub uninterp spec fn decimal_difference(a: (int, nat), b: (int, nat)) -> Option<(int, nat)>;

/// What `checked_mul` of `rust_decimal` gives for two decimal numbers, each given by its
/// mantissa and scale: the mantissa and scale of the product, or nothing on overflow.
pub uninterp spec fn decimal_product(a: (int, nat), b: (int, nat)) -> Option<(int, nat)>;

/// The view of a decimal number that may be missing.
pub open spec fn view_of(d: Option<Decimal>) -> Option<(int, nat)> {
    match d {
        Some(d) => Some(d@),
        None => None,
    }
}

/// Calls `Decimal::checked_sub` of `rust_decimal`, which computes the difference of two
/// decimal numbers from their mantissas and scales alone, and gives nothing on overflow. The
/// numbers go in through `from_i128_with_scale`, which accepts them because every [`Decimal`]
/// is in range, and the result comes out through `mantissa` and `scale`.
#[verifier::external_body]
fn checked_difference(a: &Decimal, b: &Decimal) -> (r: Option<Decimal>)
    ensures
        view_of(r) == decimal_difference(a@, b@),
{
    let x = rust_decimal::Decimal::from_i128_with_scale(a.mantissa, a.scale);
    let y = rust_decimal::Decimal::from_i128_with_scale(b.mantissa, b.scale);
    x.checked_sub(y).map(|d| Decimal { mantissa: d.mantissa(), scale: d.scale() })
}

/// Calls `Decimal::checked_mul` of `rust_decimal`, which computes the product of two decimal
/// numbers from their mantissas and scales alone, and gives nothing on overflow. The numbers go
/// in and the result comes out as in [`checked_difference`].
#[verifier::external_body]
fn checked_product(a: &Decimal, b: &Decimal) -> (r: Option<Decimal>)
    ensures
        view_of(r) == decimal_product(a@, b@),
{
    let x = rust_decimal::Decimal::from_i128_with_scale(a.mantissa, a.scale);
    let y = rust_decimal::Decimal::from_i128_with_scale(b.mantissa, b.scale);
    x.checked_mul(y).map(|d| Decimal { mantissa: d.mantissa(), scale: d.scale() })
}

/// The integer that a decimal number of the given mantissa and scale stands for when counted
/// in units of ten to the minus `prec`, if it is a whole number of such units.
pub open spec fn scaled(mantissa: int, scale: nat, prec: nat) -> Option<int> {
    if prec >= scale {
        Some(mantissa * pow(10, (prec - scale) as nat))
    } else if mantissa % pow(10, (scale - prec) as nat) == 0 {
        Some(mantissa / pow(10, (scale - prec) as nat))
    } else {
        None
    }
}

/// The field element that stands for a decimal number counted in units of ten to the minus
/// `prec`: there is one if the number is not negative, is a whole number of such units, and
/// that number of units fits in 128 bits.
pub open spec fn number_to_integer_spec(d: (int, nat), prec: nat) -> Option<Fr> {
    if d.0 < 0 {
        None
    } else {
        match scaled(d.0, d.1, prec) {
            Some(q) => if q <= u128::MAX {
                Some(fr_of(q as nat))
            } else {
                None
            },
            None => None,
        }
    }
}

/// `10^e` where it fits in 128 bits.
fn pow10(e: u32) -> (r: Option<u128>)
    ensures
        match r {
            Some(p) => p == pow(10, e as nat),
            None => pow(10, e as nat) > u128::MAX,
        },
{
    let mut r: u128 = 1;
    let mut i: u32 = 0;
    proof {
        lemma_pow0(10);
    }
    while i < e
        invariant
            i <= e,
            r == pow(10, i as nat),
        decreases e - i,
    {
        proof {
            lemma_pow_adds(10, i as nat, 1);
            lemma_pow1(10);
        }
        if r > u128::MAX / 10 {
            proof {
                lemma_pow_grows(10, (i + 1) as nat, e as nat);
            }
            return None;
        }
        r = r * 10;
        i = i + 1;
    }
    Some(r)
}

/// Powers of a positive base do not fall as the exponent grows.
proof fn lemma_pow_grows(b: int, e1: nat, e2: nat)
    requires
        b > 0,
        e1 <= e2,
    ensures
        pow(b, e1) <= pow(b, e2),
{
    lemma_pow_adds(b, e1, (e2 - e1) as nat);
    lemma_pow_positive(b, (e2 - e1) as nat);
    lemma_pow_positive(b, e1);
    let x = pow(b, e1);
    let y = pow(b, (e2 - e1) as nat);
    assert(x <= x * y) by (nonlinear_arith)
        requires
            x > 0,
            y >= 1,
    ;
}

/// Ten to the largest scale fits in 128 bits.
proof fn lemma_pow10_28()
    ensures
        pow(10, 28) == 10000000000000000000000000000,
{
    lemma_pow1(10);
    lemma_pow_adds(10, 1, 1);
    let p2 = pow(10, 2);
    assert(p2 == 100);
    lemma_pow_adds(10, 2, 2);
    let p4 = pow(10, 4);
    assert(p4 == 10000) by (nonlinear_arith)
        requires
            p4 == p2 * p2,
            p2 == 100,
    ;
    lemma_pow_adds(10, 4, 4);
    let p8 = pow(10, 8);
    assert(p8 == 100000000) by (nonlinear_arith)
        requires
            p8 == p4 * p4,
            p4 == 10000,
    ;
    lemma_pow_adds(10, 8, 8);
    let p16 = pow(10, 16);
    assert(p16 == 10000000000000000) by (nonlinear_arith)
        requires
            p16 == p8 * p8,
            p8 == 100000000,
    ;
    lemma_pow_adds(10, 16, 8);
    let p24 = pow(10, 24);
    assert(p24 == 1000000000000000000000000) by (nonlinear_arith)
        requires
            p24 == p16 * p8,
            p16 == 10000000000000000,
            p8 == 100000000,
    ;
    lemma_pow_adds(10, 24, 4);
    let p28 = pow(10, 28);
    assert(p28 == 10000000000000000000000000000) by (nonlinear_arith)
        requires
            p28 == p24 * p4,
            p24 == 1000000000000000000000000,
            p4 == 10000,
    ;
}

impl Decimal {
    /// Every decimal number in executable code has a mantissa of at most 96 bits and a scale
    /// of at most 28.
    #[verifier::type_invariant]
    pub open spec fn valid(&self) -> bool {
        in_range(self@.0, self@.1)
    }

    /// The decimal number `mantissa / 10^scale`, if the two are in range.
    pub fn new(mantissa: i128, scale: u32) -> (r: Option<Decimal>)
        ensures
            match r {
                Some(d) => d@ == (mantissa as int, scale as nat),
                None => !in_range(mantissa as int, scale as nat),
            },
    {
        if scale <= MAX_SCALE && -MAX_MANTISSA <= mantissa && mantissa <= MAX_MANTISSA {
            Some(Decimal { mantissa, scale })
        } else {
            None
        }
    }

    /// The mantissa, with the sign of the number.
    pub fn mantissa(&self) -> (r: i128)
        ensures
            r == self@.0,
    {
        self.mantissa
    }

    /// The scale: the number of digits behind the decimal point.
    pub fn scale(&self) -> (r: u32)
        ensures
            r == self@.1,
    {
        self.scale
    }

    /// Whether the number is below zero.
    pub fn is_sign_negative(&self) -> (r: bool)
        ensures
            r == (self@.0 < 0),
    {
        self.mantissa < 0
    }

    /// The difference of two numbers as `rust_decimal` computes it, or nothing on overflow.
    pub fn checked_sub(&self, other: &Decimal) -> (r: Option<Decimal>)
        ensures
            view_of(r) == decimal_difference(self@, other@),
    {
        checked_difference(self, other)
    }

    /// The product of two numbers as `rust_decimal` computes it, or nothing on overflow.
    pub fn checked_mul(&self, other: &Decimal) -> (r: Option<Decimal>)
        ensures
            view_of(r) == decimal_product(self@, other@),
    {
        checked_product(self, other)
    }
}

/// The field element that stands for a decimal number counted in units of ten to the minus
/// `prec`. There is none where the number is negative, is not a whole number of such units, or
/// does not fit in 128 bits: nothing is rounded.
pub fn number_to_integer(num: &Decimal, prec: u32) -> (r: Option<Fr>)
    ensures
        r == number_to_integer_spec(num@, prec as nat),
{
    proof {
        use_type_invariant(num);
    }
    if num.mantissa < 0 {
        return None;
    }
    let m: u128 = num.mantissa as u128;
    if prec >= num.scale {
        let e = prec - num.scale;
        if m == 0 {
            proof {
                assert(0 * pow(10, e as nat) == 0) by (nonlinear_arith);
            }
            return Some(Fr::from_u128(0));
        }
        match pow10(e) {
            Some(p) => {
                proof {
                    lemma_pow_positive(10, e as nat);
                }
                if m > u128::MAX / p {
                    proof {
                        assert(m * p > u128::MAX) by (nonlinear_arith)
                            requires
                                m > u128::MAX / p,
                                p > 0,
                                m >= 0,
                        ;
                    }
                    None
                } else {
                    proof {
                        assert(m * p <= u128::MAX) by (nonlinear_arith)
                            requires
                                m <= u128::MAX / p,
                                p > 0,
                                m >= 0,
                        ;
                    }
                    Some(Fr::from_u128(m * p))
                }
            },
            None => {
                proof {
                    let p = pow(10, e as nat);
                    assert(m * p > u128::MAX) by (nonlinear_arith)
                        requires
                            m >= 1,
                            p > u128::MAX,
                    ;
                }
                None
            },
        }
    } else {
        let e = num.scale - prec;
        match pow10(e) {
            Some(p) => {
                proof {
                    lemma_pow_positive(10, e as nat);
                }
                if m % p == 0 {
                    Some(Fr::from_u128(m / p))
                } else {
                    None
                }
            },
            None => {
                proof {
                    lemma_pow_grows(10, e as nat, 28);
                    lemma_pow10_28();
                }
                None
            },
        }
    }
}

} // verus!
