//! Elements of the scalar field of BN254 and the Poseidon hash over them.
//!
//! An element is held as four 64-bit limbs in canonical (fully reduced) form. Field arithmetic
//! and hashing are done by the `ff_ce` and `poseidon-rs` crates; ordering and conversions from
//! and to machine integers are done here on the limbs.

use ff_ce::Field;
use ff_ce::PrimeField;
use vstd::prelude::*;

verus! {

/// The weight of one limb, `2^64`.
pub open spec fn radix() -> nat {
    0x1_0000_0000_0000_0000
}

/// The number that four limbs stand for, least significant limb first.
pub open spec fn limbs_value(l0: u64, l1: u64, l2: u64, l3: u64) -> nat {
    l0 as nat + radix() * (l1 as nat + radix() * (l2 as nat + radix() * (l3 as nat)))
}

/// The order of the field.
pub open spec fn modulus() -> nat {
    limbs_value(0x43e1f593f0000001, 0x2833e84879b97091, 0xb85045b68181585d, 0x30644e72e131a029)
}

/// The sum of two numbers in the field.
pub open spec fn field_sum(a: nat, b: nat) -> nat {
    (a + b) % modulus()
}

/// The difference of two numbers in the field.
pub open spec fn field_diff(a: nat, b: nat) -> nat {
    ((a + modulus() - b) % (modulus() as int)) as nat
}

/// A field element. Its view is the natural number below [`modulus`] that it stands for.
#[derive(Clone, Copy, Debug, PartialEq, Eq, Structural)]
pub struct Fr {
    l0: u64,
    l1: u64,
    l2: u64,
    l3: u64,
}

impl View for Fr {
    type V = nat;

    closed spec fn view(&self) -> nat {
        limbs_value(self.l0, self.l1, self.l2, self.l3)
    }
}

impl DeepView for Fr {
    type V = nat;

    open spec fn deep_view(&self) -> nat {
        self@
    }
}

/// The element whose limbs are the digits of `n` to the base `2^64`.
pub closed spec fn fr_of(n: nat) -> Fr {
    Fr {
        l0: (n % radix()) as u64,
        l1: ((n / radix()) % radix()) as u64,
        l2: ((n / radix() / radix()) % radix()) as u64,
        l3: ((n / radix() / radix() / radix()) % radix()) as u64,
    }
}

/// An element is determined by the number it stands for.
pub proof fn lemma_fr_of_view(f: Fr)
    ensures
        fr_of(f@) == f,
{
    let r = radix() as int;
    let a0 = f.l0 as int;
    let a1 = f.l1 as int;
    let a2 = f.l2 as int;
    let a3 = f.l3 as int;
    let n2 = a2 + r * a3;
    let n1 = a1 + r * n2;
    let n0 = a0 + r * n1;
    assert(n0 == f@);
    vstd::arithmetic::div_mod::lemma_fundamental_div_mod_converse(n0, r, n1, a0);
    vstd::arithmetic::div_mod::lemma_fundamental_div_mod_converse(n1, r, n2, a1);
    vstd::arithmetic::div_mod::lemma_fundamental_div_mod_converse(n2, r, a3, a2);
    assert(a3 % r == a3);
}

/// The element that stands for a number below the modulus stands for that number.
pub proof fn lemma_fr_of_value(n: nat)
    requires
        n < modulus(),
    ensures
        fr_of(n)@ == n,
{
    let r = radix() as int;
    let n0 = n as int;
    let n1 = n0 / r;
    let n2 = n1 / r;
    let n3 = n2 / r;
    vstd::arithmetic::div_mod::lemma_fundamental_div_mod(n0, r);
    vstd::arithmetic::div_mod::lemma_fundamental_div_mod(n1, r);
    vstd::arithmetic::div_mod::lemma_fundamental_div_mod(n2, r);
    assert(n3 < r);
    vstd::arithmetic::div_mod::lemma_small_mod(n3 as nat, r as nat);
}

/// The number that Poseidon, with the parameters of `poseidon-rs`, gives for a list of numbers.
pub uninterp spec fn poseidon(inputs: Seq<nat>) -> nat;

/// The hash of a list of field elements, as a field element.
pub open spec fn hash_spec(inputs: Seq<Fr>) -> Fr {
    fr_of(poseidon(inputs.map_values(|f: Fr| f@)))
}

/// The hash of a pair, the node function of the Merkle trees.
pub open spec fn hash2(left: Fr, right: Fr) -> Fr {
    hash_spec(seq![left, right])
}

/// The element that stands for a machine integer.
pub open spec fn fr_of_u32(x: u32) -> Fr {
    fr_of(x as nat)
}

/// The sum of two elements.
pub open spec fn fr_add(a: Fr, b: Fr) -> Fr {
    fr_of(field_sum(a@, b@))
}

/// The difference of two elements.
pub open spec fn fr_sub(a: Fr, b: Fr) -> Fr {
    fr_of(field_diff(a@, b@))
}

/// Whether the first four limbs stand for a smaller number than the last four.
fn limbs_less(a0: u64, a1: u64, a2: u64, a3: u64, b0: u64, b1: u64, b2: u64, b3: u64) -> (r: bool)
    ensures
        r == (limbs_value(a0, a1, a2, a3) < limbs_value(b0, b1, b2, b3)),
{
    if a3 != b3 {
        a3 < b3
    } else if a2 != b2 {
        a2 < b2
    } else if a1 != b1 {
        a1 < b1
    } else {
        a0 < b0
    }
}

/// Calls `add_assign` of `ff_ce::Field` on `poseidon_rs::Fr`: addition in the field, so the
/// result stands for the sum of the two numbers reduced by the modulus. The limbs go in through
/// `from_repr`, which accepts them because every [`Fr`] is reduced, and come out through
/// `into_repr`, which gives the canonical form.
#[verifier::external_body]
fn field_add(a: &Fr, b: &Fr) -> (r: Fr)
    ensures
        r@ == field_sum(a@, b@),
{
    let mut x = poseidon_rs::Fr::from_repr(poseidon_rs::FrRepr([a.l0, a.l1, a.l2, a.l3])).unwrap();
    let y = poseidon_rs::Fr::from_repr(poseidon_rs::FrRepr([b.l0, b.l1, b.l2, b.l3])).unwrap();
    x.add_assign(&y);
    let l = x.into_repr().0;
    Fr { l0: l[0], l1: l[1], l2: l[2], l3: l[3] }
}

/// Calls `sub_assign` of `ff_ce::Field` on `poseidon_rs::Fr`: subtraction in the field, so the
/// result stands for the difference of the two numbers, with the modulus added where the second
/// is the larger. The limbs go in through `from_repr` and come out through `into_repr`, as in
/// [`field_add`].
#[verifier::external_body]
fn field_sub(a: &Fr, b: &Fr) -> (r: Fr)
    ensures
        r@ == field_diff(a@, b@),
{
    let mut x = poseidon_rs::Fr::from_repr(poseidon_rs::FrRepr([a.l0, a.l1, a.l2, a.l3])).unwrap();
    let y = poseidon_rs::Fr::from_repr(poseidon_rs::FrRepr([b.l0, b.l1, b.l2, b.l3])).unwrap();
    x.sub_assign(&y);
    let l = x.into_repr().0;
    Fr { l0: l[0], l1: l[1], l2: l[2], l3: l[3] }
}

impl Fr {
    /// Every element in executable code stands for a number below the modulus.
    #[verifier::type_invariant]
    pub open spec fn reduced(&self) -> bool {
        self@ < modulus()
    }

    /// The additive identity.
    pub fn zero() -> (r: Fr)
        ensures
            r@ == 0,
            r == fr_of(0),
    {
        let r = Fr { l0: 0, l1: 0, l2: 0, l3: 0 };
        proof {
            lemma_fr_of_view(r);
        }
        r
    }

    /// The multiplicative identity.
    pub fn one() -> (r: Fr)
        ensures
            r@ == 1,
            r == fr_of(1),
    {
        let r = Fr { l0: 1, l1: 0, l2: 0, l3: 0 };
        proof {
            lemma_fr_of_view(r);
        }
        r
    }

    /// The element that stands for `x`.
    pub fn from_u32(x: u32) -> (r: Fr)
        ensures
            r@ == x,
            r == fr_of_u32(x),
    {
        let r = Fr { l0: x as u64, l1: 0, l2: 0, l3: 0 };
        proof {
            lemma_fr_of_view(r);
        }
        r
    }

    /// The element that stands for `x`.
    pub fn from_u64(x: u64) -> (r: Fr)
        ensures
            r@ == x,
            r == fr_of(x as nat),
    {
        let r = Fr { l0: x, l1: 0, l2: 0, l3: 0 };
        proof {
            lemma_fr_of_view(r);
        }
        r
    }

    /// The element that stands for `x`.
    pub fn from_u128(x: u128) -> (r: Fr)
        ensures
            r@ == x,
            r == fr_of(x as nat),
    {
        let lo: u64 = (x % 0x1_0000_0000_0000_0000) as u64;
        let hi: u64 = (x / 0x1_0000_0000_0000_0000) as u64;
        let r = Fr { l0: lo, l1: hi, l2: 0, l3: 0 };
        proof {
            lemma_fr_of_view(r);
        }
        r
    }

    /// The element with the given limbs, least significant first, if they stand for a number
    /// below the modulus.
    pub fn from_limbs(l0: u64, l1: u64, l2: u64, l3: u64) -> (r: Option<Fr>)
        ensures
            match r {
                Some(f) => f@ == limbs_value(l0, l1, l2, l3),
                None => limbs_value(l0, l1, l2, l3) >= modulus(),
            },
    {
        if limbs_less(
            l0,
            l1,
            l2,
            l3,
            0x43e1f593f0000001,
            0x2833e84879b97091,
            0xb85045b68181585d,
            0x30644e72e131a029,
        ) {
            Some(Fr { l0, l1, l2, l3 })
        } else {
            None
        }
    }

    /// The four limbs, least significant first.
    pub fn to_limbs(&self) -> (r: (u64, u64, u64, u64))
        ensures
            limbs_value(r.0, r.1, r.2, r.3) == self@,
    {
        (self.l0, self.l1, self.l2, self.l3)
    }

    /// The number as a `u32`, if it is small enough.
    pub fn to_u32(&self) -> (r: Option<u32>)
        ensures
            match r {
                Some(x) => x == self@,
                None => self@ > u32::MAX,
            },
    {
        if self.l3 == 0 && self.l2 == 0 && self.l1 == 0 && self.l0 <= 0xffff_ffff {
            Some(self.l0 as u32)
        } else {
            None
        }
    }

    /// Whether the element is the additive identity.
    pub fn is_zero(&self) -> (r: bool)
        ensures
            r == (self@ == 0),
    {
        self.l0 == 0 && self.l1 == 0 && self.l2 == 0 && self.l3 == 0
    }

    /// The number divided by ten, and the remainder: the last decimal digit.
    pub fn div_rem_10(&self) -> (r: (Fr, u8))
        ensures
            r.0@ == self@ / 10,
            r.1 == self@ % 10,
    {
        proof {
            use_type_invariant(self);
        }
        let c3: u128 = self.l3 as u128;
        let q3: u64 = (c3 / 10) as u64;
        let c2: u128 = (c3 % 10) * 0x1_0000_0000_0000_0000 + self.l2 as u128;
        let q2: u64 = (c2 / 10) as u64;
        let c1: u128 = (c2 % 10) * 0x1_0000_0000_0000_0000 + self.l1 as u128;
        let q1: u64 = (c1 / 10) as u64;
        let c0: u128 = (c1 % 10) * 0x1_0000_0000_0000_0000 + self.l0 as u128;
        let q0: u64 = (c0 / 10) as u64;
        let rem: u8 = (c0 % 10) as u8;
        proof {
            let v = self@ as int;
            let q = limbs_value(q0, q1, q2, q3) as int;
            assert(v == 10 * q + rem);
            vstd::arithmetic::div_mod::lemma_fundamental_div_mod_converse(v, 10, q, rem as int);
        }
        (Fr { l0: q0, l1: q1, l2: q2, l3: q3 }, rem)
    }

    /// The sum in the field.
    pub fn add(&self, other: &Fr) -> (r: Fr)
        ensures
            r@ == field_sum(self@, other@),
            r == fr_add(*self, *other),
            self@ + other@ < modulus() ==> r@ == self@ + other@,
    {
        let r = field_add(self, other);
        proof {
            lemma_fr_of_view(r);
            if self@ + other@ < modulus() {
                vstd::arithmetic::div_mod::lemma_small_mod(self@ + other@, modulus());
            }
        }
        r
    }

    /// The difference in the field.
    pub fn sub(&self, other: &Fr) -> (r: Fr)
        ensures
            r@ == field_diff(self@, other@),
            r == fr_sub(*self, *other),
            self@ >= other@ ==> r@ == self@ - other@,
    {
        proof {
            use_type_invariant(self);
            use_type_invariant(other);
            if self@ >= other@ {
                let d = (self@ - other@) as int;
                let m = modulus() as int;
                vstd::arithmetic::div_mod::lemma_fundamental_div_mod_converse(d + m, m, 1, d);
            }
        }
        let r = field_sub(self, other);
        proof {
            lemma_fr_of_view(r);
        }
        r
    }

    /// Whether this element stands for a smaller number than the other.
    pub fn lt(&self, other: &Fr) -> (r: bool)
        ensures
            r == (self@ < other@),
    {
        limbs_less(self.l0, self.l1, self.l2, self.l3, other.l0, other.l1, other.l2, other.l3)
    }

    /// Whether this element stands for a larger number than the other.
    pub fn gt(&self, other: &Fr) -> (r: bool)
        ensures
            r == (self@ > other@),
    {
        other.lt(self)
    }

    /// Whether this element stands for a number at least as large as the other.
    pub fn ge(&self, other: &Fr) -> (r: bool)
        ensures
            r == (self@ >= other@),
    {
        !self.lt(other)
    }
}

/// The hasher of `poseidon-rs` with its round constants. Nothing is known of a value of it.
#[verifier::external_type_specification]
#[verifier::external_body]
pub struct ExPoseidon(poseidon_rs::Poseidon);

/// Calls `Poseidon::new` of `poseidon-rs`, which loads the round constants. Nothing is claimed
/// of the result.
#[verifier::external_body]
fn poseidon_new() -> poseidon_rs::Poseidon {
    poseidon_rs::Poseidon::new()
}

/// Calls `Poseidon::hash` of `poseidon-rs`, which accepts between one and sixteen elements and
/// computes a permutation of them that depends on nothing but them and the round constants,
/// which are fixed: the result stands for the Poseidon hash of the numbers that the inputs
/// stand for. The limbs go in through `from_repr` and come out through `into_repr`, as in
/// [`field_add`].
#[verifier::external_body]
fn poseidon_hash(p: &poseidon_rs::Poseidon, inputs: &Vec<Fr>) -> (r: Fr)
    requires
        1 <= inputs.len() <= 16,
    ensures
        r@ == poseidon(inputs.deep_view()),
{
    let mut v = Vec::new();
    for f in inputs.iter() {
        v.push(poseidon_rs::Fr::from_repr(poseidon_rs::FrRepr([f.l0, f.l1, f.l2, f.l3])).unwrap());
    }
    let l = p.hash(v).unwrap().into_repr().0;
    Fr { l0: l[0], l1: l[1], l2: l[2], l3: l[3] }
}

/// The Poseidon hash function with its round constants loaded.
pub struct Hasher {
    inner: poseidon_rs::Poseidon,
}

impl Hasher {
    /// A hasher, with the round constants loaded.
    pub fn new() -> Hasher {
        Hasher { inner: poseidon_new() }
    }

    /// The hash of between one and sixteen elements.
    pub fn hash(&self, inputs: &Vec<Fr>) -> (r: Fr)
        requires
            1 <= inputs.len() <= 16,
        ensures
            r == hash_spec(inputs@),
    {
        let r = poseidon_hash(&self.inner, inputs);
        proof {
            lemma_fr_of_view(r);
            assert(inputs.deep_view() =~= inputs@.map_values(|f: Fr| f@));
        }
        r
    }

    /// The hash of a pair.
    pub fn hash_pair(&self, left: Fr, right: Fr) -> (r: Fr)
        ensures
            r == hash2(left, right),
    {
        let mut v: Vec<Fr> = Vec::new();
        v.push(left);
        v.push(right);
        assert(v@ =~= seq![left, right]);
        self.hash(&v)
    }
}

} // verus!
