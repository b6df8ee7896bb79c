use ff_ce::{Field, PrimeField};
use state_keeper::field::{Fr, Hasher};

fn outside(x: &Fr) -> poseidon_rs::Fr {
    let (l0, l1, l2, l3) = x.to_limbs();
    poseidon_rs::Fr::from_repr(poseidon_rs::FrRepr([l0, l1, l2, l3])).unwrap()
}

fn inside(x: &poseidon_rs::Fr) -> Fr {
    let l = x.into_repr().0;
    Fr::from_limbs(l[0], l[1], l[2], l[3]).unwrap()
}

// the modulus of the field, least significant limb first
const M0: u64 = 0x43e1f593f0000001;
const M1: u64 = 0x2833e84879b97091;
const M2: u64 = 0xb85045b68181585d;
const M3: u64 = 0x30644e72e131a029;

#[test]
fn zero_and_one() {
    assert_eq!(Fr::zero().to_limbs(), (0, 0, 0, 0));
    assert_eq!(Fr::one().to_limbs(), (1, 0, 0, 0));
    assert!(Fr::zero().is_zero());
    assert!(!Fr::one().is_zero());
    assert_eq!(inside(&poseidon_rs::Fr::zero()), Fr::zero());
    assert_eq!(inside(&poseidon_rs::Fr::one()), Fr::one());
}

#[test]
fn from_machine_integers() {
    assert_eq!(Fr::from_u32(7).to_limbs(), (7, 0, 0, 0));
    assert_eq!(Fr::from_u64(u64::MAX).to_limbs(), (u64::MAX, 0, 0, 0));
    assert_eq!(Fr::from_u128(u128::MAX).to_limbs(), (u64::MAX, u64::MAX, 0, 0));
    assert_eq!(Fr::from_u128((5u128 << 64) + 9).to_limbs(), (9, 5, 0, 0));
    assert_eq!(outside(&Fr::from_u32(1_000_000)), poseidon_rs::Fr::from_str("1000000").unwrap());
}

#[test]
fn to_u32_only_when_small() {
    assert_eq!(Fr::from_u32(u32::MAX).to_u32(), Some(u32::MAX));
    assert_eq!(Fr::from_u32(0).to_u32(), Some(0));
    assert_eq!(Fr::from_u64(1u64 << 32).to_u32(), None);
    assert_eq!(Fr::from_u128(1u128 << 64).to_u32(), None);
}

#[test]
fn from_limbs_refuses_the_modulus_and_above() {
    assert!(Fr::from_limbs(M0, M1, M2, M3).is_none());
    assert!(Fr::from_limbs(M0 + 1, M1, M2, M3).is_none());
    assert!(Fr::from_limbs(0, 0, 0, M3 + 1).is_none());
    assert!(Fr::from_limbs(u64::MAX, u64::MAX, u64::MAX, u64::MAX).is_none());
    let top = Fr::from_limbs(M0 - 1, M1, M2, M3).unwrap();
    assert_eq!(top.to_limbs(), (M0 - 1, M1, M2, M3));
}

#[test]
fn addition_is_that_of_the_field() {
    assert_eq!(Fr::from_u32(1).add(&Fr::from_u32(2)), Fr::from_u32(3));
    assert_eq!(Fr::from_u64(u64::MAX).add(&Fr::one()).to_limbs(), (0, 1, 0, 0));
    let top = Fr::from_limbs(M0 - 1, M1, M2, M3).unwrap();
    assert_eq!(top.add(&Fr::one()), Fr::zero());
    assert_eq!(top.add(&Fr::from_u32(5)), Fr::from_u32(4));
    let mut x = outside(&top);
    x.add_assign(&outside(&Fr::from_u32(5)));
    assert_eq!(inside(&x), Fr::from_u32(4));
}

#[test]
fn subtraction_is_that_of_the_field() {
    assert_eq!(Fr::from_u32(5).sub(&Fr::from_u32(3)), Fr::from_u32(2));
    assert_eq!(Fr::from_u32(5).sub(&Fr::from_u32(5)), Fr::zero());
    let top = Fr::from_limbs(M0 - 1, M1, M2, M3).unwrap();
    assert_eq!(Fr::zero().sub(&Fr::one()), top);
    assert_eq!(Fr::from_u32(3).sub(&Fr::from_u32(5)).to_limbs(), (M0 - 2, M1, M2, M3));
}

#[test]
fn order_is_that_of_the_numbers() {
    let a = Fr::from_u32(5);
    let b = Fr::from_u128(1u128 << 64);
    let c = Fr::from_limbs(0, 0, 1, 0).unwrap();
    let d = Fr::from_limbs(0, 0, 0, 1).unwrap();
    assert!(a.lt(&b) && b.lt(&c) && c.lt(&d));
    assert!(d.gt(&c) && c.gt(&b) && b.gt(&a));
    assert!(!a.lt(&a) && !a.gt(&a) && a.ge(&a));
    assert!(b.ge(&a) && !a.ge(&b));
    let x = Fr::from_limbs(u64::MAX, 0, 0, 0).unwrap();
    let y = Fr::from_limbs(0, 1, 0, 0).unwrap();
    assert!(x.lt(&y));
}

#[test]
fn hash_is_poseidon() {
    let h = Hasher::new();
    let p = poseidon_rs::Poseidon::new();
    let one = Fr::one();
    let two = Fr::from_u32(2);
    let expected = p.hash(vec![outside(&one), outside(&two)]).unwrap();
    assert_eq!(h.hash_pair(one, two), inside(&expected));
    assert_eq!(h.hash(&vec![one, two]), inside(&expected));
    assert_ne!(h.hash_pair(one, two), h.hash_pair(two, one));
    assert_ne!(h.hash(&vec![one]), one);
    // the value that the Poseidon of circomlib gives for [1, 2]
    assert_eq!(
        outside(&h.hash_pair(one, two)),
        poseidon_rs::Fr::from_str(
            "7853200120776062878684798364095072458815029376092732009249414926327459813530"
        )
        .unwrap()
    );
    let seven = vec![Fr::zero(); 7];
    let expected7 = p.hash(vec![poseidon_rs::Fr::zero(); 7]).unwrap();
    assert_eq!(h.hash(&seven), inside(&expected7));
    let sixteen = vec![Fr::from_u32(3); 16];
    let expected16 = p.hash(vec![outside(&Fr::from_u32(3)); 16]).unwrap();
    assert_eq!(h.hash(&sixteen), inside(&expected16));
}
