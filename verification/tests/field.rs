use halo2_proofs::pasta::group::ff::PrimeField;
use halo2_proofs::pasta::Fp;
use plonkish::field::{FieldElement, MODULUS_REPR};

fn small(v: u64) -> [u8; 32] {
    let mut repr = [0u8; 32];
    repr[..8].copy_from_slice(&v.to_le_bytes());
    repr
}

fn minus_one() -> FieldElement {
    FieldElement::zero().sub(&FieldElement::one())
}

#[test]
fn pasta_bits() {
    let exp: u32 = 13;
    let a = FieldElement::from_u64(exp as u64);
    let got = a.lower_32();
    assert_eq!(exp, got);
}

#[test]
fn from_u64_is_the_little_endian_encoding() {
    assert_eq!(FieldElement::from_u64(0).to_repr(), [0u8; 32]);
    assert_eq!(FieldElement::from_u64(1).to_repr(), small(1));
    assert_eq!(
        FieldElement::from_u64(0x0102_0304_0506_0708).to_repr(),
        small(0x0102_0304_0506_0708)
    );
    assert_eq!(FieldElement::from_u64(u64::MAX).to_repr(), small(u64::MAX));
}

#[test]
fn zero_and_one() {
    assert_eq!(FieldElement::zero(), FieldElement::from_u64(0));
    assert_eq!(FieldElement::one(), FieldElement::from_u64(1));
    assert!(FieldElement::zero().is_zero());
    assert!(!FieldElement::one().is_zero());
    assert!(FieldElement::from_u64(7).same(&FieldElement::from_u64(7)));
    assert!(!FieldElement::from_u64(7).same(&FieldElement::from_u64(8)));
    assert_ne!(FieldElement::from_u64(7), FieldElement::from_u64(8));
}

#[test]
fn addition_is_modular() {
    let two = FieldElement::from_u64(2);
    let three = FieldElement::from_u64(3);
    assert_eq!(two.add(&three), FieldElement::from_u64(5));
    assert_eq!(three.add(&two), FieldElement::from_u64(5));
    assert_eq!(
        FieldElement::from_u64(u64::MAX).add(&FieldElement::one()).to_repr(),
        {
            let mut repr = [0u8; 32];
            repr[8] = 1;
            repr
        }
    );
    // (p - 1) + 1 wraps to zero.
    assert_eq!(minus_one().add(&FieldElement::one()), FieldElement::zero());
    assert_eq!(minus_one().add(&two), FieldElement::one());
}

#[test]
fn subtraction_is_modular() {
    let three = FieldElement::from_u64(3);
    let five = FieldElement::from_u64(5);
    assert_eq!(five.sub(&three), FieldElement::from_u64(2));
    assert_eq!(three.sub(&three), FieldElement::zero());
    // 0 - 1 is p - 1: the modulus with its lowest byte lowered by one.
    let mut expected = MODULUS_REPR;
    expected[0] -= 1;
    assert_eq!(minus_one().to_repr(), expected);
    // 3 - 5 is p - 2.
    assert_eq!(three.sub(&five), minus_one().sub(&FieldElement::one()));
    assert_eq!(three.sub(&five).add(&five), three);
}

#[test]
fn multiplication_is_modular() {
    let six = FieldElement::from_u64(6);
    let seven = FieldElement::from_u64(7);
    assert_eq!(six.mul(&seven), FieldElement::from_u64(42));
    assert_eq!(six.mul(&FieldElement::zero()), FieldElement::zero());
    assert_eq!(six.mul(&FieldElement::one()), six);
    // (p - 1)^2 = 1 and (p - 1) * 2 = p - 2.
    assert_eq!(minus_one().mul(&minus_one()), FieldElement::one());
    assert_eq!(
        minus_one().mul(&FieldElement::from_u64(2)),
        minus_one().sub(&FieldElement::one())
    );
    let big = FieldElement::from_u64(1 << 63);
    let mut expected = [0u8; 32];
    expected[15] = 0x40;
    assert_eq!(big.mul(&big).to_repr(), expected);
}

#[test]
fn lower_32_keeps_the_low_bits() {
    assert_eq!(FieldElement::from_u64(0).lower_32(), 0);
    assert_eq!(FieldElement::from_u64(0x1_0000_0005).lower_32(), 5);
    assert_eq!(FieldElement::from_u64(u64::MAX).lower_32(), u32::MAX);
    // p - 1 ends in 0x00000000.
    assert_eq!(minus_one().lower_32(), 0);
}

#[test]
fn from_repr_accepts_exactly_the_canonical_encodings() {
    assert_eq!(FieldElement::from_repr(small(9)), Some(FieldElement::from_u64(9)));
    assert_eq!(FieldElement::from_repr(MODULUS_REPR), None);
    assert_eq!(FieldElement::from_repr([0xff; 32]), None);
    let mut below = MODULUS_REPR;
    below[0] -= 1;
    assert_eq!(FieldElement::from_repr(below), Some(minus_one()));
    let mut above = MODULUS_REPR;
    above[0] += 1;
    assert_eq!(FieldElement::from_repr(above), None);
    // Larger in a low byte, smaller in a high one: still below the modulus.
    let mut mixed = MODULUS_REPR;
    mixed[31] = 0x3f;
    mixed[1] = 0xff;
    assert!(FieldElement::from_repr(mixed).is_some());
    assert_eq!(FieldElement::from_repr(mixed).unwrap().to_repr(), mixed);
}

#[test]
fn the_modulus_is_the_one_of_the_pallas_base_field() {
    // p = 0 in the field, so the encoding of p itself is refused by pasta too.
    assert!(bool::from(Fp::from_repr(MODULUS_REPR).is_none()));
    let mut below = MODULUS_REPR;
    below[0] -= 1;
    assert_eq!(Fp::from_repr(below).unwrap(), -Fp::one());
}

#[test]
fn arithmetic_agrees_with_pasta() {
    let pairs: [(u64, u64); 4] = [(7, 9), (u64::MAX, u64::MAX), (0, 12345), (1 << 40, 3)];
    for (x, y) in pairs {
        let a = FieldElement::from_u64(x);
        let b = FieldElement::from_u64(y);
        let fa = Fp::from(x);
        let fb = Fp::from(y);
        assert_eq!(a.add(&b).to_repr(), (fa + fb).to_repr());
        assert_eq!(a.sub(&b).to_repr(), (fa - fb).to_repr());
        assert_eq!(a.mul(&b).to_repr(), (fa * fb).to_repr());
        assert_eq!(a.mul(&b).mul(&a).to_repr(), (fa * fb * fa).to_repr());
    }
}
