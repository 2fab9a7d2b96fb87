//! Elements of the Pallas base field.
//!
//! A [`FieldElement`] stores the canonical little-endian encoding of a
//! residue; its view is the residue itself. The arithmetic is done by
//! `pasta_curves`, reached through `halo2_proofs`.
use halo2_proofs::arithmetic::SqrtRatio;
use halo2_proofs::pasta::group::ff::PrimeField;
use halo2_proofs::pasta::Fp;
use vstd::prelude::*;

verus! {

/// The order of the field: the prime `p` of the Pallas curve's base field.
pub open spec fn modulus() -> nat {
    0x40000000000000000000000000000000224698fc094cf91b992d30ed00000001nat
}

/// Sum of two residues.
pub open spec fn field_add(a: nat, b: nat) -> nat {
    (a + b) % modulus()
}

/// Difference of two residues.
pub open spec fn field_sub(a: nat, b: nat) -> nat {
    ((a as int - b as int) % (modulus() as int)) as nat
}

/// Product of two residues.
pub open spec fn field_mul(a: nat, b: nat) -> nat {
    (a * b) % modulus()
}

/// The number that a little-endian byte string encodes.
pub open spec fn le_value(bytes: Seq<u8>) -> nat
    decreases bytes.len(),
{
    if bytes.len() == 0 {
        0
    } else {
        bytes[0] as nat + 256 * le_value(bytes.drop_first())
    }
}

/// An element of the field, held as its canonical 32-byte encoding.
#[derive(Clone, Copy, Debug)]
pub struct FieldElement {
    repr: [u8; 32],
}

impl View for FieldElement {
    type V = nat;

    closed spec fn view(&self) -> nat {
        le_value(self.repr@)
    }
}

/// `Fp::from(u64)` followed by `to_repr`: the element congruent to `v`,
/// which is `v` itself because every `u64` lies below the modulus.
#[verifier::external_body]
fn fp_from_u64(v: u64) -> (r: FieldElement)
    ensures
        r@ == v as nat,
{
    FieldElement { repr: Fp::from(v).to_repr() }
}

/// `Fp`'s `+`: addition modulo the field order, on operands decoded with
/// `from_repr` and with the sum encoded by `to_repr`.
#[verifier::external_body]
fn fp_add(a: &FieldElement, b: &FieldElement) -> (r: FieldElement)
    requires
        a.is_canonical(),
        b.is_canonical(),
    ensures
        r@ == field_add(a@, b@),
{
    let sum = Fp::from_repr(a.repr).unwrap() + Fp::from_repr(b.repr).unwrap();
    FieldElement { repr: sum.to_repr() }
}

/// `Fp`'s `-`: subtraction modulo the field order, on operands decoded with
/// `from_repr` and with the difference encoded by `to_repr`.
#[verifier::external_body]
fn fp_sub(a: &FieldElement, b: &FieldElement) -> (r: FieldElement)
    requires
        a.is_canonical(),
        b.is_canonical(),
    ensures
        r@ == field_sub(a@, b@),
{
    let difference = Fp::from_repr(a.repr).unwrap() - Fp::from_repr(b.repr).unwrap();
    FieldElement { repr: difference.to_repr() }
}

/// `Fp`'s `*`: multiplication modulo the field order, on operands decoded
/// with `from_repr` and with the product encoded by `to_repr`.
#[verifier::external_body]
fn fp_mul(a: &FieldElement, b: &FieldElement) -> (r: FieldElement)
    requires
        a.is_canonical(),
        b.is_canonical(),
    ensures
        r@ == field_mul(a@, b@),
{
    let product = Fp::from_repr(a.repr).unwrap() * Fp::from_repr(b.repr).unwrap();
    FieldElement { repr: product.to_repr() }
}

/// `get_lower_32` on the element decoded with `from_repr`: the low 32 bits
/// of the canonical integer that the element stands for.
#[verifier::external_body]
fn fp_lower_32(a: &FieldElement) -> (r: u32)
    requires
        a.is_canonical(),
    ensures
        r as nat == a@ % 0x1_0000_0000,
{
    Fp::from_repr(a.repr).unwrap().get_lower_32()
}

/// The canonical encoding of the modulus itself, least significant byte first.
pub const MODULUS_REPR: [u8; 32] = [
    0x01, 0x00, 0x00, 0x00, 0xed, 0x30, 0x2d, 0x99,
    0x1b, 0xf9, 0x4c, 0x09, 0xfc, 0x98, 0x46, 0x22,
    0x00, 0x00, 0x00, 0x00, 0x00, 0x00, 0x00, 0x00,
    0x00, 0x00, 0x00, 0x00, 0x00, 0x00, 0x00, 0x40,
];

/// Two byte strings of one length that encode the same number are equal.
pub proof fn lemma_le_value_injective(a: Seq<u8>, b: Seq<u8>)
    requires
        a.len() == b.len(),
        le_value(a) == le_value(b),
    ensures
        a == b,
    decreases a.len(),
{
    if a.len() > 0 {
        let x = le_value(a.drop_first());
        let y = le_value(b.drop_first());
        assert(a[0] as nat + 256 * x == b[0] as nat + 256 * y);
        assert(x == y && a[0] == b[0]);
        lemma_le_value_injective(a.drop_first(), b.drop_first());
        assert(a =~= seq![a[0]] + a.drop_first());
        assert(b =~= seq![b[0]] + b.drop_first());
    } else {
        assert(a =~= b);
    }
}

/// A byte string of zeros encodes zero.
pub proof fn lemma_le_value_zeros(a: Seq<u8>)
    requires
        forall|i: int| 0 <= i < a.len() ==> a[i] == 0,
    ensures
        le_value(a) == 0,
    decreases a.len(),
{
    if a.len() > 0 {
        lemma_le_value_zeros(a.drop_first());
    }
}

/// What one more low byte adds to the number encoded by the bytes above it.
proof fn lemma_le_value_skip(a: Seq<u8>, i: int)
    requires
        0 <= i < a.len(),
    ensures
        le_value(a.skip(i)) == a[i] as nat + 256 * le_value(a.skip(i + 1)),
{
    assert(a.skip(i).drop_first() =~= a.skip(i + 1));
}

/// `MODULUS_REPR` encodes the modulus.
proof fn lemma_modulus_repr()
    ensures
        le_value(MODULUS_REPR@) == modulus(),
{
    reveal_with_fuel(le_value, 33);
    let m = MODULUS_REPR@;
    assert(m.len() == 32);
}

/// A residue minus itself is zero.
pub proof fn lemma_field_sub_self(x: nat)
    ensures
        field_sub(x, x) == 0,
{
}

impl FieldElement {
    /// Whether the stored encoding is the canonical one, below the modulus.
    /// Every value that executable code can hold satisfies it.
    #[verifier::type_invariant]
    pub closed spec fn is_canonical(self) -> bool {
        le_value(self.repr@) < modulus()
    }

    /// The additive identity.
    pub fn zero() -> (r: FieldElement)
        ensures
            r@ == 0,
    {
        let repr = [0u8; 32];
        proof {
            lemma_le_value_zeros(repr@);
        }
        FieldElement { repr }
    }

    /// The multiplicative identity.
    pub fn one() -> (r: FieldElement)
        ensures
            r@ == 1,
    {
        fp_from_u64(1)
    }

    /// The element that the small integer `v` stands for.
    pub fn from_u64(v: u64) -> (r: FieldElement)
        ensures
            r@ == v as nat,
    {
        fp_from_u64(v)
    }

    /// Decodes a little-endian encoding; `None` unless it is canonical.
    pub fn from_repr(bytes: [u8; 32]) -> (r: Option<FieldElement>)
        ensures
            r is Some <==> le_value(bytes@) < modulus(),
            r is Some ==> r->Some_0@ == le_value(bytes@),
    {
        let mut below = false;
        let mut level = true;
        let mut i: usize = 32;
        while i > 0
            invariant
                i <= 32,
                below == (le_value(bytes@.skip(i as int)) < le_value(
                    MODULUS_REPR@.skip(i as int),
                )),
                level == (le_value(bytes@.skip(i as int)) == le_value(
                    MODULUS_REPR@.skip(i as int),
                )),
            decreases i,
        {
            i -= 1;
            proof {
                lemma_le_value_skip(bytes@, i as int);
                lemma_le_value_skip(MODULUS_REPR@, i as int);
            }
            if level {
                below = bytes[i] < MODULUS_REPR[i];
                level = bytes[i] == MODULUS_REPR[i];
            }
        }
        proof {
            lemma_modulus_repr();
            assert(bytes@.skip(0) =~= bytes@);
            assert(MODULUS_REPR@.skip(0) =~= MODULUS_REPR@);
        }
        if below {
            Some(FieldElement { repr: bytes })
        } else {
            None
        }
    }

    /// The canonical little-endian encoding.
    pub fn to_repr(&self) -> (r: [u8; 32])
        ensures
            le_value(r@) == self@,
            self@ < modulus(),
    {
        proof {
            use_type_invariant(self);
        }
        self.repr
    }

    /// Field addition.
    pub fn add(&self, rhs: &FieldElement) -> (r: FieldElement)
        ensures
            r@ == field_add(self@, rhs@),
    {
        proof {
            use_type_invariant(self);
            use_type_invariant(rhs);
        }
        fp_add(self, rhs)
    }

    /// Field subtraction.
    pub fn sub(&self, rhs: &FieldElement) -> (r: FieldElement)
        ensures
            r@ == field_sub(self@, rhs@),
    {
        proof {
            use_type_invariant(self);
            use_type_invariant(rhs);
        }
        fp_sub(self, rhs)
    }

    /// Field multiplication.
    pub fn mul(&self, rhs: &FieldElement) -> (r: FieldElement)
        ensures
            r@ == field_mul(self@, rhs@),
    {
        proof {
            use_type_invariant(self);
            use_type_invariant(rhs);
        }
        fp_mul(self, rhs)
    }

    /// The low 32 bits of the canonical integer.
    pub fn lower_32(&self) -> (r: u32)
        ensures
            r as nat == self@ % 0x1_0000_0000,
    {
        proof {
            use_type_invariant(self);
        }
        fp_lower_32(self)
    }

    /// Whether this is the additive identity.
    pub fn is_zero(&self) -> (r: bool)
        ensures
            r == (self@ == 0),
    {
        let zero = FieldElement::zero();
        self.same(&zero)
    }

    /// Whether two elements are the same residue.
    pub fn same(&self, other: &FieldElement) -> (r: bool)
        ensures
            r == (self@ == other@),
    {
        let mut i: usize = 0;
        while i < 32
            invariant
                i <= 32,
                forall|k: int| 0 <= k < i ==> self.repr@[k] == other.repr@[k],
            decreases 32 - i,
        {
            if self.repr[i] != other.repr[i] {
                proof {
                    if self@ == other@ {
                        lemma_le_value_injective(self.repr@, other.repr@);
                    }
                }
                return false;
            }
            i += 1;
        }
        assert(self.repr@ =~= other.repr@);
        true
    }
}

impl PartialEq for FieldElement {
    fn eq(&self, other: &FieldElement) -> (r: bool) {
        self.same(other)
    }
}

impl Eq for FieldElement {

}

impl vstd::std_specs::cmp::PartialEqSpecImpl for FieldElement {
    open spec fn obeys_eq_spec() -> bool {
        true
    }

    open spec fn eq_spec(&self, other: &FieldElement) -> bool {
        self@ == other@
    }
}

} // verus!
