//! The two prime fields of the Edwards-BLS12 curve, held as plain limbs.
//!
//! Arithmetic is done by `snarkvm_fields`; this module states what each call
//! returns in terms of the number a value stands for.

use crate::bits::{bits_value, bytes_value, value_bits};
use snarkvm_curves::edwards_bls12::{Fq, Fr};
use snarkvm_fields::PrimeField;
use snarkvm_utilities::{BigInteger256, FromBits, FromBytes, ToBits, ToBytes, UniformRand};
use vstd::prelude::*;

verus! {

/// Number of bits of a base-field element that carry message data: one less
/// than the bit length of the field's order, so that any such bit string is
/// below the order.
pub const CAPACITY: usize = 252;

/// Number of bits in the limbs of a field element.
pub const REPR_BITS: usize = 256;

/// Number of bytes in the canonical encoding of a field element.
pub const REPR_BYTES: usize = 32;

/// Bit length of the scalar field's order.
pub const SCALAR_BITS: usize = 251;

/// The order of the base field, a 253-bit prime.
pub open spec fn field_modulus() -> nat {
    8444461749428370424248824938781546531375899335154063827935233455917409239041nat
}

/// The order of the scalar field, a 251-bit prime: the size of the curve's
/// prime-order subgroup.
pub open spec fn scalar_modulus() -> nat {
    2111115437357092606062206234695386632838870926408408195193685246394721360383nat
}

/// The number that four 64-bit limbs, least significant first, stand for.
pub open spec fn limbs_value(limbs: Seq<u64>) -> nat {
    (limbs[0] as nat) + (limbs[1] as nat) * 0x1_0000_0000_0000_0000nat + (limbs[2] as nat)
        * 0x1_0000_0000_0000_0000_0000_0000_0000_0000nat + (limbs[3] as nat)
        * 0x1_0000_0000_0000_0000_0000_0000_0000_0000_0000_0000_0000_0000nat
}

/// Whether `limbs` stands for a smaller number than `bound`.
fn limbs_below(limbs: &[u64; 4], bound: &[u64; 4]) -> (below: bool)
    ensures
        below == (limbs_value(limbs@) < limbs_value(bound@)),
{
    if limbs[3] != bound[3] {
        limbs[3] < bound[3]
    } else if limbs[2] != bound[2] {
        limbs[2] < bound[2]
    } else if limbs[1] != bound[1] {
        limbs[1] < bound[1]
    } else {
        limbs[0] < bound[0]
    }
}

/// An element of the base field: a coordinate, a symmetric key, a commitment,
/// a message or ciphertext element.
#[derive(Clone, Copy, Debug, PartialEq, Eq, Hash)]
pub struct FieldElement {
    pub(crate) limbs: [u64; 4],
}

impl View for FieldElement {
    type V = nat;

    closed spec fn view(&self) -> nat {
        limbs_value(self.limbs@)
    }
}

impl FieldElement {
    /// The element is reduced: it stands for a number below the field's order.
    #[verifier::type_invariant]
    pub open spec fn wf(&self) -> bool {
        self@ < field_modulus()
    }

    /// The element that `limbs`, least significant first, stand for, if that
    /// number is below the field's order.
    pub fn from_limbs(limbs: [u64; 4]) -> (r: Option<FieldElement>)
        ensures
            r is Some <==> limbs_value(limbs@) < field_modulus(),
            r matches Some(e) ==> e@ == limbs_value(limbs@) && e.wf(),
    {
        let modulus: [u64; 4] = [
            725501752471715841,
            6461107452199829505,
            6968279316240510977,
            1345280370688173398,
        ];
        assert(limbs_value(modulus@) == field_modulus());
        if limbs_below(&limbs, &modulus) {
            Some(FieldElement { limbs })
        } else {
            None
        }
    }

    /// The limbs of the element's number, least significant first.
    pub fn to_limbs(&self) -> (limbs: [u64; 4])
        ensures
            limbs_value(limbs@) == self@,
    {
        self.limbs
    }

    /// The field's zero.
    pub fn zero() -> (r: FieldElement)
        ensures
            r@ == 0,
    {
        FieldElement { limbs: [0, 0, 0, 0] }
    }

    /// The field's one.
    pub fn one() -> (r: FieldElement)
        ensures
            r@ == 1,
    {
        FieldElement { limbs: [1, 0, 0, 0] }
    }
}

/// The numbers that a sequence of field elements stands for.
pub open spec fn values(elements: Seq<FieldElement>) -> Seq<nat> {
    Seq::new(elements.len(), |i: int| elements[i]@)
}

/// Every number of the sequence is below the base field's order.
pub open spec fn all_reduced(numbers: Seq<nat>) -> bool {
    forall|i: int| 0 <= i < numbers.len() ==> #[trigger] numbers[i] < field_modulus()
}

/// `BigInteger256::from_bits_le` then `Fq::from_repr`: the element whose
/// binary digits, least significant first, are `bits`, if that number is below
/// the field's order. Inputs longer than the limbs can hold are left out.
#[verifier::external_body]
pub(crate) fn base_from_bits_le(bits: &[bool]) -> (r: Option<FieldElement>)
    requires
        bits@.len() <= REPR_BITS,
    ensures
        r is Some <==> bits_value(bits@) < field_modulus(),
        r matches Some(e) ==> e@ == bits_value(bits@) && e.wf(),
{
    match Fq::from_repr(BigInteger256::from_bits_le(bits)) {
        Some(e) => Some(FieldElement { limbs: e.to_repr().0 }),
        None => None,
    }
}

/// `Fq::to_repr` then `BigInteger256::to_bits_le`: the 256 binary digits of the
/// element's number, least significant first.
#[verifier::external_body]
pub(crate) fn base_to_bits_le(e: &FieldElement) -> (r: Vec<bool>)
    requires
        e.wf(),
    ensures
        r@ == value_bits(e@, REPR_BITS as nat),
{
    Fq::from_repr(BigInteger256(e.limbs)).unwrap().to_repr().to_bits_le()
}

/// `Fq`'s `+`: the sum in the field.
#[verifier::external_body]
pub(crate) fn base_add(a: &FieldElement, b: &FieldElement) -> (r: FieldElement)
    requires
        a.wf(),
        b.wf(),
    ensures
        r.wf(),
        r@ == (a@ + b@) % field_modulus(),
{
    let x = Fq::from_repr(BigInteger256(a.limbs)).unwrap();
    let y = Fq::from_repr(BigInteger256(b.limbs)).unwrap();
    FieldElement { limbs: (x + y).to_repr().0 }
}

/// `Fq`'s `-`: the difference in the field.
#[verifier::external_body]
pub(crate) fn base_sub(a: &FieldElement, b: &FieldElement) -> (r: FieldElement)
    requires
        a.wf(),
        b.wf(),
    ensures
        r.wf(),
        r@ == (a@ - b@) % (field_modulus() as int),
{
    let x = Fq::from_repr(BigInteger256(a.limbs)).unwrap();
    let y = Fq::from_repr(BigInteger256(b.limbs)).unwrap();
    FieldElement { limbs: (x - y).to_repr().0 }
}

/// `Fq::from_bytes_le_mod_order`: the base-256 number that `bytes` spell,
/// least significant first, reduced into the field.
#[verifier::external_body]
pub(crate) fn base_from_bytes_le_mod_order(bytes: &[u8]) -> (r: FieldElement)
    ensures
        r.wf(),
        r@ == bytes_value(bytes@) % field_modulus(),
{
    FieldElement { limbs: Fq::from_bytes_le_mod_order(bytes).to_repr().0 }
}

/// The bytes that hold one encoded field element at the front of `bytes`.
pub open spec fn leading(bytes: Seq<u8>) -> Seq<u8> {
    bytes.subrange(0, REPR_BYTES as int)
}

/// `bytes` starts with the canonical encoding of a field element: 32 bytes
/// that spell a number below the field's order.
pub open spec fn holds_element(bytes: Seq<u8>) -> bool {
    bytes.len() >= REPR_BYTES && bytes_value(leading(bytes)) < field_modulus()
}

/// `Fq::read_le` on a byte slice: the element whose canonical encoding is the
/// first 32 bytes, if there are that many and they spell a number below the
/// field's order.
#[verifier::external_body]
pub(crate) fn base_read_le(bytes: &[u8]) -> (r: Option<FieldElement>)
    ensures
        r is Some <==> holds_element(bytes@),
        r matches Some(e) ==> e.wf() && e@ == bytes_value(leading(bytes@)),
{
    match Fq::read_le(bytes) {
        Ok(e) => Some(FieldElement { limbs: e.to_repr().0 }),
        Err(_) => None,
    }
}

/// `Fq::write_le` into a fresh buffer: the canonical encoding, 32 bytes that
/// spell the element's number in base 256, least significant first.
#[verifier::external_body]
pub(crate) fn base_write_le(e: &FieldElement) -> (r: Vec<u8>)
    requires
        e.wf(),
    ensures
        r@.len() == REPR_BYTES,
        bytes_value(r@) == e@,
{
    let mut buffer = Vec::new();
    Fq::from_repr(BigInteger256(e.limbs)).unwrap().write_le(&mut buffer).unwrap();
    buffer
}

/// An element of the scalar field: a private key, or the ephemeral randomness
/// of one exchange.
#[derive(Clone, Copy, Debug, PartialEq, Eq, Hash)]
pub struct Scalar {
    pub(crate) limbs: [u64; 4],
}

impl View for Scalar {
    type V = nat;

    closed spec fn view(&self) -> nat {
        limbs_value(self.limbs@)
    }
}

impl Scalar {
    /// The scalar is reduced: it stands for a number below the subgroup's order.
    #[verifier::type_invariant]
    pub open spec fn wf(&self) -> bool {
        self@ < scalar_modulus()
    }

    /// The scalar that `limbs`, least significant first, stand for, if that
    /// number is below the subgroup's order.
    pub fn from_limbs(limbs: [u64; 4]) -> (r: Option<Scalar>)
        ensures
            r is Some <==> limbs_value(limbs@) < scalar_modulus(),
            r matches Some(s) ==> s@ == limbs_value(limbs@) && s.wf(),
    {
        let modulus: [u64; 4] = [
            13356249993388743167,
            5950279507993463550,
            10965441865914903552,
            336320092672043349,
        ];
        assert(limbs_value(modulus@) == scalar_modulus());
        if limbs_below(&limbs, &modulus) {
            Some(Scalar { limbs })
        } else {
            None
        }
    }

    /// The limbs of the scalar's number, least significant first.
    pub fn to_limbs(&self) -> (limbs: [u64; 4])
        ensures
            limbs_value(limbs@) == self@,
    {
        self.limbs
    }
}

/// The generator of random numbers that keys are drawn from.
#[verifier::external_type_specification]
#[verifier::external_body]
pub struct ExStdRng(rand::rngs::StdRng);

/// `UniformRand::rand` for `Fr`: a reduced scalar drawn from `rng`. Which one
/// is up to the generator.
#[verifier::external_body]
pub(crate) fn scalar_rand(rng: &mut rand::rngs::StdRng) -> (r: Scalar)
    ensures
        r.wf(),
{
    let s: Fr = UniformRand::rand(rng);
    Scalar { limbs: s.to_repr().0 }
}

/// `Fr::size_in_bits`: the bit length of the scalar field's order.
#[verifier::external_body]
pub(crate) fn scalar_size_in_bits() -> (r: usize)
    ensures
        r == SCALAR_BITS,
{
    Fr::size_in_bits()
}

} // verus!
