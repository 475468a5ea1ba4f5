//! Packing byte strings into field elements and back.
//!
//! A message becomes a bit string (each byte least significant bit first),
//! gets a single set bit as terminator, and is cut into chunks of `CAPACITY`
//! bits; each chunk is the little-endian binary numeral of one field element.
//! Decoding takes `CAPACITY` bits from every element, drops the clear bits at
//! the end and the terminator, and regroups the rest into bytes.

use crate::bits::{
    bits_value, lemma_bit_of_bits_value, lemma_bits_value_bound, lemma_value_of_value_bits,
    nat_bit, value_bits,
};
use crate::error::EncryptionError;
use crate::field::{
    all_reduced, base_from_bits_le, base_to_bits_le, field_modulus, values, FieldElement,
    CAPACITY, REPR_BITS,
};
use vstd::arithmetic::power2::{
    lemma2_to64, lemma2_to64_rest, lemma_pow2_adds, lemma_pow2_strictly_increases, pow2,
};
use vstd::prelude::*;
use vstd::slice::slice_subrange;

verus! {

/// The bits of `bytes`: bit `k` is digit `k % 8` of byte `k / 8`.
pub open spec fn bytes_bits(bytes: Seq<u8>) -> Seq<bool> {
    Seq::new(8 * bytes.len(), |k: int| nat_bit(bytes[k / 8] as nat, (k % 8) as nat))
}

/// The bits of `bytes` followed by the terminator, a single set bit.
pub open spec fn terminated_bits(bytes: Seq<u8>) -> Seq<bool> {
    bytes_bits(bytes).push(true)
}

/// How many chunks of `CAPACITY` bits it takes to hold `len` bits.
pub open spec fn chunk_count(len: nat) -> nat {
    ((len + CAPACITY - 1) / (CAPACITY as int)) as nat
}

/// Chunk `index` of `bits`: `CAPACITY` bits, or what is left at the end.
pub open spec fn chunk(bits: Seq<bool>, index: int) -> Seq<bool> {
    let start = index * CAPACITY;
    let end = if start + CAPACITY <= bits.len() {
        start + CAPACITY
    } else {
        bits.len() as int
    };
    bits.subrange(start, end)
}

/// The numbers that the chunks of `bits` spell, one per chunk.
pub open spec fn packed(bits: Seq<bool>) -> Seq<nat> {
    Seq::new(chunk_count(bits.len()), |i: int| bits_value(chunk(bits, i)))
}

/// The numbers of the field elements that encode `bytes`.
pub open spec fn encoded(bytes: Seq<u8>) -> Seq<nat> {
    packed(terminated_bits(bytes))
}

/// The lowest `CAPACITY` digits of each number, one number after the other.
pub open spec fn unpacked(numbers: Seq<nat>) -> Seq<bool> {
    Seq::new(
        (numbers.len() * CAPACITY) as nat,
        |k: int| nat_bit(numbers[k / (CAPACITY as int)], (k % (CAPACITY as int)) as nat),
    )
}

/// The position of the last set bit of `bits`, or -1 if every bit is clear.
pub open spec fn last_set(bits: Seq<bool>) -> int
    decreases bits.len(),
{
    if bits.len() == 0 {
        -1
    } else if bits.last() {
        bits.len() - 1
    } else {
        last_set(bits.drop_last())
    }
}

/// The byte whose binary digits, least significant first, are `bits`.
pub open spec fn byte_of(bits: Seq<bool>) -> u8 {
    (bits_value(bits) % 256) as u8
}

/// The bytes that `bits` make up, eight bits to a byte, least significant bit
/// first. Bits beyond the last whole byte are left out.
pub open spec fn bits_bytes(bits: Seq<bool>) -> Seq<u8> {
    Seq::new((bits.len() / 8) as nat, |i: int| byte_of(bits.subrange(8 * i, 8 * i + 8)))
}

/// What decoding the elements that stand for `numbers` gives: the bytes in
/// front of the terminator, or the reason why there are none.
pub open spec fn decoded(numbers: Seq<nat>) -> Result<Seq<u8>, EncryptionError> {
    let bits = unpacked(numbers);
    let end = last_set(bits);
    if end < 0 {
        Err(EncryptionError::MalformedCiphertext)
    } else if end % 8 != 0 {
        Err(EncryptionError::InvalidMessageLength)
    } else {
        Ok(bits_bytes(bits.subrange(0, end)))
    }
}

/// `2^CAPACITY` is below the field's order, so every chunk spells a reduced
/// element.
pub proof fn lemma_capacity_fits()
    ensures
        pow2(CAPACITY as nat) < field_modulus(),
{
    lemma2_to64_rest();
    lemma_pow2_adds(63, 63);
    lemma_pow2_adds(126, 126);
    assert(pow2(63) == 0x8000_0000_0000_0000nat);
    assert(pow2(126) == 0x4000_0000_0000_0000_0000_0000_0000_0000nat);
    assert(pow2(252) == 0x1000_0000_0000_0000_0000_0000_0000_0000_0000_0000_0000_0000_0000_0000_0000_0000nat)
        by (nonlinear_arith)
        requires
            pow2(252) == pow2(126) * pow2(126),
            pow2(126) == 0x4000_0000_0000_0000_0000_0000_0000_0000nat,
    ;
}

/// Every number that a chunk spells is below the field's order.
pub proof fn lemma_packed_reduced(bits: Seq<bool>, index: int)
    requires
        0 <= index < packed(bits).len(),
    ensures
        packed(bits)[index] < field_modulus(),
{
    let piece = chunk(bits, index);
    lemma_bits_value_bound(piece);
    lemma_capacity_fits();
    if piece.len() < CAPACITY {
        lemma_pow2_strictly_increases(piece.len(), CAPACITY as nat);
    }
}

/// Taking `CAPACITY` bits from each number that the chunks of `bits` spell
/// gives `bits` back, followed by clear bits up to the end of the last chunk.
pub proof fn lemma_unpacked_packed(bits: Seq<bool>, k: int)
    requires
        0 <= k < unpacked(packed(bits)).len(),
    ensures
        bits.len() <= unpacked(packed(bits)).len() < bits.len() + CAPACITY,
        unpacked(packed(bits))[k] == (k < bits.len() && bits[k]),
{
    let index = k / (CAPACITY as int);
    let offset = k % (CAPACITY as int);
    let piece = chunk(bits, index);
    lemma_bit_of_bits_value(piece, offset as nat);
}

/// If bit `position` is set and every bit behind it is clear, `position` is
/// the last set bit.
pub proof fn lemma_last_set(bits: Seq<bool>, position: int)
    requires
        0 <= position < bits.len(),
        bits[position],
        forall|k: int| position < k < bits.len() ==> !bits[k],
    ensures
        last_set(bits) == position,
    decreases bits.len(),
{
    if position < bits.len() - 1 {
        lemma_last_set(bits.drop_last(), position);
    }
}

/// Regrouping the bits of a byte string gives the byte string.
pub proof fn lemma_bits_bytes_of_bytes_bits(bytes: Seq<u8>)
    ensures
        bits_bytes(bytes_bits(bytes)) == bytes,
{
    let bits = bytes_bits(bytes);
    assert forall|i: int| 0 <= i < bytes.len() implies byte_of(bits.subrange(8 * i, 8 * i + 8))
        == bytes[i] by {
        let group = bits.subrange(8 * i, 8 * i + 8);
        assert(group =~= value_bits(bytes[i] as nat, 8));
        lemma2_to64();
        lemma_value_of_value_bits(bytes[i] as nat, 8);
    }
    assert(bits_bytes(bits) =~= bytes);
}

/// Decoding what a byte string encodes to gives the byte string: for every
/// byte string, the empty one and those that fill several elements included.
pub proof fn lemma_decode_encode(bytes: Seq<u8>)
    ensures
        decoded(encoded(bytes)) == Ok::<Seq<u8>, EncryptionError>(bytes),
{
    let marked = terminated_bits(bytes);
    let bits = unpacked(encoded(bytes));
    let end = 8 * bytes.len();
    assert forall|k: int| 0 <= k < bits.len() implies bits[k] == (k < marked.len() && marked[k])
        && marked.len() <= bits.len() by {
        lemma_unpacked_packed(marked, k);
    }
    assert(chunk_count(marked.len()) >= 1);
    assert(bits.len() >= CAPACITY);
    lemma_unpacked_packed(marked, 0);
    lemma_last_set(bits, end as int);
    assert(bits.subrange(0, end as int) =~= bytes_bits(bytes));
    lemma_bits_bytes_of_bytes_bits(bytes);
}

/// The empty byte string encodes to a single element, the number 1: nothing
/// but the terminator.
pub proof fn lemma_encode_empty()
    ensures
        encoded(Seq::<u8>::empty()) == seq![1nat],
        decoded(seq![1nat]) == Ok::<Seq<u8>, EncryptionError>(Seq::<u8>::empty()),
{
    let marked = terminated_bits(Seq::<u8>::empty());
    assert(marked =~= seq![true]);
    assert(chunk(marked, 0) =~= seq![true]);
    assert(bits_value(seq![true]) == 1) by {
        assert(seq![true].drop_first() =~= Seq::<bool>::empty());
        assert(bits_value(Seq::<bool>::empty()) == 0);
    }
    assert(encoded(Seq::<u8>::empty()) =~= seq![1nat]);
    lemma_decode_encode(Seq::<u8>::empty());
}

/// The bits of `message`, each byte least significant bit first, followed by
/// the terminator.
pub fn message_bits(message: &[u8]) -> (bits: Vec<bool>)
    ensures
        bits@ == terminated_bits(message@),
{
    let mut bits: Vec<bool> = Vec::new();
    let mut i: usize = 0;
    while i < message.len()
        invariant
            i <= message.len(),
            bits@.len() == 8 * i,
            forall|k: int|
                0 <= k < bits@.len() ==> bits@[k] == nat_bit(
                    message@[k / 8] as nat,
                    (k % 8) as nat,
                ),
        decreases message.len() - i,
    {
        let mut byte: u8 = message[i];
        let mut j: usize = 0;
        while j < 8
            invariant
                i < message.len(),
                j <= 8,
                bits@.len() == 8 * i + j,
                forall|k: int|
                    0 <= k < bits@.len() ==> bits@[k] == nat_bit(
                        message@[k / 8] as nat,
                        (k % 8) as nat,
                    ),
                forall|t: nat| nat_bit(byte as nat, t) == nat_bit(message@[i as int] as nat, (j + t) as nat),
            decreases 8 - j,
        {
            let low: u8 = byte & 1;
            let rest: u8 = byte >> 1;
            proof {
                assert(low == byte % 2) by (bit_vector)
                    requires
                        low == byte & 1,
                ;
                assert(rest == byte / 2) by (bit_vector)
                    requires
                        rest == byte >> 1,
                ;
                assert(nat_bit(byte as nat, 0) == (low == 1));
                assert forall|t: nat| nat_bit(rest as nat, t) == nat_bit(
                    message@[i as int] as nat,
                    (j + 1 + t) as nat,
                ) by {
                    assert(nat_bit(byte as nat, t + 1) == nat_bit(rest as nat, t));
                }
            }
            bits.push(low == 1);
            byte = rest;
            j += 1;
        }
        i += 1;
    }
    bits.push(true);
    proof {
        assert(bits@ =~= terminated_bits(message@));
    }
    bits
}

/// One field element per chunk of `bits`: the element whose binary numeral,
/// least significant digit first, is the chunk.
pub fn pack_bits(bits: &Vec<bool>) -> (elements: Vec<FieldElement>)
    ensures
        values(elements@) == packed(bits@),
        all_reduced(values(elements@)),
{
    let mut elements: Vec<FieldElement> = Vec::new();
    let mut start: usize = 0;
    let total: usize = bits.len();
    while start < total
        invariant
            total == bits@.len(),
            start <= total,
            start == elements@.len() * CAPACITY || (start == total && (elements@.len() - 1)
                * CAPACITY < total < elements@.len() * CAPACITY),
            forall|i: int|
                0 <= i < elements@.len() ==> (#[trigger] elements@[i])@ == bits_value(
                    chunk(bits@, i),
                ),
        decreases total - start,
    {
        let end: usize = if total - start > CAPACITY {
            start + CAPACITY
        } else {
            total
        };
        let piece = slice_subrange(bits.as_slice(), start, end);
        proof {
            assert(piece@ == chunk(bits@, elements@.len() as int));
            lemma_bits_value_bound(piece@);
            lemma_capacity_fits();
            if piece@.len() < CAPACITY {
                lemma_pow2_strictly_increases(piece@.len(), CAPACITY as nat);
            }
        }
        let element = base_from_bits_le(piece);
        match element {
            Some(e) => {
                elements.push(e);
            },
            None => {
                proof {
                    assert(false);
                }
            },
        }
        start = end;
    }
    proof {
        assert(values(elements@) =~= packed(bits@));
        assert forall|i: int| 0 <= i < packed(bits@).len() implies #[trigger] packed(bits@)[i]
            < field_modulus() by {
            lemma_packed_reduced(bits@, i);
        }
    }
    elements
}

/// The lowest `CAPACITY` bits of every element, least significant first, one
/// element after the other.
pub fn unpack_bits(elements: &[FieldElement]) -> (bits: Vec<bool>)
    ensures
        bits@ == unpacked(values(elements@)),
{
    let mut bits: Vec<bool> = Vec::new();
    let mut i: usize = 0;
    while i < elements.len()
        invariant
            i <= elements.len(),
            bits@.len() == i * CAPACITY,
            forall|k: int|
                0 <= k < bits@.len() ==> bits@[k] == nat_bit(
                    elements@[k / (CAPACITY as int)]@,
                    (k % (CAPACITY as int)) as nat,
                ),
        decreases elements.len() - i,
    {
        let element = &elements[i];
        proof {
            use_type_invariant(element);
        }
        let digits = base_to_bits_le(element);
        let mut j: usize = 0;
        while j < CAPACITY
            invariant
                i < elements.len(),
                j <= CAPACITY,
                digits@ == value_bits(elements@[i as int]@, REPR_BITS as nat),
                bits@.len() == i * CAPACITY + j,
                forall|k: int|
                    0 <= k < bits@.len() ==> bits@[k] == nat_bit(
                        elements@[k / (CAPACITY as int)]@,
                        (k % (CAPACITY as int)) as nat,
                    ),
            decreases CAPACITY - j,
        {
            bits.push(digits[j]);
            j += 1;
        }
        i += 1;
    }
    proof {
        assert(bits@ =~= unpacked(values(elements@)));
    }
    bits
}

/// Drops the clear bits at the end of `bits` and the set bit in front of
/// them. Gives back whether there was a set bit; if not, nothing is left.
pub fn strip_terminator(bits: &mut Vec<bool>) -> (found: bool)
    ensures
        found == (last_set(old(bits)@) >= 0),
        found ==> final(bits)@.len() == last_set(old(bits)@),
        found ==> final(bits)@ == old(bits)@.subrange(0, last_set(old(bits)@)),
        !found ==> final(bits)@.len() == 0,
{
    loop
        invariant
            bits@.len() <= old(bits)@.len(),
            bits@ == old(bits)@.subrange(0, bits@.len() as int),
            last_set(bits@) == last_set(old(bits)@),
        decreases bits@.len(),
    {
        let ghost before = bits@;
        match bits.pop() {
            Some(true) => {
                proof {
                    assert(before.last());
                    assert(bits@ =~= old(bits)@.subrange(0, last_set(old(bits)@)));
                }
                return true;
            },
            Some(false) => {
                proof {
                    assert(bits@ =~= before.drop_last());
                    assert(bits@ =~= old(bits)@.subrange(0, bits@.len() as int));
                }
            },
            None => {
                return false;
            },
        }
    }
}

/// The bytes that `bits` make up, eight bits to a byte, least significant bit
/// first. Bits beyond the last whole byte are left out.
pub fn collect_bytes(bits: &Vec<bool>) -> (bytes: Vec<u8>)
    ensures
        bytes@ == bits_bytes(bits@),
{
    let mut bytes: Vec<u8> = Vec::new();
    let count: usize = bits.len() / 8;
    let mut i: usize = 0;
    while i < count
        invariant
            count == bits@.len() / 8,
            bits@.len() <= usize::MAX,
            i <= count,
            bytes@.len() == i,
            forall|n: int| 0 <= n < i ==> bytes@[n] == byte_of(bits@.subrange(8 * n, 8 * n + 8)),
        decreases count - i,
    {
        let ghost group = bits@.subrange(8 * i, 8 * i + 8);
        let mut byte: u8 = 0;
        let mut j: usize = 8;
        while j > 0
            invariant
                count == bits@.len() / 8,
                bits@.len() <= usize::MAX,
                i < count,
                j <= 8,
                group == bits@.subrange(8 * i, 8 * i + 8),
                byte == bits_value(group.subrange(j as int, 8)),
            decreases j,
        {
            j -= 1;
            let bit: bool = bits[8 * i + j];
            proof {
                let upper = group.subrange(j as int, 8);
                assert(upper.drop_first() =~= group.subrange(j + 1, 8));
                assert(upper[0] == bit);
                lemma_bits_value_bound(upper);
                lemma_bits_value_bound(upper.drop_first());
                lemma2_to64();
                if upper.len() < 8 {
                    lemma_pow2_strictly_increases(upper.len(), 8);
                }
                if upper.drop_first().len() < 7 {
                    lemma_pow2_strictly_increases(upper.drop_first().len(), 7);
                }
            }
            byte = if bit {
                byte * 2 + 1
            } else {
                byte * 2
            };
        }
        proof {
            assert(group.subrange(0, 8) =~= group);
        }
        bytes.push(byte);
        i += 1;
    }
    proof {
        assert(bytes@ =~= bits_bytes(bits@));
    }
    bytes
}

/// Encodes `message` as field elements.
pub fn encode(message: &[u8]) -> (elements: Vec<FieldElement>)
    ensures
        values(elements@) == encoded(message@),
        all_reduced(values(elements@)),
{
    let bits = message_bits(message);
    pack_bits(&bits)
}

/// Decodes field elements into the message they encode, if they encode one.
pub fn decode(elements: &[FieldElement]) -> (r: Result<Vec<u8>, EncryptionError>)
    ensures
        match decoded(values(elements@)) {
            Ok(bytes) => r matches Ok(message) && message@ == bytes,
            Err(reason) => r matches Err(e) && e == reason,
        },
{
    let mut bits = unpack_bits(elements);
    let found = strip_terminator(&mut bits);
    if !found {
        return Err(EncryptionError::MalformedCiphertext);
    }
    if bits.len() % 8 != 0 {
        return Err(EncryptionError::InvalidMessageLength);
    }
    Ok(collect_bytes(&bits))
}

} // verus!
