use ecies_poseidon::error::EncryptionError;
use ecies_poseidon::field::{FieldElement, CAPACITY};
use ecies_poseidon::message::{
    collect_bytes, decode, encode, message_bits, pack_bits, strip_terminator, unpack_bits,
};
use snarkvm_curves::edwards_bls12::{Fq, FqParameters};
use snarkvm_fields::{FieldParameters, PrimeField};
use snarkvm_utilities::BigInteger256;

fn element(limbs: [u64; 4]) -> FieldElement {
    FieldElement::from_limbs(limbs).unwrap()
}

fn sample_message(len: usize) -> Vec<u8> {
    (0..len).map(|i| (i * 37 + 11) as u8).collect()
}

#[test]
fn capacity_is_one_bit_short_of_the_modulus() {
    assert_eq!(CAPACITY, FqParameters::CAPACITY as usize);
    assert_eq!(CAPACITY, 252);
}

#[test]
fn empty_message_is_one_element_holding_the_terminator() {
    let elements = encode(&[]);
    assert_eq!(elements.len(), 1);
    assert_eq!(elements[0].to_limbs(), [1, 0, 0, 0]);
    assert_eq!(decode(&elements), Ok(vec![]));
}

#[test]
fn single_byte_encodes_to_byte_plus_terminator() {
    // bits of 0x01, then the terminator at position 8: 1 + 2^8
    let elements = encode(&[0x01]);
    assert_eq!(elements.len(), 1);
    assert_eq!(elements[0].to_limbs(), [257, 0, 0, 0]);
    // 0xA5 + 2^8
    let elements = encode(&[0xA5]);
    assert_eq!(elements[0].to_limbs(), [0xA5 + 256, 0, 0, 0]);
}

#[test]
fn bytes_fill_limbs_least_significant_first() {
    let message = [0x10, 0x32, 0x54, 0x76, 0x98, 0xBA, 0xDC, 0xFE, 0x07];
    let elements = encode(&message);
    assert_eq!(elements.len(), 1);
    assert_eq!(elements[0].to_limbs(), [0xFEDC_BA98_7654_3210, 0x107, 0, 0]);
}

#[test]
fn message_bits_are_little_endian_within_each_byte() {
    let bits = message_bits(&[0b0000_0110, 0b1000_0000]);
    let expected = vec![
        false, true, true, false, false, false, false, false, false, false, false, false, false,
        false, false, true, true,
    ];
    assert_eq!(bits, expected);
}

#[test]
fn thirty_one_bytes_fit_one_element() {
    // 248 bits and the terminator: 249 <= 252
    let message = sample_message(31);
    let elements = encode(&message);
    assert_eq!(elements.len(), 1);
    assert_eq!(decode(&elements), Ok(message));
}

#[test]
fn thirty_two_bytes_spill_into_a_second_element() {
    // 256 bits and the terminator: 257 > 252
    let message = vec![0xFF; 32];
    let elements = encode(&message);
    assert_eq!(elements.len(), 2);
    // first chunk: 252 set bits
    assert_eq!(elements[0].to_limbs(), [u64::MAX, u64::MAX, u64::MAX, u64::MAX >> 4]);
    // second chunk: 4 set bits and the terminator
    assert_eq!(elements[1].to_limbs(), [0b1_1111, 0, 0, 0]);
    assert_eq!(decode(&elements), Ok(message));
}

#[test]
fn terminator_alone_in_the_last_element() {
    // 63 bytes: 504 bits = 2 * 252, so the terminator starts a third element
    let message = sample_message(63);
    let elements = encode(&message);
    assert_eq!(elements.len(), 3);
    assert_eq!(elements[2].to_limbs(), [1, 0, 0, 0]);
    assert_eq!(decode(&elements), Ok(message));
}

#[test]
fn round_trip_over_many_lengths() {
    for len in 0..200 {
        let message = sample_message(len);
        let elements = encode(&message);
        assert_eq!(elements.len(), (8 * len + 1 + CAPACITY - 1) / CAPACITY);
        assert_eq!(decode(&elements), Ok(message));
    }
}

#[test]
fn encoding_agrees_with_the_field_library() {
    let message = sample_message(100);
    let bits = message_bits(&message);
    let elements = pack_bits(&bits);
    let reference: Vec<[u64; 4]> = bits
        .chunks(CAPACITY)
        .map(|chunk| {
            let big = <BigInteger256 as snarkvm_utilities::FromBits>::from_bits_le(chunk);
            Fq::from_repr(big).unwrap().to_repr().0
        })
        .collect();
    let ours: Vec<[u64; 4]> = elements.iter().map(|e| e.to_limbs()).collect();
    assert_eq!(ours, reference);
}

#[test]
fn unpack_takes_capacity_bits_of_each_element() {
    let elements = [element([0b101, 0, 0, 0]), element([0, 0, 0, 1 << 59])];
    let bits = unpack_bits(&elements);
    assert_eq!(bits.len(), 2 * CAPACITY);
    for (k, bit) in bits.iter().enumerate() {
        let expected = k == 0 || k == 2 || k == CAPACITY + 192 + 59;
        assert_eq!(*bit, expected, "bit {}", k);
    }
}

#[test]
fn unpack_discards_the_bits_above_capacity() {
    // bit 252 is set: a reduced element, but the bit is no data
    let elements = [element([0b1, 0, 0, 1 << 60])];
    let bits = unpack_bits(&elements);
    assert_eq!(bits.len(), CAPACITY);
    assert_eq!(bits.iter().filter(|b| **b).count(), 1);
    assert_eq!(decode(&elements), Ok(vec![]));
}

#[test]
fn strip_terminator_drops_trailing_zeros_and_one_set_bit() {
    let mut bits = vec![true, false, true, true, false, false];
    assert!(strip_terminator(&mut bits));
    assert_eq!(bits, vec![true, false, true]);
    let mut bits = vec![false, false, false];
    assert!(!strip_terminator(&mut bits));
    assert!(bits.is_empty());
    let mut bits: Vec<bool> = vec![];
    assert!(!strip_terminator(&mut bits));
}

#[test]
fn collect_bytes_regroups_bits() {
    let bits = vec![
        true, false, false, false, false, false, false, false, false, true, true, true, true,
        true, true, true,
    ];
    assert_eq!(collect_bytes(&bits), vec![0x01, 0xFE]);
    assert_eq!(collect_bytes(&vec![]), Vec::<u8>::new());
}

#[test]
fn all_zero_elements_are_malformed() {
    assert_eq!(decode(&[element([0; 4])]), Err(EncryptionError::MalformedCiphertext));
    assert_eq!(
        decode(&[element([0; 4]), element([0; 4])]),
        Err(EncryptionError::MalformedCiphertext)
    );
    assert_eq!(decode(&[]), Err(EncryptionError::MalformedCiphertext));
}

#[test]
fn terminator_off_a_byte_boundary_is_an_invalid_length() {
    // last set bit at position 1
    assert_eq!(decode(&[element([0b10, 0, 0, 0])]), Err(EncryptionError::InvalidMessageLength));
    // last set bit at position 9
    assert_eq!(
        decode(&[element([0b10_0000_0001, 0, 0, 0])]),
        Err(EncryptionError::InvalidMessageLength)
    );
    // last set bit at position 252 + 5
    assert_eq!(
        decode(&[element([7, 0, 0, 0]), element([0b10_0000, 0, 0, 0])]),
        Err(EncryptionError::InvalidMessageLength)
    );
    // last set bit at position 252 + 4 = 256: thirty-two whole bytes
    assert_eq!(
        decode(&[element([7, 0, 0, 0]), element([0b1_0000, 0, 0, 0])]),
        Ok({
            let mut bytes = vec![0u8; 32];
            bytes[0] = 7;
            bytes
        })
    );
}

#[test]
fn trailing_zero_elements_are_ignored() {
    let message = sample_message(5);
    let mut elements = encode(&message);
    elements.push(element([0; 4]));
    elements.push(element([0; 4]));
    assert_eq!(decode(&elements), Ok(message));
}
