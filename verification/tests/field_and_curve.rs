use ecies_poseidon::cipher::{add_keystream, subtract_keystream};
use ecies_poseidon::curve::CurvePoint;
use ecies_poseidon::error::EncryptionError;
use ecies_poseidon::field::{FieldElement, Scalar, REPR_BYTES, SCALAR_BITS};
use ecies_poseidon::ECIESPoseidonPublicKey;
use rand::{rngs::StdRng, SeedableRng};
use snarkvm_curves::edwards_bls12::{EdwardsAffine, Fq, Fr};
use snarkvm_curves::AffineCurve;
use snarkvm_fields::{One, PrimeField, Zero};
use snarkvm_utilities::{BigInteger256, ToBytes, UniformRand};

const FIELD_MODULUS: [u64; 4] =
    [725501752471715841, 6461107452199829505, 6968279316240510977, 1345280370688173398];
const SCALAR_MODULUS: [u64; 4] =
    [13356249993388743167, 5950279507993463550, 10965441865914903552, 336320092672043349];

fn from_fq(f: &Fq) -> FieldElement {
    FieldElement::from_limbs(f.to_repr().0).unwrap()
}

fn to_fq(e: &FieldElement) -> Fq {
    Fq::from_repr(BigInteger256(e.to_limbs())).unwrap()
}

fn from_affine(p: &EdwardsAffine) -> CurvePoint {
    CurvePoint::new(from_fq(&p.x), from_fq(&p.y)).unwrap()
}

fn random_elements(rng: &mut StdRng, count: usize) -> Vec<Fq> {
    (0..count).map(|_| Fq::rand(rng)).collect()
}

#[test]
fn limbs_below_the_modulus_are_accepted() {
    assert!(FieldElement::from_limbs([0, 0, 0, 0]).is_some());
    let mut largest = FIELD_MODULUS;
    largest[0] -= 1;
    assert_eq!(FieldElement::from_limbs(largest).unwrap().to_limbs(), largest);
    assert_eq!(to_fq(&FieldElement::from_limbs(largest).unwrap()), -Fq::one());
}

#[test]
fn limbs_from_the_modulus_on_are_rejected() {
    assert!(FieldElement::from_limbs(FIELD_MODULUS).is_none());
    let mut above = FIELD_MODULUS;
    above[0] += 1;
    assert!(FieldElement::from_limbs(above).is_none());
    let mut above = FIELD_MODULUS;
    above[1] += 1;
    above[0] = 0;
    assert!(FieldElement::from_limbs(above).is_none());
    assert!(FieldElement::from_limbs([u64::MAX; 4]).is_none());
    // a smaller top limb decides, whatever the lower limbs hold
    let below = [u64::MAX, u64::MAX, u64::MAX, FIELD_MODULUS[3] - 1];
    assert!(FieldElement::from_limbs(below).is_some());
}

#[test]
fn scalar_limbs_are_checked_against_the_subgroup_order() {
    assert!(Scalar::from_limbs(SCALAR_MODULUS).is_none());
    let mut largest = SCALAR_MODULUS;
    largest[0] -= 1;
    assert_eq!(Scalar::from_limbs(largest).unwrap().to_limbs(), largest);
    // a reduced base-field element that is no reduced scalar
    assert!(Scalar::from_limbs([0, 0, 0, SCALAR_MODULUS[3] + 1]).is_none());
    assert!(FieldElement::from_limbs([0, 0, 0, SCALAR_MODULUS[3] + 1]).is_some());
}

#[test]
fn validity_agrees_with_the_field_library() {
    let mut rng = StdRng::seed_from_u64(7);
    for _ in 0..200 {
        let limbs: [u64; 4] = [
            rand::Rng::gen(&mut rng),
            rand::Rng::gen(&mut rng),
            rand::Rng::gen(&mut rng),
            rand::Rng::gen::<u64>(&mut rng) >> 3,
        ];
        assert_eq!(
            FieldElement::from_limbs(limbs).is_some(),
            Fq::from_repr(BigInteger256(limbs)).is_some()
        );
        assert_eq!(
            Scalar::from_limbs(limbs).is_some(),
            Fr::from_repr(BigInteger256(limbs)).is_some()
        );
    }
}

#[test]
fn zero_and_one() {
    assert_eq!(FieldElement::zero().to_limbs(), [0, 0, 0, 0]);
    assert_eq!(FieldElement::one().to_limbs(), [1, 0, 0, 0]);
    assert_eq!(to_fq(&FieldElement::zero()), Fq::zero());
    assert_eq!(to_fq(&FieldElement::one()), Fq::one());
}

#[test]
fn keystream_is_added_in_the_field() {
    let two = FieldElement::from_limbs([2, 0, 0, 0]).unwrap();
    let three = FieldElement::from_limbs([3, 0, 0, 0]).unwrap();
    let mut largest = FIELD_MODULUS;
    largest[0] -= 1;
    let minus_one = FieldElement::from_limbs(largest).unwrap();
    let sums = add_keystream(&[two, minus_one, minus_one], &[three, three, minus_one]);
    assert_eq!(sums[0].to_limbs(), [5, 0, 0, 0]);
    // (p - 1) + 3 = 2 mod p
    assert_eq!(sums[1].to_limbs(), [2, 0, 0, 0]);
    // (p - 1) + (p - 1) = p - 2 mod p
    let mut expected = FIELD_MODULUS;
    expected[0] -= 2;
    assert_eq!(sums[2].to_limbs(), expected);
}

#[test]
fn keystream_is_subtracted_in_the_field() {
    let two = FieldElement::from_limbs([2, 0, 0, 0]).unwrap();
    let three = FieldElement::from_limbs([3, 0, 0, 0]).unwrap();
    let differences = subtract_keystream(&[three, two, two], &[two, three, two]);
    assert_eq!(differences[0].to_limbs(), [1, 0, 0, 0]);
    // 2 - 3 = p - 1 mod p
    let mut expected = FIELD_MODULUS;
    expected[0] -= 1;
    assert_eq!(differences[1].to_limbs(), expected);
    assert_eq!(differences[2].to_limbs(), [0, 0, 0, 0]);
}

#[test]
fn masking_agrees_with_the_field_library() {
    let mut rng = StdRng::seed_from_u64(11);
    let message = random_elements(&mut rng, 20);
    let keystream = random_elements(&mut rng, 20);
    let ours = add_keystream(
        &message.iter().map(from_fq).collect::<Vec<_>>(),
        &keystream.iter().map(from_fq).collect::<Vec<_>>(),
    );
    for i in 0..20 {
        assert_eq!(to_fq(&ours[i]), message[i] + keystream[i]);
    }
    let back = subtract_keystream(&ours, &keystream.iter().map(from_fq).collect::<Vec<_>>());
    for i in 0..20 {
        assert_eq!(to_fq(&back[i]), message[i]);
    }
}

#[test]
fn unmasking_undoes_masking() {
    let mut rng = StdRng::seed_from_u64(12);
    for len in [0usize, 1, 2, 17] {
        let message: Vec<_> = random_elements(&mut rng, len).iter().map(from_fq).collect();
        let keystream: Vec<_> = random_elements(&mut rng, len).iter().map(from_fq).collect();
        let ciphertext = add_keystream(&message, &keystream);
        assert_eq!(ciphertext.len(), len);
        assert_eq!(subtract_keystream(&ciphertext, &keystream), message);
    }
}

#[test]
fn points_off_the_curve_are_refused() {
    let generator = EdwardsAffine::prime_subgroup_generator();
    assert!(CurvePoint::new(from_fq(&generator.x), from_fq(&generator.y)).is_some());
    assert!(CurvePoint::new(from_fq(&generator.y), from_fq(&generator.x)).is_none());
    assert!(CurvePoint::new(FieldElement::one(), FieldElement::one()).is_none());
    assert!(CurvePoint::new(FieldElement::zero(), FieldElement::one()).is_some());
}

#[test]
fn the_neutral_element_is_zero_one() {
    let zero = CurvePoint::zero();
    assert_eq!(zero.to_x_coordinate(), FieldElement::zero());
    assert_eq!(zero.to_y_coordinate(), FieldElement::one());
    assert_eq!(ECIESPoseidonPublicKey::default().0, zero);
    assert_eq!(zero, from_affine(&EdwardsAffine::zero()));
}

#[test]
fn coordinates_are_handed_out_unchanged() {
    let generator = EdwardsAffine::prime_subgroup_generator();
    let point = from_affine(&generator);
    assert_eq!(to_fq(&point.to_x_coordinate()), generator.x);
    assert_eq!(to_fq(&point.to_y_coordinate()), generator.y);
}

fn reference_decode(x: Fq) -> Option<EdwardsAffine> {
    for greatest in [true, false] {
        if let Some(p) = EdwardsAffine::from_x_coordinate(x, greatest) {
            if p.is_in_correct_subgroup_assuming_on_curve() {
                return Some(p);
            }
        }
    }
    None
}

#[test]
fn decoding_an_x_coordinate_follows_the_two_attempts() {
    let mut accepted = 0;
    let mut rejected = 0;
    for small in 0u64..200 {
        let x = Fq::from(small);
        let ours = CurvePoint::from_x_coordinate(from_fq(&x));
        match reference_decode(x) {
            Some(p) => {
                accepted += 1;
                assert_eq!(ours, Ok(from_affine(&p)));
            }
            None => {
                rejected += 1;
                assert_eq!(ours, Err(EncryptionError::InvalidEncoding));
            }
        }
    }
    assert!(accepted > 0);
    assert!(rejected > 0);
}

#[test]
fn x_coordinate_without_a_point_is_an_invalid_encoding() {
    // the first x for which neither sign gives a point of the curve at all
    let x = (0u64..)
        .map(Fq::from)
        .find(|x| {
            EdwardsAffine::from_x_coordinate(*x, true).is_none()
                && EdwardsAffine::from_x_coordinate(*x, false).is_none()
        })
        .unwrap();
    assert_eq!(
        CurvePoint::from_x_coordinate(from_fq(&x)),
        Err(EncryptionError::InvalidEncoding)
    );
}

#[test]
fn x_coordinate_of_a_point_outside_the_subgroup_is_an_invalid_encoding() {
    // the first x whose points lie on the curve but not in the subgroup
    let x = (0u64..)
        .map(Fq::from)
        .find(|x| {
            EdwardsAffine::from_x_coordinate(*x, true).is_some() && reference_decode(*x).is_none()
        })
        .unwrap();
    assert_eq!(
        CurvePoint::from_x_coordinate(from_fq(&x)),
        Err(EncryptionError::InvalidEncoding)
    );
}

#[test]
fn decoding_recovers_points_of_the_subgroup() {
    let mut rng = StdRng::seed_from_u64(5);
    let generator = EdwardsAffine::prime_subgroup_generator();
    for _ in 0..20 {
        let point: EdwardsAffine = (generator * Fr::rand(&mut rng)).into();
        let decoded = CurvePoint::from_x_coordinate(from_fq(&point.x)).unwrap();
        assert_eq!(decoded, from_affine(&point));
    }
}

#[test]
fn public_key_is_written_as_its_x_coordinate() {
    let generator = EdwardsAffine::prime_subgroup_generator();
    let key = ECIESPoseidonPublicKey(from_affine(&generator));
    let bytes = key.write_le();
    assert_eq!(bytes.len(), REPR_BYTES);
    assert_eq!(bytes, generator.x.to_bytes_le().unwrap());
    let limbs = key.0.to_x_coordinate().to_limbs();
    for (i, limb) in limbs.iter().enumerate() {
        assert_eq!(bytes[8 * i..8 * i + 8], limb.to_le_bytes());
    }
}

#[test]
fn public_key_survives_writing_and_reading() {
    let mut rng = StdRng::seed_from_u64(6);
    let generator = EdwardsAffine::prime_subgroup_generator();
    for _ in 0..20 {
        let point: EdwardsAffine = (generator * Fr::rand(&mut rng)).into();
        let key = ECIESPoseidonPublicKey(from_affine(&point));
        let mut bytes = key.write_le();
        assert_eq!(ECIESPoseidonPublicKey::read_le(&bytes), Ok(key));
        // what follows the 32 bytes is not read
        bytes.extend_from_slice(&[0xAB, 0xCD]);
        assert_eq!(ECIESPoseidonPublicKey::read_le(&bytes), Ok(key));
    }
}

#[test]
fn reading_a_public_key_rejects_what_is_no_point() {
    // too short
    assert_eq!(ECIESPoseidonPublicKey::read_le(&[]), Err(EncryptionError::InvalidEncoding));
    assert_eq!(ECIESPoseidonPublicKey::read_le(&[1u8; 31]), Err(EncryptionError::InvalidEncoding));
    // not a reduced field element
    assert_eq!(
        ECIESPoseidonPublicKey::read_le(&[0xFFu8; 32]),
        Err(EncryptionError::InvalidEncoding)
    );
    let mut modulus = Vec::new();
    for limb in FIELD_MODULUS {
        modulus.extend_from_slice(&limb.to_le_bytes());
    }
    assert_eq!(ECIESPoseidonPublicKey::read_le(&modulus), Err(EncryptionError::InvalidEncoding));
    // a field element that is the x-coordinate of no subgroup point
    let x = (0u64..).map(Fq::from).find(|x| reference_decode(*x).is_none()).unwrap();
    assert_eq!(
        ECIESPoseidonPublicKey::read_le(&x.to_bytes_le().unwrap()),
        Err(EncryptionError::InvalidEncoding)
    );
}

#[test]
fn scalar_bit_length() {
    assert_eq!(SCALAR_BITS, 251);
    assert_eq!(SCALAR_BITS, Fr::size_in_bits());
}
