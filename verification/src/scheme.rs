//! The encryption scheme: key generation, the exchange that gives sender and
//! recipient one symmetric key, the commitment to that key, and the cipher
//! keyed by it.

use crate::bits::bytes_value;
use crate::cipher::{
    add_keystream, lemma_unmask_keeps_apart, lemma_unmask_mask, masked, subtract_keystream,
    unmasked,
};
use crate::curve::{
    decoded_point, ladder_product, point_mul_bits, point_mul_projective, projective_product,
    CurvePoint,
};
use crate::error::EncryptionError;
use crate::field::{
    all_reduced, base_from_bytes_le_mod_order, field_modulus, scalar_rand, scalar_size_in_bits,
    values, FieldElement, Scalar, SCALAR_BITS,
};
use crate::message::{
    decode, decoded, encode, encoded, lemma_decode_encode, lemma_packed_reduced, terminated_bits,
};
use rand::rngs::StdRng;
use vstd::prelude::*;
use vstd::string::StringSliceAdditionalSpecFns;

verus! {

/// The number that separates the sponge's use for commitments from its other
/// uses: the tag's bytes read as a base-256 numeral, least significant first.
pub open spec fn commitment_domain() -> nat {
    bytes_value("AleoSymmetricKeyCommitment0".spec_bytes()) % field_modulus()
}

/// The number that separates the sponge's use for keystreams from its other
/// uses.
pub open spec fn encryption_domain() -> nat {
    bytes_value("AleoSymmetricEncryption0".spec_bytes()) % field_modulus()
}

/// The sponge takes every input, and hands out as many elements as it is
/// asked for.
pub open spec fn well_behaved<S: Fn(&[FieldElement], usize) -> Vec<FieldElement>>(
    sponge: S,
) -> bool {
    &&& forall|input: &[FieldElement], count: usize| call_requires(sponge, (input, count))
    &&& forall|input: &[FieldElement], count: usize, output: Vec<FieldElement>|
        call_ensures(sponge, (input, count), output) ==> output@.len() == count
}

/// What a sponge absorbs to commit to the key `symmetric_key`: the commitment
/// domain, then the key.
pub open spec fn commitment_preimage(symmetric_key: nat) -> Seq<nat> {
    seq![commitment_domain(), symmetric_key]
}

/// What a sponge absorbs to make the keystream for the key `symmetric_key`:
/// the encryption domain, then the key.
pub open spec fn keystream_preimage(symmetric_key: nat) -> Seq<nat> {
    seq![encryption_domain(), symmetric_key]
}

/// One instance of the scheme: a generator of the group, the sponge, and the
/// two domain separators. Made once, then only read.
///
/// The sponge is held as one call: given the elements to absorb and a count,
/// it makes a fresh sponge state, absorbs the elements in order, and hands out
/// `count` squeezed elements.
pub struct ECIESPoseidonEncryption<S: Fn(&[FieldElement], usize) -> Vec<FieldElement>> {
    generator: CurvePoint,
    sponge: S,
    symmetric_key_commitment_domain: FieldElement,
    symmetric_encryption_domain: FieldElement,
}

/// The x-coordinates that an exchange with ephemeral scalar `randomness`
/// yields: first that of `generator^randomness`, the ciphertext randomizer,
/// then that of `public_key^randomness`, the symmetric key.
pub open spec fn exchanged(generator: (nat, nat), public_key: (nat, nat), randomness: nat) -> (
    nat,
    nat,
) {
    (
        ladder_product(generator.0, generator.1, randomness).0,
        ladder_product(public_key.0, public_key.1, randomness).0,
    )
}

/// The symmetric key that the holder of `private_key` recovers from a
/// ciphertext randomizer: the x-coordinate of `point^private_key`, where
/// `point` is what the randomizer decodes to. `None` if it decodes to nothing.
pub open spec fn recovered_key(private_key: nat, ciphertext_randomizer: nat) -> Option<nat> {
    match decoded_point(ciphertext_randomizer) {
        Some(point) => Some(ladder_product(point.0, point.1, private_key).0),
        None => None,
    }
}

/// The public key that belongs to the private key `private_key`.
pub open spec fn public_key_of(generator: (nat, nat), private_key: nat) -> (nat, nat) {
    projective_product(generator.0, generator.1, private_key)
}

/// The point that the ciphertext randomizer of an exchange with ephemeral
/// scalar `randomness` is the x-coordinate of.
pub open spec fn randomizer_point(generator: (nat, nat), randomness: nat) -> (nat, nat) {
    ladder_product(generator.0, generator.1, randomness)
}

/// The ciphertext randomizer decodes to the point it was taken from.
pub open spec fn randomizer_decodes(generator: (nat, nat), randomness: nat) -> bool {
    decoded_point(randomizer_point(generator, randomness).0) == Some(
        randomizer_point(generator, randomness),
    )
}

/// Multiplying the generator by the private key and then by the randomness
/// gives the same x-coordinate as multiplying in the other order.
pub open spec fn exponents_commute(
    generator: (nat, nat),
    private_key: nat,
    randomness: nat,
) -> bool {
    let public_key = public_key_of(generator, private_key);
    let randomizer = randomizer_point(generator, randomness);
    ladder_product(public_key.0, public_key.1, randomness).0 == ladder_product(
        randomizer.0,
        randomizer.1,
        private_key,
    ).0
}

/// Sender and recipient arrive at the same symmetric key wherever two facts
/// about the group hold of the values at hand: the ciphertext randomizer
/// decodes to the point it was taken from, and the two multiplications
/// commute. Both are laws of the group and are taken as given here, not shown.
pub proof fn lemma_agreement_from_group_laws(
    generator: (nat, nat),
    private_key: nat,
    randomness: nat,
)
    requires
        randomizer_decodes(generator, randomness),
        exponents_commute(generator, private_key, randomness),
    ensures
        recovered_key(
            private_key,
            exchanged(generator, public_key_of(generator, private_key), randomness).0,
        ) == Some(exchanged(generator, public_key_of(generator, private_key), randomness).1),
{
}

impl<S: Fn(&[FieldElement], usize) -> Vec<FieldElement>> ECIESPoseidonEncryption<S> {
    /// The sponge is well behaved, and the domain separators are the ones
    /// the scheme fixes.
    #[verifier::type_invariant]
    pub closed spec fn wf(&self) -> bool {
        &&& well_behaved(self.sponge)
        &&& self.symmetric_key_commitment_domain@ == commitment_domain()
        &&& self.symmetric_encryption_domain@ == encryption_domain()
    }

    /// The coordinates of the scheme's generator.
    pub closed spec fn generator(&self) -> (nat, nat) {
        self.generator@
    }

    /// The scheme's sponge.
    pub closed spec fn sponge(&self) -> S {
        self.sponge
    }

    /// The sponge may hand out the numbers `output` when `count` elements are
    /// squeezed after the numbers `input` were absorbed.
    pub open spec fn squeezes(&self, input: Seq<nat>, count: nat, output: Seq<nat>) -> bool {
        exists|absorbed: &[FieldElement], squeezed: Vec<FieldElement>|
            values(absorbed@) == input && values(squeezed@) == output && #[trigger] call_ensures(
                self.sponge(),
                (absorbed, count as usize),
                squeezed,
            )
    }

    /// What the sponge hands out is fixed by what it absorbed and by the
    /// count: it is a function.
    pub open spec fn deterministic(&self) -> bool {
        forall|input: Seq<nat>, count: nat, first: Seq<nat>, second: Seq<nat>|
            #[trigger] self.squeezes(input, count, first) && #[trigger] self.squeezes(
                input,
                count,
                second,
            ) ==> first == second
    }

    /// `commitment` is a commitment to the key `symmetric_key`: the one
    /// element squeezed after the commitment domain and the key were absorbed.
    pub open spec fn commits(&self, symmetric_key: nat, commitment: nat) -> bool {
        exists|output: Seq<nat>|
            output.len() == 1 && output[0] == commitment && #[trigger] self.squeezes(
                commitment_preimage(symmetric_key),
                1,
                output,
            )
    }

    /// `keystream` is a keystream of `count` elements for the key
    /// `symmetric_key`: what is squeezed after the encryption domain and the
    /// key were absorbed.
    pub open spec fn streams(&self, symmetric_key: nat, count: nat, keystream: Seq<nat>) -> bool {
        keystream.len() == count && self.squeezes(
            keystream_preimage(symmetric_key),
            count,
            keystream,
        )
    }

    /// `ciphertext` encrypts `message` under the key `symmetric_key`: it is
    /// the message plus a keystream for the key, element by element.
    pub open spec fn encrypts(
        &self,
        symmetric_key: nat,
        message: Seq<nat>,
        ciphertext: Seq<nat>,
    ) -> bool {
        exists|keystream: Seq<nat>| #[trigger]
            self.streams(symmetric_key, message.len(), keystream) && ciphertext == masked(
                message,
                keystream,
            )
    }

    /// `message` decrypts `ciphertext` under the key `symmetric_key`: it is
    /// the ciphertext minus a keystream for the key, element by element.
    pub open spec fn decrypts(
        &self,
        symmetric_key: nat,
        ciphertext: Seq<nat>,
        message: Seq<nat>,
    ) -> bool {
        exists|keystream: Seq<nat>| #[trigger]
            self.streams(symmetric_key, ciphertext.len(), keystream) && message == unmasked(
                ciphertext,
                keystream,
            )
    }

    /// With a sponge that is a function, a key has one commitment only.
    pub proof fn lemma_commitment_is_a_function(
        &self,
        symmetric_key: nat,
        first: nat,
        second: nat,
    )
        requires
            self.deterministic(),
            self.commits(symmetric_key, first),
            self.commits(symmetric_key, second),
        ensures
            first == second,
    {
        let a = choose|output: Seq<nat>|
            output.len() == 1 && output[0] == first && #[trigger] self.squeezes(
                commitment_preimage(symmetric_key),
                1,
                output,
            );
        let b = choose|output: Seq<nat>|
            output.len() == 1 && output[0] == second && #[trigger] self.squeezes(
                commitment_preimage(symmetric_key),
                1,
                output,
            );
        assert(a == b);
    }

    /// With a sponge that is a function, decrypting under the key that
    /// encrypted gives the message back.
    pub proof fn lemma_decrypt_encrypt(
        &self,
        symmetric_key: nat,
        message: Seq<nat>,
        ciphertext: Seq<nat>,
        recovered: Seq<nat>,
    )
        requires
            self.deterministic(),
            all_reduced(message),
            self.encrypts(symmetric_key, message, ciphertext),
            self.decrypts(symmetric_key, ciphertext, recovered),
        ensures
            recovered == message,
    {
        let added = choose|keystream: Seq<nat>| #[trigger]
            self.streams(symmetric_key, message.len(), keystream) && ciphertext == masked(
                message,
                keystream,
            );
        let subtracted = choose|keystream: Seq<nat>| #[trigger]
            self.streams(symmetric_key, ciphertext.len(), keystream) && recovered == unmasked(
                ciphertext,
                keystream,
            );
        assert(ciphertext.len() == message.len());
        assert(added == subtracted);
        lemma_unmask_mask(message, added);
    }

    /// With a sponge that is a function, a ciphertext that was changed in one
    /// place decrypts without complaint, to a message changed in that place.
    pub proof fn lemma_tampering_goes_through(
        &self,
        symmetric_key: nat,
        ciphertext: Seq<nat>,
        tampered: Seq<nat>,
        message: Seq<nat>,
        other: Seq<nat>,
        place: int,
    )
        requires
            self.deterministic(),
            all_reduced(ciphertext),
            all_reduced(tampered),
            ciphertext.len() == tampered.len(),
            0 <= place < ciphertext.len(),
            ciphertext[place] != tampered[place],
            self.decrypts(symmetric_key, ciphertext, message),
            self.decrypts(symmetric_key, tampered, other),
        ensures
            message[place] != other[place],
    {
        let first = choose|keystream: Seq<nat>| #[trigger]
            self.streams(symmetric_key, ciphertext.len(), keystream) && message == unmasked(
                ciphertext,
                keystream,
            );
        let second = choose|keystream: Seq<nat>| #[trigger]
            self.streams(symmetric_key, tampered.len(), keystream) && other == unmasked(
                tampered,
                keystream,
            );
        assert(first == second);
        lemma_unmask_keeps_apart(ciphertext, tampered, first, place);
    }

    /// With a sponge that is a function, a byte string survives encoding,
    /// encryption, decryption under the same key, and decoding.
    pub proof fn lemma_message_survives(
        &self,
        symmetric_key: nat,
        bytes: Seq<u8>,
        ciphertext: Seq<nat>,
        recovered: Seq<nat>,
    )
        requires
            self.deterministic(),
            self.encrypts(symmetric_key, encoded(bytes), ciphertext),
            self.decrypts(symmetric_key, ciphertext, recovered),
        ensures
            decoded(recovered) == Ok::<Seq<u8>, EncryptionError>(bytes),
    {
        assert forall|i: int| 0 <= i < encoded(bytes).len() implies #[trigger] encoded(bytes)[i]
            < field_modulus() by {
            lemma_packed_reduced(terminated_bits(bytes), i);
        }
        self.lemma_decrypt_encrypt(symmetric_key, encoded(bytes), ciphertext, recovered);
        lemma_decode_encode(bytes);
    }

    /// The instance with this generator and this sponge.
    pub fn from(generator: CurvePoint, sponge: S) -> (scheme: Self)
        requires
            well_behaved(sponge),
        ensures
            scheme.generator() == generator@,
            scheme.sponge() == sponge,
    {
        let symmetric_key_commitment_domain = base_from_bytes_le_mod_order(
            "AleoSymmetricKeyCommitment0".as_bytes(),
        );
        let symmetric_encryption_domain = base_from_bytes_le_mod_order(
            "AleoSymmetricEncryption0".as_bytes(),
        );
        ECIESPoseidonEncryption {
            generator,
            sponge,
            symmetric_key_commitment_domain,
            symmetric_encryption_domain,
        }
    }

    /// The instance whose generator `hash_to_curve` derives from the setup
    /// string `message`.
    pub fn setup<H: FnOnce(&str) -> CurvePoint>(message: &str, hash_to_curve: H, sponge: S) -> (scheme:
        Self)
        requires
            call_requires(hash_to_curve, (message,)),
            well_behaved(sponge),
        ensures
            scheme.sponge() == sponge,
            exists|generator: CurvePoint| #[trigger]
                call_ensures(hash_to_curve, (message,), generator) && scheme.generator()
                    == generator@,
    {
        let generator = hash_to_curve(message);
        Self::from(generator, sponge)
    }

    /// A fresh private key: a scalar drawn from `rng`.
    pub fn generate_private_key(&self, rng: &mut StdRng) -> (private_key: Scalar)
        ensures
            private_key.wf(),
    {
        scalar_rand(rng)
    }

    /// The public key that belongs to `private_key`: the generator times it.
    pub fn generate_public_key(&self, private_key: &Scalar) -> (public_key: CurvePoint)
        ensures
            public_key@ == public_key_of(self.generator(), private_key@),
    {
        proof {
            use_type_invariant(&self.generator);
            use_type_invariant(private_key);
        }
        point_mul_projective(&self.generator, private_key)
    }

    /// The sender's half of the exchange for a given ephemeral scalar: the
    /// ciphertext randomizer and the symmetric key.
    pub fn exchange(&self, public_key: &CurvePoint, randomness: &Scalar) -> (r: (
        FieldElement,
        FieldElement,
    ))
        ensures
            (r.0@, r.1@) == exchanged(self.generator(), public_key@, randomness@),
    {
        proof {
            use_type_invariant(&self.generator);
            use_type_invariant(public_key);
            use_type_invariant(randomness);
        }
        let ciphertext_randomizer = point_mul_bits(&self.generator, randomness);
        let symmetric_key = point_mul_bits(public_key, randomness);
        (ciphertext_randomizer.to_x_coordinate(), symmetric_key.to_x_coordinate())
    }

    /// Draws an ephemeral scalar from `rng` and makes the sender's half of the
    /// exchange with it. Gives back the scalar, the ciphertext randomizer and
    /// the symmetric key.
    pub fn generate_asymmetric_key(&self, public_key: &CurvePoint, rng: &mut StdRng) -> (r: (
        Scalar,
        FieldElement,
        FieldElement,
    ))
        ensures
            r.0.wf(),
            (r.1@, r.2@) == exchanged(self.generator(), public_key@, r.0@),
    {
        let randomness = scalar_rand(rng);
        let (ciphertext_randomizer, symmetric_key) = self.exchange(public_key, &randomness);
        (randomness, ciphertext_randomizer, symmetric_key)
    }

    /// The recipient's half of the exchange: the symmetric key, if the
    /// ciphertext randomizer decodes to a point.
    pub fn generate_symmetric_key(
        &self,
        private_key: &Scalar,
        ciphertext_randomizer: FieldElement,
    ) -> (r: Option<FieldElement>)
        ensures
            match recovered_key(private_key@, ciphertext_randomizer@) {
                Some(number) => r matches Some(key) && key@ == number,
                None => r is None,
            },
    {
        match CurvePoint::from_x_coordinate(ciphertext_randomizer) {
            Ok(randomizer) => {
                proof {
                    use_type_invariant(&randomizer);
                    use_type_invariant(private_key);
                }
                Some(point_mul_bits(&randomizer, private_key).to_x_coordinate())
            },
            Err(_) => None,
        }
    }

    /// What the sponge absorbs to commit to `symmetric_key`.
    pub fn commitment_input(&self, symmetric_key: &FieldElement) -> (input: [FieldElement; 2])
        ensures
            values(input@) == commitment_preimage(symmetric_key@),
    {
        proof {
            use_type_invariant(self);
        }
        let input = [self.symmetric_key_commitment_domain, *symmetric_key];
        proof {
            assert(values(input@) =~= commitment_preimage(symmetric_key@));
        }
        input
    }

    /// What the sponge absorbs to make the keystream for `symmetric_key`.
    pub fn keystream_input(&self, symmetric_key: &FieldElement) -> (input: [FieldElement; 2])
        ensures
            values(input@) == keystream_preimage(symmetric_key@),
    {
        proof {
            use_type_invariant(self);
        }
        let input = [self.symmetric_encryption_domain, *symmetric_key];
        proof {
            assert(values(input@) =~= keystream_preimage(symmetric_key@));
        }
        input
    }

    /// The `count` elements that the sponge hands out after absorbing `input`.
    fn squeeze_after(&self, input: &[FieldElement; 2], count: usize) -> (output: Vec<FieldElement>)
        ensures
            output@.len() == count,
            self.squeezes(values(input@), count as nat, values(output@)),
    {
        proof {
            use_type_invariant(self);
        }
        let absorbed = input.as_slice();
        let output = (self.sponge)(absorbed, count);
        proof {
            assert(call_ensures(self.sponge(), (absorbed, (count as nat) as usize), output));
        }
        output
    }

    /// The commitment to `symmetric_key`: the one element that the sponge
    /// hands out after absorbing the commitment domain and the key.
    pub fn generate_symmetric_key_commitment(&self, symmetric_key: &FieldElement) -> (commitment:
        FieldElement)
        ensures
            self.commits(symmetric_key@, commitment@),
    {
        let input = self.commitment_input(symmetric_key);
        let output = self.squeeze_after(&input, 1);
        proof {
            assert(self.squeezes(commitment_preimage(symmetric_key@), 1, values(output@)));
        }
        output[0]
    }

    /// Encodes `message` as field elements. Never fails.
    pub fn encode_message(message: &[u8]) -> (r: Result<Vec<FieldElement>, EncryptionError>)
        ensures
            r matches Ok(elements) && values(elements@) == encoded(message@) && all_reduced(
                values(elements@),
            ),
    {
        Ok(encode(message))
    }

    /// Decodes field elements into the message they encode.
    pub fn decode_message(encoded_message: &[FieldElement]) -> (r: Result<
        Vec<u8>,
        EncryptionError,
    >)
        ensures
            match decoded(values(encoded_message@)) {
                Ok(bytes) => r matches Ok(message) && message@ == bytes,
                Err(reason) => r matches Err(e) && e == reason,
            },
    {
        decode(encoded_message)
    }

    /// Encrypts `message`: adds to it, element by element, the keystream that
    /// the sponge hands out after absorbing the encryption domain and the key.
    pub fn encrypt(&self, symmetric_key: &FieldElement, message: &[FieldElement]) -> (ciphertext:
        Vec<FieldElement>)
        ensures
            ciphertext@.len() == message@.len(),
            all_reduced(values(message@)),
            all_reduced(values(ciphertext@)),
            self.encrypts(symmetric_key@, values(message@), values(ciphertext@)),
    {
        let input = self.keystream_input(symmetric_key);
        let keystream = self.squeeze_after(&input, message.len());
        let ciphertext = add_keystream(message, keystream.as_slice());
        proof {
            assert(self.streams(symmetric_key@, values(message@).len(), values(keystream@)));
        }
        ciphertext
    }

    /// Decrypts `ciphertext`: subtracts the same keystream from it.
    pub fn decrypt(&self, symmetric_key: &FieldElement, ciphertext: &[FieldElement]) -> (message:
        Vec<FieldElement>)
        ensures
            message@.len() == ciphertext@.len(),
            all_reduced(values(ciphertext@)),
            all_reduced(values(message@)),
            self.decrypts(symmetric_key@, values(ciphertext@), values(message@)),
    {
        let input = self.keystream_input(symmetric_key);
        let keystream = self.squeeze_after(&input, ciphertext.len());
        let message = subtract_keystream(ciphertext, keystream.as_slice());
        proof {
            assert(self.streams(symmetric_key@, values(ciphertext@).len(), values(keystream@)));
        }
        message
    }

    /// The scheme's generator.
    pub fn parameters(&self) -> (generator: &CurvePoint)
        ensures
            generator@ == self.generator(),
    {
        &self.generator
    }

    /// The bit length of a private key.
    pub fn private_key_size_in_bits() -> (bits: usize)
        ensures
            bits == SCALAR_BITS,
    {
        scalar_size_in_bits()
    }

    /// The field elements that stand for the instance in a circuit: none.
    pub fn to_field_elements(&self) -> (r: Result<Vec<FieldElement>, EncryptionError>)
        ensures
            r matches Ok(elements) && elements@.len() == 0,
    {
        Ok(Vec::new())
    }
}

} // verus!
