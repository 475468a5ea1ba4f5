//! The additive stream cipher: a keystream of field elements is added to the
//! message, element by element, and subtracted again to decrypt.

use crate::field::{all_reduced, base_add, base_sub, field_modulus, values, FieldElement};
use vstd::arithmetic::div_mod::{
    lemma_fundamental_div_mod, lemma_mod_equivalence, lemma_mod_multiples_vanish, lemma_small_mod,
};
use vstd::prelude::*;

verus! {

/// The sums in the field of `message` and `keystream`, position by position.
pub open spec fn masked(message: Seq<nat>, keystream: Seq<nat>) -> Seq<nat> {
    Seq::new(message.len(), |i: int| (message[i] + keystream[i]) % field_modulus())
}

/// The differences in the field of `ciphertext` and `keystream`, position by
/// position.
pub open spec fn unmasked(ciphertext: Seq<nat>, keystream: Seq<nat>) -> Seq<nat> {
    Seq::new(
        ciphertext.len(),
        |i: int| ((ciphertext[i] - keystream[i]) % (field_modulus() as int)) as nat,
    )
}

/// Subtracting a number in the field undoes adding it.
pub proof fn lemma_sub_undoes_add(element: nat, key: nat)
    requires
        element < field_modulus(),
    ensures
        ((element + key) % field_modulus() - key) % (field_modulus() as int) == element,
{
    let p = field_modulus() as int;
    let sum = (element + key) as int;
    lemma_fundamental_div_mod(sum, p);
    let q = sum / p;
    assert(sum % p - key == p * (-q) + element) by (nonlinear_arith)
        requires
            sum == p * q + sum % p,
            sum == element + key,
    ;
    lemma_mod_multiples_vanish(-q, element as int, p);
    lemma_small_mod(element, field_modulus());
}

/// Decrypting with the keystream that encrypted gives the message back:
/// whatever the keystream, as long as it is as long as the message.
pub proof fn lemma_unmask_mask(message: Seq<nat>, keystream: Seq<nat>)
    requires
        message.len() == keystream.len(),
        all_reduced(message),
    ensures
        unmasked(masked(message, keystream), keystream) == message,
{
    assert forall|i: int| 0 <= i < message.len() implies unmasked(
        masked(message, keystream),
        keystream,
    )[i] == message[i] by {
        lemma_sub_undoes_add(message[i], keystream[i]);
    }
    assert(unmasked(masked(message, keystream), keystream) =~= message);
}

/// Two reduced numbers that differ still differ after the same number is
/// subtracted from each in the field.
pub proof fn lemma_sub_keeps_apart(first: nat, second: nat, key: nat)
    requires
        first < field_modulus(),
        second < field_modulus(),
        first != second,
    ensures
        (first - key) % (field_modulus() as int) != (second - key) % (field_modulus() as int),
{
    let p = field_modulus() as int;
    lemma_mod_equivalence(first - key, second - key, p);
    if first > second {
        lemma_small_mod((first - second) as nat, field_modulus());
    } else {
        lemma_mod_equivalence(second - key, first - key, p);
        lemma_small_mod((second - first) as nat, field_modulus());
    }
}

/// A ciphertext that differs from another in one place decrypts, under the
/// same keystream, to a message that differs in that place: the cipher
/// carries no check that a change could trip.
pub proof fn lemma_unmask_keeps_apart(
    first: Seq<nat>,
    second: Seq<nat>,
    keystream: Seq<nat>,
    place: int,
)
    requires
        first.len() == second.len(),
        all_reduced(first),
        all_reduced(second),
        0 <= place < first.len(),
        first[place] != second[place],
    ensures
        unmasked(first, keystream)[place] != unmasked(second, keystream)[place],
{
    lemma_sub_keeps_apart(first[place], second[place], keystream[place]);
}

/// Adds the keystream to the message, element by element.
pub fn add_keystream(message: &[FieldElement], keystream: &[FieldElement]) -> (ciphertext: Vec<
    FieldElement,
>)
    requires
        message@.len() == keystream@.len(),
    ensures
        ciphertext@.len() == message@.len(),
        all_reduced(values(message@)),
        all_reduced(values(ciphertext@)),
        values(ciphertext@) == masked(values(message@), values(keystream@)),
{
    let mut ciphertext: Vec<FieldElement> = Vec::new();
    let mut i: usize = 0;
    while i < message.len()
        invariant
            message@.len() == keystream@.len(),
            i <= message@.len(),
            ciphertext@.len() == i,
            forall|n: int|
                0 <= n < i ==> (#[trigger] ciphertext@[n])@ == (message@[n]@ + keystream@[n]@)
                    % field_modulus(),
            forall|n: int| 0 <= n < i ==> (#[trigger] ciphertext@[n]).wf(),
            forall|n: int| 0 <= n < i ==> (#[trigger] message@[n]).wf(),
        decreases message@.len() - i,
    {
        let plain = &message[i];
        let key = &keystream[i];
        proof {
            use_type_invariant(plain);
            use_type_invariant(key);
        }
        ciphertext.push(base_add(plain, key));
        i += 1;
    }
    proof {
        assert(values(ciphertext@) =~= masked(values(message@), values(keystream@)));
    }
    ciphertext
}

/// Subtracts the keystream from the ciphertext, element by element.
pub fn subtract_keystream(ciphertext: &[FieldElement], keystream: &[FieldElement]) -> (message:
    Vec<FieldElement>)
    requires
        ciphertext@.len() == keystream@.len(),
    ensures
        message@.len() == ciphertext@.len(),
        all_reduced(values(ciphertext@)),
        all_reduced(values(message@)),
        values(message@) == unmasked(values(ciphertext@), values(keystream@)),
{
    let mut message: Vec<FieldElement> = Vec::new();
    let mut i: usize = 0;
    while i < ciphertext.len()
        invariant
            ciphertext@.len() == keystream@.len(),
            i <= ciphertext@.len(),
            message@.len() == i,
            forall|n: int|
                0 <= n < i ==> (#[trigger] message@[n])@ == (ciphertext@[n]@ - keystream@[n]@) % (
                field_modulus() as int),
            forall|n: int| 0 <= n < i ==> (#[trigger] message@[n]).wf(),
            forall|n: int| 0 <= n < i ==> (#[trigger] ciphertext@[n]).wf(),
        decreases ciphertext@.len() - i,
    {
        let masked_element = &ciphertext[i];
        let key = &keystream[i];
        proof {
            use_type_invariant(masked_element);
            use_type_invariant(key);
        }
        message.push(base_sub(masked_element, key));
        i += 1;
    }
    proof {
        assert(values(message@) =~= unmasked(values(ciphertext@), values(keystream@)));
    }
    message
}

} // verus!
