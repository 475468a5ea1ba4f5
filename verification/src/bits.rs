//! Little-endian bit strings and the numbers they spell.

use vstd::arithmetic::power2::{lemma_pow2_unfold, pow2};
use vstd::prelude::*;

verus! {

/// 1 for a set bit, 0 for a clear one.
pub open spec fn bit_weight(bit: bool) -> nat {
    if bit {
        1
    } else {
        0
    }
}

/// The number whose binary digits, least significant first, are `bits`.
pub open spec fn bits_value(bits: Seq<bool>) -> nat
    decreases bits.len(),
{
    if bits.len() == 0 {
        0
    } else {
        bit_weight(bits[0]) + 2 * bits_value(bits.drop_first())
    }
}

/// Binary digit `index` of `value`; digit 0 is the least significant.
pub open spec fn nat_bit(value: nat, index: nat) -> bool
    decreases index,
{
    if index == 0 {
        value % 2 == 1
    } else {
        nat_bit(value / 2, (index - 1) as nat)
    }
}

/// The lowest `width` binary digits of `value`, least significant first.
pub open spec fn value_bits(value: nat, width: nat) -> Seq<bool> {
    Seq::new(width, |i: int| nat_bit(value, i as nat))
}

/// The number whose base-256 digits, least significant first, are `bytes`.
pub open spec fn bytes_value(bytes: Seq<u8>) -> nat
    decreases bytes.len(),
{
    if bytes.len() == 0 {
        0
    } else {
        bytes[0] as nat + 256 * bytes_value(bytes.drop_first())
    }
}

/// Zero has no set digit.
pub proof fn lemma_zero_has_no_bit(index: nat)
    ensures
        !nat_bit(0, index),
    decreases index,
{
    if index > 0 {
        lemma_zero_has_no_bit((index - 1) as nat);
    }
}

/// Digit `index` of the number that `bits` spells is `bits[index]`, and every
/// digit beyond the end of `bits` is clear.
pub proof fn lemma_bit_of_bits_value(bits: Seq<bool>, index: nat)
    ensures
        nat_bit(bits_value(bits), index) == (index < bits.len() && bits[index as int]),
    decreases index,
{
    if bits.len() == 0 {
        lemma_zero_has_no_bit(index);
    } else if index > 0 {
        let rest = bits.drop_first();
        assert(bits_value(bits) / 2 == bits_value(rest));
        lemma_bit_of_bits_value(rest, (index - 1) as nat);
    }
}

/// A string of `n` bits spells a number below `2^n`.
pub proof fn lemma_bits_value_bound(bits: Seq<bool>)
    ensures
        bits_value(bits) < pow2(bits.len()),
    decreases bits.len(),
{
    if bits.len() == 0 {
        assert(pow2(0) == 1) by {
            vstd::arithmetic::power2::lemma2_to64();
        }
    } else {
        lemma_pow2_unfold(bits.len());
        lemma_bits_value_bound(bits.drop_first());
    }
}

/// Spelling out the lowest `width` digits of a number below `2^width` and
/// reading them back gives the number.
pub proof fn lemma_value_of_value_bits(value: nat, width: nat)
    requires
        value < pow2(width),
    ensures
        bits_value(value_bits(value, width)) == value,
    decreases width,
{
    let bits = value_bits(value, width);
    if width == 0 {
        assert(pow2(0) == 1) by {
            vstd::arithmetic::power2::lemma2_to64();
        }
    } else {
        lemma_pow2_unfold(width);
        let rest = value_bits(value / 2, (width - 1) as nat);
        assert(bits.drop_first() =~= rest);
        lemma_value_of_value_bits(value / 2, (width - 1) as nat);
    }
}

} // verus!
