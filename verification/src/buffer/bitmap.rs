//! Booleans packed into bytes, one bit for each.

use vstd::prelude::*;

verus! {

/// `2^index`: what the bit at `index` of a byte is worth.
pub open spec fn bit_weight(index: nat) -> int
    decreases index,
{
    if index == 0 {
        1
    } else {
        2 * bit_weight((index - 1) as nat)
    }
}

/// The number whose bit `i` is set if and only if `bits[i]` is true.
pub open spec fn bits_value(bits: Seq<bool>) -> int
    decreases bits.len(),
{
    if bits.len() == 0 {
        0
    } else if bits.last() {
        bits_value(bits.drop_last()) + bit_weight((bits.len() - 1) as nat)
    } else {
        bits_value(bits.drop_last())
    }
}

/// The byte at `index` of the packing of `bits`: the eight values from
/// `8 * index` on, or as many as there are, least significant bit first.
pub open spec fn packed_byte(bits: Seq<bool>, index: int) -> u8 {
    let end = if 8 * index + 8 <= bits.len() {
        8 * index + 8
    } else {
        bits.len() as int
    };
    bits_value(bits.subrange(8 * index, end)) as u8
}

/// The packing of `bits`, one bit for each value and eight to the byte;
/// the bits of the last byte that stand for no value are zero.
pub open spec fn pack_bits(bits: Seq<bool>) -> Seq<u8> {
    Seq::new(((bits.len() + 7) / 8) as nat, |index: int| packed_byte(bits, index))
}

/// Up to eight values make a number below the weight of the next bit, so
/// that it fits a byte.
pub proof fn lemma_bits_value_bound(bits: Seq<bool>)
    requires
        bits.len() <= 8,
    ensures
        0 <= bits_value(bits) < bit_weight(bits.len()),
        bit_weight(bits.len()) <= 256,
        bits.len() < 8 ==> bit_weight(bits.len()) <= 128,
    decreases bits.len(),
{
    reveal_with_fuel(bit_weight, 9);
    if bits.len() > 0 {
        lemma_bits_value_bound(bits.drop_last());
    }
}

/// The bit at `place` of the number that up to eight values make is set
/// if and only if there is a value at `place` and it is true.
pub proof fn lemma_bits_value_bit(bits: Seq<bool>, place: u8)
    requires
        bits.len() <= 8,
        place < 8,
    ensures
        (((bits_value(bits) as u8) >> place) & 1 == 1) == (place < bits.len() && bits[place as int]),
    decreases bits.len(),
{
    reveal_with_fuel(bit_weight, 9);
    lemma_bits_value_bound(bits);
    if bits.len() == 0 {
        assert((0u8 >> place) & 1 == 0) by (bit_vector);
    } else {
        let rest = bits.drop_last();
        let at = (bits.len() - 1) as u8;
        lemma_bits_value_bound(rest);
        lemma_bits_value_bit(rest, place);
        let low = bits_value(rest) as u8;
        let weight = bit_weight(rest.len()) as u8;
        assert(weight == 1u8 << at) by {
            assert(1u8 << 0u8 == 1) by (bit_vector);
            assert(1u8 << 1u8 == 2) by (bit_vector);
            assert(1u8 << 2u8 == 4) by (bit_vector);
            assert(1u8 << 3u8 == 8) by (bit_vector);
            assert(1u8 << 4u8 == 16) by (bit_vector);
            assert(1u8 << 5u8 == 32) by (bit_vector);
            assert(1u8 << 6u8 == 64) by (bit_vector);
            assert(1u8 << 7u8 == 128) by (bit_vector);
        }
        assert(((low >> place) & 1 == 1) ==> place < at) by (bit_vector)
            requires
                low < weight,
                weight == 1u8 << at,
                at < 8,
                place < 8,
        ;
        if bits.last() {
            let sum = (low + weight) as u8;
            assert(((sum >> place) & 1 == 1) == (place == at || (low >> place) & 1 == 1))
                by (bit_vector)
                requires
                    sum == low + weight,
                    low < weight,
                    weight == 1u8 << at,
                    at < 8,
                    place < 8,
            ;
        }
    }
}

/// Bit by bit: the bit at `index % 8` of the byte at `index / 8` of the
/// packing is set if and only if there is a value at `index` and it is
/// true. So each value has its bit, and the bits of the last byte that
/// stand for no value are zero.
pub proof fn lemma_packed_bit(bits: Seq<bool>, index: int)
    requires
        0 <= index < 8 * ((bits.len() + 7) / 8),
    ensures
        pack_bits(bits).len() == (bits.len() + 7) / 8,
        ((pack_bits(bits)[index / 8] >> ((index % 8) as u8)) & 1 == 1) == (index < bits.len()
            && bits[index]),
{
    let byte = index / 8;
    let place = (index % 8) as u8;
    let end = if 8 * byte + 8 <= bits.len() {
        8 * byte + 8
    } else {
        bits.len() as int
    };
    let chunk = bits.subrange(8 * byte, end);
    lemma_bits_value_bit(chunk, place);
    assert(pack_bits(bits)[byte] == packed_byte(bits, byte));
    if index < bits.len() {
        assert(chunk[place as int] == bits[index]);
    }
}

} // verus!
