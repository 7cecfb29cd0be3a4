//! How large the block of a buffer is: whole cache lines, grown by
//! doubling, within what can be allocated.

use super::util::round_up_64;
use super::util::round_upto_multiple_of_64;
use crate::types::NativeType;
use vstd::layout::size_of;
use vstd::prelude::*;

verus! {

/// The number of elements that fill the cache lines needed for `capacity`
/// elements.
pub open spec fn spec_capacity_multiple_of_64<T>(capacity: int) -> int {
    round_up_64(capacity * size_of::<T>()) / (size_of::<T>() as int)
}

/// Whether a block of `capacity` elements can exist: rounded up to its
/// alignment of 64 bytes, no allocation is larger than `isize::MAX` bytes.
pub open spec fn allocatable<T>(capacity: int) -> bool {
    0 <= capacity && capacity * size_of::<T>() <= isize::MAX - 63
}

/// The capacity of a buffer of `capacity` elements once it has to hold
/// `required` of them: unchanged while they fit, else the larger of twice
/// the old capacity and the cache lines that `required` elements need.
pub open spec fn grown_capacity<T>(capacity: int, required: int) -> int {
    if required <= capacity {
        capacity
    } else if spec_capacity_multiple_of_64::<T>(required) >= 2 * capacity {
        spec_capacity_multiple_of_64::<T>(required)
    } else {
        2 * capacity
    }
}

/// The size in bytes of `count` elements, spelled out for each size that an
/// element can have.
pub proof fn lemma_byte_size<T: NativeType>(count: int)
    ensures
        size_of::<T>() == 1 ==> count * size_of::<T>() == count,
        size_of::<T>() == 2 ==> count * size_of::<T>() == 2 * count,
        size_of::<T>() == 4 ==> count * size_of::<T>() == 4 * count,
        size_of::<T>() == 8 ==> count * size_of::<T>() == 8 * count,
        size_of::<T>() == 16 ==> count * size_of::<T>() == 16 * count,
        size_of::<T>() == 1 || size_of::<T>() == 2 || size_of::<T>() == 4 || size_of::<T>() == 8
            || size_of::<T>() == 16,
{
    T::lemma_size_divides_cache_line();
    let size = size_of::<T>() as int;
    assert(size == 1 ==> count * size == count) by (nonlinear_arith);
    assert(size == 2 ==> count * size == 2 * count) by (nonlinear_arith);
    assert(size == 4 ==> count * size == 4 * count) by (nonlinear_arith);
    assert(size == 8 ==> count * size == 8 * count) by (nonlinear_arith);
    assert(size == 16 ==> count * size == 16 * count) by (nonlinear_arith);
}

/// What rounding to cache lines does to a number of elements.
pub proof fn lemma_capacity_multiple_of_64<T: NativeType>(capacity: int)
    requires
        0 <= capacity,
    ensures
        spec_capacity_multiple_of_64::<T>(capacity) * size_of::<T>() == round_up_64(
            capacity * size_of::<T>(),
        ),
        (spec_capacity_multiple_of_64::<T>(capacity) * size_of::<T>()) % 64 == 0,
        capacity <= spec_capacity_multiple_of_64::<T>(capacity) < capacity + 64,
{
    lemma_byte_size::<T>(capacity);
    let size = size_of::<T>() as int;
    let bytes = capacity * size;
    let lines = (bytes + 63) / 64;
    let rounded = spec_capacity_multiple_of_64::<T>(capacity);
    assert(round_up_64(bytes) == lines * 64);
    assert(rounded == (lines * 64) / size);
    if size == 1 {
        assert(rounded == 64 * lines);
    } else if size == 2 {
        assert(rounded == 32 * lines);
    } else if size == 4 {
        assert(rounded == 16 * lines);
    } else if size == 8 {
        assert(rounded == 8 * lines);
    } else {
        assert(rounded == 4 * lines);
    }
    lemma_byte_size::<T>(rounded);
}

/// What growth does to a block: it never shrinks, it holds what was asked
/// for, it stays a whole number of cache lines, and where it can be
/// allocated the sizes on the way to it can be computed.
pub proof fn lemma_grown_capacity<T: NativeType>(capacity: int, required: int)
    requires
        allocatable::<T>(capacity),
        (capacity * size_of::<T>()) % 64 == 0,
        0 <= required,
    ensures
        capacity <= grown_capacity::<T>(capacity, required),
        required <= grown_capacity::<T>(capacity, required),
        (grown_capacity::<T>(capacity, required) * size_of::<T>()) % 64 == 0,
        allocatable::<T>(grown_capacity::<T>(capacity, required)) ==> required * size_of::<T>()
            + 63 <= isize::MAX && required <= isize::MAX - 63 && allocatable::<T>(
            spec_capacity_multiple_of_64::<T>(required),
        ),
        allocatable::<T>(grown_capacity::<T>(capacity, required)) && capacity < required ==> 2
            * capacity <= isize::MAX - 63,
{
    let rounded = spec_capacity_multiple_of_64::<T>(required);
    let grown = grown_capacity::<T>(capacity, required);
    lemma_capacity_multiple_of_64::<T>(required);
    lemma_byte_size::<T>(required);
    lemma_byte_size::<T>(capacity);
    lemma_byte_size::<T>(2 * capacity);
    lemma_byte_size::<T>(rounded);
    lemma_byte_size::<T>(grown);
}

/// The capacity of a new buffer sized by a hint of `hint` bytes: the whole
/// elements of the hint, rounded up to a multiple of 64, where that can be
/// allocated, and none where it can not.
pub open spec fn hinted_capacity<T>(hint: int) -> int {
    if allocatable::<T>(round_up_64(hint / (size_of::<T>() as int))) {
        round_up_64(hint / (size_of::<T>() as int))
    } else {
        0
    }
}

/// The capacity of a new buffer that holds its first element and was sized
/// for `lower` more: a hint of `lower + 1` bytes, or of as many as can be
/// counted, and room for the one element.
pub open spec fn first_capacity<T>(lower: usize) -> int {
    let hint = if lower < usize::MAX {
        lower + 1
    } else {
        usize::MAX as int
    };
    grown_capacity::<T>(hinted_capacity::<T>(hint), 1)
}

/// The capacity of a buffer of `len` elements in a block of `capacity`
/// after `count` more have been pushed one by one.
pub open spec fn capacity_after_pushes<T>(capacity: int, len: int, count: nat) -> int
    decreases count,
{
    if count == 0 {
        capacity
    } else {
        capacity_after_pushes::<T>(
            grown_capacity::<T>(capacity, len + 1),
            len + 1,
            (count - 1) as nat,
        )
    }
}

/// The capacity of a buffer of `len` elements in a block of `capacity`
/// after room was made for `lower` elements and `count` were appended.
pub open spec fn extended_capacity<T>(capacity: int, len: int, lower: int, count: nat) -> int {
    capacity_after_pushes::<T>(grown_capacity::<T>(capacity, len + lower), len, count)
}

/// The number of elements that room is made for ahead of an extension:
/// the number that the source declares as its least, where a block for it
/// can be allocated, and none where it can not.
pub open spec fn admitted_lower<T>(capacity: int, len: int, declared: int) -> int {
    if allocatable::<T>(grown_capacity::<T>(capacity, len + declared)) {
        declared
    } else {
        0
    }
}

/// The number of bytes that hold `lower` bits, counted as far as numbers
/// go.
pub open spec fn bytes_for_bits(lower: usize) -> int {
    if lower <= usize::MAX - 7 {
        (lower + 7) / 8
    } else {
        (usize::MAX as int) / 8
    }
}

/// The capacity of a new buffer of bytes sized for `lower` bits, where that
/// can be allocated, and none where it can not.
pub open spec fn packed_first_capacity(lower: usize) -> int {
    hinted_capacity::<u8>(bytes_for_bits(lower))
}

/// The capacity of a full block of `capacity` bytes once room is made for
/// one more byte and for the `lower` bits that the source declares to be
/// left, where that can be allocated, and for the one byte where it can
/// not.
pub open spec fn packed_grown_capacity(capacity: int, lower: usize) -> int {
    let declared = grown_capacity::<u8>(capacity, capacity + 1 + bytes_for_bits(lower));
    if allocatable::<u8>(declared) {
        declared
    } else {
        grown_capacity::<u8>(capacity, capacity + 1)
    }
}

/// The capacity of a buffer of packed bits after `lowers.len()` bytes were
/// written: it was sized for `first` bits, and when the byte at `index`
/// found the block full, the source declared `lowers[index]` bits to be
/// left.
pub open spec fn packed_capacity(first: usize, lowers: Seq<usize>) -> int
    decreases lowers.len(),
{
    if lowers.len() == 0 {
        packed_first_capacity(first)
    } else {
        let before = packed_capacity(first, lowers.drop_last());
        if lowers.len() - 1 == before {
            packed_grown_capacity(before, lowers.last())
        } else {
            before
        }
    }
}

/// A block that is no larger than one that can be allocated can be
/// allocated too.
pub proof fn lemma_allocatable_below<T: NativeType>(smaller: int, larger: int)
    requires
        0 <= smaller <= larger,
        allocatable::<T>(larger),
    ensures
        allocatable::<T>(smaller),
{
    lemma_byte_size::<T>(smaller);
    lemma_byte_size::<T>(larger);
}

/// Pushing never shrinks the block, and never grows it beyond twice the
/// final length and a cache line.
pub proof fn lemma_capacity_after_pushes<T: NativeType>(capacity: int, len: int, count: nat)
    requires
        0 <= len <= capacity,
    ensures
        capacity <= capacity_after_pushes::<T>(capacity, len, count),
        len + count <= capacity_after_pushes::<T>(capacity, len, count),
        capacity_after_pushes::<T>(capacity, len, count) <= capacity || capacity_after_pushes::<T>(
            capacity,
            len,
            count,
        ) <= 2 * (len + count) + 64,
    decreases count,
{
    if count > 0 {
        lemma_capacity_multiple_of_64::<T>(len + 1);
        lemma_capacity_after_pushes::<T>(
            grown_capacity::<T>(capacity, len + 1),
            len + 1,
            (count - 1) as nat,
        );
    }
}

/// An extension whose first reservation can be allocated can be allocated
/// as a whole where twice the final length and a cache line can be.
pub proof fn lemma_extension_fits<T: NativeType>(capacity: int, len: int, lower: int, count: nat)
    requires
        0 <= len <= capacity,
        0 <= lower,
        allocatable::<T>(capacity),
        (capacity * size_of::<T>()) % 64 == 0,
        allocatable::<T>(grown_capacity::<T>(capacity, len + lower)),
        allocatable::<T>(2 * (len + count) + 64),
    ensures
        allocatable::<T>(extended_capacity::<T>(capacity, len, lower, count)),
{
    let reserved = grown_capacity::<T>(capacity, len + lower);
    lemma_grown_capacity::<T>(capacity, len + lower);
    lemma_capacity_after_pushes::<T>(reserved, len, count);
    let target = capacity_after_pushes::<T>(reserved, len, count);
    if target <= reserved {
        lemma_allocatable_below::<T>(target, reserved);
    } else {
        lemma_allocatable_below::<T>(target, 2 * (len + count) + 64);
    }
}

/// An extension never shrinks the block.
pub proof fn lemma_extended_capacity_grows<T: NativeType>(
    capacity: int,
    len: int,
    lower: int,
    count: nat,
)
    requires
        0 <= len <= capacity,
        0 <= lower,
        allocatable::<T>(capacity),
        (capacity * size_of::<T>()) % 64 == 0,
    ensures
        capacity <= grown_capacity::<T>(capacity, len + lower) <= extended_capacity::<T>(
            capacity,
            len,
            lower,
            count,
        ),
{
    lemma_grown_capacity::<T>(capacity, len + lower);
    lemma_capacity_after_pushes::<T>(grown_capacity::<T>(capacity, len + lower), len, count);
}

/// Whatever the source declares as the least number of its items, an
/// extension can be allocated where twice the final length and a cache
/// line can be.
pub proof fn lemma_extension_fits_declared<T: NativeType>(
    capacity: int,
    len: int,
    declared: int,
    count: nat,
)
    requires
        0 <= len <= capacity,
        0 <= declared,
        allocatable::<T>(capacity),
        (capacity * size_of::<T>()) % 64 == 0,
        allocatable::<T>(2 * (len + count) + 64),
    ensures
        allocatable::<T>(
            extended_capacity::<T>(
                capacity,
                len,
                admitted_lower::<T>(capacity, len, declared),
                count,
            ),
        ),
{
    lemma_extension_fits::<T>(capacity, len, admitted_lower::<T>(capacity, len, declared), count);
}

/// The block of a new buffer that holds its first element is a whole
/// number of cache lines with room for it, and one that can be allocated.
pub proof fn lemma_first_capacity<T: NativeType>(lower: usize)
    ensures
        1 <= first_capacity::<T>(lower),
        allocatable::<T>(first_capacity::<T>(lower)),
        (first_capacity::<T>(lower) * size_of::<T>()) % 64 == 0,
{
    let hint = if lower < usize::MAX {
        lower + 1
    } else {
        usize::MAX as int
    };
    let sized = hinted_capacity::<T>(hint);
    lemma_byte_size::<T>(sized);
    lemma_byte_size::<T>(1);
    lemma_byte_size::<T>(64);
    lemma_capacity_multiple_of_64::<T>(1);
    lemma_byte_size::<T>(spec_capacity_multiple_of_64::<T>(1));
    lemma_grown_capacity::<T>(sized, 1);
    lemma_byte_size::<T>(2 * sized);
}

/// Whatever the source declares, a buffer of a first element and `count`
/// more can be allocated where twice its length and a cache line can be.
pub proof fn lemma_collection_fits<T: NativeType>(lower: usize, declared: usize, count: nat)
    requires
        allocatable::<T>(2 * (count as int + 1) + 64),
    ensures
        allocatable::<T>(
            extended_capacity::<T>(
                first_capacity::<T>(lower),
                1,
                admitted_lower::<T>(first_capacity::<T>(lower), 1, declared as int),
                count,
            ),
        ),
{
    lemma_first_capacity::<T>(lower);
    lemma_extension_fits_declared::<T>(first_capacity::<T>(lower), 1, declared as int, count);
}

/// Whatever the source declares, the block of a packing of `bytes` bytes
/// can be allocated while it is written where twice that many bytes and a
/// cache line can be; and it holds what was written.
pub proof fn lemma_packing_fits(first: usize, lowers: Seq<usize>, bytes: int)
    requires
        lowers.len() <= bytes,
        allocatable::<u8>(2 * bytes + 64),
    ensures
        allocatable::<u8>(packed_capacity(first, lowers)),
        packed_capacity(first, lowers) % 64 == 0,
        lowers.len() <= packed_capacity(first, lowers),
    decreases lowers.len(),
{
    lemma_byte_size::<u8>(0);
    if lowers.len() == 0 {
        lemma_byte_size::<u8>(packed_first_capacity(first));
    } else {
        let before = packed_capacity(first, lowers.drop_last());
        lemma_packing_fits(first, lowers.drop_last(), bytes);
        lemma_byte_size::<u8>(before);
        if lowers.len() - 1 == before {
            lemma_grown_capacity::<u8>(before, before + 1 + bytes_for_bits(lowers.last()));
            lemma_grown_capacity::<u8>(before, before + 1);
            lemma_capacity_multiple_of_64::<u8>(before + 1);
            lemma_allocatable_below::<u8>(grown_capacity::<u8>(before, before + 1), 2 * bytes + 64);
            lemma_byte_size::<u8>(packed_grown_capacity(before, lowers.last()));
        }
    }
}

/// Rounds a number of elements up to whole cache lines.
pub fn capacity_multiple_of_64<T: NativeType>(capacity: usize) -> (rounded: usize)
    requires
        capacity * size_of::<T>() + 63 <= usize::MAX,
    ensures
        rounded == spec_capacity_multiple_of_64::<T>(capacity as int),
{
    proof {
        T::lemma_size_divides_cache_line();
    }
    round_upto_multiple_of_64(capacity * core::mem::size_of::<T>()) / core::mem::size_of::<T>()
}

} // verus!
