//! Blocks of elements: obtained, resized and given back.
//!
//! A block is held as the sequence of its slots. Its size in bytes is what
//! the caller asked for; that this is a whole number of cache lines is the
//! caller's policy.

use crate::types::NativeType;
use vstd::prelude::*;

verus! {

/// A block of `size` slots. Nothing is promised of what the slots hold.
pub fn allocate_aligned<T: NativeType>(size: usize) -> (block: Vec<T>)
    ensures
        block@.len() == size,
{
    allocate_aligned_zeroed(size)
}

/// A block of `size` slots, each holding the zero value.
pub fn allocate_aligned_zeroed<T: NativeType>(size: usize) -> (block: Vec<T>)
    ensures
        block@ == Seq::new(size as nat, |i: int| T::zero()),
{
    let mut block: Vec<T> = Vec::new();
    while block.len() < size
        invariant
            block@.len() <= size,
            forall|i: int| 0 <= i < block@.len() ==> block@[i] == T::zero(),
        decreases size - block@.len(),
    {
        block.push(T::zeroed());
    }
    assert(block@ =~= Seq::new(size as nat, |i: int| T::zero()));
    block
}

/// Resizes a block of `old_capacity` slots to `new_capacity` slots.
///
/// The slots that both sizes have keep what they held; nothing is promised
/// of the others.
pub fn reallocate<T: NativeType>(block: &mut Vec<T>, old_capacity: usize, new_capacity: usize)
    requires
        old(block)@.len() == old_capacity,
    ensures
        final(block)@.len() == new_capacity,
        forall|i: int|
            0 <= i < old_capacity && i < new_capacity ==> final(block)@[i] == old(block)@[i],
{
    if new_capacity < old_capacity {
        block.truncate(new_capacity);
    }
    while block.len() < new_capacity
        invariant
            old_capacity <= new_capacity ==> old_capacity <= block@.len() <= new_capacity,
            new_capacity < old_capacity ==> block@.len() == new_capacity,
            forall|i: int|
                0 <= i < old_capacity && i < block@.len() ==> block@[i] == old(block)@[i],
        decreases new_capacity - block@.len(),
    {
        block.push(T::zeroed());
    }
}

/// Gives back a block of `size` slots.
pub fn free_aligned<T: NativeType>(block: Vec<T>, size: usize)
    requires
        block@.len() == size,
{
    let _ = block;
}

} // verus!
