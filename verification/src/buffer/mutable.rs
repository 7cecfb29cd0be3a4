//! The growable buffer: a block of elements, of which a prefix is in use.

use super::allocator;
use super::bitmap::bit_weight;
use super::bitmap::bits_value;
use super::bitmap::lemma_bits_value_bound;
use super::bitmap::pack_bits;
use super::bitmap::packed_byte;
use super::bytes::Bytes;
use super::bytes::Deallocation;
use super::capacity::admitted_lower;
use super::capacity::allocatable;
use super::capacity::capacity_after_pushes;
use super::capacity::capacity_multiple_of_64;
use super::capacity::extended_capacity;
use super::capacity::first_capacity;
use super::capacity::grown_capacity;
use super::capacity::lemma_allocatable_below;
use super::capacity::lemma_byte_size;
use super::capacity::lemma_capacity_after_pushes;
use super::capacity::lemma_capacity_multiple_of_64;
use super::capacity::lemma_first_capacity;
use super::capacity::lemma_grown_capacity;
use super::capacity::packed_capacity;
use super::capacity::packed_first_capacity;
use super::capacity::packed_grown_capacity;
use super::capacity::spec_capacity_multiple_of_64;
use super::immutable::Buffer;
use super::util::round_up_64;
use super::util::round_upto_multiple_of_64;
use crate::types::lemma_raw_bytes_zero;
use crate::types::raw_bytes;
use crate::types::NativeType;
use vstd::layout::size_of;
use vstd::prelude::*;
use vstd::std_specs::iter::IteratorSpec;

verus! {

/// The bounds that the iterator gives for the number of items left, as
/// `Iterator::size_hint` of the standard library returns them.
///
/// The standard library asks of an implementation that the bounds be right
/// and enforces nothing, so nothing is claimed of them here.
#[verifier::external_body]
fn size_hint<I: Iterator>(iterator: &I) -> (bounds: (usize, Option<usize>)) {
    iterator.size_hint()
}

/// Why a construction from items of trusted number gave no buffer.
#[derive(Debug)]
pub enum TrustedLenError<E> {
    /// The source of the items failed with this error.
    Source(E),
    /// No exact number of items was declared: the upper limit was missing,
    /// stood for a block that can not be allocated, or was not the number
    /// of items that came.
    Length,
}

/// A growable run of elements in a block whose size in bytes is a multiple
/// of 64.
///
/// The first `len` slots of the block are the contents; the others are
/// spare. The view of a buffer is its contents.
#[derive(Debug)]
pub struct MutableBuffer<T: NativeType> {
    // the block: exactly `capacity` slots
    data: Vec<T>,
    // invariant: len <= capacity
    len: usize,
    capacity: usize,
}

impl<T: NativeType> View for MutableBuffer<T> {
    type V = Seq<T>;

    closed spec fn view(&self) -> Seq<T> {
        self.data@.take(self.len as int)
    }
}

/// Resizes `block` for at least `new_capacity` elements and at least twice
/// `old_capacity`, and returns the capacity it has then.
fn reallocate<T: NativeType>(block: &mut Vec<T>, old_capacity: usize, new_capacity: usize) -> (capacity:
    usize)
    requires
        old(block)@.len() == old_capacity,
        old_capacity < new_capacity,
        allocatable::<T>(old_capacity as int),
        (old_capacity * size_of::<T>()) % 64 == 0,
        allocatable::<T>(grown_capacity::<T>(old_capacity as int, new_capacity as int)),
    ensures
        capacity == grown_capacity::<T>(old_capacity as int, new_capacity as int),
        final(block)@.len() == capacity,
        final(block)@.take(old_capacity as int) == old(block)@,
{
    proof {
        lemma_grown_capacity::<T>(old_capacity as int, new_capacity as int);
    }
    let rounded = capacity_multiple_of_64::<T>(new_capacity);
    let doubled = old_capacity * 2;
    let capacity = if rounded >= doubled {
        rounded
    } else {
        doubled
    };
    allocator::reallocate(block, old_capacity, capacity);
    assert(block@.take(old_capacity as int) =~= old(block)@);
    capacity
}

impl<T: NativeType> MutableBuffer<T> {
    /// The invariant of a buffer: the contents lie within the block, and the
    /// block is a whole number of cache lines that can be allocated.
    pub closed spec fn wf(&self) -> bool {
        &&& self.data@.len() == self.capacity
        &&& self.len <= self.capacity
        &&& allocatable::<T>(self.capacity as int)
        &&& (self.capacity * size_of::<T>()) % 64 == 0
    }

    /// The number of elements in use.
    pub closed spec fn spec_len(&self) -> usize {
        self.len
    }

    /// The number of slots of the block.
    pub closed spec fn spec_capacity(&self) -> usize {
        self.capacity
    }

    /// What every slot of the block holds, spare ones included.
    pub closed spec fn storage(&self) -> Seq<T> {
        self.data@
    }

    /// The block itself.
    pub closed spec fn block(&self) -> Vec<T> {
        self.data
    }

    /// The contents never outgrow the block, and they are the first slots
    /// of it.
    pub proof fn lemma_len_within_capacity(&self)
        requires
            self.wf(),
        ensures
            self.spec_len() <= self.spec_capacity(),
            self@.len() == self.spec_len(),
            self.storage().len() == self.spec_capacity(),
            self@ == self.storage().take(self.spec_len() as int),
    {
    }

    /// The block of a buffer is a whole number of 64-byte cache lines, and
    /// one that can be allocated.
    pub proof fn lemma_allocation_multiple_of_64(&self)
        requires
            self.wf(),
        ensures
            (self.spec_capacity() * size_of::<T>()) % 64 == 0,
            allocatable::<T>(self.spec_capacity() as int),
    {
    }

    /// What was appended is read back as it was: the contents after it
    /// end with the items, and are the items where the buffer was empty.
    pub proof fn lemma_append_read_back(&self, extended: &Self, items: Seq<T>)
        requires
            extended@ == self@ + items,
        ensures
            extended@.len() == self@.len() + items.len(),
            extended@.take(self@.len() as int) == self@,
            extended@.skip(self@.len() as int) == items,
            self@.len() == 0 ==> extended@ == items,
    {
        assert(extended@.take(self@.len() as int) =~= self@);
        assert(extended@.skip(self@.len() as int) =~= items);
        if self@.len() == 0 {
            assert(extended@ =~= items);
        }
    }

    /// A buffer that was cut to `new_len` elements and filled up again to
    /// its length with `value` keeps what it held before the cut, and
    /// holds `value` from there on.
    pub proof fn lemma_cut_and_refill(&self, cut: &Self, refilled: &Self, new_len: usize, value: T)
        requires
            self.wf(),
            new_len <= self.spec_len(),
            cut@ == self@.take(new_len as int),
            refilled@ == cut@ + Seq::new((self.spec_len() - new_len) as nat, |i: int| value),
        ensures
            refilled@.len() == self@.len(),
            forall|i: int| 0 <= i < new_len ==> refilled@[i] == self@[i],
            forall|i: int| new_len <= i < self@.len() ==> refilled@[i] == value,
    {
    }

    /// A cut clears nothing: a buffer that was cut, its block left as it
    /// was, and then given its old length by `set_len` holds what it held.
    pub proof fn lemma_cut_and_restore(&self, cut: &Self, restored: &Self)
        requires
            self.wf(),
            cut.storage() == self.storage(),
            restored@ == cut.storage().take(self.spec_len() as int),
        ensures
            restored@ == self@,
    {
    }

    /// An empty buffer without a block.
    pub fn new() -> (buffer: Self)
        ensures
            buffer.wf(),
            buffer@ == Seq::<T>::empty(),
            buffer.spec_len() == 0,
            buffer.spec_capacity() == 0,
    {
        let data = allocator::allocate_aligned(0);
        let buffer = Self { data, len: 0, capacity: 0 };
        proof {
            lemma_byte_size::<T>(0);
            assert(buffer@ =~= Seq::<T>::empty());
        }
        buffer
    }

    /// An empty buffer with room for a hint of `capacity` bytes: the
    /// elements that the hint holds in full, rounded up to a multiple of 64.
    pub fn with_capacity(capacity: usize) -> (buffer: Self)
        requires
            allocatable::<T>(round_up_64(capacity as int / size_of::<T>() as int)),
        ensures
            buffer.wf(),
            buffer@ == Seq::<T>::empty(),
            buffer.spec_len() == 0,
            buffer.spec_capacity() == round_up_64(capacity as int / size_of::<T>() as int),
            buffer.spec_capacity() >= capacity as int / size_of::<T>() as int,
            (buffer.spec_capacity() * size_of::<T>()) % 64 == 0,
    {
        proof {
            lemma_byte_size::<T>(round_up_64(capacity as int / size_of::<T>() as int));
        }
        let capacity = round_upto_multiple_of_64(capacity / core::mem::size_of::<T>());
        let data = allocator::allocate_aligned(capacity);
        let buffer = Self { data, len: 0, capacity };
        assert(buffer@ =~= Seq::<T>::empty());
        proof {
            lemma_byte_size::<T>(capacity as int);
        }
        buffer
    }

    /// A buffer of `len` zero values, in the cache lines that they need.
    pub fn from_len_zeroed(len: usize) -> (buffer: Self)
        requires
            allocatable::<T>(spec_capacity_multiple_of_64::<T>(len as int)),
        ensures
            buffer.wf(),
            buffer@ == Seq::new(len as nat, |i: int| T::zero()),
            buffer.spec_len() == len,
            buffer.spec_capacity() == spec_capacity_multiple_of_64::<T>(len as int),
            buffer.storage() == Seq::new(buffer.spec_capacity() as nat, |i: int| T::zero()),
            raw_bytes(buffer@) == Seq::new(len as nat * size_of::<T>(), |i: int| 0u8),
            len <= buffer.spec_capacity(),
            (buffer.spec_capacity() * size_of::<T>()) % 64 == 0,
            len * size_of::<T>() <= buffer.spec_capacity() * size_of::<T>() < len * size_of::<T>()
                + 64,
    {
        proof {
            lemma_capacity_multiple_of_64::<T>(len as int);
            lemma_raw_bytes_zero::<T>(len as nat);
        }
        let new_capacity = capacity_multiple_of_64::<T>(len);
        let data = allocator::allocate_aligned_zeroed(new_capacity);
        let buffer = Self { data, len, capacity: new_capacity };
        assert(buffer@ =~= Seq::new(len as nat, |i: int| T::zero()));
        buffer
    }

    /// Whether `reserve(additional)` would ask for a block that can be
    /// allocated.
    pub fn can_reserve(&self, additional: usize) -> (fits: bool)
        requires
            self.wf(),
        ensures
            fits == allocatable::<T>(
                grown_capacity::<T>(self.spec_capacity() as int, self.spec_len() + additional),
            ),
    {
        proof {
            let required = self.len + additional;
            lemma_capacity_multiple_of_64::<T>(required);
            lemma_byte_size::<T>(required);
            lemma_byte_size::<T>(self.capacity as int);
            lemma_byte_size::<T>(2 * self.capacity);
            lemma_byte_size::<T>(spec_capacity_multiple_of_64::<T>(required));
        }
        let size = core::mem::size_of::<T>();
        let limit = isize::MAX as usize - 63;
        if additional > limit - self.len {
            return false;
        }
        let required = self.len + additional;
        if required <= self.capacity {
            return true;
        }
        if required > limit / size {
            return false;
        }
        let rounded = round_upto_multiple_of_64(required * size);
        rounded <= limit && self.capacity * size <= limit / 2
    }

    /// Makes room for `additional` more elements. The block changes only
    /// if they do not fit, and then grows to `grown_capacity`.
    pub fn reserve(&mut self, additional: usize)
        requires
            old(self).wf(),
            allocatable::<T>(
                grown_capacity::<T>(
                    old(self).spec_capacity() as int,
                    old(self).spec_len() + additional,
                ),
            ),
        ensures
            final(self).wf(),
            final(self)@ == old(self)@,
            final(self).spec_len() == old(self).spec_len(),
            final(self).spec_capacity() == grown_capacity::<T>(
                old(self).spec_capacity() as int,
                old(self).spec_len() + additional,
            ),
            final(self).storage().take(old(self).spec_capacity() as int) == old(self).storage(),
            final(self).spec_capacity() >= old(self).spec_capacity(),
            final(self).spec_capacity() >= final(self).spec_len() + additional,
            (final(self).spec_capacity() * size_of::<T>()) % 64 == 0,
    {
        proof {
            lemma_grown_capacity::<T>(self.capacity as int, self.len + additional);
        }
        let required_cap = self.len + additional;
        if required_cap > self.capacity {
            let new_capacity = reallocate(&mut self.data, self.capacity, required_cap);
            self.capacity = new_capacity;
            assert(self@ =~= old(self)@);
        } else {
            assert(self.storage().take(self.capacity as int) =~= self.storage());
        }
    }

    /// Whether the buffer holds no element.
    pub fn is_empty(&self) -> (empty: bool)
        ensures
            empty == (self.spec_len() == 0),
    {
        self.len == 0
    }

    /// The number of elements in the buffer.
    #[verifier::when_used_as_spec(spec_len)]
    pub fn len(&self) -> (len: usize)
        ensures
            len == self.spec_len(),
    {
        self.len
    }

    /// The number of elements that the block can hold.
    #[verifier::when_used_as_spec(spec_capacity)]
    pub fn capacity(&self) -> (capacity: usize)
        ensures
            capacity == self.spec_capacity(),
    {
        self.capacity
    }

    /// The contents as a slice.
    pub fn as_slice(&self) -> (slice: &[T])
        requires
            self.wf(),
        ensures
            slice@ == self@,
    {
        let slice = vstd::slice::slice_subrange(self.data.as_slice(), 0, self.len);
        assert(slice@ =~= self@);
        slice
    }

    /// The contents as a slice through which they can be overwritten. The
    /// spare slots and the block stay as they are.
    pub fn as_slice_mut(&mut self) -> (slice: &mut [T])
        requires
            old(self).wf(),
        ensures
            slice@ == old(self)@,
            final(slice)@.len() == slice@.len() ==> final(self).wf(),
            final(slice)@.len() == slice@.len() ==> final(self)@ == final(slice)@,
            final(self).spec_len() == old(self).spec_len(),
            final(self).spec_capacity() == old(self).spec_capacity(),
            final(self).storage() == final(slice)@ + old(self).storage().skip(
                old(self).spec_len() as int,
            ),
    {
        let len = self.len;
        let whole = self.data.as_mut_slice();
        let (contents, spare) = whole.split_at_mut(len);
        contents
    }

    /// Appends the elements of `items`, growing the block if they do not
    /// fit.
    pub fn extend_from_slice(&mut self, items: &[T])
        requires
            old(self).wf(),
            allocatable::<T>(
                grown_capacity::<T>(
                    old(self).spec_capacity() as int,
                    old(self).spec_len() + items@.len(),
                ),
            ),
        ensures
            final(self).wf(),
            final(self)@ == old(self)@ + items@,
            final(self).spec_len() == old(self).spec_len() + items@.len(),
            final(self).spec_capacity() == grown_capacity::<T>(
                old(self).spec_capacity() as int,
                old(self).spec_len() + items@.len(),
            ),
            final(self).spec_len() <= final(self).spec_capacity(),
            (final(self).spec_capacity() * size_of::<T>()) % 64 == 0,
    {
        let len = items.len();
        let additional = len;
        proof {
            lemma_grown_capacity::<T>(self.capacity as int, self.len + additional);
        }
        self.reserve(additional);
        let start = self.len;
        let mut copied: usize = 0;
        while copied < additional
            invariant
                copied <= additional,
                additional == items@.len(),
                start + additional <= self.capacity,
                self.len == start,
                self.wf(),
                self.capacity == grown_capacity::<T>(
                    old(self).spec_capacity() as int,
                    old(self).spec_len() + items@.len(),
                ),
                self.data@.take(start as int) == old(self)@,
                forall|j: int| start <= j < start + copied ==> self.data@[j] == items@[j - start],
            decreases additional - copied,
        {
            self.data.set(start + copied, items[copied]);
            assert(self.data@.take(start as int) =~= old(self)@);
            copied = copied + 1;
        }
        self.len = self.len + additional;
        assert(self@ =~= old(self)@ + items@);
    }

    /// Appends `item`, growing the block if it is full.
    pub fn push(&mut self, item: T)
        requires
            old(self).wf(),
            allocatable::<T>(
                grown_capacity::<T>(old(self).spec_capacity() as int, old(self).spec_len() + 1),
            ),
        ensures
            final(self).wf(),
            final(self)@ == old(self)@.push(item),
            final(self).spec_len() == old(self).spec_len() + 1,
            final(self).spec_capacity() == grown_capacity::<T>(
                old(self).spec_capacity() as int,
                old(self).spec_len() + 1,
            ),
            final(self).spec_len() <= final(self).spec_capacity(),
            (final(self).spec_capacity() * size_of::<T>()) % 64 == 0,
    {
        proof {
            lemma_grown_capacity::<T>(self.capacity as int, self.len + 1);
        }
        self.reserve(1);
        self.push_unchecked(item);
    }

    /// Appends `item` to a buffer that has a spare slot.
    fn push_unchecked(&mut self, item: T)
        requires
            old(self).wf(),
            old(self).spec_len() < old(self).spec_capacity(),
        ensures
            final(self).wf(),
            final(self)@ == old(self)@.push(item),
            final(self).spec_len() == old(self).spec_len() + 1,
            final(self).spec_capacity() == old(self).spec_capacity(),
            final(self).storage() == old(self).storage().update(old(self).spec_len() as int, item),
    {
        self.data.set(self.len, item);
        self.len = self.len + 1;
        assert(self@ =~= old(self)@.push(item));
    }

    /// Takes the first `len` slots of the block as the contents, whatever
    /// they hold.
    pub fn set_len(&mut self, len: usize)
        requires
            old(self).wf(),
            len <= old(self).spec_capacity(),
        ensures
            final(self).wf(),
            final(self)@ == old(self).storage().take(len as int),
            final(self).spec_len() == len,
            final(self).spec_capacity() == old(self).spec_capacity(),
            final(self).storage() == old(self).storage(),
    {
        self.len = len;
    }

    /// Gives the buffer `new_len` elements. A shorter buffer is filled up
    /// with `value`; a longer one is cut, and its block and what the cut
    /// slots hold stay as they are.
    pub fn resize(&mut self, new_len: usize, value: T)
        requires
            old(self).wf(),
            allocatable::<T>(
                grown_capacity::<T>(old(self).spec_capacity() as int, new_len as int),
            ),
        ensures
            final(self).wf(),
            final(self).spec_len() == new_len,
            final(self).spec_capacity() == grown_capacity::<T>(
                old(self).spec_capacity() as int,
                new_len as int,
            ),
            new_len > old(self).spec_len() ==> final(self)@ == old(self)@ + Seq::new(
                (new_len - old(self).spec_len()) as nat,
                |i: int| value,
            ),
            new_len <= old(self).spec_len() ==> final(self)@ == old(self)@.take(new_len as int)
                && final(self).storage() == old(self).storage(),
            final(self).spec_len() <= final(self).spec_capacity(),
            final(self).spec_capacity() >= old(self).spec_capacity(),
            (final(self).spec_capacity() * size_of::<T>()) % 64 == 0,
    {
        proof {
            lemma_grown_capacity::<T>(self.capacity as int, new_len as int);
        }
        if new_len > self.len {
            let diff = new_len - self.len;
            proof {
                lemma_grown_capacity::<T>(self.capacity as int, new_len as int);
            }
            self.reserve(diff);
            let start = self.len;
            let mut written: usize = 0;
            while written < diff
                invariant
                    written <= diff,
                    start + diff <= self.capacity,
                    self.len == start,
                    self.wf(),
                    self.capacity == grown_capacity::<T>(
                        old(self).spec_capacity() as int,
                        new_len as int,
                    ),
                    self.data@.take(start as int) == old(self)@,
                    forall|j: int| start <= j < start + written ==> self.data@[j] == value,
                decreases diff - written,
            {
                self.data.set(start + written, value);
                assert(self.data@.take(start as int) =~= old(self)@);
                written = written + 1;
            }
            self.len = new_len;
            assert(self@ =~= old(self)@ + Seq::new(diff as nat, |i: int| value));
        } else {
            // this cuts the buffer when new_len < self.len
            self.len = new_len;
            assert(self@ =~= old(self)@.take(new_len as int));
        }
    }

    /// Whether a block for `len` elements, rounded up to cache lines, can be
    /// allocated.
    pub fn can_allocate(len: usize) -> (fits: bool)
        ensures
            fits == allocatable::<T>(spec_capacity_multiple_of_64::<T>(len as int)),
    {
        proof {
            lemma_capacity_multiple_of_64::<T>(len as int);
            lemma_byte_size::<T>(len as int);
        }
        let size = core::mem::size_of::<T>();
        let limit = isize::MAX as usize - 63;
        if len > limit / size {
            return false;
        }
        round_upto_multiple_of_64(len * size) <= limit
    }

    /// Whether `with_capacity(capacity)` would ask for a block that can be
    /// allocated.
    pub fn can_allocate_bytes(capacity: usize) -> (fits: bool)
        ensures
            fits == allocatable::<T>(round_up_64(capacity as int / size_of::<T>() as int)),
    {
        let size = core::mem::size_of::<T>();
        let limit = isize::MAX as usize - 63;
        proof {
            lemma_byte_size::<T>(round_up_64(capacity as int / size as int));
            lemma_byte_size::<T>(capacity as int / size as int);
        }
        let elements = capacity / size;
        if elements > limit {
            return false;
        }
        round_upto_multiple_of_64(elements) <= limit / size
    }

    /// Appends every item of `iterator`, whose number of items is at least
    /// `lower` by its own account.
    ///
    /// Room is made once for `lower` items; items are written while there
    /// is room, and the rest are pushed one by one.
    pub fn extend_from_iter<I: Iterator<Item = T>>(&mut self, iterator: I, lower: usize)
        requires
            old(self).wf(),
            iterator.obeys_prophetic_iter_laws(),
            iterator.decrease() is Some,
            allocatable::<T>(
                extended_capacity::<T>(
                    old(self).spec_capacity() as int,
                    old(self).spec_len() as int,
                    lower as int,
                    iterator.remaining().len(),
                ),
            ),
        ensures
            final(self).wf(),
            final(self)@ == old(self)@ + iterator.remaining(),
            final(self).spec_capacity() == extended_capacity::<T>(
                old(self).spec_capacity() as int,
                old(self).spec_len() as int,
                lower as int,
                iterator.remaining().len(),
            ),
    {
        let mut iterator = iterator;
        let ghost items = iterator.remaining();
        let ghost start = self.len as int;
        let ghost target = extended_capacity::<T>(
            self.capacity as int,
            start,
            lower as int,
            items.len(),
        );
        proof {
            lemma_grown_capacity::<T>(self.capacity as int, start + lower);
            lemma_capacity_after_pushes::<T>(
                grown_capacity::<T>(self.capacity as int, start + lower),
                start,
                items.len(),
            );
            lemma_allocatable_below::<T>(
                grown_capacity::<T>(self.capacity as int, start + lower),
                target,
            );
        }
        let additional = lower;
        self.reserve(additional);

        // the length is written with every item, so that it is right on every way out
        let capacity = self.capacity;
        assert(items.take(0) =~= Seq::<T>::empty());
        assert(old(self)@ + Seq::<T>::empty() =~= old(self)@);
        assert(items.skip(0) =~= items);
        while self.len < capacity
            invariant
                self.wf(),
                self.capacity == capacity,
                start <= self.len <= capacity,
                iterator.obeys_prophetic_iter_laws(),
                iterator.decrease() is Some,
                self.len - start <= items.len(),
                iterator.remaining() == items.skip(self.len - start),
                self@ == old(self)@ + items.take(self.len - start),
                allocatable::<T>(target),
                target == capacity_after_pushes::<T>(
                    capacity as int,
                    self.len as int,
                    iterator.remaining().len(),
                ),
            decreases iterator.decrease()->0,
        {
            let ghost before = iterator.remaining();
            match iterator.next() {
                Some(item) => {
                    let ghost done = self.len - start;
                    let ghost contents = self@;
                    self.push_unchecked(item);
                    proof {
                        assert(before.drop_first() =~= items.skip(done + 1));
                        assert(contents.push(item) =~= old(self)@ + items.take(done + 1));
                    }
                },
                None => {
                    break ;
                },
            }
        }

        loop
            invariant
                self.wf(),
                start <= self.len,
                iterator.obeys_prophetic_iter_laws(),
                iterator.decrease() is Some,
                self.len - start <= items.len(),
                iterator.remaining() == items.skip(self.len - start),
                self@ == old(self)@ + items.take(self.len - start),
                allocatable::<T>(target),
                target == capacity_after_pushes::<T>(
                    self.capacity as int,
                    self.len as int,
                    iterator.remaining().len(),
                ),
            ensures
                self.wf(),
                self@ == old(self)@ + items,
                self.capacity == target,
            decreases iterator.decrease()->0,
        {
            let ghost before = iterator.remaining();
            match iterator.next() {
                Some(item) => {
                    proof {
                        let grown = grown_capacity::<T>(self.capacity as int, self.len + 1);
                        lemma_grown_capacity::<T>(self.capacity as int, self.len + 1);
                        lemma_capacity_after_pushes::<T>(
                            grown,
                            self.len + 1,
                            (before.len() - 1) as nat,
                        );
                        lemma_allocatable_below::<T>(grown, target);
                    }
                    let ghost done = self.len - start;
                    let ghost contents = self@;
                    self.push(item);
                    proof {
                        assert(before.drop_first() =~= items.skip(done + 1));
                        assert(contents.push(item) =~= old(self)@ + items.take(done + 1));
                    }
                },
                None => {
                    proof {
                        assert(items.take(items.len() as int) =~= items);
                    }
                    break ;
                },
            }
        }
    }

    /// Appends every item of `iterator`, which declares `declared` as the
    /// least number of its items.
    ///
    /// Room is made first for `declared` items where a block for them can
    /// be allocated; where it can not, the declaration is not taken. From
    /// there on it is `extend_from_iter`. The block that is reached has to
    /// be one that can be allocated, which `lemma_extension_fits_declared`
    /// shows where twice the final length and a cache line can be.
    pub fn extend_with_lower_bound<I: Iterator<Item = T>>(&mut self, iterator: I, declared: usize)
        requires
            old(self).wf(),
            iterator.obeys_prophetic_iter_laws(),
            iterator.decrease() is Some,
            allocatable::<T>(
                extended_capacity::<T>(
                    old(self).spec_capacity() as int,
                    old(self).spec_len() as int,
                    admitted_lower::<T>(
                        old(self).spec_capacity() as int,
                        old(self).spec_len() as int,
                        declared as int,
                    ),
                    iterator.remaining().len(),
                ),
            ),
        ensures
            final(self).wf(),
            final(self)@ == old(self)@ + iterator.remaining(),
            final(self).spec_capacity() == extended_capacity::<T>(
                old(self).spec_capacity() as int,
                old(self).spec_len() as int,
                admitted_lower::<T>(
                    old(self).spec_capacity() as int,
                    old(self).spec_len() as int,
                    declared as int,
                ),
                iterator.remaining().len(),
            ),
    {
        let lower = if self.can_reserve(declared) {
            declared
        } else {
            0
        };
        self.extend_from_iter(iterator, lower);
    }

    /// Appends every item of `iterator`, as `extend_with_lower_bound` does
    /// with the least number of items that the iterator declares. The
    /// block that is reached has to be one that can be allocated, whatever
    /// is declared.
    pub fn extend<I: Iterator<Item = T>>(&mut self, iterator: I)
        requires
            old(self).wf(),
            iterator.obeys_prophetic_iter_laws(),
            iterator.decrease() is Some,
            forall|declared: usize|
                allocatable::<T>(
                    #[trigger] extended_capacity::<T>(
                        old(self).spec_capacity() as int,
                        old(self).spec_len() as int,
                        admitted_lower::<T>(
                            old(self).spec_capacity() as int,
                            old(self).spec_len() as int,
                            declared as int,
                        ),
                        iterator.remaining().len(),
                    ),
                ),
        ensures
            final(self).wf(),
            final(self)@ == old(self)@ + iterator.remaining(),
            exists|declared: usize|
                final(self).spec_capacity() == extended_capacity::<T>(
                    old(self).spec_capacity() as int,
                    old(self).spec_len() as int,
                    #[trigger] admitted_lower::<T>(
                        old(self).spec_capacity() as int,
                        old(self).spec_len() as int,
                        declared as int,
                    ),
                    iterator.remaining().len(),
                ),
    {
        let (declared, _) = size_hint(&iterator);
        self.extend_with_lower_bound(iterator, declared);
    }

    /// A buffer of `first` and then the items of `rest`, which declared
    /// `lower` as the least number of its items when the block was sized,
    /// and `declared` when room was made for them.
    ///
    /// The block is sized by a hint of `lower + 1` bytes where that can be
    /// allocated, takes `first`, and is extended as
    /// `extend_with_lower_bound` has it. The block that is reached has to
    /// be one that can be allocated, which `lemma_collection_fits` shows
    /// where twice the length and a cache line can be.
    pub fn from_first_and_rest<I: Iterator<Item = T>>(
        first: T,
        rest: I,
        lower: usize,
        declared: usize,
    ) -> (buffer: Self)
        requires
            rest.obeys_prophetic_iter_laws(),
            rest.decrease() is Some,
            allocatable::<T>(
                extended_capacity::<T>(
                    first_capacity::<T>(lower),
                    1,
                    admitted_lower::<T>(first_capacity::<T>(lower), 1, declared as int),
                    rest.remaining().len(),
                ),
            ),
        ensures
            buffer.wf(),
            buffer@ == seq![first] + rest.remaining(),
            buffer.spec_capacity() == extended_capacity::<T>(
                first_capacity::<T>(lower),
                1,
                admitted_lower::<T>(first_capacity::<T>(lower), 1, declared as int),
                rest.remaining().len(),
            ),
    {
        let hint = lower.saturating_add(1);
        let mut buffer = if Self::can_allocate_bytes(hint) {
            MutableBuffer::with_capacity(hint)
        } else {
            MutableBuffer::new()
        };
        proof {
            lemma_first_capacity::<T>(lower);
        }
        buffer.push(first);
        assert(buffer@ =~= seq![first]);
        buffer.extend_with_lower_bound(rest, declared);
        buffer
    }

    /// A buffer of the items of `iterator`: none where there is no item,
    /// and else what `from_first_and_rest` makes of the first item, the
    /// iterator after it, and the least number of items that it then
    /// declares, asked for twice. The block that is reached has to be one
    /// that can be allocated, whatever is declared.
    pub fn from_iter<I: Iterator<Item = T>>(iterator: I) -> (buffer: Self)
        requires
            iterator.obeys_prophetic_iter_laws(),
            iterator.decrease() is Some,
            forall|lower: usize, declared: usize|
                iterator.remaining().len() > 0 ==> allocatable::<T>(
                    #[trigger] extended_capacity::<T>(
                        first_capacity::<T>(lower),
                        1,
                        admitted_lower::<T>(first_capacity::<T>(lower), 1, declared as int),
                        (iterator.remaining().len() - 1) as nat,
                    ),
                ),
        ensures
            buffer.wf(),
            buffer@ == iterator.remaining(),
            iterator.remaining().len() == 0 ==> buffer.spec_capacity() == 0,
            iterator.remaining().len() > 0 ==> exists|lower: usize, declared: usize|
                buffer.spec_capacity() == extended_capacity::<T>(
                    first_capacity::<T>(lower),
                    1,
                    #[trigger] admitted_lower::<T>(first_capacity::<T>(lower), 1, declared as int),
                    (iterator.remaining().len() - 1) as nat,
                ),
    {
        let mut iterator = iterator;
        let ghost items = iterator.remaining();

        // first iteration, which will likely reserve sufficient space for the buffer.
        match iterator.next() {
            None => {
                let buffer = MutableBuffer::new();
                assert(buffer@ =~= items);
                buffer
            },
            Some(element) => {
                let (lower, _) = size_hint(&iterator);
                let (declared, _) = size_hint(&iterator);
                assert(seq![element] + items.drop_first() =~= items);
                assert(allocatable::<T>(
                    extended_capacity::<T>(
                        first_capacity::<T>(lower),
                        1,
                        admitted_lower::<T>(first_capacity::<T>(lower), 1, declared as int),
                        (items.len() - 1) as nat,
                    ),
                ));
                Self::from_first_and_rest(element, iterator, lower, declared)
            },
        }
    }

    /// A buffer of the `len` items of `iterator`, in the cache lines that
    /// `len` elements need, allocated once.
    ///
    /// There is a buffer if and only if the iterator has exactly `len`
    /// items.
    pub fn from_trusted_len<I: Iterator<Item = T>>(iterator: I, len: usize) -> (buffer: Option<
        Self,
    >)
        requires
            iterator.obeys_prophetic_iter_laws(),
            iterator.decrease() is Some,
            allocatable::<T>(spec_capacity_multiple_of_64::<T>(len as int)),
        ensures
            buffer is Some <==> iterator.remaining().len() == len,
            buffer matches Some(buffer) ==> buffer.wf() && buffer@ == iterator.remaining()
                && buffer.spec_capacity() == spec_capacity_multiple_of_64::<T>(len as int),
    {
        let mut iterator = iterator;
        let ghost items = iterator.remaining();
        proof {
            lemma_capacity_multiple_of_64::<T>(len as int);
            lemma_byte_size::<T>(len as int);
        }
        let capacity = capacity_multiple_of_64::<T>(len);
        let mut data: Vec<T> = allocator::allocate_aligned(capacity);
        let mut written: usize = 0;
        let mut exact = true;
        assert(items.skip(0) =~= items);
        assert(data@.take(0) =~= items.take(0));
        loop
            invariant_except_break
                written <= len <= capacity,
                data@.len() == capacity,
                iterator.obeys_prophetic_iter_laws(),
                iterator.decrease() is Some,
                written <= items.len(),
                iterator.remaining() == items.skip(written as int),
                data@.take(written as int) == items.take(written as int),
            ensures
                len <= capacity,
                data@.len() == capacity,
                exact <==> items.len() == len,
                exact ==> data@.take(len as int) == items,
            decreases iterator.decrease()->0,
        {
            let ghost before = iterator.remaining();
            match iterator.next() {
                Some(item) => {
                    if written < len {
                        let ghost block = data@;
                        // note how there is no reserve here (compared with `extend_from_iter`)
                        data.set(written, item);
                        proof {
                            assert(before.drop_first() =~= items.skip(written + 1));
                            assert(items.take(written + 1) =~= items.take(written as int).push(
                                item,
                            ));
                            assert(data@.take(written + 1) =~= block.take(written as int).push(
                                item,
                            ));
                        }
                        written = written + 1;
                    } else {
                        exact = false;
                        break ;
                    }
                },
                None => {
                    exact = written == len;
                    proof {
                        assert(items.take(items.len() as int) =~= items);
                    }
                    break ;
                },
            }
        }
        if exact {
            Some(Self { data, len, capacity })
        } else {
            None
        }
    }

    /// Whether a declared upper limit is one that `count` items can be
    /// trusted under: there is a limit, a block for that many elements can
    /// be allocated, and it is the number of items.
    pub open spec fn trusted_len_admits(count: nat, upper: Option<usize>) -> bool {
        upper matches Some(len) && allocatable::<T>(
            spec_capacity_multiple_of_64::<T>(len as int),
        ) && count == len
    }

    /// A buffer of the items of `iterator`, which declares `upper` as the
    /// greatest number of its items; that limit is trusted to be their
    /// number.
    ///
    /// There is a buffer if and only if there is a limit, a block for that
    /// many elements can be allocated, and the iterator has exactly that
    /// many items. It is the buffer of `from_trusted_len`.
    pub fn from_trusted_len_upper<I: Iterator<Item = T>>(iterator: I, upper: Option<usize>) -> (buffer:
        Option<Self>)
        requires
            iterator.obeys_prophetic_iter_laws(),
            iterator.decrease() is Some,
        ensures
            upper is None ==> buffer is None,
            upper matches Some(len) ==> (buffer is Some <==> allocatable::<T>(
                spec_capacity_multiple_of_64::<T>(len as int),
            ) && iterator.remaining().len() == len),
            buffer is Some <==> Self::trusted_len_admits(iterator.remaining().len(), upper),
            buffer matches Some(buffer) ==> buffer.wf() && buffer@ == iterator.remaining()
                && buffer.spec_capacity() == spec_capacity_multiple_of_64::<T>(
                iterator.remaining().len() as int,
            ),
    {
        match upper {
            Some(len) => {
                if Self::can_allocate(len) {
                    Self::from_trusted_len(iterator, len)
                } else {
                    None
                }
            },
            None => None,
        }
    }

    /// A buffer of the items of `iterator`, as `from_trusted_len_upper`
    /// makes it with the upper limit that the iterator declares.
    pub fn from_trusted_len_iter<I: Iterator<Item = T>>(iterator: I) -> (buffer: Option<Self>)
        requires
            iterator.obeys_prophetic_iter_laws(),
            iterator.decrease() is Some,
        ensures
            exists|upper: Option<usize>|
                buffer is Some <==> #[trigger] Self::trusted_len_admits(
                    iterator.remaining().len(),
                    upper,
                ),
            buffer matches Some(buffer) ==> buffer.wf() && buffer@ == iterator.remaining()
                && buffer.spec_capacity() == spec_capacity_multiple_of_64::<T>(
                iterator.remaining().len() as int,
            ),
    {
        let (_, upper) = size_hint(&iterator);
        Self::from_trusted_len_upper(iterator, upper)
    }

    /// What comes of `items`, taken in turn as `len` values: the buffer of
    /// the values where they are `len` values and nothing else; the first
    /// error where it comes before a value too many; and `Length` where a
    /// value too many comes, or the end too early, and no error before.
    pub open spec fn trusted_len_outcome<E>(
        items: Seq<Result<T, E>>,
        len: usize,
        outcome: Result<Self, TrustedLenError<E>>,
    ) -> bool {
        match outcome {
            Ok(buffer) => {
                &&& buffer.wf()
                &&& buffer.spec_capacity() == spec_capacity_multiple_of_64::<T>(len as int)
                &&& items.len() == len
                &&& buffer@.len() == len
                &&& forall|i: int| 0 <= i < len ==> items[i] == Ok::<T, E>(buffer@[i])
            },
            Err(TrustedLenError::Source(error)) => exists|at: int|
                {
                    &&& 0 <= at <= len
                    &&& at < items.len()
                    &&& #[trigger] items[at] == Err::<T, E>(error)
                    &&& forall|i: int| 0 <= i < at ==> items[i] is Ok
                },
            Err(TrustedLenError::Length) => {
                &&& items.len() != len
                &&& forall|i: int| 0 <= i < items.len() && i <= len ==> items[i] is Ok
            },
        }
    }

    /// A buffer of the `len` values of `iterator`, in the cache lines that
    /// `len` elements need, allocated once; or the first failure.
    ///
    /// The items are taken in turn. The first that is an error ends the
    /// construction with that error. A value after `len` values, and the
    /// end before `len` values, end it with `Length`.
    pub fn try_from_trusted_len<E, I: Iterator<Item = Result<T, E>>>(iterator: I, len: usize) -> (buffer:
        Result<Self, TrustedLenError<E>>)
        requires
            iterator.obeys_prophetic_iter_laws(),
            iterator.decrease() is Some,
            allocatable::<T>(spec_capacity_multiple_of_64::<T>(len as int)),
        ensures
            Self::trusted_len_outcome(iterator.remaining(), len, buffer),
    {
        let mut source = iterator;
        let ghost items = source.remaining();
        proof {
            lemma_capacity_multiple_of_64::<T>(len as int);
            lemma_byte_size::<T>(len as int);
        }
        let capacity = capacity_multiple_of_64::<T>(len);
        let mut data: Vec<T> = allocator::allocate_aligned(capacity);
        let mut written: usize = 0;
        assert(items.skip(0) =~= items);
        loop
            invariant
                written <= len <= capacity,
                data@.len() == capacity,
                items == iterator.remaining(),
                source.obeys_prophetic_iter_laws(),
                source.decrease() is Some,
                written <= items.len(),
                source.remaining() == items.skip(written as int),
                forall|i: int| 0 <= i < written ==> items[i] == Ok::<T, E>(data@[i]),
                capacity == spec_capacity_multiple_of_64::<T>(len as int),
                allocatable::<T>(capacity as int),
                (capacity * size_of::<T>()) % 64 == 0,
            decreases source.decrease()->0,
        {
            let ghost before = source.remaining();
            match source.next() {
                Some(item) => {
                    proof {
                        assert(before.drop_first() =~= items.skip(written + 1));
                        assert(item == items[written as int]);
                    }
                    match item {
                        Ok(value) => {
                            if written < len {
                                // note how there is no reserve here (compared with `extend_from_iter`)
                                data.set(written, value);
                                written = written + 1;
                            } else {
                                return Err(TrustedLenError::Length);
                            }
                        },
                        Err(error) => {
                            return Err(TrustedLenError::Source(error));
                        },
                    }
                },
                None => {
                    if written == len {
                        let buffer = Self { data, len, capacity };
                        proof {
                            assert forall|i: int| 0 <= i < len implies items[i] == Ok::<T, E>(
                                buffer@[i],
                            ) by {
                                assert(buffer@[i] == buffer.data@[i]);
                            }
                        }
                        return Ok(buffer);
                    } else {
                        return Err(TrustedLenError::Length);
                    }
                },
            }
        }
    }

    /// What comes of `items` under a declared upper limit: `Length` where
    /// there is no limit or a block for that many elements can not be
    /// allocated, and else what `trusted_len_outcome` says for the limit.
    pub open spec fn trusted_upper_outcome<E>(
        items: Seq<Result<T, E>>,
        upper: Option<usize>,
        outcome: Result<Self, TrustedLenError<E>>,
    ) -> bool {
        match upper {
            Some(len) => if allocatable::<T>(spec_capacity_multiple_of_64::<T>(len as int)) {
                Self::trusted_len_outcome(items, len, outcome)
            } else {
                outcome matches Err(TrustedLenError::Length)
            },
            None => outcome matches Err(TrustedLenError::Length),
        }
    }

    /// A buffer of the values of `iterator`, which declares `upper` as the
    /// greatest number of its items; that limit is trusted to be their
    /// number. Or the first failure.
    ///
    /// Where there is no limit, and where a block for that many elements
    /// can not be allocated, the result is `Length` and no item is taken.
    /// Else it is that of `try_from_trusted_len`.
    pub fn try_from_trusted_len_upper<E, I: Iterator<Item = Result<T, E>>>(
        iterator: I,
        upper: Option<usize>,
    ) -> (buffer: Result<Self, TrustedLenError<E>>)
        requires
            iterator.obeys_prophetic_iter_laws(),
            iterator.decrease() is Some,
        ensures
            Self::trusted_upper_outcome(iterator.remaining(), upper, buffer),
    {
        match upper {
            Some(len) => {
                if Self::can_allocate(len) {
                    Self::try_from_trusted_len(iterator, len)
                } else {
                    Err(TrustedLenError::Length)
                }
            },
            None => Err(TrustedLenError::Length),
        }
    }

    /// A buffer of the values of `iterator`, or the first failure, as
    /// `try_from_trusted_len_upper` gives them with the upper limit that
    /// the iterator declares.
    pub fn try_from_trusted_len_iter<E, I: Iterator<Item = Result<T, E>>>(iterator: I) -> (buffer:
        Result<Self, TrustedLenError<E>>)
        requires
            iterator.obeys_prophetic_iter_laws(),
            iterator.decrease() is Some,
        ensures
            exists|upper: Option<usize>| #[trigger]
                Self::trusted_upper_outcome(iterator.remaining(), upper, buffer),
            match buffer {
                Ok(buffer) => {
                    &&& buffer.wf()
                    &&& buffer.spec_capacity() == spec_capacity_multiple_of_64::<T>(
                        iterator.remaining().len() as int,
                    )
                    &&& buffer@.len() == iterator.remaining().len()
                    &&& forall|i: int|
                        0 <= i < buffer@.len() ==> iterator.remaining()[i] == Ok::<T, E>(
                            buffer@[i],
                        )
                },
                Err(TrustedLenError::Source(error)) => exists|at: int|
                    {
                        &&& 0 <= at < iterator.remaining().len()
                        &&& #[trigger] iterator.remaining()[at] == Err::<T, E>(error)
                        &&& forall|i: int| 0 <= i < at ==> iterator.remaining()[i] is Ok
                    },
                Err(TrustedLenError::Length) => true,
            },
    {
        let (_, upper) = size_hint(&iterator);
        Self::try_from_trusted_len_upper(iterator, upper)
    }

    /// Empties the buffer. The block stays as it is.
    pub fn clear(&mut self)
        requires
            old(self).wf(),
        ensures
            final(self).wf(),
            final(self)@ == Seq::<T>::empty(),
            final(self).spec_len() == 0,
            final(self).spec_capacity() == old(self).spec_capacity(),
            final(self).storage() == old(self).storage(),
    {
        self.len = 0;
        assert(self@ =~= Seq::<T>::empty());
    }
}

/// The block of `buffer` with its contents, to be released by the allocator
/// with the capacity that the buffer had.
pub open spec fn frozen_bytes<T: NativeType>(buffer: MutableBuffer<T>) -> Bytes<T> {
    Bytes::spec_new(buffer.block(), buffer.spec_len(), Deallocation::Native(buffer.spec_capacity()))
}

/// The shared buffer that shows all of the block of `buffer`.
pub open spec fn frozen<T: NativeType>(buffer: MutableBuffer<T>) -> Buffer<T> {
    Buffer::spec_from_bytes(frozen_bytes(buffer))
}

impl<T: NativeType> From<MutableBuffer<T>> for Bytes<T> {
    /// Hands the block of `buffer` over, with its contents, to be released
    /// by the allocator with the capacity that the buffer had. No element
    /// is copied.
    fn from(buffer: MutableBuffer<T>) -> (bytes: Self) {
        Bytes::new(buffer.data, buffer.len, Deallocation::Native(buffer.capacity))
    }
}

impl<T: NativeType> vstd::std_specs::convert::FromSpecImpl<MutableBuffer<T>> for Bytes<T> {
    open spec fn obeys_from_spec() -> bool {
        true
    }

    open spec fn from_spec(buffer: MutableBuffer<T>) -> Self {
        frozen_bytes(buffer)
    }
}

impl<T: NativeType> From<MutableBuffer<T>> for Buffer<T> {
    /// Freezes `buffer`: the shared buffer shows its contents, on its
    /// block. No element is copied.
    fn from(buffer: MutableBuffer<T>) -> (frozen: Self) {
        Buffer::from_bytes(Bytes::from(buffer))
    }
}

impl<T: NativeType> vstd::std_specs::convert::FromSpecImpl<MutableBuffer<T>> for Buffer<T> {
    open spec fn obeys_from_spec() -> bool {
        true
    }

    open spec fn from_spec(buffer: MutableBuffer<T>) -> Self {
        frozen(buffer)
    }
}

/// A frozen buffer holds what the growable buffer held, in the same block,
/// which is released by the allocator with the capacity it was allocated
/// with.
pub proof fn lemma_freeze<T: NativeType>(buffer: MutableBuffer<T>)
    requires
        buffer.wf(),
    ensures
        frozen_bytes(buffer).wf(),
        frozen_bytes(buffer)@ == buffer@,
        frozen_bytes(buffer).spec_len() == buffer.spec_len(),
        frozen_bytes(buffer).storage() == buffer.storage(),
        frozen_bytes(buffer).spec_deallocation() == Deallocation::Native(buffer.spec_capacity()),
        frozen(buffer).wf(),
        frozen(buffer)@ == buffer@,
        frozen(buffer).spec_len() == buffer.spec_len(),
        frozen(buffer).bytes() == frozen_bytes(buffer),
{
    Bytes::<T>::lemma_spec_new(
        buffer.block(),
        buffer.spec_len(),
        Deallocation::Native(buffer.spec_capacity()),
    );
    Buffer::lemma_spec_from_bytes(frozen_bytes(buffer));
}

impl MutableBuffer<u8> {
    /// An empty buffer of bytes sized for `lower` bits: the bytes that hold
    /// them, rounded up to a multiple of 64, where that can be allocated,
    /// and no block where it can not.
    pub fn with_capacity_for_bits(lower: usize) -> (buffer: Self)
        ensures
            buffer.wf(),
            buffer@ == Seq::<u8>::empty(),
            buffer.spec_len() == 0,
            buffer.spec_capacity() == packed_first_capacity(lower),
    {
        let byte_capacity: usize = lower.saturating_add(7) / 8;
        if Self::can_allocate_bytes(byte_capacity) {
            MutableBuffer::with_capacity(byte_capacity)
        } else {
            MutableBuffer::new()
        }
    }

    /// Makes room in a full block for one more byte, and for the `lower`
    /// bits that the source declares to be left where a block for them can
    /// be allocated.
    pub fn reserve_for_bits(&mut self, lower: usize)
        requires
            old(self).wf(),
            old(self).spec_len() == old(self).spec_capacity(),
            allocatable::<u8>(packed_grown_capacity(old(self).spec_capacity() as int, lower)),
        ensures
            final(self).wf(),
            final(self)@ == old(self)@,
            final(self).spec_len() == old(self).spec_len(),
            final(self).spec_capacity() == packed_grown_capacity(
                old(self).spec_capacity() as int,
                lower,
            ),
            final(self).spec_len() < final(self).spec_capacity(),
    {
        //no capacity for new byte, allocate 1 byte more (plus however many more the iterator advertises)
        let additional_byte_capacity = 1usize.saturating_add(
            lower.saturating_add(7) / 8,  //convert bit count to byte count, rounding up
        );
        if self.can_reserve(additional_byte_capacity) {
            proof {
                lemma_grown_capacity::<u8>(
                    self.capacity as int,
                    self.len + additional_byte_capacity,
                );
            }
            self.reserve(additional_byte_capacity)
        } else {
            proof {
                lemma_grown_capacity::<u8>(self.capacity as int, self.len + 1);
            }
            self.reserve(1)
        }
    }

    /// A buffer of the values of `iterator` packed into bytes: one bit for
    /// each value, least significant bit first.
    ///
    /// The block is sized as `with_capacity_for_bits` has it, and grows,
    /// each time that a byte finds it full, as `reserve_for_bits` has it,
    /// by the number of values that the iterator then declares as the
    /// least that are left. The blocks on the way have to be such as can
    /// be allocated, whatever is declared, which `lemma_packing_fits` shows
    /// where twice the bytes of the packing and a cache line can be.
    pub fn from_bool_iter<I: Iterator<Item = bool>>(iterator: I) -> (buffer: Self)
        requires
            iterator.obeys_prophetic_iter_laws(),
            iterator.decrease() is Some,
            forall|first: usize, lowers: Seq<usize>|
                lowers.len() <= (iterator.remaining().len() + 7) / 8 ==> allocatable::<u8>(
                    #[trigger] packed_capacity(first, lowers),
                ),
        ensures
            buffer.wf(),
            buffer@ == pack_bits(iterator.remaining()),
            buffer@.len() == (iterator.remaining().len() + 7) / 8,
            buffer.spec_len() <= buffer.spec_capacity(),
            buffer.spec_capacity() % 64 == 0,
            exists|first: usize, lowers: Seq<usize>|
                lowers.len() == buffer@.len() && buffer.spec_capacity() == #[trigger] packed_capacity(
                    first,
                    lowers,
                ),
    {
        let mut iterator = iterator;
        let ghost bits = iterator.remaining();
        let ghost bytes: int = (bits.len() as int + 7) / 8;
        let (sized_for, _) = size_hint(&iterator);
        let mut result = Self::with_capacity_for_bits(sized_for);
        let ghost mut lowers: Seq<usize> = Seq::empty();
        assert(bits.skip(0) =~= bits);

        loop
            invariant_except_break
                result.wf(),
                iterator.obeys_prophetic_iter_laws(),
                iterator.decrease() is Some,
                8 * result.len <= bits.len(),
                iterator.remaining() == bits.skip(8 * result.len),
                forall|index: int|
                    0 <= index < result.len ==> result@[index] == packed_byte(bits, index),
                bytes == (bits.len() as int + 7) / 8,
                forall|first: usize, lowers: Seq<usize>|
                    lowers.len() <= bytes ==> allocatable::<u8>(
                        #[trigger] packed_capacity(first, lowers),
                    ),
                lowers.len() == result.len,
                result.capacity == packed_capacity(sized_for, lowers),
            ensures
                result.wf(),
                result.len == bytes,
                bytes == (bits.len() as int + 7) / 8,
                lowers.len() == result.len,
                result.capacity == packed_capacity(sized_for, lowers),
                forall|index: int|
                    0 <= index < result.len ==> result@[index] == packed_byte(bits, index),
            decreases iterator.decrease()->0,
        {
            let mut exhausted = false;
            let mut byte_accum: u8 = 0;
            let mut mask: u8 = 1;
            let ghost first = 8 * result.len;
            let ghost measure = iterator.decrease()->0;
            let ghost mut count: nat = 0;
            proof {
                assert(bits.subrange(first, first) =~= Seq::<bool>::empty());
                reveal_with_fuel(bit_weight, 9);
            }

            //collect (up to) 8 bits into a byte
            while mask != 0
                invariant_except_break
                    !exhausted,
                    count < 8 ==> mask == bit_weight(count) && 1 <= mask <= 128,
                    count == 8 ==> mask == 0,
                    count == 0 ==> iterator.decrease()->0 == measure,
                    count > 0 ==> iterator.decrease()->0 < measure,
                invariant
                    first == 8 * result.len,
                    count <= 8,
                    iterator.obeys_prophetic_iter_laws(),
                    iterator.decrease() is Some,
                    first + count <= bits.len(),
                    iterator.remaining() == bits.skip(first + count),
                    byte_accum == bits_value(bits.subrange(first, first + count)),
                ensures
                    exhausted ==> count < 8 && first + count == bits.len() && mask == bit_weight(
                        count,
                    ),
                    !exhausted ==> count == 8 && iterator.decrease()->0 < measure,
                decreases 8 - count,
            {
                let ghost before = iterator.remaining();
                if let Some(value) = iterator.next() {
                    proof {
                        let taken = bits.subrange(first, first + count);
                        let more = bits.subrange(first, first + count + 1);
                        assert(before.drop_first() =~= bits.skip(first + count + 1));
                        assert(value == bits[first + count]);
                        assert(more.drop_last() =~= taken);
                        assert(more.last() == value);
                        lemma_bits_value_bound(taken);
                        reveal_with_fuel(bit_weight, 9);
                        assert(mask == 1 || mask == 2 || mask == 4 || mask == 8 || mask == 16
                            || mask == 32 || mask == 64 || mask == 128);
                        assert(byte_accum | mask == byte_accum + mask) by (bit_vector)
                            requires
                                byte_accum < mask,
                                mask == 1 || mask == 2 || mask == 4 || mask == 8 || mask == 16
                                    || mask == 32 || mask == 64 || mask == 128,
                        ;
                        assert(byte_accum | 0 == byte_accum) by (bit_vector);
                        assert(mask << 1 == (if mask == 128 {
                            0u8
                        } else {
                            (2 * mask) as u8
                        })) by (bit_vector)
                            requires
                                mask == 1 || mask == 2 || mask == 4 || mask == 8 || mask == 16
                                    || mask == 32 || mask == 64 || mask == 128,
                        ;
                    }
                    byte_accum |= match value {
                        true => mask,
                        false => 0,
                    };
                    mask <<= 1;
                    proof {
                        count = count + 1;
                    }
                } else {
                    exhausted = true;
                    break ;
                }
            }

            // break if the iterator was exhausted before it provided a bool for this byte
            if exhausted && mask == 1 {
                break ;
            }
            proof {
                // a byte is due, so the bytes written so far are not all of them
                assert(result.len + 1 <= bytes);
                lemma_bits_value_bound(bits.subrange(first, first + count));
                assert(byte_accum == packed_byte(bits, result.len as int));
            }

            //ensure we have capacity to write the byte
            let ghost written = lowers;
            if result.len() == result.capacity() {
                let (lower, _) = size_hint(&iterator);
                proof {
                    lowers = written.push(lower);
                    assert(lowers.drop_last() =~= written);
                    assert(allocatable::<u8>(packed_capacity(sized_for, lowers)));
                }
                result.reserve_for_bits(lower);
            } else {
                proof {
                    lowers = written.push(0);
                }
            }
            proof {
                assert(lowers.drop_last() =~= written);
            }
            result.push_unchecked(byte_accum);
            if exhausted {
                break ;
            }
        }
        assert(result@ =~= pack_bits(bits));
        assert(lowers.len() == result@.len());
        proof {
            lemma_byte_size::<u8>(result.capacity as int);
        }
        result
    }
}

} // verus!
