//! A block of elements that is no longer written to, with the way in which
//! it is to be released.

use crate::types::raw_bytes;
use crate::types::to_raw_bytes;
use crate::types::NativeType;
use vstd::prelude::*;

verus! {

/// How the memory of a block is released.
#[derive(Clone, Copy, Debug, PartialEq, Eq, Structural)]
pub enum Deallocation {
    /// By this library's allocator, which gave it out with this capacity
    /// in elements.
    Native(usize),
    /// By whoever outside this library owns the memory.
    Foreign,
}

/// A block of elements that is only read: the first `len` slots of it are
/// the contents, and the view.
#[derive(Debug)]
pub struct Bytes<T: NativeType> {
    data: Vec<T>,
    len: usize,
    deallocation: Deallocation,
}

impl<T: NativeType> View for Bytes<T> {
    type V = Seq<T>;

    closed spec fn view(&self) -> Seq<T> {
        self.data@.take(self.len as int)
    }
}

impl<T: NativeType> Bytes<T> {
    /// The invariant of a block in use: the contents lie within it, and a
    /// block of the allocator is released with the capacity it was
    /// allocated with.
    pub closed spec fn wf(&self) -> bool {
        &&& self.len <= self.data@.len()
        &&& self.deallocation matches Deallocation::Native(capacity) ==> self.data@.len()
            == capacity
    }

    /// The block of `block`, with `len` elements in use, released as
    /// `deallocation` says.
    pub closed spec fn spec_new(block: Vec<T>, len: usize, deallocation: Deallocation) -> Self {
        Bytes { data: block, len, deallocation }
    }

    /// The number of elements in use.
    pub closed spec fn spec_len(&self) -> usize {
        self.len
    }

    /// What every slot of the block holds.
    pub closed spec fn storage(&self) -> Seq<T> {
        self.data@
    }

    /// How the block is released.
    pub closed spec fn spec_deallocation(&self) -> Deallocation {
        self.deallocation
    }

    /// What the parts of a block are, and when it is well formed.
    pub proof fn lemma_spec_new(block: Vec<T>, len: usize, deallocation: Deallocation)
        ensures
            Self::spec_new(block, len, deallocation).storage() == block@,
            Self::spec_new(block, len, deallocation).spec_len() == len,
            Self::spec_new(block, len, deallocation).spec_deallocation() == deallocation,
            Self::spec_new(block, len, deallocation)@ == block@.take(len as int),
            Self::spec_new(block, len, deallocation).wf() <==> len <= block@.len() && (
            deallocation matches Deallocation::Native(capacity) ==> block@.len() == capacity),
    {
    }

    /// The contents are as many as the length says.
    pub proof fn lemma_view_len(&self)
        requires
            self.wf(),
        ensures
            self@.len() == self.spec_len(),
            self@ == self.storage().take(self.spec_len() as int),
    {
    }

    /// Takes over `block`, of which the first `len` slots are in use. That
    /// `len` and `deallocation` fit the block is for the caller to see to.
    pub fn new(block: Vec<T>, len: usize, deallocation: Deallocation) -> (bytes: Self)
        ensures
            bytes == Self::spec_new(block, len, deallocation),
    {
        Bytes { data: block, len, deallocation }
    }

    /// The number of elements.
    #[verifier::when_used_as_spec(spec_len)]
    pub fn len(&self) -> (len: usize)
        ensures
            len == self.spec_len(),
    {
        self.len
    }

    /// Whether there is no element.
    pub fn is_empty(&self) -> (empty: bool)
        ensures
            empty == (self.spec_len() == 0),
    {
        self.len == 0
    }

    /// How the block is released.
    #[verifier::when_used_as_spec(spec_deallocation)]
    pub fn deallocation(&self) -> (deallocation: Deallocation)
        ensures
            deallocation == self.spec_deallocation(),
    {
        self.deallocation
    }

    /// The contents as a slice.
    pub fn as_slice(&self) -> (slice: &[T])
        requires
            self.wf(),
        ensures
            slice@ == self@,
            slice@.len() == self.spec_len(),
    {
        let slice = vstd::slice::slice_subrange(self.data.as_slice(), 0, self.len);
        assert(slice@ =~= self@);
        slice
    }

    /// The bytes of the contents as they lie in memory on a little-endian
    /// machine.
    pub fn to_le_bytes(&self) -> (bytes: Vec<u8>)
        requires
            self.wf(),
        ensures
            bytes@ == raw_bytes(self@),
    {
        to_raw_bytes(self.as_slice())
    }
}

} // verus!
