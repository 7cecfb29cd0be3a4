//! The frozen buffer: a shared, read-only window on a block of elements.

use super::bytes::Bytes;
use crate::types::raw_bytes;
use crate::types::to_raw_bytes;
use crate::types::NativeType;
use std::sync::Arc;
use vstd::prelude::*;

verus! {

/// Another handle on the block that `bytes` points to, as `Arc::clone` of
/// the standard library makes it.
///
/// The standard library documents that the new pointer is to the same
/// allocation; the contract says that it reads as the same value.
#[verifier::external_body]
fn share<T: NativeType>(bytes: &Arc<Bytes<T>>) -> (shared: Arc<Bytes<T>>)
    ensures
        shared == bytes,
{
    Arc::clone(bytes)
}

/// A window of `length` elements, from `offset` on, on a block that any
/// number of buffers share and none can write to. The view of a buffer is
/// what the window shows.
#[derive(Debug)]
pub struct Buffer<T: NativeType> {
    data: Arc<Bytes<T>>,
    // both are in elements
    offset: usize,
    length: usize,
}

impl<T: NativeType> View for Buffer<T> {
    type V = Seq<T>;

    closed spec fn view(&self) -> Seq<T> {
        self.data@.subrange(self.offset as int, self.offset + self.length)
    }
}

impl<T: NativeType> Buffer<T> {
    /// The invariant of a buffer: its block is well formed and the window
    /// lies within the contents of the block.
    pub closed spec fn wf(&self) -> bool {
        &&& self.data.wf()
        &&& self.offset + self.length <= self.data.spec_len()
    }

    /// The buffer that shows all of `bytes`.
    pub closed spec fn spec_from_bytes(bytes: Bytes<T>) -> Self {
        Buffer { data: Arc::new(bytes), offset: 0, length: bytes.spec_len() }
    }

    /// The number of elements.
    pub closed spec fn spec_len(&self) -> usize {
        self.length
    }

    /// The block that the buffer is a window on.
    pub closed spec fn bytes(&self) -> Bytes<T> {
        *self.data
    }

    /// A buffer of all of a block shows the contents of the block, and is
    /// well formed where the block is.
    pub proof fn lemma_spec_from_bytes(bytes: Bytes<T>)
        requires
            bytes.wf(),
        ensures
            Self::spec_from_bytes(bytes).wf(),
            Self::spec_from_bytes(bytes)@ == bytes@,
            Self::spec_from_bytes(bytes).spec_len() == bytes.spec_len(),
            Self::spec_from_bytes(bytes).bytes() == bytes,
    {
        bytes.lemma_view_len();
        assert(Self::spec_from_bytes(bytes)@ =~= bytes@);
    }

    /// The buffer that shows all of `bytes`.
    pub fn from_bytes(bytes: Bytes<T>) -> (buffer: Self)
        ensures
            buffer == Self::spec_from_bytes(bytes),
    {
        let length = bytes.len();
        Buffer { data: Arc::new(bytes), offset: 0, length }
    }

    /// The number of elements.
    #[verifier::when_used_as_spec(spec_len)]
    pub fn len(&self) -> (len: usize)
        ensures
            len == self.spec_len(),
    {
        self.length
    }

    /// Whether there is no element.
    pub fn is_empty(&self) -> (empty: bool)
        ensures
            empty == (self.spec_len() == 0),
    {
        self.length == 0
    }

    /// The elements as a slice.
    pub fn as_slice(&self) -> (slice: &[T])
        requires
            self.wf(),
        ensures
            slice@ == self@,
            slice@.len() == self.spec_len(),
    {
        proof {
            self.bytes().lemma_view_len();
        }
        let whole = self.data.as_slice();
        vstd::slice::slice_subrange(whole, self.offset, self.offset + self.length)
    }

    /// The window of `length` elements from `offset` on within this one,
    /// on the same block.
    pub fn slice(self, offset: usize, length: usize) -> (window: Self)
        requires
            self.wf(),
            offset + length <= self.spec_len(),
        ensures
            window.wf(),
            window@ == self@.subrange(offset as int, offset + length),
            window.spec_len() == length,
            window.bytes() == self.bytes(),
    {
        proof {
            self.bytes().lemma_view_len();
        }
        let ghost whole = self@;
        let window = Buffer { data: self.data, offset: self.offset + offset, length };
        assert(window@ =~= whole.subrange(offset as int, offset + length));
        window
    }

    /// The bytes of the elements as they lie in memory on a little-endian
    /// machine.
    pub fn to_le_bytes(&self) -> (bytes: Vec<u8>)
        requires
            self.wf(),
        ensures
            bytes@ == raw_bytes(self@),
    {
        to_raw_bytes(self.as_slice())
    }
}

impl<T: NativeType> Clone for Buffer<T> {
    /// Another buffer with the same window on the same block. No element
    /// is copied.
    fn clone(&self) -> (copy: Self)
        ensures
            copy == *self,
    {
        Buffer { data: share(&self.data), offset: self.offset, length: self.length }
    }
}

} // verus!
