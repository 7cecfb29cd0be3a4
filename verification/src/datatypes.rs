//! The logical types of columns.

use vstd::prelude::*;

verus! {

/// The logical type of the values of a column: the types without children.
#[derive(Clone, Copy, Debug, PartialEq, Eq, Structural)]
pub enum DataType {
    /// Nothing but nulls.
    Null,
    /// `true` and `false`.
    Boolean,
    /// Signed integers of 8 bits.
    Int8,
    /// Signed integers of 16 bits.
    Int16,
    /// Signed integers of 32 bits.
    Int32,
    /// Signed integers of 64 bits.
    Int64,
    /// Unsigned integers of 8 bits.
    UInt8,
    /// Unsigned integers of 16 bits.
    UInt16,
    /// Unsigned integers of 32 bits.
    UInt32,
    /// Unsigned integers of 64 bits.
    UInt64,
    /// Floating point numbers of 32 bits.
    Float32,
    /// Floating point numbers of 64 bits.
    Float64,
    /// Days since the epoch, in 32 bits.
    Date32,
    /// Milliseconds since the epoch, in 64 bits.
    Date64,
    /// Byte strings of any length.
    Binary,
    /// Byte strings of this length.
    FixedSizeBinary(i32),
    /// Text of any length.
    Utf8,
}

} // verus!
