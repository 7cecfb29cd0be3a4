//! Plain-data element types: fixed size, no ownership, copied as raw bytes.

use vstd::layout::layout_of_primitives;
use vstd::layout::size_of;
use vstd::prelude::*;

verus! {

/// `256^width`: the number of values that `width` bytes tell apart.
pub open spec fn radix(width: nat) -> int
    decreases width,
{
    if width == 0 {
        1
    } else {
        256 * radix((width - 1) as nat)
    }
}

/// The `width` low base-256 digits of `value`, least significant first.
///
/// For a negative `value` these are the digits of its two's complement.
pub open spec fn le_bytes_of(value: int, width: nat) -> Seq<u8>
    decreases width,
{
    if width == 0 {
        Seq::<u8>::empty()
    } else {
        seq![(value % 256) as u8] + le_bytes_of(value / 256, (width - 1) as nat)
    }
}

/// `width` bytes are produced, whatever the value.
pub proof fn lemma_le_bytes_len(value: int, width: nat)
    ensures
        le_bytes_of(value, width).len() == width,
    decreases width,
{
    if width > 0 {
        lemma_le_bytes_len(value / 256, (width - 1) as nat);
    }
}

/// Zero is written as zero bytes only.
pub proof fn lemma_le_bytes_zero(width: nat)
    ensures
        le_bytes_of(0, width) == Seq::new(width, |i: int| 0u8),
    decreases width,
{
    if width > 0 {
        lemma_le_bytes_zero((width - 1) as nat);
        assert(le_bytes_of(0, width) =~= Seq::new(width, |i: int| 0u8));
    } else {
        assert(le_bytes_of(0, width) =~= Seq::new(width, |i: int| 0u8));
    }
}

/// Adding a multiple of `256^width` changes none of the `width` low bytes.
pub proof fn lemma_le_bytes_wrap(value: int, turns: int, width: nat)
    ensures
        le_bytes_of(value + turns * radix(width), width) == le_bytes_of(value, width),
    decreases width,
{
    if width > 0 {
        let rest = turns * radix((width - 1) as nat);
        assert(turns * radix(width) == 256 * rest) by (nonlinear_arith)
            requires
                radix(width) == 256 * radix((width - 1) as nat),
                rest == turns * radix((width - 1) as nat),
        ;
        assert((value + 256 * rest) % 256 == value % 256);
        assert((value + 256 * rest) / 256 == value / 256 + rest);
        lemma_le_bytes_wrap(value / 256, turns, (width - 1) as nat);
    }
}

/// Writes the `width` low bytes of `value`, least significant first.
fn low_bytes(value: u128, width: usize) -> (bytes: Vec<u8>)
    ensures
        bytes@ == le_bytes_of(value as int, width as nat),
{
    let mut bytes: Vec<u8> = Vec::new();
    let mut rest: u128 = value;
    let mut written: usize = 0;
    while written < width
        invariant
            written <= width,
            bytes@.len() == written,
            le_bytes_of(value as int, width as nat) == bytes@ + le_bytes_of(
                rest as int,
                (width - written) as nat,
            ),
        decreases width - written,
    {
        let digit: u8 = (rest % 256) as u8;
        proof {
            let tail = le_bytes_of(rest as int / 256, (width - written - 1) as nat);
            assert(bytes@ + (seq![digit] + tail) =~= bytes@.push(digit) + tail);
        }
        bytes.push(digit);
        rest = rest / 256;
        written = written + 1;
    }
    assert(bytes@ + Seq::<u8>::empty() =~= bytes@);
    bytes
}

/// The bytes of a run of elements in memory: those of each element in
/// turn, least significant byte first.
pub open spec fn raw_bytes<T: NativeType>(values: Seq<T>) -> Seq<u8>
    decreases values.len(),
{
    if values.len() == 0 {
        Seq::<u8>::empty()
    } else {
        raw_bytes(values.drop_last()) + values.last().le_bytes()
    }
}

/// A run of elements takes as many bytes as it has elements, times the
/// size of one.
pub proof fn lemma_raw_bytes_len<T: NativeType>(values: Seq<T>)
    ensures
        raw_bytes(values).len() == values.len() * size_of::<T>(),
    decreases values.len(),
{
    if values.len() > 0 {
        lemma_raw_bytes_len(values.drop_last());
        values.last().lemma_le_bytes_fill_size();
        assert(values.len() * size_of::<T>() == (values.len() - 1) * size_of::<T>() + size_of::<
            T,
        >()) by (nonlinear_arith);
    }
}

/// A run of zero values is written as zero bytes only.
pub proof fn lemma_raw_bytes_zero<T: NativeType>(len: nat)
    ensures
        raw_bytes(Seq::new(len, |i: int| T::zero())) == Seq::new(
            len * size_of::<T>(),
            |i: int| 0u8,
        ),
    decreases len,
{
    let values = Seq::new(len, |i: int| T::zero());
    if len > 0 {
        let shorter = (len - 1) as nat;
        lemma_raw_bytes_zero::<T>(shorter);
        T::lemma_zero_is_zero_bytes();
        lemma_raw_bytes_len::<T>(values.drop_last());
        assert(values.drop_last() =~= Seq::new(shorter, |i: int| T::zero()));
        assert(values.last() == T::zero());
        assert(len * size_of::<T>() == shorter * size_of::<T>() + size_of::<T>())
            by (nonlinear_arith)
            requires
                shorter == len - 1,
        ;
        assert(raw_bytes(values) =~= Seq::new(len * size_of::<T>(), |i: int| 0u8));
    } else {
        assert(len * size_of::<T>() == 0) by (nonlinear_arith)
            requires
                len == 0,
        ;
        assert(raw_bytes(values) =~= Seq::new(len * size_of::<T>(), |i: int| 0u8));
    }
}

/// Writes the bytes of a run of elements.
pub fn to_raw_bytes<T: NativeType>(values: &[T]) -> (bytes: Vec<u8>)
    ensures
        bytes@ == raw_bytes(values@),
{
    let mut bytes: Vec<u8> = Vec::new();
    let mut done: usize = 0;
    assert(values@.take(0) =~= Seq::<T>::empty());
    while done < values.len()
        invariant
            done <= values@.len(),
            bytes@ == raw_bytes(values@.take(done as int)),
        decreases values@.len() - done,
    {
        let mut element = values[done].to_le_bytes();
        proof {
            let next = values@.take(done + 1);
            assert(next.drop_last() =~= values@.take(done as int));
            assert(next.last() == values@[done as int]);
        }
        bytes.append(&mut element);
        done = done + 1;
    }
    assert(values@.take(values@.len() as int) =~= values@);
    bytes
}

/// A plain-data element: a fixed number of bytes that divides a cache line,
/// no ownership inside, and a value whose bytes are all zero.
pub trait NativeType: Copy + Sized {
    /// The value that zeroed memory reads as.
    spec fn zero() -> Self;

    /// The bytes of the value in memory, least significant first.
    spec fn le_bytes(self) -> Seq<u8>;

    /// The value that zeroed memory reads as.
    fn zeroed() -> (value: Self)
        ensures
            value == Self::zero(),
    ;

    /// The bytes of the value, least significant first.
    fn to_le_bytes(&self) -> (bytes: Vec<u8>)
        ensures
            bytes@ == self.le_bytes(),
    ;

    /// The size of the type is a power of two up to 16, so whole elements
    /// fill a block of 64 bytes.
    proof fn lemma_size_divides_cache_line()
        ensures
            size_of::<Self>() == 1 || size_of::<Self>() == 2 || size_of::<Self>() == 4 || size_of::<
                Self,
            >() == 8 || size_of::<Self>() == 16,
    ;

    /// A value is written in as many bytes as the type has.
    proof fn lemma_le_bytes_fill_size(self)
        ensures
            self.le_bytes().len() == size_of::<Self>(),
    ;

    /// The zero value is written as zero bytes only.
    proof fn lemma_zero_is_zero_bytes()
        ensures
            Self::zero().le_bytes() == Seq::new(size_of::<Self>(), |i: int| 0u8),
    ;
}

impl NativeType for u8 {
    open spec fn zero() -> Self {
        0u8
    }

    open spec fn le_bytes(self) -> Seq<u8> {
        le_bytes_of(self as int, 1)
    }

    fn zeroed() -> (value: Self) {
        0
    }

    fn to_le_bytes(&self) -> (bytes: Vec<u8>) {
        low_bytes(*self as u128, 1)
    }

    proof fn lemma_size_divides_cache_line() {
        broadcast use layout_of_primitives;

    }

    proof fn lemma_le_bytes_fill_size(self) {
        broadcast use layout_of_primitives;

        lemma_le_bytes_len(self as int, 1);
    }

    proof fn lemma_zero_is_zero_bytes() {
        broadcast use layout_of_primitives;

        lemma_le_bytes_zero(1);
    }
}

impl NativeType for u16 {
    open spec fn zero() -> Self {
        0u16
    }

    open spec fn le_bytes(self) -> Seq<u8> {
        le_bytes_of(self as int, 2)
    }

    fn zeroed() -> (value: Self) {
        0
    }

    fn to_le_bytes(&self) -> (bytes: Vec<u8>) {
        low_bytes(*self as u128, 2)
    }

    proof fn lemma_size_divides_cache_line() {
        broadcast use layout_of_primitives;

    }

    proof fn lemma_le_bytes_fill_size(self) {
        broadcast use layout_of_primitives;

        lemma_le_bytes_len(self as int, 2);
    }

    proof fn lemma_zero_is_zero_bytes() {
        broadcast use layout_of_primitives;

        lemma_le_bytes_zero(2);
    }
}

impl NativeType for u32 {
    open spec fn zero() -> Self {
        0u32
    }

    open spec fn le_bytes(self) -> Seq<u8> {
        le_bytes_of(self as int, 4)
    }

    fn zeroed() -> (value: Self) {
        0
    }

    fn to_le_bytes(&self) -> (bytes: Vec<u8>) {
        low_bytes(*self as u128, 4)
    }

    proof fn lemma_size_divides_cache_line() {
        broadcast use layout_of_primitives;

    }

    proof fn lemma_le_bytes_fill_size(self) {
        broadcast use layout_of_primitives;

        lemma_le_bytes_len(self as int, 4);
    }

    proof fn lemma_zero_is_zero_bytes() {
        broadcast use layout_of_primitives;

        lemma_le_bytes_zero(4);
    }
}

impl NativeType for u64 {
    open spec fn zero() -> Self {
        0u64
    }

    open spec fn le_bytes(self) -> Seq<u8> {
        le_bytes_of(self as int, 8)
    }

    fn zeroed() -> (value: Self) {
        0
    }

    fn to_le_bytes(&self) -> (bytes: Vec<u8>) {
        low_bytes(*self as u128, 8)
    }

    proof fn lemma_size_divides_cache_line() {
        broadcast use layout_of_primitives;

    }

    proof fn lemma_le_bytes_fill_size(self) {
        broadcast use layout_of_primitives;

        lemma_le_bytes_len(self as int, 8);
    }

    proof fn lemma_zero_is_zero_bytes() {
        broadcast use layout_of_primitives;

        lemma_le_bytes_zero(8);
    }
}

impl NativeType for i8 {
    open spec fn zero() -> Self {
        0i8
    }

    open spec fn le_bytes(self) -> Seq<u8> {
        le_bytes_of(self as int, 1)
    }

    fn zeroed() -> (value: Self) {
        0
    }

    fn to_le_bytes(&self) -> (bytes: Vec<u8>) {
        let value: i8 = *self;
        // the two's complement of a negative value, reached without leaving either range
        let bits: u8 = if value >= 0 {
            value as u8
        } else {
            (value + i8::MAX + 1) as u8 + (i8::MAX as u8) + 1
        };
        proof {
            assert(radix(1) == 0x80 + 0x80) by {
                reveal_with_fuel(radix, 2);
            }
            lemma_le_bytes_wrap(value as int, if value < 0 { 1 } else { 0 }, 1);
        }
        low_bytes(bits as u128, 1)
    }

    proof fn lemma_size_divides_cache_line() {
        broadcast use layout_of_primitives;

    }

    proof fn lemma_le_bytes_fill_size(self) {
        broadcast use layout_of_primitives;

        lemma_le_bytes_len(self as int, 1);
    }

    proof fn lemma_zero_is_zero_bytes() {
        broadcast use layout_of_primitives;

        lemma_le_bytes_zero(1);
    }
}

impl NativeType for i16 {
    open spec fn zero() -> Self {
        0i16
    }

    open spec fn le_bytes(self) -> Seq<u8> {
        le_bytes_of(self as int, 2)
    }

    fn zeroed() -> (value: Self) {
        0
    }

    fn to_le_bytes(&self) -> (bytes: Vec<u8>) {
        let value: i16 = *self;
        // the two's complement of a negative value, reached without leaving either range
        let bits: u16 = if value >= 0 {
            value as u16
        } else {
            (value + i16::MAX + 1) as u16 + (i16::MAX as u16) + 1
        };
        proof {
            assert(radix(2) == 0x8000 + 0x8000) by {
                reveal_with_fuel(radix, 3);
            }
            lemma_le_bytes_wrap(value as int, if value < 0 { 1 } else { 0 }, 2);
        }
        low_bytes(bits as u128, 2)
    }

    proof fn lemma_size_divides_cache_line() {
        broadcast use layout_of_primitives;

    }

    proof fn lemma_le_bytes_fill_size(self) {
        broadcast use layout_of_primitives;

        lemma_le_bytes_len(self as int, 2);
    }

    proof fn lemma_zero_is_zero_bytes() {
        broadcast use layout_of_primitives;

        lemma_le_bytes_zero(2);
    }
}

impl NativeType for i32 {
    open spec fn zero() -> Self {
        0i32
    }

    open spec fn le_bytes(self) -> Seq<u8> {
        le_bytes_of(self as int, 4)
    }

    fn zeroed() -> (value: Self) {
        0
    }

    fn to_le_bytes(&self) -> (bytes: Vec<u8>) {
        let value: i32 = *self;
        // the two's complement of a negative value, reached without leaving either range
        let bits: u32 = if value >= 0 {
            value as u32
        } else {
            (value + i32::MAX + 1) as u32 + (i32::MAX as u32) + 1
        };
        proof {
            assert(radix(4) == 0x8000_0000 + 0x8000_0000) by {
                reveal_with_fuel(radix, 5);
            }
            lemma_le_bytes_wrap(value as int, if value < 0 { 1 } else { 0 }, 4);
        }
        low_bytes(bits as u128, 4)
    }

    proof fn lemma_size_divides_cache_line() {
        broadcast use layout_of_primitives;

    }

    proof fn lemma_le_bytes_fill_size(self) {
        broadcast use layout_of_primitives;

        lemma_le_bytes_len(self as int, 4);
    }

    proof fn lemma_zero_is_zero_bytes() {
        broadcast use layout_of_primitives;

        lemma_le_bytes_zero(4);
    }
}

impl NativeType for i64 {
    open spec fn zero() -> Self {
        0i64
    }

    open spec fn le_bytes(self) -> Seq<u8> {
        le_bytes_of(self as int, 8)
    }

    fn zeroed() -> (value: Self) {
        0
    }

    fn to_le_bytes(&self) -> (bytes: Vec<u8>) {
        let value: i64 = *self;
        // the two's complement of a negative value, reached without leaving either range
        let bits: u64 = if value >= 0 {
            value as u64
        } else {
            (value + i64::MAX + 1) as u64 + (i64::MAX as u64) + 1
        };
        proof {
            assert(radix(8) == 0x8000_0000_0000_0000 + 0x8000_0000_0000_0000) by {
                reveal_with_fuel(radix, 9);
            }
            lemma_le_bytes_wrap(value as int, if value < 0 { 1 } else { 0 }, 8);
        }
        low_bytes(bits as u128, 8)
    }

    proof fn lemma_size_divides_cache_line() {
        broadcast use layout_of_primitives;

    }

    proof fn lemma_le_bytes_fill_size(self) {
        broadcast use layout_of_primitives;

        lemma_le_bytes_len(self as int, 8);
    }

    proof fn lemma_zero_is_zero_bytes() {
        broadcast use layout_of_primitives;

        lemma_le_bytes_zero(8);
    }
}

impl NativeType for i128 {
    open spec fn zero() -> Self {
        0i128
    }

    open spec fn le_bytes(self) -> Seq<u8> {
        le_bytes_of(self as int, 16)
    }

    fn zeroed() -> (value: Self) {
        0
    }

    fn to_le_bytes(&self) -> (bytes: Vec<u8>) {
        let value: i128 = *self;
        // the two's complement of a negative value, reached without leaving either range
        let bits: u128 = if value >= 0 {
            value as u128
        } else {
            (value + i128::MAX + 1) as u128 + (i128::MAX as u128) + 1
        };
        proof {
            assert(radix(16) == 0x8000_0000_0000_0000_0000_0000_0000_0000 + 0x8000_0000_0000_0000_0000_0000_0000_0000) by {
                reveal_with_fuel(radix, 17);
            }
            lemma_le_bytes_wrap(value as int, if value < 0 { 1 } else { 0 }, 16);
        }
        low_bytes(bits as u128, 16)
    }

    proof fn lemma_size_divides_cache_line() {
        broadcast use layout_of_primitives;

    }

    proof fn lemma_le_bytes_fill_size(self) {
        broadcast use layout_of_primitives;

        lemma_le_bytes_len(self as int, 16);
    }

    proof fn lemma_zero_is_zero_bytes() {
        broadcast use layout_of_primitives;

        lemma_le_bytes_zero(16);
    }
}

} // verus!
