use arrow2::buffer::bytes::Bytes;
use arrow2::buffer::bytes::Deallocation;
use arrow2::buffer::Buffer;
use arrow2::buffer::MutableBuffer;
use arrow2::types::to_raw_bytes;
use arrow2::types::NativeType;

#[test]
fn freezing_keeps_the_bytes() {
    let mut buffer = MutableBuffer::new();
    buffer.extend_from_slice(&[2u32, 0]);
    let buffer: Buffer<u32> = buffer.into();
    assert_eq!(buffer.len(), 2);
    assert_eq!(buffer.to_le_bytes(), vec![2u8, 0, 0, 0, 0, 0, 0, 0]);
    assert_eq!(buffer.as_slice(), &[2u32, 0]);
}

#[test]
fn freezing_after_push_and_extend() {
    let mut buffer = MutableBuffer::new();
    buffer.push(256u32);
    buffer.extend_from_slice(&[1u32]);
    let buffer: Buffer<u32> = buffer.into();
    assert_eq!(buffer.to_le_bytes(), vec![0u8, 1, 0, 0, 1, 0, 0, 0]);
}

#[test]
fn frozen_bytes_are_released_with_the_capacity() {
    let mut buffer = MutableBuffer::<u16>::new();
    buffer.extend_from_slice(&[5, 6, 7]);
    let capacity = buffer.capacity();
    assert_eq!(capacity, 32);
    let bytes = Bytes::from(buffer);
    assert_eq!(bytes.len(), 3);
    assert!(!bytes.is_empty());
    assert_eq!(bytes.deallocation(), Deallocation::Native(32));
    assert_eq!(bytes.as_slice(), &[5u16, 6, 7]);
    assert_eq!(bytes.to_le_bytes(), vec![5u8, 0, 6, 0, 7, 0]);
}

#[test]
fn bytes_of_a_block_from_elsewhere() {
    let bytes = Bytes::new(vec![1u8, 2, 3, 4], 3, Deallocation::Foreign);
    assert_eq!(bytes.len(), 3);
    assert_eq!(bytes.deallocation(), Deallocation::Foreign);
    assert_eq!(bytes.as_slice(), &[1u8, 2, 3]);
    let buffer = Buffer::from_bytes(bytes);
    assert_eq!(buffer.as_slice(), &[1u8, 2, 3]);
}

#[test]
fn clones_share_the_contents() {
    let mut buffer = MutableBuffer::<i32>::new();
    buffer.extend_from_slice(&[-1, 0, 1, 2]);
    let frozen = Buffer::from(buffer);
    let copy = frozen.clone();
    assert_eq!(copy.len(), 4);
    assert_eq!(copy.as_slice(), frozen.as_slice());
    assert_eq!(copy.as_slice().as_ptr(), frozen.as_slice().as_ptr());
    let window = copy.slice(1, 2);
    assert_eq!(window.len(), 2);
    assert_eq!(window.as_slice(), &[0i32, 1]);
    assert_eq!(frozen.as_slice(), &[-1i32, 0, 1, 2]);
    let inner = window.slice(1, 1);
    assert_eq!(inner.as_slice(), &[1i32]);
    assert!(!inner.is_empty());
    assert!(inner.slice(1, 0).is_empty());
}

#[test]
fn empty_buffer_freezes_to_nothing() {
    let frozen = Buffer::from(MutableBuffer::<u64>::new());
    assert!(frozen.is_empty());
    assert_eq!(frozen.to_le_bytes(), Vec::<u8>::new());
}

#[test]
fn elements_are_written_least_significant_byte_first() {
    assert_eq!(NativeType::to_le_bytes(&0x12u8), vec![0x12u8]);
    assert_eq!(NativeType::to_le_bytes(&0x1234u16), vec![0x34u8, 0x12]);
    assert_eq!(NativeType::to_le_bytes(&0x12345678u32), vec![0x78u8, 0x56, 0x34, 0x12]);
    assert_eq!(
        NativeType::to_le_bytes(&0x0102030405060708u64),
        vec![8u8, 7, 6, 5, 4, 3, 2, 1]
    );
    assert_eq!(NativeType::to_le_bytes(&-1i8), vec![0xffu8]);
    assert_eq!(NativeType::to_le_bytes(&-2i16), vec![0xfeu8, 0xff]);
    assert_eq!(NativeType::to_le_bytes(&i32::MIN), vec![0u8, 0, 0, 0x80]);
    assert_eq!(NativeType::to_le_bytes(&-256i64), (-256i64).to_le_bytes().to_vec());
    assert_eq!(NativeType::to_le_bytes(&i128::MIN), i128::MIN.to_le_bytes().to_vec());
    assert_eq!(NativeType::to_le_bytes(&-3i128), (-3i128).to_le_bytes().to_vec());
    assert_eq!(NativeType::to_le_bytes(&i128::MAX), i128::MAX.to_le_bytes().to_vec());
    assert_eq!(NativeType::to_le_bytes(&77i32), 77i32.to_le_bytes().to_vec());
}

#[test]
fn zero_values_are_zero() {
    assert_eq!(<u8 as NativeType>::zeroed(), 0);
    assert_eq!(<i64 as NativeType>::zeroed(), 0);
    assert_eq!(<i128 as NativeType>::zeroed(), 0);
    assert_eq!(NativeType::to_le_bytes(&<u32 as NativeType>::zeroed()), vec![0u8; 4]);
}

#[test]
fn runs_of_elements_are_written_in_turn() {
    assert_eq!(to_raw_bytes(&[1u16, 0x0203]), vec![1u8, 0, 3, 2]);
    assert_eq!(to_raw_bytes::<u32>(&[]), Vec::<u8>::new());
    assert_eq!(to_raw_bytes(&[-1i32]), vec![0xffu8; 4]);
}
