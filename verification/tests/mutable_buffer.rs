use arrow2::buffer::capacity::capacity_multiple_of_64;
use arrow2::buffer::util::round_upto_multiple_of_64;
use arrow2::buffer::MutableBuffer;

#[test]
fn new_buffer_is_empty() {
    let buffer = MutableBuffer::<u8>::new();
    assert_eq!(buffer.len(), 0);
    assert_eq!(buffer.capacity(), 0);
    assert!(buffer.is_empty());
    assert_eq!(buffer.as_slice(), &[] as &[u8]);
}

#[test]
fn rounding_to_cache_lines() {
    assert_eq!(round_upto_multiple_of_64(0), 0);
    assert_eq!(round_upto_multiple_of_64(1), 64);
    assert_eq!(round_upto_multiple_of_64(64), 64);
    assert_eq!(round_upto_multiple_of_64(65), 128);
    assert_eq!(capacity_multiple_of_64::<u8>(127), 128);
    assert_eq!(capacity_multiple_of_64::<u32>(1), 16);
    assert_eq!(capacity_multiple_of_64::<u32>(16), 16);
    assert_eq!(capacity_multiple_of_64::<u32>(17), 32);
    assert_eq!(capacity_multiple_of_64::<i128>(5), 8);
}

#[test]
fn with_capacity_counts_whole_elements_of_the_hint() {
    let bytes = MutableBuffer::<u8>::with_capacity(100);
    assert_eq!(bytes.len(), 0);
    assert_eq!(bytes.capacity(), 128);
    let words = MutableBuffer::<u32>::with_capacity(100);
    assert_eq!(words.capacity(), 64);
    let none = MutableBuffer::<u64>::with_capacity(0);
    assert_eq!(none.capacity(), 0);
    let few = MutableBuffer::<u64>::with_capacity(7);
    assert_eq!(few.capacity(), 0);
}

#[test]
fn from_len_zeroed_reads_zero() {
    let mut buffer = MutableBuffer::<u8>::from_len_zeroed(127);
    assert_eq!(buffer.len(), 127);
    assert!(buffer.capacity() >= 127);
    assert_eq!(buffer.capacity(), 128);
    let data = buffer.as_slice_mut();
    assert_eq!(data[126], 0u8);
    assert!(buffer.as_slice().iter().all(|x| *x == 0));
    let wide = MutableBuffer::<i64>::from_len_zeroed(3);
    assert_eq!(wide.as_slice(), &[0i64, 0, 0]);
    assert_eq!(wide.capacity(), 8);
}

#[test]
fn reserve_allocates_once_for_what_is_asked() {
    let mut buffer = MutableBuffer::<u8>::new();
    buffer.reserve(253); // allocates for the first time
    assert_eq!(buffer.capacity(), 256);
    let mut i = 0u8;
    while i < 253 {
        buffer.push(i); // no reallocation
        i += 1;
    }
    assert_eq!(buffer.len(), 253);
    assert_eq!(buffer.capacity(), 256);
    assert_eq!(buffer.as_slice()[252], 252);
}

#[test]
fn reserve_keeps_the_contents() {
    let mut buffer = MutableBuffer::<u32>::new();
    buffer.extend_from_slice(&[1, 2, 3]);
    let before = buffer.capacity();
    assert_eq!(before, 16);
    buffer.reserve(1000);
    assert!(buffer.capacity() > before);
    assert_eq!(buffer.capacity(), 1008);
    assert_eq!(buffer.len(), 3);
    assert_eq!(buffer.as_slice(), &[1u32, 2, 3]);
}

#[test]
fn reserve_that_fits_changes_nothing() {
    let mut buffer = MutableBuffer::<u16>::with_capacity(128);
    assert_eq!(buffer.capacity(), 64);
    buffer.push(5);
    buffer.reserve(63);
    assert_eq!(buffer.capacity(), 64);
    assert_eq!(buffer.as_slice(), &[5u16]);
}

#[test]
fn growth_doubles_a_full_block() {
    let mut buffer = MutableBuffer::<u8>::new();
    let mut i = 0usize;
    while i < 64 {
        buffer.push(1);
        i += 1;
    }
    assert_eq!(buffer.capacity(), 64);
    buffer.push(2);
    assert_eq!(buffer.capacity(), 128);
    assert_eq!(buffer.len(), 65);
    assert_eq!(buffer.as_slice()[64], 2);
    assert_eq!(buffer.as_slice()[63], 1);
}

#[test]
fn resize_fills_with_the_value() {
    let mut buffer = MutableBuffer::<u8>::new();
    buffer.resize(253, 2); // allocates for the first time
    assert_eq!(buffer.as_slice()[252], 2u8);
    assert_eq!(buffer.len(), 253);
    assert_eq!(buffer.capacity(), 256);
    assert!(buffer.as_slice().iter().all(|x| *x == 2));
}

#[test]
fn resize_cut_and_refill() {
    let mut buffer = MutableBuffer::<u32>::new();
    buffer.extend_from_slice(&[10, 11, 12, 13, 14]);
    let capacity = buffer.capacity();
    buffer.resize(2, 99);
    assert_eq!(buffer.as_slice(), &[10u32, 11]);
    assert_eq!(buffer.capacity(), capacity);
    buffer.resize(5, 99);
    assert_eq!(buffer.as_slice(), &[10u32, 11, 99, 99, 99]);
    assert_eq!(buffer.capacity(), capacity);
}

#[test]
fn a_cut_clears_nothing() {
    let mut buffer = MutableBuffer::<u32>::new();
    buffer.extend_from_slice(&[10, 11, 12, 13, 14]);
    buffer.resize(2, 0);
    assert_eq!(buffer.len(), 2);
    buffer.set_len(5);
    assert_eq!(buffer.as_slice(), &[10u32, 11, 12, 13, 14]);
    buffer.clear();
    assert!(buffer.is_empty());
    assert_eq!(buffer.capacity(), 16);
    buffer.set_len(3);
    assert_eq!(buffer.as_slice(), &[10u32, 11, 12]);
}

#[test]
fn extend_from_slice_reads_back() {
    let values: Vec<i64> = (0..1000).map(|x| x * x - 500).collect();
    let mut buffer = MutableBuffer::<i64>::new();
    buffer.extend_from_slice(&values);
    assert_eq!(buffer.len(), 1000);
    assert_eq!(buffer.as_slice(), values.as_slice());
    buffer.extend_from_slice(&[7, 8]);
    assert_eq!(buffer.len(), 1002);
    assert_eq!(&buffer.as_slice()[..1000], values.as_slice());
    assert_eq!(&buffer.as_slice()[1000..], &[7i64, 8]);
}

#[test]
fn extend_from_slice_counts_elements() {
    let mut buffer = MutableBuffer::new();
    buffer.extend_from_slice(&[2u32, 0]);
    assert_eq!(buffer.len(), 2);
    assert_eq!(buffer.capacity(), 16);
}

#[test]
fn push_counts_elements() {
    let mut buffer = MutableBuffer::new();
    buffer.push(256u32);
    assert_eq!(buffer.len(), 1);
    assert_eq!(buffer.as_slice(), &[256u32]);
}

#[test]
fn as_slice_mut_overwrites_in_place() {
    let mut buffer = MutableBuffer::<u16>::new();
    buffer.extend_from_slice(&[1, 2, 3]);
    {
        let slice = buffer.as_slice_mut();
        assert_eq!(slice.len(), 3);
        slice[1] = 20;
    }
    assert_eq!(buffer.as_slice(), &[1u16, 20, 3]);
    assert_eq!(buffer.len(), 3);
    assert_eq!(buffer.capacity(), 32);
}

#[test]
fn length_stays_within_capacity_and_blocks_are_whole_cache_lines() {
    let mut buffer = MutableBuffer::<u32>::new();
    let mut step = 0u32;
    while step < 300 {
        match step % 5 {
            0 => buffer.push(step),
            1 => buffer.extend_from_slice(&[step, step + 1, step + 2]),
            2 => buffer.resize((step as usize) / 2, 7),
            3 => buffer.reserve(step as usize),
            _ => buffer.resize(buffer.len() / 2, 0),
        }
        assert!(buffer.len() <= buffer.capacity());
        assert_eq!((buffer.capacity() * 4) % 64, 0);
        step += 1;
    }
    buffer.clear();
    assert!(buffer.len() <= buffer.capacity());
    assert_eq!((buffer.capacity() * 4) % 64, 0);
}

#[test]
fn can_reserve_knows_the_limit() {
    let mut buffer = MutableBuffer::<u64>::new();
    assert!(buffer.can_reserve(10));
    assert!(!buffer.can_reserve(usize::MAX));
    assert!(!buffer.can_reserve((isize::MAX as usize) / 8));
    buffer.push(1);
    assert!(buffer.can_reserve(7));
    assert!(!buffer.can_reserve(usize::MAX - 1));
    assert!(MutableBuffer::<u64>::can_allocate(1000));
    assert!(!MutableBuffer::<u64>::can_allocate(usize::MAX / 8));
    assert!(MutableBuffer::<u8>::can_allocate_bytes(1000));
    assert!(!MutableBuffer::<u8>::can_allocate_bytes(usize::MAX));
    assert!(MutableBuffer::<u64>::can_allocate_bytes((isize::MAX as usize) / 2));
    assert!(!MutableBuffer::<u64>::can_allocate_bytes(usize::MAX));
}
