use arrow2::buffer::mutable::TrustedLenError;
use arrow2::buffer::MutableBuffer;

/// Gives the numbers from `next` up to `end`, and says of their number what
/// it is told to say.
struct Told {
    next: u32,
    end: u32,
    lower: usize,
    upper: Option<usize>,
}

impl Iterator for Told {
    type Item = u32;

    fn next(&mut self) -> Option<u32> {
        if self.next < self.end {
            self.next += 1;
            Some(self.next - 1)
        } else {
            None
        }
    }

    fn size_hint(&self) -> (usize, Option<usize>) {
        (self.lower, self.upper)
    }
}

#[test]
fn extend_takes_every_item() {
    let mut buffer = MutableBuffer::<u32>::new();
    buffer.push(100);
    buffer.extend(vec![1u32, 2, 3].into_iter());
    assert_eq!(buffer.as_slice(), &[100u32, 1, 2, 3]);
    assert_eq!(buffer.capacity(), 16);
}

#[test]
fn extend_from_iter_reserves_for_the_lower_bound() {
    let mut buffer = MutableBuffer::<u8>::new();
    buffer.extend_from_iter(vec![1u8, 2, 3].into_iter(), 100);
    assert_eq!(buffer.as_slice(), &[1u8, 2, 3]);
    assert_eq!(buffer.capacity(), 128);
    let mut other = MutableBuffer::<u8>::new();
    other.extend_from_iter(vec![1u8, 2, 3].into_iter(), 0);
    assert_eq!(other.as_slice(), &[1u8, 2, 3]);
    assert_eq!(other.capacity(), 64);
}

#[test]
fn extend_pushes_what_the_lower_bound_left_out() {
    let mut buffer = MutableBuffer::<u32>::new();
    let source = Told { next: 0, end: 1000, lower: 3, upper: None };
    buffer.extend(source);
    assert_eq!(buffer.len(), 1000);
    let expected: Vec<u32> = (0..1000).collect();
    assert_eq!(buffer.as_slice(), expected.as_slice());
    // 16 for the lower bound, then doubled six times
    assert_eq!(buffer.capacity(), 1024);
}

#[test]
fn extend_takes_no_word_that_can_not_be_allocated() {
    let mut buffer = MutableBuffer::<u32>::new();
    let source = Told { next: 0, end: 5, lower: usize::MAX, upper: None };
    buffer.extend(source);
    assert_eq!(buffer.as_slice(), &[0u32, 1, 2, 3, 4]);
    assert_eq!(buffer.capacity(), 16);
}

#[test]
fn from_iter_collects() {
    let buffer = MutableBuffer::<i16>::from_iter(vec![-1i16, 0, 1].into_iter());
    assert_eq!(buffer.as_slice(), &[-1i16, 0, 1]);
    let empty = MutableBuffer::<i16>::from_iter(Vec::<i16>::new().into_iter());
    assert!(empty.is_empty());
    assert_eq!(empty.capacity(), 0);
    let long = MutableBuffer::<u32>::from_iter(Told { next: 0, end: 500, lower: 0, upper: None });
    let expected: Vec<u32> = (0..500).collect();
    assert_eq!(long.as_slice(), expected.as_slice());
}

#[test]
fn from_trusted_len_iter_matches_from_iter() {
    let values = vec![3u32, 1, 4, 1, 5];
    let trusted = MutableBuffer::<u32>::from_trusted_len_iter(values.clone().into_iter()).unwrap();
    let generic = MutableBuffer::<u32>::from_iter(values.clone().into_iter());
    assert_eq!(trusted.len(), 5);
    assert_eq!(trusted.as_slice(), generic.as_slice());
    assert_eq!(trusted.as_slice(), values.as_slice());
    assert_eq!(trusted.capacity(), 16);
}

#[test]
fn from_trusted_len_iter_of_a_mapped_iterator() {
    let v = vec![1u32];
    let iter = v.iter().map(|x| x * 2);
    let buffer = MutableBuffer::from_trusted_len_iter(iter).unwrap();
    assert_eq!(buffer.len(), 1);
    assert_eq!(buffer.as_slice(), &[2u32]);
}

#[test]
fn from_trusted_len_iter_wants_a_true_upper_limit() {
    let none = Told { next: 0, end: 5, lower: 0, upper: None };
    assert!(MutableBuffer::<u32>::from_trusted_len_iter(none).is_none());
    let short = Told { next: 0, end: 5, lower: 0, upper: Some(6) };
    assert!(MutableBuffer::<u32>::from_trusted_len_iter(short).is_none());
    let long = Told { next: 0, end: 5, lower: 0, upper: Some(4) };
    assert!(MutableBuffer::<u32>::from_trusted_len_iter(long).is_none());
    let huge = Told { next: 0, end: 5, lower: 0, upper: Some(usize::MAX) };
    assert!(MutableBuffer::<u32>::from_trusted_len_iter(huge).is_none());
    let right = Told { next: 0, end: 5, lower: 0, upper: Some(5) };
    let buffer = MutableBuffer::<u32>::from_trusted_len_iter(right).unwrap();
    assert_eq!(buffer.as_slice(), &[0u32, 1, 2, 3, 4]);
}

#[test]
fn from_trusted_len_takes_the_length_as_given() {
    let buffer = MutableBuffer::<u8>::from_trusted_len(vec![1u8, 2, 3].into_iter(), 3).unwrap();
    assert_eq!(buffer.as_slice(), &[1u8, 2, 3]);
    assert_eq!(buffer.capacity(), 64);
    assert!(MutableBuffer::<u8>::from_trusted_len(vec![1u8, 2, 3].into_iter(), 2).is_none());
    assert!(MutableBuffer::<u8>::from_trusted_len(vec![1u8, 2, 3].into_iter(), 4).is_none());
    let empty = MutableBuffer::<u8>::from_trusted_len(Vec::<u8>::new().into_iter(), 0).unwrap();
    assert!(empty.is_empty());
    assert_eq!(empty.capacity(), 0);
}

#[test]
fn try_from_trusted_len_iter_collects_values() {
    let items: Vec<Result<u32, String>> = vec![Ok(1), Ok(2), Ok(3)];
    match MutableBuffer::<u32>::try_from_trusted_len_iter(items.into_iter()) {
        Ok(buffer) => {
            assert_eq!(buffer.as_slice(), &[1u32, 2, 3]);
            assert_eq!(buffer.capacity(), 16);
        }
        Err(_) => panic!("three values make a buffer"),
    }
}

#[test]
fn try_from_trusted_len_iter_gives_the_first_error() {
    let items: Vec<Result<u32, String>> = vec![
        Ok(1),
        Err("first".to_string()),
        Ok(3),
        Err("second".to_string()),
    ];
    match MutableBuffer::<u32>::try_from_trusted_len_iter(items.into_iter()) {
        Err(TrustedLenError::Source(error)) => assert_eq!(error, "first"),
        _ => panic!("the first error ends the construction"),
    }
}

#[test]
fn try_from_trusted_len_reports_a_wrong_length() {
    let short: Vec<Result<u32, String>> = vec![Ok(1), Ok(2)];
    assert!(matches!(
        MutableBuffer::<u32>::try_from_trusted_len(short.into_iter(), 3),
        Err(TrustedLenError::Length)
    ));
    let long: Vec<Result<u32, String>> = vec![Ok(1), Ok(2), Ok(3)];
    assert!(matches!(
        MutableBuffer::<u32>::try_from_trusted_len(long.into_iter(), 2),
        Err(TrustedLenError::Length)
    ));
    let late: Vec<Result<u32, String>> = vec![Ok(1), Ok(2), Err("late".to_string())];
    assert!(matches!(
        MutableBuffer::<u32>::try_from_trusted_len(late.into_iter(), 2),
        Err(TrustedLenError::Source(_))
    ));
    let after: Vec<Result<u32, String>> = vec![Ok(1), Ok(2), Ok(3), Err("after".to_string())];
    assert!(matches!(
        MutableBuffer::<u32>::try_from_trusted_len(after.into_iter(), 2),
        Err(TrustedLenError::Length)
    ));
    let exact: Vec<Result<u32, String>> = vec![Ok(1), Ok(2)];
    assert!(matches!(MutableBuffer::<u32>::try_from_trusted_len(exact.into_iter(), 2), Ok(_)));
}

#[test]
fn try_from_trusted_len_iter_wants_an_upper_limit() {
    let items = Told { next: 0, end: 3, lower: 0, upper: None }.map(|x| Ok::<u32, String>(x));
    // `map` hands the bounds of `Told` on
    assert!(matches!(
        MutableBuffer::<u32>::try_from_trusted_len_iter(items),
        Err(TrustedLenError::Length)
    ));
}

#[test]
fn bits_are_packed_least_significant_first() {
    let values = vec![true, false, true, true, false, false, false, false, true];
    let buffer = MutableBuffer::<u8>::from_bool_iter(values.into_iter());
    assert_eq!(buffer.len(), 2);
    assert_eq!(buffer.as_slice()[0], 0b00001101);
    assert_eq!(buffer.as_slice()[1], 0b00000001);
}

#[test]
fn bits_fill_whole_bytes() {
    let none = MutableBuffer::<u8>::from_bool_iter(Vec::<bool>::new().into_iter());
    assert!(none.is_empty());
    let eight = MutableBuffer::<u8>::from_bool_iter(vec![true; 8].into_iter());
    assert_eq!(eight.as_slice(), &[0xffu8]);
    let top = MutableBuffer::<u8>::from_bool_iter(
        vec![false, false, false, false, false, false, false, true].into_iter(),
    );
    assert_eq!(top.as_slice(), &[0x80u8]);
    let seven = MutableBuffer::<u8>::from_bool_iter(vec![true; 7].into_iter());
    assert_eq!(seven.as_slice(), &[0x7fu8]);
}

#[test]
fn bits_grow_the_block_when_the_iterator_said_too_little() {
    let values: Vec<bool> = (0..2000).map(|i| i % 3 == 0).collect();
    let quiet = values.clone().into_iter().filter(|_| true);
    assert_eq!(quiet.size_hint().0, 0);
    let buffer = MutableBuffer::<u8>::from_bool_iter(quiet);
    assert_eq!(buffer.len(), 250);
    let mut index = 0usize;
    while index < 2000 {
        let bit = (buffer.as_slice()[index / 8] >> (index % 8)) & 1;
        assert_eq!(bit == 1, values[index]);
        index += 1;
    }
    assert!(buffer.len() <= buffer.capacity());
    assert_eq!(buffer.capacity() % 64, 0);
}

#[test]
fn extend_with_lower_bound_reserves_what_can_be_allocated() {
    let mut buffer = MutableBuffer::<u8>::new();
    buffer.extend_with_lower_bound(vec![1u8, 2, 3].into_iter(), 100);
    assert_eq!(buffer.as_slice(), &[1u8, 2, 3]);
    assert_eq!(buffer.capacity(), 128);
    let mut other = MutableBuffer::<u8>::new();
    other.extend_with_lower_bound(vec![1u8, 2, 3].into_iter(), usize::MAX);
    assert_eq!(other.as_slice(), &[1u8, 2, 3]);
    assert_eq!(other.capacity(), 64);
}

#[test]
fn extend_counts_every_item_as_it_is_written() {
    let mut buffer = MutableBuffer::<u32>::with_capacity(256);
    assert_eq!(buffer.capacity(), 64);
    buffer.extend_from_iter((0u32..64).into_iter(), 0);
    assert_eq!(buffer.len(), 64);
    assert_eq!(buffer.capacity(), 64);
    buffer.extend_from_iter((64u32..66).into_iter(), 0);
    assert_eq!(buffer.len(), 66);
    assert_eq!(buffer.capacity(), 128);
    let expected: Vec<u32> = (0..66).collect();
    assert_eq!(buffer.as_slice(), expected.as_slice());
}

#[test]
fn from_first_and_rest_sizes_the_block_by_the_first_bound() {
    let buffer = MutableBuffer::<u8>::from_first_and_rest(9, vec![8u8, 7].into_iter(), 99, 0);
    assert_eq!(buffer.as_slice(), &[9u8, 8, 7]);
    assert_eq!(buffer.capacity(), 128);
    let small = MutableBuffer::<u32>::from_first_and_rest(9, vec![8u32, 7].into_iter(), 0, 0);
    assert_eq!(small.as_slice(), &[9u32, 8, 7]);
    // a hint of one byte holds no element of four, so the block comes with the first push
    assert_eq!(small.capacity(), 16);
    let later = MutableBuffer::<u8>::from_first_and_rest(9, vec![8u8, 7].into_iter(), 0, 200);
    assert_eq!(later.as_slice(), &[9u8, 8, 7]);
    assert_eq!(later.capacity(), 256);
    let unheard =
        MutableBuffer::<u8>::from_first_and_rest(9, vec![8u8].into_iter(), usize::MAX, usize::MAX);
    assert_eq!(unheard.as_slice(), &[9u8, 8]);
    assert_eq!(unheard.capacity(), 64);
}

#[test]
fn from_trusted_len_upper_wants_a_limit_that_is_the_number() {
    assert!(MutableBuffer::<u32>::from_trusted_len_upper(vec![1u32, 2].into_iter(), None).is_none());
    assert!(
        MutableBuffer::<u32>::from_trusted_len_upper(vec![1u32, 2].into_iter(), Some(3)).is_none()
    );
    assert!(
        MutableBuffer::<u32>::from_trusted_len_upper(vec![1u32, 2].into_iter(), Some(1)).is_none()
    );
    assert!(MutableBuffer::<u32>::from_trusted_len_upper(
        vec![1u32, 2].into_iter(),
        Some(usize::MAX)
    )
    .is_none());
    let buffer =
        MutableBuffer::<u32>::from_trusted_len_upper(vec![1u32, 2].into_iter(), Some(2)).unwrap();
    assert_eq!(buffer.as_slice(), &[1u32, 2]);
    assert_eq!(buffer.capacity(), 16);
}

#[test]
fn try_from_trusted_len_upper_reports_a_missing_limit() {
    let items: Vec<Result<u32, String>> = vec![Ok(1), Err("first".to_string())];
    assert!(matches!(
        MutableBuffer::<u32>::try_from_trusted_len_upper(items.clone().into_iter(), None),
        Err(TrustedLenError::Length)
    ));
    assert!(matches!(
        MutableBuffer::<u32>::try_from_trusted_len_upper(
            items.clone().into_iter(),
            Some(usize::MAX)
        ),
        Err(TrustedLenError::Length)
    ));
    match MutableBuffer::<u32>::try_from_trusted_len_upper(items.into_iter(), Some(2)) {
        Err(TrustedLenError::Source(error)) => assert_eq!(error, "first"),
        _ => panic!("the first error ends the construction"),
    }
    let values: Vec<Result<u32, String>> = vec![Ok(1), Ok(2)];
    match MutableBuffer::<u32>::try_from_trusted_len_upper(values.into_iter(), Some(2)) {
        Ok(buffer) => assert_eq!(buffer.as_slice(), &[1u32, 2]),
        Err(_) => panic!("two values under a limit of two make a buffer"),
    }
}

#[test]
fn blocks_for_bits_are_sized_in_bytes() {
    let none = MutableBuffer::<u8>::with_capacity_for_bits(0);
    assert_eq!(none.capacity(), 0);
    let one = MutableBuffer::<u8>::with_capacity_for_bits(1);
    assert_eq!(one.capacity(), 64);
    let many = MutableBuffer::<u8>::with_capacity_for_bits(513);
    assert_eq!(many.capacity(), 128);
    assert!(many.is_empty());
    let lines = MutableBuffer::<u8>::with_capacity_for_bits(512);
    assert_eq!(lines.capacity(), 64);
}

#[test]
fn full_blocks_of_bits_grow_by_what_is_declared() {
    let mut buffer = MutableBuffer::<u8>::new();
    buffer.reserve_for_bits(0);
    assert_eq!(buffer.capacity(), 64);
    buffer.resize(64, 1);
    buffer.reserve_for_bits(8 * 200);
    // 64 + 1 + 200 bytes, in whole cache lines
    assert_eq!(buffer.capacity(), 320);
    assert_eq!(buffer.len(), 64);
    assert!(buffer.as_slice().iter().all(|x| *x == 1));
    let mut doubled = MutableBuffer::<u8>::new();
    doubled.resize(128, 2);
    doubled.reserve_for_bits(8);
    // twice the block is more than the two bytes asked for
    assert_eq!(doubled.capacity(), 256);
    assert_eq!(doubled.len(), 128);
}

#[test]
fn bits_from_a_source_that_knows_its_length_take_one_block() {
    let values: Vec<bool> = (0..1000).map(|i| i % 7 == 0).collect();
    let buffer = MutableBuffer::<u8>::from_bool_iter(values.into_iter());
    assert_eq!(buffer.len(), 125);
    assert_eq!(buffer.capacity(), 128);
    let quiet = (0..1000).map(|i| i % 7 == 0).filter(|_| true);
    let grown = MutableBuffer::<u8>::from_bool_iter(quiet);
    assert_eq!(grown.len(), 125);
    // no block at first, then 64 bytes, then twice that
    assert_eq!(grown.capacity(), 128);
}
