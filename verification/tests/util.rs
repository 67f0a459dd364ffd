use jxl_render::util::{CeilLog2, ConcatSlice, FloorLog2};

#[test]
fn test_floor() {
    assert_eq!(0, 1u32.floor_log2());
    assert_eq!(1, 2u32.floor_log2());
    assert_eq!(1, 3u32.floor_log2());
    assert_eq!(2, 4u32.floor_log2());
}

#[test]
fn test_ceil() {
    assert_eq!(0, 1u32.ceil_log2());
    assert_eq!(1, 2u32.ceil_log2());
    assert_eq!(2, 3u32.ceil_log2());
    assert_eq!(2, 4u32.ceil_log2());
}

#[test]
fn test_floor_us() {
    assert_eq!(0, 1usize.floor_log2());
    assert_eq!(1, 2usize.floor_log2());
    assert_eq!(1, 3usize.floor_log2());
    assert_eq!(2, 4usize.floor_log2());
}

#[test]
fn test_ceil_us() {
    assert_eq!(0, 1usize.ceil_log2());
    assert_eq!(1, 2usize.ceil_log2());
    assert_eq!(2, 3usize.ceil_log2());
    assert_eq!(2, 4usize.ceil_log2());
}

#[test]
fn test_concat_slice_peek_advance() {
    let first = [0u8, 1, 2, 3];
    let second = [4u8, 5, 6, 7];
    let mut reader = ConcatSlice::new(&first, &second);

    let actual = reader.peek(1);
    assert_eq!(actual, vec![0]);
    reader.advance(actual.len());

    let actual = reader.peek(2);
    assert_eq!(actual, vec![1, 2]);
    reader.advance(actual.len());

    let actual = reader.peek(3);
    assert_eq!(actual, vec![3, 4, 5]);
    reader.advance(actual.len());

    let actual = reader.peek(8);
    assert_eq!(actual, vec![6, 7]);
    reader.advance(actual.len());

    let actual = reader.peek(8);
    assert!(actual.is_empty());
}

#[test]
fn test_concat_slice_fill_vec() {
    let first = [0u8, 1, 2, 3];
    let second = [4u8, 5, 6, 7];
    let mut reader = ConcatSlice::new(&first, &second);
    let mut v = Vec::new();

    let count = reader.fill_vec(Some(3), &mut v).unwrap();
    assert_eq!(count, 3);
    assert_eq!(&v, &[0, 1, 2]);

    let count = reader.fill_vec(None, &mut v).unwrap();
    assert_eq!(count, 5);
    assert_eq!(&v, &[0, 1, 2, 3, 4, 5, 6, 7]);
}

#[test]
fn test_shrc() {
    assert_eq!(jxl_render::util::shrc(128, 7), 1);
    assert_eq!(jxl_render::util::shrc(129, 7), 2);
    assert_eq!(jxl_render::util::shrc(0, 3), 0);
    assert_eq!(jxl_render::util::shrc(5, 1), 3);
    assert_eq!(jxl_render::util::shrc(7, 200), 1);
}

#[test]
fn test_checked_pow2() {
    assert_eq!(jxl_render::util::checked_pow2(0), Some(1));
    assert_eq!(jxl_render::util::checked_pow2(10), Some(1024));
    assert_eq!(jxl_render::util::checked_pow2(1000), None);
}
