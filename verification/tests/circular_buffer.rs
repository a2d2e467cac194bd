use futuresdr::runtime::buffer::circular::BufferError;
use futuresdr::runtime::buffer::circular::CircularBuffer;

#[test]
fn zero_sizes_and_oversize_are_refused() {
    assert_eq!(CircularBuffer::new(0, 4).err(), Some(BufferError::ZeroItemSize));
    assert_eq!(CircularBuffer::new(4, 0).err(), Some(BufferError::ZeroCapacity));
    assert_eq!(CircularBuffer::new(0, 0).err(), Some(BufferError::ZeroItemSize));
    assert_eq!(CircularBuffer::new(2, usize::MAX).err(), Some(BufferError::TooLarge));
    assert_eq!(CircularBuffer::new(1, isize::MAX as usize + 1).err(), Some(BufferError::TooLarge));
    // the region is held twice
    assert_eq!(CircularBuffer::new(1, isize::MAX as usize / 2 + 1).err(), Some(BufferError::TooLarge));
    assert_eq!(CircularBuffer::new(4, isize::MAX as usize / 8 + 1).err(), Some(BufferError::TooLarge));
    assert!(CircularBuffer::new(4, 16).is_ok());
}

#[test]
fn a_new_buffer_is_empty() {
    let b = CircularBuffer::new(2, 4).unwrap();
    assert_eq!(b.item_size(), 2);
    assert_eq!(b.capacity(), 4);
    assert_eq!(b.available(), 0);
    assert_eq!(b.space(), 4);
    assert_eq!(b.read_window(), 0);
    assert_eq!(b.write_window(), 4);
    assert_eq!(b.staged_len(), 8);
    assert!(b.read_slice().is_empty());
    assert!(!b.finished());
    assert!(!b.writer_finished());
    assert!(!b.reader_finished());
}

#[test]
fn produced_items_are_read_in_order() {
    let mut b = CircularBuffer::new(2, 4).unwrap();
    b.write(0, &[1, 2, 3, 4, 5, 6]);
    assert!(b.read_slice().is_empty());
    b.produce(2);
    assert_eq!(b.read_slice(), &[1, 2, 3, 4]);
    assert_eq!(b.available(), 2);
    assert_eq!(b.space(), 2);
    b.produce(1);
    assert_eq!(b.read_slice(), &[1, 2, 3, 4, 5, 6]);
    b.consume(1);
    assert_eq!(b.read_slice(), &[3, 4, 5, 6]);
    b.consume(2);
    assert_eq!(b.available(), 0);
    assert!(b.read_slice().is_empty());
}

#[test]
fn windows_run_across_the_end_of_the_region() {
    let mut b = CircularBuffer::new(1, 4).unwrap();
    b.write(0, &[10, 11, 12]);
    b.produce(3);
    b.consume(2);
    // one item at index 2 is unread; the ring is free at index 3 and at 0..2
    assert_eq!(b.space(), 3);
    assert_eq!(b.write_window(), 3);
    assert_eq!(b.staged_len(), 3);
    b.write(0, &[13, 14, 15]);
    b.produce(3);
    assert_eq!(b.space(), 0);
    assert_eq!(b.write_window(), 0);
    assert_eq!(b.available(), 4);
    assert_eq!(b.read_window(), 4);
    assert_eq!(b.read_slice(), &[12, 13, 14, 15]);
    b.consume(3);
    assert_eq!(b.read_slice(), &[15]);
    b.write(1, &[17]);
    b.write(0, &[16]);
    b.produce(2);
    assert_eq!(b.read_slice(), &[15, 16, 17]);
    b.consume(3);
    assert_eq!(b.available(), 0);
    assert_eq!(b.write_window(), 4);
}

#[test]
fn many_rounds_keep_the_stream_intact() {
    let mut b = CircularBuffer::new(4, 3).unwrap();
    let mut next_in: u32 = 0;
    let mut next_out: u32 = 0;
    for round in 0..50 {
        let n = (round % 3 + 1).min(b.write_window());
        for k in 0..n {
            b.write(4 * k, &next_in.to_le_bytes());
            next_in += 1;
        }
        b.produce(n);
        assert!(b.available() <= b.capacity());
        let slice = b.read_slice().to_vec();
        assert_eq!(slice.len(), 4 * b.read_window());
        let take = (round % 2 + 1).min(b.read_window());
        for k in 0..take {
            let v = u32::from_le_bytes([slice[4 * k], slice[4 * k + 1], slice[4 * k + 2], slice[4 * k + 3]]);
            assert_eq!(v, next_out);
            next_out += 1;
        }
        b.consume(take);
        assert_eq!((next_in - next_out) as usize, b.available());
    }
    assert!(next_out > 40);
}

#[test]
fn staging_can_overwrite() {
    let mut b = CircularBuffer::new(1, 4).unwrap();
    b.write(0, &[1, 2, 3, 4]);
    b.write(1, &[9, 8]);
    b.produce(4);
    assert_eq!(b.read_slice(), &[1, 9, 8, 4]);
}

#[test]
fn finished_shows_only_after_the_drain() {
    let mut b = CircularBuffer::new(1, 4).unwrap();
    b.write(0, &[1, 2]);
    b.produce(2);
    b.finish();
    assert!(b.writer_finished());
    assert!(!b.finished());
    b.consume(1);
    assert!(!b.finished());
    b.consume(1);
    assert!(b.finished());

    let mut empty = CircularBuffer::new(1, 4).unwrap();
    assert!(!empty.finished());
    empty.finish();
    assert!(empty.finished());
}

#[test]
fn the_reader_can_close_its_side() {
    let mut b = CircularBuffer::new(1, 4).unwrap();
    assert!(!b.reader_finished());
    b.finish_reader();
    assert!(b.reader_finished());
    assert!(!b.writer_finished());
    assert!(!b.finished());
}
