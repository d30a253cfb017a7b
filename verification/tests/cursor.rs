use std::collections::VecDeque;
use std::io::{Read, Write};

use rpc_reader::cursor::read_segments;
use rpc_reader::Cursor;

#[test]
fn test_reads_front_and_back_at_once() {
    let mut dq: VecDeque<u8> = VecDeque::from_iter(0..6);
    dq.pop_front();
    dq.pop_front();
    dq.extend(6..8);

    // Validate our test setup.
    let (front, back) = dq.as_slices();
    assert_eq!(front, &[2, 3, 4, 5]);
    assert_eq!(back, &[6, 7]);

    let mut cursor = Cursor::new(&mut dq);

    let mut buf = vec![0u8; 6];
    let n = cursor.read(&mut buf).unwrap();
    assert_eq!(n, 6);
    assert_eq!(&buf, &[2, 3, 4, 5, 6, 7])
}

#[test]
fn test_cursor_read_wrapping() {
    let mut buf = VecDeque::with_capacity(5);
    buf.write_all(&[1, 2, 3, 4, 5]).unwrap();
    buf.drain(..2);
    buf.write_all(&[6]).unwrap();

    // Buffer should be [6, <empty>, 3, 4, 5]
    let (front, back) = buf.as_slices();
    assert_eq!(&[3, 4, 5], front);
    assert_eq!(&[6], back);

    let mut cursor = Cursor::new(&buf);
    let mut target = Vec::new();
    let n = cursor.read_to_end(&mut target).unwrap();
    assert_eq!(4, n);
    assert_eq!(vec![3, 4, 5, 6], target);
}

#[test]
fn read_segments_agrees_with_one_contiguous_sequence_at_every_split() {
    let data: Vec<u8> = (10..18).collect();
    for split in 0..=data.len() {
        let (front, back) = data.split_at(split);
        for start in 0..=data.len() {
            for room in 0..=data.len() + 2 {
                let mut buf = vec![0xEEu8; room];
                let n = read_segments(front, back, start, &mut buf);
                let expected = std::cmp::min(data.len() - start, room);
                assert_eq!(n, expected);
                assert_eq!(&buf[..n], &data[start..start + n]);
                assert!(buf[n..].iter().all(|b| *b == 0xEE));
            }
        }
    }
}

#[test]
fn read_segments_crosses_the_boundary() {
    let mut buf = [0u8; 4];
    let n = read_segments(&[1, 2, 3], &[4, 5, 6], 1, &mut buf);
    assert_eq!(n, 4);
    assert_eq!(buf, [2, 3, 4, 5]);
}

#[test]
fn read_segments_starts_in_the_back_segment() {
    let mut buf = [0u8; 4];
    let n = read_segments(&[1, 2, 3], &[4, 5, 6], 4, &mut buf);
    assert_eq!(n, 2);
    assert_eq!(buf, [5, 6, 0, 0]);
}

#[test]
fn read_segments_with_an_empty_front() {
    let mut buf = [0u8; 2];
    let n = read_segments(&[], &[7, 8, 9], 0, &mut buf);
    assert_eq!(n, 2);
    assert_eq!(buf, [7, 8]);
}

#[test]
fn read_segments_at_the_end_copies_nothing() {
    let mut buf = [0xAAu8; 3];
    let n = read_segments(&[1, 2], &[3], 3, &mut buf);
    assert_eq!(n, 0);
    assert_eq!(buf, [0xAA, 0xAA, 0xAA]);
}

#[test]
fn cursor_reads_in_steps_what_indexing_gives() {
    let mut dq: VecDeque<u8> = VecDeque::with_capacity(8);
    dq.extend(0..8u8);
    dq.drain(..5);
    dq.extend(8..12u8);
    let logical: Vec<u8> = dq.iter().copied().collect();
    assert_eq!(logical, vec![5, 6, 7, 8, 9, 10, 11]);

    for step in 1..=logical.len() + 1 {
        let mut cursor = Cursor::new(&dq);
        let mut seen = Vec::new();
        loop {
            let mut buf = vec![0u8; step];
            let n = cursor.read(&mut buf).unwrap();
            if n == 0 {
                break;
            }
            seen.extend_from_slice(&buf[..n]);
            assert_eq!(cursor.position(), seen.len());
        }
        assert_eq!(seen, logical);
    }
    // The deque is as it was.
    assert_eq!(dq.iter().copied().collect::<Vec<u8>>(), logical);
}

#[test]
fn cursor_at_the_end_reads_zero_bytes() {
    let dq: VecDeque<u8> = VecDeque::from(vec![1u8, 2]);
    let mut cursor = Cursor::new(&dq);
    let mut buf = [0u8; 8];
    assert_eq!(cursor.read(&mut buf).unwrap(), 2);
    assert_eq!(cursor.position(), 2);
    assert_eq!(cursor.read(&mut buf).unwrap(), 0);
    assert_eq!(cursor.read(&mut buf).unwrap(), 0);
    assert_eq!(cursor.position(), 2);
}

#[test]
fn cursor_starts_at_zero_and_reads_nothing_into_an_empty_slice() {
    let dq: VecDeque<u8> = VecDeque::from(vec![1u8, 2, 3]);
    let mut cursor = Cursor::new(&dq);
    assert_eq!(cursor.position(), 0);
    let mut buf: [u8; 0] = [];
    assert_eq!(cursor.read(&mut buf).unwrap(), 0);
    assert_eq!(cursor.position(), 0);
}

#[test]
fn cursor_over_an_empty_deque() {
    let dq: VecDeque<u8> = VecDeque::new();
    let mut cursor = Cursor::new(&dq);
    let mut buf = [9u8; 2];
    assert_eq!(cursor.read(&mut buf).unwrap(), 0);
    assert_eq!(buf, [9, 9]);
}
