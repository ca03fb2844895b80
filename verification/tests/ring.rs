use mneme::ring::RingBuffer;

#[test]
fn empty_buffer() {
    let ring = RingBuffer::new(16);
    assert_eq!(ring.len(), 0);
    assert!(ring.is_empty());
    assert_eq!(ring.snapshot(), Vec::<u8>::new());
}

#[test]
fn simple_write_and_snapshot() {
    let mut ring = RingBuffer::new(16);
    ring.write(b"hello");
    assert_eq!(ring.len(), 5);
    assert_eq!(ring.snapshot(), b"hello");
}

#[test]
fn multiple_writes() {
    let mut ring = RingBuffer::new(16);
    ring.write(b"hello ");
    ring.write(b"world");
    assert_eq!(ring.len(), 11);
    assert_eq!(ring.snapshot(), b"hello world");
}

#[test]
fn wrap_around() {
    let mut ring = RingBuffer::new(8);
    ring.write(b"abcdefgh"); // fills exactly
    assert_eq!(ring.len(), 8);
    assert_eq!(ring.snapshot(), b"abcdefgh");

    ring.write(b"ij"); // overwrites 'a','b'
    assert_eq!(ring.len(), 8);
    assert_eq!(ring.snapshot(), b"cdefghij");
}

#[test]
fn overwrite_multiple_times() {
    let mut ring = RingBuffer::new(4);
    ring.write(b"abcd");
    ring.write(b"ef");
    assert_eq!(ring.snapshot(), b"cdef");
    ring.write(b"gh");
    assert_eq!(ring.snapshot(), b"efgh");
    ring.write(b"ijkl");
    assert_eq!(ring.snapshot(), b"ijkl");
}

#[test]
fn data_larger_than_capacity() {
    let mut ring = RingBuffer::new(4);
    ring.write(b"abcdefghij"); // 10 bytes into 4-byte buffer
    assert_eq!(ring.len(), 4);
    assert_eq!(ring.snapshot(), b"ghij");
}

#[test]
fn single_byte_capacity() {
    let mut ring = RingBuffer::new(1);
    ring.write(b"a");
    assert_eq!(ring.snapshot(), b"a");
    ring.write(b"b");
    assert_eq!(ring.snapshot(), b"b");
}

#[test]
fn clear() {
    let mut ring = RingBuffer::new(16);
    ring.write(b"data");
    ring.clear();
    assert!(ring.is_empty());
    assert_eq!(ring.snapshot(), Vec::<u8>::new());
}

#[test]
fn incremental_wrap() {
    let mut ring = RingBuffer::new(4);
    ring.write(b"ab");
    ring.write(b"cd");
    assert_eq!(ring.snapshot(), b"abcd");
    ring.write(b"e");
    assert_eq!(ring.snapshot(), b"bcde");
    ring.write(b"f");
    assert_eq!(ring.snapshot(), b"cdef");
}

#[test]
fn capacity_returns_correct_value() {
    let ring = RingBuffer::new(1024);
    assert_eq!(ring.capacity(), 1024);
}

#[test]
fn snapshot_after_exact_fill_then_one_more() {
    let mut ring = RingBuffer::new(4);
    ring.write(b"abcd"); // exact fill
    assert_eq!(ring.snapshot(), b"abcd");
    ring.write(b"e"); // one past full
    assert_eq!(ring.snapshot(), b"bcde");
}

#[test]
fn any_cut_of_the_output_keeps_the_same_end() {
    let text: Vec<u8> = (0u8..=99).collect();
    for cap in 1usize..12 {
        for cut in 1usize..15 {
            let mut ring = RingBuffer::new(cap);
            for piece in text.chunks(cut) {
                ring.write(piece);
                assert_eq!(ring.capacity(), cap);
            }
            assert_eq!(ring.snapshot(), &text[text.len() - cap..]);
            assert_eq!(ring.len(), cap);
        }
    }
}

#[test]
fn empty_write_changes_nothing() {
    let mut ring = RingBuffer::new(3);
    ring.write(b"");
    assert!(ring.is_empty());
    ring.write(b"abcd");
    ring.write(b"");
    assert_eq!(ring.snapshot(), b"bcd");
}

#[test]
fn write_after_clear_starts_anew() {
    let mut ring = RingBuffer::new(4);
    ring.write(b"abcdef");
    ring.clear();
    ring.write(b"gh");
    assert_eq!(ring.snapshot(), b"gh");
    assert_eq!(ring.len(), 2);
}
