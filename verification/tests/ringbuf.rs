use tinyboot::ringbuf::RingBuf;

#[test]
fn ringbuf_empty() {
    let buf = RingBuf::<8>::default();
    assert_eq!(buf.len(), 0);
    assert_eq!(buf.peek(8), Vec::<u8>::new());
}

#[test]
fn push_and_peek() {
    let mut buf = RingBuf::<8>::default();
    assert_eq!(buf.push(&[1, 2, 3]), 3);
    assert_eq!(buf.len(), 3);
    assert_eq!(buf.peek(3), &[1, 2, 3]);
}

#[test]
fn consume_advances() {
    let mut buf = RingBuf::<8>::default();
    buf.push(&[1, 2, 3, 4]);
    buf.consume(2);
    assert_eq!(buf.len(), 2);
    assert_eq!(buf.peek(2), &[3, 4]);
}

#[test]
fn push_wraps() {
    let mut buf = RingBuf::<8>::default();
    buf.push(&[1, 2, 3, 4, 5]);
    buf.consume(4); // tail=4, head=5
    assert_eq!(buf.push(&[6, 7, 8, 9]), 4); // wraps: 6,7,8 at end, 9 at start
    assert_eq!(buf.len(), 5);
    assert_eq!(buf.peek(1), &[5]);
}

#[test]
fn full_returns_short() {
    let mut buf = RingBuf::<4>::default();
    assert_eq!(buf.push(&[1, 2, 3]), 3); // capacity is N-1 = 3
    assert_eq!(buf.push(&[4]), 0); // full
    assert_eq!(buf.len(), 3);
}

#[test]
fn page_aligned_peek_is_contiguous() {
    // Simulates PageWriter pattern: N=8, PAGE_SIZE=4
    let mut buf = RingBuf::<8>::default();

    // Fill first page
    buf.push(&[1, 2, 3, 4]);
    assert_eq!(buf.peek(4), &[1, 2, 3, 4]);
    buf.consume(4);

    // Fill second page
    buf.push(&[5, 6, 7, 8]);
    assert_eq!(buf.peek(4), &[5, 6, 7, 8]);
    buf.consume(4);

    // Back to first page slot
    buf.push(&[9, 10, 11, 12]);
    assert_eq!(buf.peek(4), &[9, 10, 11, 12]);
}

#[test]
fn peek_across_the_wrap() {
    let mut buf = RingBuf::<8>::default();
    buf.push(&[1, 2, 3, 4, 5, 6]);
    buf.consume(5);
    buf.push(&[7, 8, 9, 10]);
    assert_eq!(buf.len(), 5);
    assert_eq!(buf.peek(8), &[6, 7, 8, 9, 10]);
}

#[test]
fn partial_push_when_nearly_full() {
    let mut buf = RingBuf::<4>::default();
    assert_eq!(buf.push(&[1, 2]), 2);
    assert_eq!(buf.push(&[3, 4, 5]), 1);
    assert_eq!(buf.peek(4), &[1, 2, 3]);
    assert!(!buf.is_empty());
    buf.consume(3);
    assert!(buf.is_empty());
}

#[test]
fn fifo_after_consuming_older_bytes() {
    let mut buf = RingBuf::<16>::default();
    buf.push(&[0xA0, 0xA1]);
    buf.push(&[1, 2, 3]);
    buf.consume(2);
    assert_eq!(buf.peek(3), &[1, 2, 3]);
}
