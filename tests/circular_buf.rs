use host_socket::circular_buf::{CircularBuf, IoSpan};

#[test]
fn produce_then_consume_round_trips() {
    let mut b = CircularBuf::new(8);
    assert_eq!(b.produce(b"hello"), 5);
    assert_eq!(b.filled_len(), 5);
    assert_eq!(b.free_len(), 3);
    let mut out = [0u8; 5];
    assert_eq!(b.consume(&mut out), 5);
    assert_eq!(&out, b"hello");
    assert!(b.is_empty());
}

#[test]
fn produce_stops_at_capacity() {
    let mut b = CircularBuf::new(4);
    assert_eq!(b.produce(b"abcdef"), 4);
    assert!(b.is_full());
    assert_eq!(b.produce(b"x"), 0);
    assert_eq!(b.filled_len(), 4);
    let mut out = [0u8; 6];
    assert_eq!(b.consume(&mut out), 4);
    assert_eq!(&out[..4], b"abcd");
    assert_eq!(&out[4..], &[0u8, 0u8]);
}

#[test]
fn consume_into_short_buffer_takes_oldest() {
    let mut b = CircularBuf::new(8);
    b.produce(b"abcdef");
    let mut out = [0u8; 2];
    assert_eq!(b.consume(&mut out), 2);
    assert_eq!(&out, b"ab");
    let mut rest = [0u8; 8];
    assert_eq!(b.consume(&mut rest), 4);
    assert_eq!(&rest[..4], b"cdef");
}

#[test]
fn wrap_around_keeps_order_and_splits_spans() {
    let mut b = CircularBuf::new(8);
    b.produce(b"123456");
    let mut out = [0u8; 5];
    b.consume(&mut out);
    assert_eq!(b.produce(b"abcdef"), 6);
    assert_eq!(b.filled_len(), 7);
    let (a, c) = b.consumer_spans();
    assert_eq!(a, IoSpan { start: 5, len: 3 });
    assert_eq!(c, IoSpan { start: 0, len: 4 });
    let (p, q) = b.producer_spans();
    assert_eq!(p, IoSpan { start: 4, len: 1 });
    assert_eq!(q, IoSpan { start: 0, len: 0 });
    let mut all = [0u8; 7];
    assert_eq!(b.peek(&mut all), 7);
    assert_eq!(&all, b"6abcdef");
    assert_eq!(b.filled_len(), 7);
    let mut got = [0u8; 7];
    assert_eq!(b.consume(&mut got), 7);
    assert_eq!(&got, b"6abcdef");
}

#[test]
fn empty_buffer_has_whole_free_span() {
    let b = CircularBuf::new(16);
    assert_eq!(b.consumer_spans(), (IoSpan { start: 0, len: 0 }, IoSpan { start: 0, len: 0 }));
    assert_eq!(b.producer_spans(), (IoSpan { start: 0, len: 16 }, IoSpan { start: 0, len: 0 }));
    assert_eq!(b.capacity(), 16);
}

#[test]
fn host_fill_then_advance_equals_produce() {
    let mut b = CircularBuf::new(4);
    b.produce(b"ab");
    let mut two = [0u8; 2];
    b.consume(&mut two);
    assert_eq!(b.write_free(b"wxyz!"), 4);
    assert_eq!(b.filled_len(), 0);
    b.produce_without_copy(3);
    let mut out = [0u8; 4];
    assert_eq!(b.consume(&mut out), 3);
    assert_eq!(&out[..3], b"wxy");
}

#[test]
fn consume_without_copy_drops_oldest() {
    let mut b = CircularBuf::new(4);
    b.produce(b"abcd");
    b.consume_without_copy(3);
    assert_eq!(b.filled_len(), 1);
    let mut out = [0u8; 1];
    b.consume(&mut out);
    assert_eq!(&out, b"d");
}
