use aeron_rs::atomic_buffer::AtomicBuffer;
use aeron_rs::util::AeronError;

#[test]
fn negative_offset() {
    let buf = vec![16, 0, 0, 0, 0, 0, 0, 0];
    let mut atomic_buf = AtomicBuffer::wrap(buf);
    assert_eq!(
        atomic_buf.get_and_add_i64(-1, 0),
        Err(AeronError::OutOfBounds)
    )
}

#[test]
fn atomic_buffer_negative_offset() {
    let buf = vec![16, 0, 0, 0, 0, 0, 0, 0];
    let mut atomic_buf = AtomicBuffer::wrap(buf);
    assert_eq!(
        atomic_buf.get_and_add_i64(-1, 0),
        Err(AeronError::OutOfBounds)
    )
}

#[test]
fn atomic_i64_increment() {
    let buf = vec![16, 0, 0, 0, 0, 0, 0, 0];
    let mut atomic_buf = AtomicBuffer::wrap(buf);
    assert_eq!(atomic_buf.get_and_add_i64(0, 1), Ok(16));
    assert_eq!(atomic_buf.get_and_add_i64(0, 0), Ok(17));
}

#[test]
fn atomic_i64_increment_offset() {
    let buf = vec![0, 16, 0, 0, 0, 0, 0, 0, 0];
    let mut atomic_buf = AtomicBuffer::wrap(buf);
    assert_eq!(atomic_buf.get_and_add_i64(1, 1), Ok(16));
    assert_eq!(atomic_buf.get_and_add_i64(1, 0), Ok(17));
}

#[test]
fn out_of_bounds() {
    let buf = vec![16, 0, 0, 0, 0, 0, 0];
    let mut atomic_buf = AtomicBuffer::wrap(buf);
    assert_eq!(
        atomic_buf.get_and_add_i64(0, 0),
        Err(AeronError::OutOfBounds)
    );
}

#[test]
fn out_of_bounds_offset() {
    let buf = vec![16, 0, 0, 0, 0, 0, 0, 0];
    let mut atomic_buf = AtomicBuffer::wrap(buf);
    assert_eq!(
        atomic_buf.get_and_add_i64(1, 0),
        Err(AeronError::OutOfBounds)
    );
}

#[test]
fn put_i64() {
    let buf = vec![0u8; 8];
    let mut atomic_buf = AtomicBuffer::wrap(buf);
    atomic_buf.put_i64_ordered(0, 12).unwrap();
    assert_eq!(atomic_buf.get_i64_volatile(0), Ok(12))
}

#[test]
fn compare_set_i64() {
    let buf = vec![0u8; 8];
    let mut atomic_buf = AtomicBuffer::wrap(buf);
    atomic_buf.get_and_add_i64(0, 1).unwrap();
    assert_eq!(atomic_buf.compare_and_set_i64(0, 0, 1), Ok(false));
    assert_eq!(atomic_buf.compare_and_set_i64(0, 1, 2), Ok(true));
    assert_eq!(atomic_buf.get_i64_volatile(0), Ok(2));
}

#[test]
fn put_get_i32_little_endian() {
    let buf = vec![0u8; 5];
    let mut atomic_buf = AtomicBuffer::wrap(buf);
    atomic_buf.put_i32(0, 255 + 1).unwrap();
    assert_eq!(atomic_buf.get_i32(1), Ok(1));
    assert_eq!(atomic_buf.get_i32(0), Ok(256));
}

#[test]
fn put_i32_negative_roundtrip() {
    let buf = vec![0u8; 8];
    let mut atomic_buf = AtomicBuffer::wrap(buf);
    atomic_buf.put_i32_ordered(4, -1).unwrap();
    assert_eq!(atomic_buf.get_i32_volatile(4), Ok(-1));
    assert_eq!(atomic_buf.get_i32(0), Ok(0));
}

#[test]
fn set_memory_fills_window() {
    let buf = vec![1u8; 8];
    let mut atomic_buf = AtomicBuffer::wrap(buf);
    atomic_buf.set_memory(2, 4, 0).unwrap();
    let out = atomic_buf.get_bytes(0, 8).unwrap();
    assert_eq!(out, vec![1, 1, 0, 0, 0, 0, 1, 1]);
}

#[test]
fn put_bytes_copies_window() {
    let source = AtomicBuffer::wrap(vec![1u8, 2, 3, 4]);
    let mut dest = AtomicBuffer::wrap(vec![0u8, 0, 0, 0]);
    dest.put_bytes(1, &source, 1, 3).unwrap();
    assert_eq!(dest.get_bytes(0, 4).unwrap(), vec![0u8, 2, 3, 4]);
}

#[test]
fn bounds_check_edges() {
    let buffer = AtomicBuffer::wrap(vec![0u8; 8]);
    assert!(buffer.bounds_check(0, 8).is_ok());
    assert!(buffer.bounds_check(1, 7).is_ok());
    assert!(buffer.bounds_check(1, 8).is_err());
    assert!(buffer.bounds_check(-1, 8).is_err());
}
