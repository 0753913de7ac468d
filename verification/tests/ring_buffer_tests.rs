use aeron_rs::atomic_buffer::AtomicBuffer;
use aeron_rs::ringbuffer::{
    make_header, ManyToOneRingBuffer, ALIGNMENT, HEADER_LENGTH, HEAD_POSITION_OFFSET,
    PADDING_MSG_TYPE_ID, TAIL_POSITION_OFFSET, TRAILER_LENGTH,
};
use aeron_rs::util::{align, AeronError, IndexT};

const CAPACITY: usize = 1024;
const BUFFER_SZ: usize = CAPACITY + TRAILER_LENGTH as usize;
const ODD_BUFFER_SZ: usize = (CAPACITY - 1) + TRAILER_LENGTH as usize;

const MSG_TYPE_ID: i32 = 101;
const HEAD_COUNTER_INDEX: IndexT = 1024 + HEAD_POSITION_OFFSET;
const TAIL_COUNTER_INDEX: IndexT = 1024 + TAIL_POSITION_OFFSET;

fn ring(size: usize) -> ManyToOneRingBuffer {
    ManyToOneRingBuffer::new(AtomicBuffer::wrap(vec![0u8; size])).unwrap()
}

#[test]
fn claim_capacity_owned() {
    let small_sz = 512 + TRAILER_LENGTH as usize;
    let mut ring_buf = ring(small_sz);

    ring_buf.claim_capacity(16).unwrap();
    assert_eq!(
        ring_buf.get_i64_volatile(512 + TAIL_POSITION_OFFSET),
        Ok(16)
    );

    let write_start = ring_buf.claim_capacity(16).unwrap();
    assert_eq!(write_start, 16);
}

#[test]
fn claim_capacity_shared() {
    let small_sz = 512 + TRAILER_LENGTH as usize;
    let mut ring_buf = ring(small_sz);

    ring_buf.claim_capacity(16).unwrap();
    assert_eq!(
        ring_buf.get_i64_volatile(512 + TAIL_POSITION_OFFSET),
        Ok(16)
    );

    let write_start = ring_buf.claim_capacity(16).unwrap();
    assert_eq!(write_start, 16);
}

#[test]
fn claim_capacity_basic() {
    let buf_size = TRAILER_LENGTH as usize + 64;
    let mut ring_buf = ring(buf_size);

    ring_buf.claim_capacity(16).unwrap();
    assert_eq!(ring_buf.get_i64_volatile(64 + TAIL_POSITION_OFFSET), Ok(16));

    let write_start = ring_buf.claim_capacity(16).unwrap();
    assert_eq!(write_start, 16);
}

#[test]
fn write_basic() {
    let mut ring_buffer = ManyToOneRingBuffer::new(AtomicBuffer::wrap(vec![
        0u8;
        512 + TRAILER_LENGTH as usize
    ]))
    .expect("Invalid buffer size");

    let source_bytes = AtomicBuffer::wrap(vec![12u8, 0, 0, 0]);
    let source_len: IndexT = 4;
    let type_id = 1;
    ring_buffer
        .write(type_id, &source_bytes, 0, source_len)
        .unwrap();

    let record_len = source_len + HEADER_LENGTH;
    assert_eq!(
        ring_buffer.get_i64_volatile(0).unwrap(),
        make_header(record_len, type_id)
    );
    assert_eq!(ring_buffer.get_i64_volatile(8).unwrap(), 12);
}

#[test]
fn many_to_one_ring_buffer_should_calculate_capacity_for_buffer() {
    let buffer = ring(BUFFER_SZ);
    assert_eq!(buffer.capacity(), CAPACITY as IndexT);
}

#[test]
fn should_throw_for_capacity_not_power_of_two() {
    let buffer = ManyToOneRingBuffer::new(AtomicBuffer::wrap(vec![0u8; ODD_BUFFER_SZ]));
    assert!(buffer.is_err());
}

#[test]
fn should_throw_when_max_message_size_exceeded() {
    let mut buffer = ring(BUFFER_SZ);
    let bytes = AtomicBuffer::wrap(vec![0u8; BUFFER_SZ]);
    let oversize = buffer.max_msg_length() + 1;
    let write_res = buffer.write(MSG_TYPE_ID, &bytes, 0, oversize);
    assert!(write_res.is_err());
}

#[test]
fn should_write_to_empty_buffer() {
    let tail: IndexT = 0;
    let tail_index: IndexT = 0;
    let length: IndexT = 8;
    let record_length: IndexT = length + HEADER_LENGTH;
    let src_index: IndexT = 0;
    let aligned_record_length: IndexT =
        align(record_length as usize, ALIGNMENT as usize) as IndexT;

    let mut buffer = ring(BUFFER_SZ);
    let src_bytes = AtomicBuffer::wrap(vec![0u8; BUFFER_SZ]);

    assert!(buffer.write(MSG_TYPE_ID, &src_bytes, src_index, length).unwrap());

    assert_eq!(buffer.get_i32(tail_index), Ok(record_length));
    assert_eq!(buffer.get_i32(tail_index + 4), Ok(MSG_TYPE_ID));
    assert_eq!(
        buffer.get_i64(TAIL_COUNTER_INDEX),
        Ok((tail + aligned_record_length) as i64)
    );
}

#[test]
fn should_reject_write_when_insufficient_space() {
    let length: IndexT = 100;
    let head: IndexT = 0;
    let tail: IndexT = head
        + (CAPACITY
            - align(
                (length - ALIGNMENT) as usize,
                ALIGNMENT as usize,
            )) as IndexT;
    let src_index: IndexT = 0;

    let mut buffer = ring(BUFFER_SZ);
    buffer.put_i64(HEAD_COUNTER_INDEX, head as i64).unwrap();
    buffer.put_i64(TAIL_COUNTER_INDEX, tail as i64).unwrap();

    let src_bytes = AtomicBuffer::wrap(vec![0u8; BUFFER_SZ]);
    let write_res = buffer.write(MSG_TYPE_ID, &src_bytes, src_index, length);

    assert_eq!(write_res, Ok(false));
    assert_eq!(buffer.get_i64(TAIL_COUNTER_INDEX), Ok(tail as i64));
}

#[test]
fn should_reject_write_when_buffer_full() {
    let length: IndexT = 8;
    let head: IndexT = 0;
    let tail: IndexT = head + CAPACITY as IndexT;
    let src_index: IndexT = 0;

    let mut buffer = ring(BUFFER_SZ);
    buffer.put_i64(HEAD_COUNTER_INDEX, head as i64).unwrap();
    buffer.put_i64(TAIL_COUNTER_INDEX, tail as i64).unwrap();

    let src_bytes = AtomicBuffer::wrap(vec![0u8; BUFFER_SZ]);
    let write_res = buffer.write(MSG_TYPE_ID, &src_bytes, src_index, length);
    assert_eq!(write_res, Ok(false));
    assert_eq!(buffer.get_i64(TAIL_COUNTER_INDEX), Ok(tail as i64));
}

#[test]
fn should_insert_padding_record_plus_message_on_buffer_wrap() {
    let length: IndexT = 100;
    let record_length: IndexT = length + HEADER_LENGTH;
    let aligned_record_length: IndexT =
        align(record_length as usize, ALIGNMENT as usize) as IndexT;
    let tail: IndexT = CAPACITY as IndexT - ALIGNMENT;
    let head: IndexT = tail - (ALIGNMENT * 4);
    let src_index: IndexT = 0;

    let mut buffer = ring(BUFFER_SZ);
    buffer.put_i64(HEAD_COUNTER_INDEX, head as i64).unwrap();
    buffer.put_i64(TAIL_COUNTER_INDEX, tail as i64).unwrap();

    let src_bytes = AtomicBuffer::wrap(vec![0u8; BUFFER_SZ]);
    let write_res = buffer.write(MSG_TYPE_ID, &src_bytes, src_index, length);
    assert_eq!(write_res, Ok(true));

    assert_eq!(buffer.get_i32(tail + 4), Ok(PADDING_MSG_TYPE_ID));
    assert_eq!(buffer.get_i32(tail), Ok(ALIGNMENT));

    assert_eq!(buffer.get_i32(0), Ok(record_length));
    assert_eq!(buffer.get_i32(4), Ok(MSG_TYPE_ID));
    assert_eq!(
        buffer.get_i64(TAIL_COUNTER_INDEX),
        Ok((tail + aligned_record_length + ALIGNMENT) as i64)
    );
}

#[test]
fn should_insert_padding_record_plus_message_on_buffer_wrap_with_head_equal_to_tail() {
    let length: IndexT = 100;
    let record_length: IndexT = length + HEADER_LENGTH;
    let aligned_record_length: IndexT =
        align(record_length as usize, ALIGNMENT as usize) as IndexT;
    let tail: IndexT = CAPACITY as IndexT - ALIGNMENT;
    let head: IndexT = tail;
    let src_index: IndexT = 0;

    let mut buffer = ring(BUFFER_SZ);
    buffer.put_i64(HEAD_COUNTER_INDEX, head as i64).unwrap();
    buffer.put_i64(TAIL_COUNTER_INDEX, tail as i64).unwrap();

    let src_bytes = AtomicBuffer::wrap(vec![0u8; BUFFER_SZ]);
    let write_res = buffer.write(MSG_TYPE_ID, &src_bytes, src_index, length);
    assert_eq!(write_res, Ok(true));

    assert_eq!(buffer.get_i32(tail + 4), Ok(PADDING_MSG_TYPE_ID));
    assert_eq!(buffer.get_i32(tail), Ok(ALIGNMENT));

    assert_eq!(buffer.get_i32(0), Ok(record_length));
    assert_eq!(buffer.get_i32(4), Ok(MSG_TYPE_ID));
    assert_eq!(
        buffer.get_i64(TAIL_COUNTER_INDEX),
        Ok((tail + aligned_record_length + ALIGNMENT) as i64)
    );
}

#[test]
fn write_rejects_non_positive_type_id() {
    let mut buffer = ring(BUFFER_SZ);
    let src = AtomicBuffer::wrap(vec![0u8; 16]);
    assert_eq!(buffer.write(0, &src, 0, 8), Err(AeronError::IllegalArgument));
    assert_eq!(buffer.write(-1, &src, 0, 8), Err(AeronError::IllegalArgument));
}

#[test]
fn correlation_id_monotonic() {
    let mut buffer = ring(BUFFER_SZ);
    for expected in 0..10i64 {
        assert_eq!(buffer.next_correlation_id(), expected);
    }
    assert_eq!(
        buffer.get_i64(1024 + aeron_rs::ringbuffer::CORRELATION_COUNTER_OFFSET),
        Ok(10)
    );
}

#[test]
fn read_returns_written_messages_in_order() {
    let mut buffer = ring(BUFFER_SZ);
    let first = AtomicBuffer::wrap(vec![1u8, 2, 3, 4, 5, 6, 7, 8]);
    let second = AtomicBuffer::wrap(vec![9u8, 10, 11]);
    assert_eq!(buffer.write(7, &first, 0, 8), Ok(true));
    assert_eq!(buffer.write(9, &second, 0, 3), Ok(true));

    let messages = buffer.read().unwrap();
    assert_eq!(messages.len(), 2);
    assert_eq!(messages[0].0, 7);
    assert_eq!(messages[0].1, vec![1, 2, 3, 4, 5, 6, 7, 8]);
    assert_eq!(messages[1].0, 9);
    assert_eq!(messages[1].1, vec![9, 10, 11]);
}

#[test]
fn read_zeroes_consumed_bytes_and_advances_head() {
    let mut buffer = ring(BUFFER_SZ);
    let src = AtomicBuffer::wrap(vec![42u8; 8]);
    assert_eq!(buffer.write(5, &src, 0, 8), Ok(true));

    let messages = buffer.read().unwrap();
    assert_eq!(messages.len(), 1);

    for offset in (0..16).step_by(4) {
        assert_eq!(buffer.get_i32(offset), Ok(0));
    }
    assert_eq!(buffer.get_i64(HEAD_COUNTER_INDEX), Ok(16));
}

#[test]
fn read_skips_padding_without_delivering_it() {
    let length: IndexT = 100;
    let tail: IndexT = CAPACITY as IndexT - ALIGNMENT;
    let head: IndexT = tail;

    let mut buffer = ring(BUFFER_SZ);
    buffer.put_i64(HEAD_COUNTER_INDEX, head as i64).unwrap();
    buffer.put_i64(TAIL_COUNTER_INDEX, tail as i64).unwrap();

    let src_bytes = AtomicBuffer::wrap(vec![3u8; BUFFER_SZ]);
    assert_eq!(buffer.write(MSG_TYPE_ID, &src_bytes, 0, length), Ok(true));

    // The first read walks the padding record at the end of the ring and
    // delivers nothing.
    let first = buffer.read().unwrap();
    assert_eq!(first.len(), 0);

    // The second read starts at the wrapped position and delivers the record.
    let second = buffer.read().unwrap();
    assert_eq!(second.len(), 1);
    assert_eq!(second[0].0, MSG_TYPE_ID);
    assert_eq!(second[0].1.len(), length as usize);
}

#[test]
fn read_n_respects_message_limit() {
    let mut buffer = ring(BUFFER_SZ);
    let src = AtomicBuffer::wrap(vec![1u8; 8]);
    assert_eq!(buffer.write(2, &src, 0, 8), Ok(true));
    assert_eq!(buffer.write(3, &src, 0, 8), Ok(true));

    let first = buffer.read_n(1).unwrap();
    assert_eq!(first.len(), 1);
    assert_eq!(first[0].0, 2);

    let second = buffer.read_n(5).unwrap();
    assert_eq!(second.len(), 1);
    assert_eq!(second[0].0, 3);
}

#[test]
fn consumer_heartbeat_reads_trailer_slot() {
    let mut buffer = ring(BUFFER_SZ);
    assert_eq!(buffer.consumer_heartbeat_time(), 0);
    buffer
        .put_i64(
            1024 + aeron_rs::ringbuffer::CONSUMER_HEARTBEAT_OFFSET,
            1234567,
        )
        .unwrap();
    assert_eq!(buffer.consumer_heartbeat_time(), 1234567);
}

#[test]
fn ring_buffer_write_basic() {
    let mut ring_buffer = ManyToOneRingBuffer::new(AtomicBuffer::wrap(vec![
        0u8;
        512 + TRAILER_LENGTH as usize
    ]))
    .expect("Invalid buffer size");

    let source_bytes = AtomicBuffer::wrap(vec![12u8, 0, 0, 0, 0, 0, 0, 0]);
    let source_len: IndexT = 8;
    let type_id = 1;
    ring_buffer
        .write(type_id, &source_bytes, 0, source_len)
        .unwrap();

    let record_len = source_len + HEADER_LENGTH;
    assert_eq!(
        ring_buffer.get_i64_volatile(0).unwrap(),
        make_header(record_len, type_id)
    );
    assert_eq!(ring_buffer.get_i64_volatile(8).unwrap(), 12);
}
