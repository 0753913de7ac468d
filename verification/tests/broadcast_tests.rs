use aeron_rs::atomic_buffer::AtomicBuffer;
use aeron_rs::broadcast::{
    length_offset, msg_offset, type_offset, BroadcastReceiver, CopyBroadcastReceiver,
    HEADER_LENGTH, LATEST_COUNTER_OFFSET, RECORD_ALIGNMENT, TAIL_COUNTER_OFFSET,
    TAIL_INTENT_COUNTER_OFFSET, TRAILER_LENGTH,
};
use aeron_rs::util::{align, AeronError, IndexT};

const CAPACITY: usize = 1024;
const TOTAL_BUFFER_LENGTH: usize = CAPACITY + TRAILER_LENGTH as usize;
const MSG_TYPE_ID: i32 = 7;
const TAIL_INTENT_COUNTER_INDEX: i32 = CAPACITY as i32 + TAIL_INTENT_COUNTER_OFFSET;
const TAIL_COUNTER_INDEX: i32 = CAPACITY as i32 + TAIL_COUNTER_OFFSET;
const LATEST_COUNTER_INDEX: i32 = CAPACITY as i32 + LATEST_COUNTER_OFFSET;

#[test]
fn broadcast_receiver_should_calculate_capacity_for_buffer() {
    let buffer = BroadcastReceiver::new(AtomicBuffer::wrap(vec![0u8; TOTAL_BUFFER_LENGTH]))
        .unwrap();
    assert_eq!(buffer.capacity(), CAPACITY as IndexT);
}

#[test]
fn should_throw_exception_for_capacity_that_is_not_power_of_two() {
    let bytes = vec![0u8; 777 + TRAILER_LENGTH as usize];
    assert!(BroadcastReceiver::new(AtomicBuffer::wrap(bytes)).is_err());
}

#[test]
fn should_not_be_lapped_before_reception() {
    let receiver = BroadcastReceiver::new(AtomicBuffer::wrap(vec![0u8; TOTAL_BUFFER_LENGTH]))
        .unwrap();
    assert_eq!(receiver.lapped_count(), 0);
}

#[test]
fn should_not_receive_from_empty_buffer() {
    let mut receiver = BroadcastReceiver::new(AtomicBuffer::wrap(vec![0u8; TOTAL_BUFFER_LENGTH]))
        .unwrap();
    assert_eq!(receiver.receive_next(), Ok(false));
}

#[test]
fn should_receive_first_message_from_buffer() {
    let length: i32 = 8;
    let record_length: i32 = length + HEADER_LENGTH;
    let aligned_record_length: i32 =
        align(record_length as usize, RECORD_ALIGNMENT as usize) as i32;
    let tail = aligned_record_length as i64;
    let latest_record = tail - aligned_record_length as i64;
    let record_offset = latest_record as i32;

    let mut buffer = AtomicBuffer::wrap(vec![0u8; TOTAL_BUFFER_LENGTH]);
    buffer.put_i64(TAIL_COUNTER_INDEX, tail).unwrap();
    buffer.put_i64(TAIL_INTENT_COUNTER_INDEX, tail).unwrap();
    buffer
        .put_i32(length_offset(record_offset), record_length)
        .unwrap();
    buffer
        .put_i32(type_offset(record_offset), MSG_TYPE_ID)
        .unwrap();

    let mut receiver = BroadcastReceiver::new(buffer).unwrap();
    assert_eq!(receiver.receive_next(), Ok(true));
    assert_eq!(receiver.msg_type_id(), Ok(MSG_TYPE_ID));
    assert_eq!(receiver.offset(), msg_offset(record_offset));
    assert_eq!(receiver.length(), Ok(length));
    assert!(receiver.validate());
}

#[test]
fn should_receive_two_messages_from_buffer() {
    let length: i32 = 8;
    let record_length: i32 = length + HEADER_LENGTH;
    let aligned_record_length: i32 =
        align(record_length as usize, RECORD_ALIGNMENT as usize) as i32;
    let tail = (aligned_record_length * 2) as i64;
    let latest_record = tail - aligned_record_length as i64;
    let record_offset_one = 0;
    let record_offset_two = latest_record as i32;

    let mut buffer = AtomicBuffer::wrap(vec![0u8; TOTAL_BUFFER_LENGTH]);
    buffer.put_i64(TAIL_COUNTER_INDEX, tail).unwrap();
    buffer.put_i64(TAIL_INTENT_COUNTER_INDEX, tail).unwrap();

    buffer
        .put_i32(length_offset(record_offset_one), record_length)
        .unwrap();
    buffer
        .put_i32(type_offset(record_offset_one), MSG_TYPE_ID)
        .unwrap();

    buffer
        .put_i32(length_offset(record_offset_two), record_length)
        .unwrap();
    buffer
        .put_i32(type_offset(record_offset_two), MSG_TYPE_ID)
        .unwrap();

    let mut receiver = BroadcastReceiver::new(buffer).unwrap();
    assert_eq!(receiver.receive_next(), Ok(true));
    assert_eq!(receiver.msg_type_id(), Ok(MSG_TYPE_ID));
    assert_eq!(receiver.offset(), msg_offset(record_offset_one));
    assert_eq!(receiver.length(), Ok(length));
    assert!(receiver.validate());

    assert_eq!(receiver.receive_next(), Ok(true));
    assert_eq!(receiver.msg_type_id(), Ok(MSG_TYPE_ID));
    assert_eq!(receiver.offset(), msg_offset(record_offset_two));
    assert_eq!(receiver.length(), Ok(length));
    assert!(receiver.validate());
}

#[test]
fn should_late_join_transmission() {
    let length: i32 = 8;
    let record_length: i32 = length + HEADER_LENGTH;
    let aligned_record_length: i32 =
        align(record_length as usize, RECORD_ALIGNMENT as usize) as i32;
    let tail =
        (CAPACITY * 3) as i64 + HEADER_LENGTH as i64 + aligned_record_length as i64;
    let latest_record = tail - aligned_record_length as i64;
    let record_offset = latest_record as i32 & (CAPACITY - 1) as i32;

    // The receiver is constructed while the buffer is empty; the producer
    // then overruns it by several laps before it polls again.
    let mut receiver = BroadcastReceiver::new(AtomicBuffer::wrap(vec![0u8; TOTAL_BUFFER_LENGTH]))
        .unwrap();

    receiver.put_i64(TAIL_COUNTER_INDEX, tail).unwrap();
    receiver.put_i64(TAIL_INTENT_COUNTER_INDEX, tail).unwrap();
    receiver.put_i64(LATEST_COUNTER_INDEX, latest_record).unwrap();

    receiver
        .put_i32(length_offset(record_offset), record_length)
        .unwrap();
    receiver
        .put_i32(type_offset(record_offset), MSG_TYPE_ID)
        .unwrap();

    assert_eq!(receiver.receive_next(), Ok(true));
    assert_eq!(receiver.msg_type_id(), Ok(MSG_TYPE_ID));
    assert_eq!(receiver.offset(), msg_offset(record_offset));
    assert_eq!(receiver.length(), Ok(length));
    assert!(receiver.validate());
    assert!(receiver.lapped_count() > 0);
}

#[test]
fn copy_receiver_returns_stable_message() {
    let length: i32 = 8;
    let record_length: i32 = length + HEADER_LENGTH;
    let tail = align(record_length as usize, RECORD_ALIGNMENT as usize) as i64;

    let mut buffer = AtomicBuffer::wrap(vec![0u8; TOTAL_BUFFER_LENGTH]);
    buffer.put_i64(TAIL_COUNTER_INDEX, tail).unwrap();
    buffer.put_i64(TAIL_INTENT_COUNTER_INDEX, tail).unwrap();
    buffer.put_i32(length_offset(0), record_length).unwrap();
    buffer.put_i32(type_offset(0), MSG_TYPE_ID).unwrap();
    for k in 0..length {
        let payload_index = (HEADER_LENGTH + k) as usize;
        let mut bytes = buffer.into_vec();
        bytes[payload_index] = (k + 1) as u8;
        buffer = AtomicBuffer::wrap(bytes);
    }

    let receiver = BroadcastReceiver::new(buffer).unwrap();
    let mut copy_receiver = CopyBroadcastReceiver::new(receiver);
    let received = copy_receiver.receive().unwrap();
    assert_eq!(received, Some((MSG_TYPE_ID, vec![1, 2, 3, 4, 5, 6, 7, 8])));

    // Nothing further is published.
    assert_eq!(copy_receiver.receive(), Ok(None));
}

#[test]
fn copy_receiver_reports_lap_as_illegal_state() {
    // Construct a receiver on an empty buffer, then overrun it so far that
    // its very first poll observes a lap.
    let tail = (CAPACITY * 3) as i64;
    let latest_record = tail - 16;
    let record_offset = latest_record as i32 & (CAPACITY - 1) as i32;

    let mut receiver = BroadcastReceiver::new(AtomicBuffer::wrap(vec![0u8; TOTAL_BUFFER_LENGTH]))
        .unwrap();
    receiver.put_i64(TAIL_COUNTER_INDEX, tail).unwrap();
    receiver.put_i64(TAIL_INTENT_COUNTER_INDEX, tail).unwrap();
    receiver.put_i64(LATEST_COUNTER_INDEX, latest_record).unwrap();
    receiver.put_i32(length_offset(record_offset), 16).unwrap();
    receiver
        .put_i32(type_offset(record_offset), MSG_TYPE_ID)
        .unwrap();

    let mut copy_receiver = CopyBroadcastReceiver::new(receiver);
    assert_eq!(copy_receiver.receive(), Err(AeronError::IllegalState));
}
