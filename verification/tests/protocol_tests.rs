use aeron_rs::atomic_buffer::AtomicBuffer;
use aeron_rs::cnc_descriptor::{MetaDataDefinition, CNC_VERSION, META_DATA_LENGTH};
use aeron_rs::control_protocol::{ClientCommand, DriverResponse};
use aeron_rs::correlated_message::CorrelatedMessageDefn;
use aeron_rs::flyweight::{Flyweight, FlyweightDefn};
use aeron_rs::ringbuffer::{ManyToOneRingBuffer, TRAILER_LENGTH};
use aeron_rs::driver_proxy::DriverProxy;
use aeron_rs::subscription_message::SubscriptionMessageDefn;
use aeron_rs::terminate_driver::TerminateDriverDefn;
use aeron_rs::util::AeronError;
use aeron_rs::sematic_version_compose;

#[test]
fn version_compose_cnc() {
    assert_eq!(sematic_version_compose(0, 0, 16), 16);
}

#[test]
fn client_command_convert() {
    assert_eq!(
        Some(ClientCommand::AddPublication),
        ClientCommand::from_code(0x01)
    )
}

#[test]
fn client_command_codes_roundtrip() {
    let commands = [
        ClientCommand::AddPublication,
        ClientCommand::RemovePublication,
        ClientCommand::AddExclusivePublication,
        ClientCommand::AddSubscription,
        ClientCommand::RemoveSubscription,
        ClientCommand::ClientKeepalive,
        ClientCommand::AddDestination,
        ClientCommand::RemoveDestination,
        ClientCommand::AddCounter,
        ClientCommand::RemoveCounter,
        ClientCommand::ClientClose,
        ClientCommand::AddRcvDestination,
        ClientCommand::RemoveRcvDestination,
        ClientCommand::TerminateDriver,
    ];
    for command in commands {
        assert_eq!(ClientCommand::from_code(command.code()), Some(command));
    }
    assert_eq!(ClientCommand::from_code(0x0F), None);
}

#[test]
fn driver_response_codes_roundtrip() {
    let responses = [
        DriverResponse::OnError,
        DriverResponse::OnAvailableImage,
        DriverResponse::OnPublicationReady,
        DriverResponse::OnOperationSuccess,
        DriverResponse::OnUnavailableImage,
        DriverResponse::OnExclusivePublicationReady,
        DriverResponse::OnSubscriptionReady,
        DriverResponse::OnCounterReady,
        DriverResponse::OnUnavailableCounter,
        DriverResponse::OnClientTimeout,
    ];
    for response in responses {
        assert_eq!(DriverResponse::from_code(response.code()), Some(response));
    }
    assert_eq!(DriverResponse::from_code(0x0F09), None);
}

#[test]
fn correlated_message_size() {
    assert_eq!(CorrelatedMessageDefn::size(), 16)
}

#[test]
fn terminate_command_size() {
    assert_eq!(TerminateDriverDefn::size(), 20)
}

#[test]
fn subscription_flyweight_field_roundtrip() {
    let buffer = AtomicBuffer::wrap(vec![0u8; 512]);
    let mut message: Flyweight<SubscriptionMessageDefn> = Flyweight::new(buffer, 0).unwrap();
    message.put_client_id(0x0102030405060708);
    message.put_correlation_id(42);
    message.put_registration_correlation_id(-1);
    message.put_stream_id(77);
    message.put_channel(b"aeron:udp?endpoint=localhost:40123").unwrap();

    assert_eq!(message.client_id(), 0x0102030405060708);
    assert_eq!(message.correlation_id(), 42);
    assert_eq!(message.registration_correlation_id(), -1);
    assert_eq!(message.stream_id(), 77);
    assert_eq!(
        message.channel().unwrap(),
        b"aeron:udp?endpoint=localhost:40123".to_vec()
    );
    assert_eq!(message.length(), 32 + 34);
}

#[test]
fn terminate_flyweight_token_roundtrip() {
    let buffer = AtomicBuffer::wrap(vec![0u8; 512]);
    let mut request: Flyweight<TerminateDriverDefn> = Flyweight::new(buffer, 0).unwrap();
    request.put_client_id(9);
    request.put_correlation_id(-1);
    request.put_token_buffer(&[0xde, 0xad, 0xbe, 0xef]).unwrap();

    assert_eq!(request.client_id(), 9);
    assert_eq!(request.correlation_id(), -1);
    assert_eq!(request.token_length(), 4);
    assert_eq!(request.token_buffer().unwrap(), vec![0xde, 0xad, 0xbe, 0xef]);
    assert_eq!(request.length(), 24);
}

#[test]
fn flyweight_rejects_short_buffer() {
    let buffer = AtomicBuffer::wrap(vec![0u8; 8]);
    let message: Result<Flyweight<SubscriptionMessageDefn>, AeronError> =
        Flyweight::new(buffer, 0);
    assert!(message.is_err());
}

#[test]
fn metadata_parses_little_endian_fields() {
    let mut bytes = vec![0u8; META_DATA_LENGTH];
    bytes[0] = 16; // version 0.0.16
    bytes[4] = 0; // to-driver length 1 MiB + trailer
    bytes[5] = 0;
    bytes[6] = 16;
    bytes[8] = 0x80; // to-clients length
    bytes[9] = 0x0C;
    bytes[24] = 0xFF; // liveness timeout low byte
    let metadata = MetaDataDefinition::read_from(&bytes).unwrap();
    assert_eq!(metadata.cnc_version, CNC_VERSION);
    assert_eq!(metadata.to_driver_buffer_length, 16 << 16);
    assert_eq!(metadata.to_client_buffer_length, 0x0C80);
    assert_eq!(metadata.client_liveness_timeout, 0xFF);
    assert_eq!(metadata.pid, 0);
}

#[test]
fn metadata_rejects_short_region() {
    let bytes = vec![0u8; 40];
    assert_eq!(
        MetaDataDefinition::read_from(&bytes),
        Err(AeronError::IllegalArgument)
    );
}

fn fresh_proxy(capacity: usize) -> DriverProxy {
    let ring = ManyToOneRingBuffer::new(AtomicBuffer::wrap(vec![
        0u8;
        capacity + TRAILER_LENGTH as usize
    ]))
    .unwrap();
    DriverProxy::new(ring)
}

#[test]
fn proxy_allocates_client_id_from_correlation_counter() {
    let proxy = fresh_proxy(1024);
    assert_eq!(proxy.client_id(), 0);
    assert_eq!(proxy.time_of_last_driver_keepalive(), 0);
}

#[test]
fn proxy_add_subscription_encodes_command_record() {
    let mut proxy = fresh_proxy(1024);
    let correlation_id = proxy.add_subscription(b"aeron:ipc", 11).unwrap();
    assert_eq!(correlation_id, 1);
}

#[test]
fn proxy_rejects_oversize_channel() {
    let mut proxy = fresh_proxy(1024);
    let channel = vec![b'x'; 512];
    assert_eq!(
        proxy.add_subscription(&channel, 1),
        Err(AeronError::InsufficientCapacity)
    );
}

#[test]
fn proxy_surfaces_full_ring_as_illegal_state() {
    let ring = ManyToOneRingBuffer::new(AtomicBuffer::wrap(vec![
        0u8;
        1024 + TRAILER_LENGTH as usize
    ]))
    .unwrap();
    let mut proxy = DriverProxy::new(ring);
    // Fill the ring completely so every write is rejected for capacity.
    let mut accepted = 0;
    loop {
        match proxy.add_subscription(b"aeron:ipc", 1) {
            Ok(_) => accepted += 1,
            Err(e) => {
                assert_eq!(e, AeronError::IllegalState);
                break;
            },
        }
        assert!(accepted < 100);
    }
}

#[test]
fn proxy_terminate_driver_writes_token() {
    let mut proxy = fresh_proxy(1024);
    assert_eq!(proxy.terminate_driver(Some(&[1, 2, 3])), Ok(()));
    assert_eq!(proxy.terminate_driver(None), Ok(()));
}
