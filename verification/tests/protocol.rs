use rustadmin_transport::transport::protocol::{
    decode_message, encode_message, ChannelId, MessageHeader, MessageType, ProtocolError,
    SessionId, FLAG_ACK_REQUIRED, HEADER_LEN,
};

fn session_id() -> SessionId {
    [7; 16]
}

fn ping(payload_len: usize) -> (MessageHeader, Vec<u8>) {
    let payload = vec![3; payload_len];
    let header = MessageHeader::new(
        MessageType::Ping,
        FLAG_ACK_REQUIRED,
        session_id(),
        9,
        payload.len(),
        123,
    )
    .unwrap();
    (header, payload)
}

#[test]
fn protocol_header_is_fixed_width_and_round_trips() {
    let (header, payload) = ping(8);
    let encoded = encode_message(&header, &payload).unwrap();
    assert_eq!(encoded.len(), HEADER_LEN + payload.len());

    let parsed = decode_message(&encoded).unwrap();
    assert_eq!(parsed.header, header);
    assert_eq!(parsed.payload, payload.as_slice());
}

#[test]
fn rejects_version_flags_channel_and_reserved_byte() {
    let (header, payload) = ping(8);
    let encoded = encode_message(&header, &payload).unwrap();

    let mut invalid = encoded.clone();
    invalid[5] = 2;
    assert_eq!(
        decode_message(&invalid),
        Err(ProtocolError::UnsupportedVersion(2))
    );

    let mut invalid = encoded.clone();
    invalid[8] = 0x80;
    assert_eq!(
        decode_message(&invalid),
        Err(ProtocolError::UnknownFlags(0x8000))
    );

    let mut invalid = encoded.clone();
    invalid[10] = ChannelId::Diagnostics.code();
    assert_eq!(
        decode_message(&invalid),
        Err(ProtocolError::ChannelMismatch {
            message_type: MessageType::Ping,
            channel: ChannelId::Diagnostics,
        })
    );

    let mut invalid = encoded;
    invalid[11] = 1;
    assert_eq!(decode_message(&invalid), Err(ProtocolError::ReservedByte));
}

#[test]
fn rejects_zero_session_zero_sequence_and_length_mismatch() {
    assert_eq!(
        MessageHeader::new(MessageType::Ping, 0, [0; 16], 1, 0, 0),
        Err(ProtocolError::ZeroSessionId)
    );
    assert_eq!(
        MessageHeader::new(MessageType::Ping, 0, session_id(), 0, 0, 0),
        Err(ProtocolError::ZeroSequence)
    );

    let (header, payload) = ping(8);
    let mut encoded = encode_message(&header, &payload).unwrap();
    encoded.push(0);
    assert_eq!(decode_message(&encoded), Err(ProtocolError::LengthMismatch));
}

#[test]
fn enforces_per_message_payload_limits_before_allocation() {
    assert_eq!(
        MessageHeader::new(MessageType::Ping, 0, session_id(), 1, 65, 0),
        Err(ProtocolError::PayloadTooLarge(65))
    );

    let (mut header, payload) = ping(8);
    header.payload_length = 65;
    assert_eq!(
        encode_message(&header, &payload),
        Err(ProtocolError::LengthMismatch)
    );
}
