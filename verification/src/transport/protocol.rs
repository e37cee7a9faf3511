//! The fixed-width message header that frames every packet.
use crate::wire;
use vstd::prelude::*;

verus! {

pub const MAGIC: u32 = 0x5241_5131;

pub const PROTOCOL_VERSION: u16 = 1;

pub const HEADER_LEN: usize = 48;

pub const FLAG_ACK_REQUIRED: u16 = 1;

pub const FLAG_RESPONSE: u16 = 2;

pub const KNOWN_FLAGS: u16 = 3;

pub type SessionId = [u8; 16];

#[derive(Clone, Copy, Debug, Eq, PartialEq, Structural)]
pub enum ChannelId {
    Control,
    ReliableInput,
    Clipboard,
    FileTransfer,
    Diagnostics,
    ReliableVideo,
    VideoDatagram,
    AudioDatagram,
    MouseDatagram,
}

impl ChannelId {
    /// The byte that stands for the channel on the wire.
    pub open spec fn code_spec(self) -> u8 {
        match self {
            ChannelId::Control => 1,
            ChannelId::ReliableInput => 2,
            ChannelId::Clipboard => 3,
            ChannelId::FileTransfer => 4,
            ChannelId::Diagnostics => 5,
            ChannelId::ReliableVideo => 6,
            ChannelId::VideoDatagram => 16,
            ChannelId::AudioDatagram => 17,
            ChannelId::MouseDatagram => 18,
        }
    }

    /// The byte that stands for the channel on the wire.
    #[verifier::when_used_as_spec(code_spec)]
    pub fn code(self) -> (code: u8)
        ensures
            code == self.code_spec(),
    {
        match self {
            ChannelId::Control => 1,
            ChannelId::ReliableInput => 2,
            ChannelId::Clipboard => 3,
            ChannelId::FileTransfer => 4,
            ChannelId::Diagnostics => 5,
            ChannelId::ReliableVideo => 6,
            ChannelId::VideoDatagram => 16,
            ChannelId::AudioDatagram => 17,
            ChannelId::MouseDatagram => 18,
        }
    }
}

/// The channel that a byte stands for.
pub open spec fn channel_of(value: u8) -> Result<ChannelId, ProtocolError> {
    match value {
        1 => Ok(ChannelId::Control),
        2 => Ok(ChannelId::ReliableInput),
        3 => Ok(ChannelId::Clipboard),
        4 => Ok(ChannelId::FileTransfer),
        5 => Ok(ChannelId::Diagnostics),
        6 => Ok(ChannelId::ReliableVideo),
        16 => Ok(ChannelId::VideoDatagram),
        17 => Ok(ChannelId::AudioDatagram),
        18 => Ok(ChannelId::MouseDatagram),
        _ => Err(ProtocolError::UnknownChannel(value)),
    }
}

impl vstd::std_specs::convert::TryFromSpecImpl<u8> for ChannelId {
    open spec fn obeys_try_from_spec() -> bool {
        true
    }

    open spec fn try_from_spec(value: u8) -> Result<Self, ProtocolError> {
        channel_of(value)
    }
}

impl TryFrom<u8> for ChannelId {
    type Error = ProtocolError;

    fn try_from(value: u8) -> (result: Result<Self, ProtocolError>) {
        match value {
            1 => Ok(ChannelId::Control),
            2 => Ok(ChannelId::ReliableInput),
            3 => Ok(ChannelId::Clipboard),
            4 => Ok(ChannelId::FileTransfer),
            5 => Ok(ChannelId::Diagnostics),
            6 => Ok(ChannelId::ReliableVideo),
            16 => Ok(ChannelId::VideoDatagram),
            17 => Ok(ChannelId::AudioDatagram),
            18 => Ok(ChannelId::MouseDatagram),
            _ => Err(ProtocolError::UnknownChannel(value)),
        }
    }
}

#[derive(Clone, Copy, Debug, Eq, PartialEq, Structural)]
pub enum ProtocolError {
    HeaderTruncated,
    InvalidMagic(u32),
    UnsupportedVersion(u16),
    UnknownMessageType(u16),
    UnknownChannel(u8),
    UnknownFlags(u16),
    ReservedByte,
    ChannelMismatch { message_type: MessageType, channel: ChannelId },
    ZeroSessionId,
    ZeroSequence,
    PayloadTooLarge(usize),
    LengthMismatch,
}

#[derive(Clone, Copy, Debug, Eq, PartialEq, Structural)]
pub enum MessageType {
    ClientHello,
    ServerHello,
    Ping,
    Pong,
    Error,
    KeyframeRequest,
    SessionClose,
    SessionOffer,
    SessionAccept,
    ApplicationControl,
    ApplicationRaw,
    VideoOrdering,
    VideoOrderingAck,
    ReliableInput,
    Clipboard,
    FileMetadata,
    FileChunk,
    FileCancel,
    Diagnostics,
    VideoFragment,
    AudioPacket,
    MouseMovement,
}

impl MessageType {
    /// The number that stands for the message type on the wire.
    pub open spec fn code_spec(self) -> u16 {
        match self {
            MessageType::ClientHello => 1,
            MessageType::ServerHello => 2,
            MessageType::Ping => 3,
            MessageType::Pong => 4,
            MessageType::Error => 5,
            MessageType::KeyframeRequest => 6,
            MessageType::SessionClose => 7,
            MessageType::SessionOffer => 8,
            MessageType::SessionAccept => 9,
            MessageType::ApplicationControl => 10,
            MessageType::ApplicationRaw => 11,
            MessageType::VideoOrdering => 12,
            MessageType::VideoOrderingAck => 13,
            MessageType::ReliableInput => 16,
            MessageType::Clipboard => 32,
            MessageType::FileMetadata => 48,
            MessageType::FileChunk => 49,
            MessageType::FileCancel => 50,
            MessageType::Diagnostics => 64,
            MessageType::VideoFragment => 128,
            MessageType::AudioPacket => 129,
            MessageType::MouseMovement => 130,
        }
    }

    /// The number that stands for the message type on the wire.
    #[verifier::when_used_as_spec(code_spec)]
    pub fn code(self) -> (code: u16)
        ensures
            code == self.code_spec(),
    {
        match self {
            MessageType::ClientHello => 1,
            MessageType::ServerHello => 2,
            MessageType::Ping => 3,
            MessageType::Pong => 4,
            MessageType::Error => 5,
            MessageType::KeyframeRequest => 6,
            MessageType::SessionClose => 7,
            MessageType::SessionOffer => 8,
            MessageType::SessionAccept => 9,
            MessageType::ApplicationControl => 10,
            MessageType::ApplicationRaw => 11,
            MessageType::VideoOrdering => 12,
            MessageType::VideoOrderingAck => 13,
            MessageType::ReliableInput => 16,
            MessageType::Clipboard => 32,
            MessageType::FileMetadata => 48,
            MessageType::FileChunk => 49,
            MessageType::FileCancel => 50,
            MessageType::Diagnostics => 64,
            MessageType::VideoFragment => 128,
            MessageType::AudioPacket => 129,
            MessageType::MouseMovement => 130,
        }
    }

    /// The one channel that carries messages of this type.
    pub open spec fn channel_spec(self) -> ChannelId {
        match self {
            MessageType::ClientHello
            | MessageType::ServerHello
            | MessageType::Ping
            | MessageType::Pong
            | MessageType::Error
            | MessageType::KeyframeRequest
            | MessageType::SessionClose
            | MessageType::SessionOffer
            | MessageType::SessionAccept
            | MessageType::ApplicationControl
            | MessageType::ApplicationRaw
            | MessageType::VideoOrdering
            | MessageType::VideoOrderingAck => ChannelId::Control,
            MessageType::ReliableInput => ChannelId::ReliableInput,
            MessageType::Clipboard => ChannelId::Clipboard,
            MessageType::FileMetadata
            | MessageType::FileChunk
            | MessageType::FileCancel => ChannelId::FileTransfer,
            MessageType::Diagnostics => ChannelId::Diagnostics,
            MessageType::VideoFragment => ChannelId::VideoDatagram,
            MessageType::AudioPacket => ChannelId::AudioDatagram,
            MessageType::MouseMovement => ChannelId::MouseDatagram,
        }
    }

    /// The one channel that carries messages of this type.
    #[verifier::when_used_as_spec(channel_spec)]
    pub fn channel(self) -> (channel: ChannelId)
        ensures
            channel == self.channel_spec(),
    {
        match self {
            MessageType::ClientHello
            | MessageType::ServerHello
            | MessageType::Ping
            | MessageType::Pong
            | MessageType::Error
            | MessageType::KeyframeRequest
            | MessageType::SessionClose
            | MessageType::SessionOffer
            | MessageType::SessionAccept
            | MessageType::ApplicationControl
            | MessageType::ApplicationRaw
            | MessageType::VideoOrdering
            | MessageType::VideoOrderingAck => ChannelId::Control,
            MessageType::ReliableInput => ChannelId::ReliableInput,
            MessageType::Clipboard => ChannelId::Clipboard,
            MessageType::FileMetadata
            | MessageType::FileChunk
            | MessageType::FileCancel => ChannelId::FileTransfer,
            MessageType::Diagnostics => ChannelId::Diagnostics,
            MessageType::VideoFragment => ChannelId::VideoDatagram,
            MessageType::AudioPacket => ChannelId::AudioDatagram,
            MessageType::MouseMovement => ChannelId::MouseDatagram,
        }
    }

    /// The longest payload, in bytes, that a message of this type may carry.
    pub open spec fn max_payload_len_spec(self) -> usize {
        match self {
            MessageType::ClientHello | MessageType::ServerHello => 512,
            MessageType::Ping | MessageType::Pong => 64,
            MessageType::Error | MessageType::SessionClose => 0x4000,
            MessageType::SessionOffer | MessageType::SessionAccept => 0x1000,
            MessageType::ApplicationControl | MessageType::ApplicationRaw => 0x200_0000,
            MessageType::VideoOrdering => 0x10_0000,
            MessageType::VideoOrderingAck => 8,
            MessageType::KeyframeRequest => 64,
            MessageType::ReliableInput => 0x1000,
            MessageType::Clipboard => 0x100_0000,
            MessageType::FileMetadata => 0x1_0000,
            MessageType::FileChunk => 0x10_0000,
            MessageType::FileCancel => 0x1000,
            MessageType::Diagnostics => 0x1_0000,
            MessageType::VideoFragment
            | MessageType::AudioPacket
            | MessageType::MouseMovement => 0x1_0000,
        }
    }

    /// The longest payload, in bytes, that a message of this type may carry.
    #[verifier::when_used_as_spec(max_payload_len_spec)]
    pub fn max_payload_len(self) -> (limit: usize)
        ensures
            limit == self.max_payload_len_spec(),
    {
        match self {
            MessageType::ClientHello | MessageType::ServerHello => 512,
            MessageType::Ping | MessageType::Pong => 64,
            MessageType::Error | MessageType::SessionClose => 16 * 1024,
            MessageType::SessionOffer | MessageType::SessionAccept => 4 * 1024,
            MessageType::ApplicationControl | MessageType::ApplicationRaw => 32 * 1024 * 1024,
            MessageType::VideoOrdering => 1024 * 1024,
            MessageType::VideoOrderingAck => 8,
            MessageType::KeyframeRequest => 64,
            MessageType::ReliableInput => 4 * 1024,
            MessageType::Clipboard => 16 * 1024 * 1024,
            MessageType::FileMetadata => 64 * 1024,
            MessageType::FileChunk => 1024 * 1024,
            MessageType::FileCancel => 4 * 1024,
            MessageType::Diagnostics => 64 * 1024,
            MessageType::VideoFragment
            | MessageType::AudioPacket
            | MessageType::MouseMovement => 64 * 1024,
        }
    }
}

/// The message type that a number stands for.
pub open spec fn message_type_of(value: u16) -> Result<MessageType, ProtocolError> {
    match value {
        1 => Ok(MessageType::ClientHello),
        2 => Ok(MessageType::ServerHello),
        3 => Ok(MessageType::Ping),
        4 => Ok(MessageType::Pong),
        5 => Ok(MessageType::Error),
        6 => Ok(MessageType::KeyframeRequest),
        7 => Ok(MessageType::SessionClose),
        8 => Ok(MessageType::SessionOffer),
        9 => Ok(MessageType::SessionAccept),
        10 => Ok(MessageType::ApplicationControl),
        11 => Ok(MessageType::ApplicationRaw),
        12 => Ok(MessageType::VideoOrdering),
        13 => Ok(MessageType::VideoOrderingAck),
        16 => Ok(MessageType::ReliableInput),
        32 => Ok(MessageType::Clipboard),
        48 => Ok(MessageType::FileMetadata),
        49 => Ok(MessageType::FileChunk),
        50 => Ok(MessageType::FileCancel),
        64 => Ok(MessageType::Diagnostics),
        128 => Ok(MessageType::VideoFragment),
        129 => Ok(MessageType::AudioPacket),
        130 => Ok(MessageType::MouseMovement),
        _ => Err(ProtocolError::UnknownMessageType(value)),
    }
}

impl vstd::std_specs::convert::TryFromSpecImpl<u16> for MessageType {
    open spec fn obeys_try_from_spec() -> bool {
        true
    }

    open spec fn try_from_spec(value: u16) -> Result<Self, ProtocolError> {
        message_type_of(value)
    }
}

impl TryFrom<u16> for MessageType {
    type Error = ProtocolError;

    fn try_from(value: u16) -> (result: Result<Self, ProtocolError>) {
        match value {
            1 => Ok(MessageType::ClientHello),
            2 => Ok(MessageType::ServerHello),
            3 => Ok(MessageType::Ping),
            4 => Ok(MessageType::Pong),
            5 => Ok(MessageType::Error),
            6 => Ok(MessageType::KeyframeRequest),
            7 => Ok(MessageType::SessionClose),
            8 => Ok(MessageType::SessionOffer),
            9 => Ok(MessageType::SessionAccept),
            10 => Ok(MessageType::ApplicationControl),
            11 => Ok(MessageType::ApplicationRaw),
            12 => Ok(MessageType::VideoOrdering),
            13 => Ok(MessageType::VideoOrderingAck),
            16 => Ok(MessageType::ReliableInput),
            32 => Ok(MessageType::Clipboard),
            48 => Ok(MessageType::FileMetadata),
            49 => Ok(MessageType::FileChunk),
            50 => Ok(MessageType::FileCancel),
            64 => Ok(MessageType::Diagnostics),
            128 => Ok(MessageType::VideoFragment),
            129 => Ok(MessageType::AudioPacket),
            130 => Ok(MessageType::MouseMovement),
            _ => Err(ProtocolError::UnknownMessageType(value)),
        }
    }
}

#[derive(Clone, Copy, Debug, Eq, PartialEq)]
pub struct MessageHeader {
    pub message_type: MessageType,
    pub flags: u16,
    pub channel: ChannelId,
    pub session_id: SessionId,
    pub sequence_number: u64,
    pub payload_length: u32,
    pub monotonic_timestamp_us: u64,
}

/// A packet that was split into its header and its payload.
#[derive(Debug, Eq, PartialEq)]
pub struct ParsedMessage<'a> {
    pub header: MessageHeader,
    pub payload: &'a [u8],
}

/// The first rule that header fields break, if any.
pub open spec fn field_error(
    message_type: MessageType,
    flags: u16,
    channel: ChannelId,
    session_id: Seq<u8>,
    sequence_number: u64,
    payload_length: usize,
) -> Option<ProtocolError> {
    if flags & !KNOWN_FLAGS != 0 {
        Some(ProtocolError::UnknownFlags(flags & !KNOWN_FLAGS))
    } else if channel != message_type.channel() {
        Some(ProtocolError::ChannelMismatch { message_type, channel })
    } else if wire::all_zero(session_id) {
        Some(ProtocolError::ZeroSessionId)
    } else if sequence_number == 0 {
        Some(ProtocolError::ZeroSequence)
    } else if payload_length > message_type.max_payload_len() {
        Some(ProtocolError::PayloadTooLarge(payload_length))
    } else {
        None
    }
}

/// The forty-eight bytes of a header.
pub open spec fn header_bytes(header: MessageHeader) -> Seq<u8> {
    wire::be32(MAGIC) + wire::be16(PROTOCOL_VERSION) + wire::be16(header.message_type.code())
        + wire::be16(header.flags) + seq![header.channel.code(), 0u8] + header.session_id@
        + wire::be64(header.sequence_number) + wire::be32(header.payload_length) + wire::be64(
        header.monotonic_timestamp_us,
    )
}

/// The first reason, if any, why `packet` is no header.
pub open spec fn header_error(packet: Seq<u8>) -> Option<ProtocolError> {
    if packet.len() != HEADER_LEN {
        Some(ProtocolError::HeaderTruncated)
    } else if wire::u32_at(packet, 0) != MAGIC {
        Some(ProtocolError::InvalidMagic(wire::u32_at(packet, 0)))
    } else if wire::u16_at(packet, 4) != PROTOCOL_VERSION {
        Some(ProtocolError::UnsupportedVersion(wire::u16_at(packet, 4)))
    } else {
        match (message_type_of(wire::u16_at(packet, 6)), channel_of(packet[10])) {
            (Err(error), _) => Some(error),
            (Ok(_), Err(error)) => Some(error),
            (Ok(message_type), Ok(channel)) => if packet[11] != 0 {
                Some(ProtocolError::ReservedByte)
            } else {
                field_error(
                    message_type,
                    wire::u16_at(packet, 8),
                    channel,
                    packet.subrange(12, 28),
                    wire::u64_at(packet, 28),
                    wire::u32_at(packet, 36) as usize,
                )
            },
        }
    }
}

/// The first reason, if any, why `packet` is no message.
pub open spec fn message_error(packet: Seq<u8>) -> Option<ProtocolError> {
    if packet.len() < HEADER_LEN {
        Some(ProtocolError::HeaderTruncated)
    } else {
        match header_error(packet.subrange(0, HEADER_LEN as int)) {
            Some(error) => Some(error),
            None => if packet.len() != HEADER_LEN + wire::u32_at(packet, 36) {
                Some(ProtocolError::LengthMismatch)
            } else {
                None
            },
        }
    }
}

impl MessageHeader {
    /// The first rule that the header breaks, if any.
    pub open spec fn error(self) -> Option<ProtocolError> {
        field_error(
            self.message_type,
            self.flags,
            self.channel,
            self.session_id@,
            self.sequence_number,
            self.payload_length as usize,
        )
    }

    /// A header for a payload of `payload_length` bytes, on the channel of its type.
    pub fn new(
        message_type: MessageType,
        flags: u16,
        session_id: SessionId,
        sequence_number: u64,
        payload_length: usize,
        monotonic_timestamp_us: u64,
    ) -> (result: Result<MessageHeader, ProtocolError>)
        ensures
            match field_error(
                message_type,
                flags,
                message_type.channel(),
                session_id@,
                sequence_number,
                payload_length,
            ) {
                Some(error) => result == Err::<MessageHeader, _>(error),
                None => result == Ok::<_, ProtocolError>(
                    (MessageHeader {
                        message_type,
                        flags,
                        channel: message_type.channel(),
                        session_id,
                        sequence_number,
                        payload_length: payload_length as u32,
                        monotonic_timestamp_us,
                    }),
                ) && payload_length <= u32::MAX,
            },
    {
        validate_fields(
            message_type,
            flags,
            message_type.channel(),
            &session_id,
            sequence_number,
            payload_length,
        )?;
        Ok(
            MessageHeader {
                message_type,
                flags,
                channel: message_type.channel(),
                session_id,
                sequence_number,
                payload_length: payload_length as u32,
                monotonic_timestamp_us,
            },
        )
    }
}

fn validate_fields(
    message_type: MessageType,
    flags: u16,
    channel: ChannelId,
    session_id: &SessionId,
    sequence_number: u64,
    payload_length: usize,
) -> (result: Result<(), ProtocolError>)
    ensures
        match field_error(
            message_type,
            flags,
            channel,
            session_id@,
            sequence_number,
            payload_length,
        ) {
            Some(error) => result == Err::<(), _>(error),
            None => result == Ok::<_, ProtocolError>(()),
        },
{
    if flags & !KNOWN_FLAGS != 0 {
        return Err(ProtocolError::UnknownFlags(flags & !KNOWN_FLAGS));
    }
    if channel != message_type.channel() {
        return Err(ProtocolError::ChannelMismatch { message_type, channel });
    }
    if wire::is_all_zero(session_id) {
        return Err(ProtocolError::ZeroSessionId);
    }
    if sequence_number == 0 {
        return Err(ProtocolError::ZeroSequence);
    }
    if payload_length > message_type.max_payload_len() {
        return Err(ProtocolError::PayloadTooLarge(payload_length));
    }
    Ok(())
}

/// The header's bytes, then the payload, if the header is valid for the payload.
pub fn encode_message(header: &MessageHeader, payload: &[u8]) -> (result: Result<
    Vec<u8>,
    ProtocolError,
>)
    ensures
        match field_error(
            header.message_type,
            header.flags,
            header.channel,
            header.session_id@,
            header.sequence_number,
            payload.len(),
        ) {
            Some(error) => result == Err::<Vec<u8>, _>(error),
            None => if header.payload_length as int != payload@.len() {
                result == Err::<Vec<u8>, _>(ProtocolError::LengthMismatch)
            } else {
                result matches Ok(bytes) && bytes@ == header_bytes(*header) + payload@
            },
        },
{
    validate_fields(
        header.message_type,
        header.flags,
        header.channel,
        &header.session_id,
        header.sequence_number,
        payload.len(),
    )?;
    if header.payload_length as usize != payload.len() {
        return Err(ProtocolError::LengthMismatch);
    }
    let mut output: Vec<u8> = Vec::with_capacity(HEADER_LEN + payload.len());
    wire::put_u32(&mut output, MAGIC);
    wire::put_u16(&mut output, PROTOCOL_VERSION);
    wire::put_u16(&mut output, header.message_type.code());
    wire::put_u16(&mut output, header.flags);
    wire::put_u8(&mut output, header.channel.code());
    wire::put_u8(&mut output, 0);
    wire::put_bytes(&mut output, &header.session_id);
    wire::put_u64(&mut output, header.sequence_number);
    wire::put_u32(&mut output, header.payload_length);
    wire::put_u64(&mut output, header.monotonic_timestamp_us);
    assert(output@ =~= header_bytes(*header));
    wire::put_bytes(&mut output, payload);
    Ok(output)
}

/// The header of a message with the given payload, on the channel of its type.
pub open spec fn header_for(
    message_type: MessageType,
    flags: u16,
    session_id: SessionId,
    sequence_number: u64,
    payload: Seq<u8>,
    monotonic_timestamp_us: u64,
) -> MessageHeader {
    MessageHeader {
        message_type,
        flags,
        channel: message_type.channel(),
        session_id,
        sequence_number,
        payload_length: payload.len() as u32,
        monotonic_timestamp_us,
    }
}

/// The packet of a message with the given payload, or the rule that its header breaks.
pub open spec fn framed(
    message_type: MessageType,
    flags: u16,
    session_id: SessionId,
    sequence_number: u64,
    payload: Seq<u8>,
    monotonic_timestamp_us: u64,
) -> Result<Seq<u8>, ProtocolError> {
    match field_error(
        message_type,
        flags,
        message_type.channel(),
        session_id@,
        sequence_number,
        payload.len() as usize,
    ) {
        Some(error) => Err(error),
        None => Ok(
            header_bytes(
                header_for(
                    message_type,
                    flags,
                    session_id,
                    sequence_number,
                    payload,
                    monotonic_timestamp_us,
                ),
            ) + payload,
        ),
    }
}

/// Makes the packet of a message with the given payload.
pub fn frame_message(
    message_type: MessageType,
    flags: u16,
    session_id: SessionId,
    sequence_number: u64,
    payload: &[u8],
    monotonic_timestamp_us: u64,
) -> (result: Result<Vec<u8>, ProtocolError>)
    ensures
        match framed(
            message_type,
            flags,
            session_id,
            sequence_number,
            payload@,
            monotonic_timestamp_us,
        ) {
            Ok(packet) => result matches Ok(bytes) && bytes@ == packet,
            Err(error) => result == Err::<Vec<u8>, _>(error),
        },
{
    let header = MessageHeader::new(
        message_type,
        flags,
        session_id,
        sequence_number,
        payload.len(),
        monotonic_timestamp_us,
    )?;
    encode_message(&header, payload)
}

/// A packet that was made is a message again, with the parts it was made of.
pub proof fn lemma_framed_parts(
    message_type: MessageType,
    flags: u16,
    session_id: SessionId,
    sequence_number: u64,
    payload: Seq<u8>,
    monotonic_timestamp_us: u64,
)
    requires
        payload.len() <= u32::MAX,
        framed(
            message_type,
            flags,
            session_id,
            sequence_number,
            payload,
            monotonic_timestamp_us,
        ) is Ok,
    ensures
        ({
            let packet = framed(
                message_type,
                flags,
                session_id,
                sequence_number,
                payload,
                monotonic_timestamp_us,
            )->Ok_0;
            &&& message_error(packet) is None
            &&& packet_type(packet) == message_type
            &&& packet_payload(packet) == payload
            &&& wire::u16_at(packet, 8) == flags
            &&& packet.subrange(12, 28) == session_id@
            &&& wire::u64_at(packet, 28) == sequence_number
            &&& wire::u64_at(packet, 40) == monotonic_timestamp_us
        }),
{
    let header = header_for(
        message_type,
        flags,
        session_id,
        sequence_number,
        payload,
        monotonic_timestamp_us,
    );
    lemma_encoded_message_decodes(header, payload);
    lemma_packet_parts(header_bytes(header) + payload, header, payload);
}

/// Splits a packet into header and payload, if it is one valid message.
#[verifier::rlimit(50)]
#[verifier::spinoff_prover]
pub fn decode_message(packet: &[u8]) -> (result: Result<ParsedMessage<'_>, ProtocolError>)
    ensures
        match message_error(packet@) {
            Some(error) => result == Err::<ParsedMessage<'_>, _>(error),
            None => result matches Ok(message) && message.header.error() is None
                && packet@ == header_bytes(message.header) + message.payload@
                && message.payload@.len() == message.header.payload_length,
        },
{
    if packet.len() < HEADER_LEN {
        return Err(ProtocolError::HeaderTruncated);
    }
    let header = decode_header(vstd::slice::slice_subrange(packet, 0, HEADER_LEN))?;
    proof {
        lemma_declared_length(packet@, header);
    }
    if packet.len() != HEADER_LEN + header.payload_length as usize {
        return Err(ProtocolError::LengthMismatch);
    }
    let payload = vstd::slice::slice_subrange(packet, HEADER_LEN, packet.len());
    assert(packet@ =~= packet@.subrange(0, HEADER_LEN as int) + payload@);
    Ok(ParsedMessage { header, payload })
}

/// Reads a header, if `packet` is exactly one valid header.
pub fn decode_header(packet: &[u8]) -> (result: Result<MessageHeader, ProtocolError>)
    ensures
        match header_error(packet@) {
            Some(error) => result == Err::<MessageHeader, _>(error),
            None => result matches Ok(header) && header.error() is None && packet@ == header_bytes(
                header,
            ),
        },
{
    if packet.len() != HEADER_LEN {
        return Err(ProtocolError::HeaderTruncated);
    }
    let magic: u32 = wire::read_u32(packet, 0);
    if magic != MAGIC {
        return Err(ProtocolError::InvalidMagic(magic));
    }
    let version: u16 = wire::read_u16(packet, 4);
    if version != PROTOCOL_VERSION {
        return Err(ProtocolError::UnsupportedVersion(version));
    }
    let message_type = MessageType::try_from(wire::read_u16(packet, 6))?;
    let flags: u16 = wire::read_u16(packet, 8);
    let channel = ChannelId::try_from(packet[10])?;
    if packet[11] != 0 {
        return Err(ProtocolError::ReservedByte);
    }
    let session_id: SessionId = wire::read_array(packet, 12);
    let sequence_number: u64 = wire::read_u64(packet, 28);
    let payload_length: u32 = wire::read_u32(packet, 36);
    let monotonic_timestamp_us: u64 = wire::read_u64(packet, 40);
    validate_fields(
        message_type,
        flags,
        channel,
        &session_id,
        sequence_number,
        payload_length as usize,
    )?;
    let header = MessageHeader {
        message_type,
        flags,
        channel,
        session_id,
        sequence_number,
        payload_length,
        monotonic_timestamp_us,
    };
    proof {
        lemma_header_of_fields(packet@);
    }
    Ok(header)
}

/// Forty-eight bytes, put together again from the fields that they hold.
#[verifier::rlimit(60)]
#[verifier::spinoff_prover]
proof fn lemma_header_of_fields(packet: Seq<u8>)
    requires
        packet.len() == HEADER_LEN,
    ensures
        packet == wire::be32(wire::u32_at(packet, 0)) + wire::be16(wire::u16_at(packet, 4))
            + wire::be16(wire::u16_at(packet, 6)) + wire::be16(wire::u16_at(packet, 8)) + seq![
            packet[10],
            packet[11],
        ] + packet.subrange(12, 28) + wire::be64(wire::u64_at(packet, 28)) + wire::be32(
            wire::u32_at(packet, 36),
        ) + wire::be64(wire::u64_at(packet, 40)),
{
    wire::lemma_be32_of_read(packet, 0);
    wire::lemma_be16_of_read(packet, 4);
    wire::lemma_be16_of_read(packet, 6);
    wire::lemma_be16_of_read(packet, 8);
    wire::lemma_be64_of_read(packet, 28);
    wire::lemma_be32_of_read(packet, 36);
    wire::lemma_be64_of_read(packet, 40);
    assert(packet =~= packet.subrange(0, 4) + packet.subrange(4, 6) + packet.subrange(6, 8)
        + packet.subrange(8, 10) + seq![packet[10], packet[11]] + packet.subrange(12, 28)
        + packet.subrange(28, 36) + packet.subrange(36, 40) + packet.subrange(40, 48));
}

/// Where each field of a header stands in its bytes.
#[verifier::rlimit(60)]
#[verifier::spinoff_prover]
proof fn lemma_header_fields(header: MessageHeader)
    ensures
        header_bytes(header).len() == HEADER_LEN,
        wire::u32_at(header_bytes(header), 0) == MAGIC,
        wire::u16_at(header_bytes(header), 4) == PROTOCOL_VERSION,
        wire::u16_at(header_bytes(header), 6) == header.message_type.code(),
        wire::u16_at(header_bytes(header), 8) == header.flags,
        header_bytes(header)[10] == header.channel.code(),
        header_bytes(header)[11] == 0,
        header_bytes(header).subrange(12, 28) == header.session_id@,
        wire::u64_at(header_bytes(header), 28) == header.sequence_number,
        wire::u32_at(header_bytes(header), 36) == header.payload_length,
        wire::u64_at(header_bytes(header), 40) == header.monotonic_timestamp_us,
{
    let bytes = header_bytes(header);
    assert(bytes.subrange(0, 4) =~= wire::be32(MAGIC));
    assert(bytes.subrange(4, 6) =~= wire::be16(PROTOCOL_VERSION));
    assert(bytes.subrange(6, 8) =~= wire::be16(header.message_type.code()));
    assert(bytes.subrange(8, 10) =~= wire::be16(header.flags));
    assert(bytes.subrange(12, 28) =~= header.session_id@);
    assert(bytes.subrange(28, 36) =~= wire::be64(header.sequence_number));
    assert(bytes.subrange(36, 40) =~= wire::be32(header.payload_length));
    assert(bytes.subrange(40, 48) =~= wire::be64(header.monotonic_timestamp_us));
    wire::lemma_u32_round_trip(bytes, 0, MAGIC);
    wire::lemma_u16_round_trip(bytes, 4, PROTOCOL_VERSION);
    wire::lemma_u16_round_trip(bytes, 6, header.message_type.code());
    wire::lemma_u16_round_trip(bytes, 8, header.flags);
    wire::lemma_u64_round_trip(bytes, 28, header.sequence_number);
    wire::lemma_u32_round_trip(bytes, 36, header.payload_length);
    wire::lemma_u64_round_trip(bytes, 40, header.monotonic_timestamp_us);
}

/// The payload length that a packet declares, read from the packet itself.
proof fn lemma_declared_length(packet: Seq<u8>, header: MessageHeader)
    requires
        packet.len() >= HEADER_LEN,
        packet.subrange(0, HEADER_LEN as int) == header_bytes(header),
    ensures
        wire::u32_at(packet, 36) == header.payload_length,
{
    lemma_header_fields(header);
    assert(wire::u32_at(packet.subrange(0, HEADER_LEN as int), 36) == wire::u32_at(packet, 36));
}

/// The type that a valid packet declares.
pub open spec fn packet_type(packet: Seq<u8>) -> MessageType {
    message_type_of(wire::u16_at(packet, 6))->Ok_0
}

/// What follows the header of a packet.
pub open spec fn packet_payload(packet: Seq<u8>) -> Seq<u8> {
    packet.subrange(HEADER_LEN as int, packet.len() as int)
}

/// Where the parts of a message stand in its packet.
#[verifier::rlimit(60)]
#[verifier::spinoff_prover]
pub proof fn lemma_packet_parts(packet: Seq<u8>, header: MessageHeader, payload: Seq<u8>)
    requires
        packet == header_bytes(header) + payload,
    ensures
        packet.len() == HEADER_LEN + payload.len(),
        packet_type(packet) == header.message_type,
        packet_payload(packet) == payload,
        wire::u16_at(packet, 8) == header.flags,
        packet.subrange(12, 28) == header.session_id@,
        wire::u64_at(packet, 28) == header.sequence_number,
        wire::u32_at(packet, 36) == header.payload_length,
        wire::u64_at(packet, 40) == header.monotonic_timestamp_us,
{
    lemma_header_fields(header);
    lemma_codes_round_trip(header.channel, header.message_type);
    wire::lemma_reads_of_prefix(header_bytes(header), payload, 6);
    wire::lemma_reads_of_prefix(header_bytes(header), payload, 8);
    wire::lemma_reads_of_prefix(header_bytes(header), payload, 28);
    wire::lemma_reads_of_prefix(header_bytes(header), payload, 36);
    wire::lemma_reads_of_prefix(header_bytes(header), payload, 40);
    lemma_split_packet(header_bytes(header), payload);
}

/// The parts of a sequence that is put together from a head and a payload.
proof fn lemma_split_packet(head: Seq<u8>, payload: Seq<u8>)
    requires
        head.len() == HEADER_LEN,
    ensures
        (head + payload).subrange(12, 28) == head.subrange(12, 28),
        (head + payload).subrange(0, HEADER_LEN as int) == head,
        packet_payload(head + payload) == payload,
{
    assert((head + payload).subrange(12, 28) =~= head.subrange(12, 28));
    assert((head + payload).subrange(0, HEADER_LEN as int) =~= head);
    assert(packet_payload(head + payload) =~= payload);
}

/// A channel and its byte determine each other, and so do a message type and its number.
pub proof fn lemma_codes_round_trip(channel: ChannelId, message_type: MessageType)
    ensures
        channel_of(channel.code()) == Ok::<_, ProtocolError>(channel),
        message_type_of(message_type.code()) == Ok::<_, ProtocolError>(message_type),
{
}

/// A valid header followed by as many payload bytes as it declares is a message.
pub proof fn lemma_encoded_message_decodes(header: MessageHeader, payload: Seq<u8>)
    requires
        header.error() is None,
        header.payload_length == payload.len(),
    ensures
        message_error(header_bytes(header) + payload) is None,
{
    let packet = header_bytes(header) + payload;
    lemma_header_fields(header);
    assert(packet.subrange(0, HEADER_LEN as int) =~= header_bytes(header));
    assert(packet.subrange(0, HEADER_LEN as int).subrange(12, 28) == header.session_id@);
    assert(wire::u32_at(packet, 36) == wire::u32_at(header_bytes(header), 36));
}

/// Two headers and payloads with the same bytes are the same, so that a packet
/// has at most one reading.
pub proof fn lemma_message_bytes_injective(
    first: MessageHeader,
    first_payload: Seq<u8>,
    second: MessageHeader,
    second_payload: Seq<u8>,
)
    requires
        header_bytes(first) + first_payload == header_bytes(second) + second_payload,
    ensures
        first == second,
        first_payload == second_payload,
{
    lemma_header_fields(first);
    lemma_header_fields(second);
    let packet = header_bytes(first) + first_payload;
    assert(header_bytes(first) =~= packet.subrange(0, HEADER_LEN as int));
    assert(header_bytes(second) =~= packet.subrange(0, HEADER_LEN as int));
    assert(first_payload =~= packet.subrange(HEADER_LEN as int, packet.len() as int));
    assert(second_payload =~= packet.subrange(HEADER_LEN as int, packet.len() as int));
    lemma_codes_round_trip(first.channel, first.message_type);
    lemma_codes_round_trip(second.channel, second.message_type);
    assert(first.session_id =~= second.session_id) by {
        assert(first.session_id@ == second.session_id@);
        assert forall|i: int| 0 <= i < 16 implies first.session_id[i] == second.session_id[i] by {
            assert(first.session_id@[i] == second.session_id@[i]);
        }
    }
}

/// Where each field of a header stands in its 48 bytes, from the four letters that every message
/// begins with to the sender's clock.
pub proof fn lemma_header_layout(header: MessageHeader)
    ensures
        ({
            let bytes = header_bytes(header);
            &&& bytes.len() == 48
            &&& wire::u32_at(bytes, 0) == 0x5241_5131
            &&& wire::u16_at(bytes, 4) == 1
            &&& wire::u16_at(bytes, 6) == header.message_type.code()
            &&& wire::u16_at(bytes, 8) == header.flags
            &&& bytes[10] == header.channel.code()
            &&& bytes[11] == 0
            &&& bytes.subrange(12, 28) == header.session_id@
            &&& wire::u64_at(bytes, 28) == header.sequence_number
            &&& wire::u32_at(bytes, 36) == header.payload_length
            &&& wire::u64_at(bytes, 40) == header.monotonic_timestamp_us
        }),
{
    lemma_header_fields(header);
}

/// The numbers by which message types and channels are told apart on the wire.
pub proof fn lemma_wire_numbers(number: u16, byte: u8)
    ensures
        message_type_of(number) is Ok <==> 1 <= number <= 13 || number == 16 || number == 32 || 48
            <= number <= 50 || number == 64 || 128 <= number <= 130,
        message_type_of(number) matches Ok(message_type) ==> message_type.code() == number,
        message_type_of(number) matches Err(error) ==> error == ProtocolError::UnknownMessageType(
            number,
        ),
        message_type_of(1) == Ok::<_, ProtocolError>(MessageType::ClientHello),
        message_type_of(2) == Ok::<_, ProtocolError>(MessageType::ServerHello),
        message_type_of(3) == Ok::<_, ProtocolError>(MessageType::Ping),
        message_type_of(4) == Ok::<_, ProtocolError>(MessageType::Pong),
        message_type_of(5) == Ok::<_, ProtocolError>(MessageType::Error),
        message_type_of(6) == Ok::<_, ProtocolError>(MessageType::KeyframeRequest),
        message_type_of(7) == Ok::<_, ProtocolError>(MessageType::SessionClose),
        message_type_of(8) == Ok::<_, ProtocolError>(MessageType::SessionOffer),
        message_type_of(9) == Ok::<_, ProtocolError>(MessageType::SessionAccept),
        message_type_of(10) == Ok::<_, ProtocolError>(MessageType::ApplicationControl),
        message_type_of(11) == Ok::<_, ProtocolError>(MessageType::ApplicationRaw),
        message_type_of(12) == Ok::<_, ProtocolError>(MessageType::VideoOrdering),
        message_type_of(13) == Ok::<_, ProtocolError>(MessageType::VideoOrderingAck),
        message_type_of(16) == Ok::<_, ProtocolError>(MessageType::ReliableInput),
        message_type_of(32) == Ok::<_, ProtocolError>(MessageType::Clipboard),
        message_type_of(48) == Ok::<_, ProtocolError>(MessageType::FileMetadata),
        message_type_of(49) == Ok::<_, ProtocolError>(MessageType::FileChunk),
        message_type_of(50) == Ok::<_, ProtocolError>(MessageType::FileCancel),
        message_type_of(64) == Ok::<_, ProtocolError>(MessageType::Diagnostics),
        message_type_of(128) == Ok::<_, ProtocolError>(MessageType::VideoFragment),
        message_type_of(129) == Ok::<_, ProtocolError>(MessageType::AudioPacket),
        message_type_of(130) == Ok::<_, ProtocolError>(MessageType::MouseMovement),
        channel_of(byte) is Ok <==> 1 <= byte <= 6 || 16 <= byte <= 18,
        channel_of(byte) matches Ok(channel) ==> channel.code() == byte,
        channel_of(byte) matches Err(error) ==> error == ProtocolError::UnknownChannel(byte),
{
}

/// The channel of a message follows from its number: up to 15 it is for control, then one for
/// each group of sixteen, and from 128 on each type has a channel for datagrams.
pub proof fn lemma_types_have_their_channel(message_type: MessageType)
    ensures
        ({
            let number = message_type.code();
            let channel = message_type.channel().code();
            &&& number < 16 ==> channel == 1
            &&& 16 <= number < 32 ==> channel == 2
            &&& 32 <= number < 48 ==> channel == 3
            &&& 48 <= number < 64 ==> channel == 4
            &&& 64 <= number < 128 ==> channel == 5
            &&& number >= 128 ==> channel == number - 112
        }),
{
}

/// How many bytes a message of each type carries at most.
pub proof fn lemma_payload_limits()
    ensures
        MessageType::ClientHello.max_payload_len() == 512,
        MessageType::ServerHello.max_payload_len() == 512,
        MessageType::Ping.max_payload_len() == 64,
        MessageType::Pong.max_payload_len() == 64,
        MessageType::KeyframeRequest.max_payload_len() == 64,
        MessageType::VideoOrderingAck.max_payload_len() == 8,
        MessageType::SessionOffer.max_payload_len() == 4_096,
        MessageType::SessionAccept.max_payload_len() == 4_096,
        MessageType::ReliableInput.max_payload_len() == 4_096,
        MessageType::FileCancel.max_payload_len() == 4_096,
        MessageType::Error.max_payload_len() == 16_384,
        MessageType::SessionClose.max_payload_len() == 16_384,
        MessageType::FileMetadata.max_payload_len() == 65_536,
        MessageType::Diagnostics.max_payload_len() == 65_536,
        MessageType::VideoFragment.max_payload_len() == 65_536,
        MessageType::AudioPacket.max_payload_len() == 65_536,
        MessageType::MouseMovement.max_payload_len() == 65_536,
        MessageType::VideoOrdering.max_payload_len() == 1_048_576,
        MessageType::FileChunk.max_payload_len() == 1_048_576,
        MessageType::Clipboard.max_payload_len() == 16_777_216,
        MessageType::ApplicationControl.max_payload_len() == 33_554_432,
        MessageType::ApplicationRaw.max_payload_len() == 33_554_432,
{
}

/// A header is good exactly where it has no unknown flag, the channel of its type, a session, a
/// sequence number, and a payload that is not too long.
pub proof fn lemma_good_headers(
    message_type: MessageType,
    flags: u16,
    channel: ChannelId,
    session_id: Seq<u8>,
    sequence_number: u64,
    payload_length: usize,
)
    ensures
        field_error(message_type, flags, channel, session_id, sequence_number, payload_length)
            is None <==> {
            &&& flags <= 3
            &&& channel == message_type.channel()
            &&& exists|place: int| 0 <= place < session_id.len() && #[trigger] session_id[place] != 0
            &&& sequence_number > 0
            &&& payload_length <= message_type.max_payload_len()
        },
        field_error(message_type, flags, channel, session_id, sequence_number, payload_length)
            matches Some(error) ==> match error {
            ProtocolError::UnknownFlags(unknown) => unknown == flags - flags % 4 && unknown > 0,
            ProtocolError::ChannelMismatch { message_type: its, channel: given } => its
                == message_type && given == channel && channel != message_type.channel(),
            ProtocolError::ZeroSessionId => wire::all_zero(session_id),
            ProtocolError::ZeroSequence => sequence_number == 0,
            ProtocolError::PayloadTooLarge(length) => length == payload_length && length
                > message_type.max_payload_len(),
            _ => false,
        },
{
    assert((flags & !3u16 != 0 <==> flags > 3) && flags & !3u16 == flags - flags % 4)
        by (bit_vector);
}

/// Bytes are a message exactly where they begin with a good header and are as long as it says.
pub proof fn lemma_good_messages(packet: Seq<u8>)
    ensures
        message_error(packet) is None <==> {
            &&& packet.len() >= 48
            &&& wire::u32_at(packet, 0) == 0x5241_5131
            &&& wire::u16_at(packet, 4) == 1
            &&& message_type_of(wire::u16_at(packet, 6)) is Ok
            &&& wire::u16_at(packet, 8) <= 3
            &&& packet[10] == packet_type(packet).channel().code()
            &&& packet[11] == 0
            &&& exists|place: int| 12 <= place < 28 && #[trigger] packet[place] != 0
            &&& wire::u64_at(packet, 28) > 0
            &&& wire::u32_at(packet, 36) <= packet_type(packet).max_payload_len()
            &&& packet.len() == 48 + wire::u32_at(packet, 36)
        },
        message_error(packet) matches Some(error) ==> match error {
            ProtocolError::HeaderTruncated => packet.len() < 48,
            ProtocolError::InvalidMagic(magic) => magic == wire::u32_at(packet, 0) && magic
                != 0x5241_5131,
            ProtocolError::UnsupportedVersion(version) => version == wire::u16_at(packet, 4)
                && version != 1,
            ProtocolError::UnknownMessageType(number) => number == wire::u16_at(packet, 6),
            ProtocolError::UnknownChannel(byte) => byte == packet[10],
            ProtocolError::ReservedByte => packet[11] != 0,
            ProtocolError::LengthMismatch => packet.len() != 48 + wire::u32_at(packet, 36),
            _ => packet.len() >= 48,
        },
{
    if packet.len() >= 48 {
        let head = packet.subrange(0, 48);
        let session_id = head.subrange(12, 28);
        assert(wire::u32_at(head, 0) == wire::u32_at(packet, 0));
        assert(wire::u16_at(head, 4) == wire::u16_at(packet, 4));
        assert(wire::u16_at(head, 6) == wire::u16_at(packet, 6));
        assert(wire::u16_at(head, 8) == wire::u16_at(packet, 8));
        assert(wire::u64_at(head, 28) == wire::u64_at(packet, 28));
        assert(wire::u32_at(head, 36) == wire::u32_at(packet, 36));
        assert(head[10] == packet[10] && head[11] == packet[11]);
        lemma_wire_numbers(wire::u16_at(packet, 6), packet[10]);
        if let (Ok(message_type), Ok(channel)) = (
            message_type_of(wire::u16_at(packet, 6)),
            channel_of(packet[10]),
        ) {
            lemma_good_headers(
                message_type,
                wire::u16_at(packet, 8),
                channel,
                session_id,
                wire::u64_at(packet, 28),
                wire::u32_at(packet, 36) as usize,
            );
        }
        lemma_codes_round_trip(packet_type(packet).channel(), packet_type(packet));
        assert forall|place: int| 12 <= place < 28 implies #[trigger] packet[place]
            == session_id[place - 12] by {}
        assert((exists|place: int| 0 <= place < session_id.len() && #[trigger] session_id[place]
            != 0) <==> (exists|place: int| 12 <= place < 28 && #[trigger] packet[place] != 0)) by {
            if exists|place: int| 0 <= place < session_id.len() && #[trigger] session_id[place]
                != 0 {
                let place = choose|place: int|
                    0 <= place < session_id.len() && #[trigger] session_id[place] != 0;
                assert(packet[place + 12] != 0);
            }
        }
    }
}

/// A message that is made has the header and the payload that were asked for, and is made
/// exactly where the header is good.
pub proof fn lemma_messages_are_made(
    message_type: MessageType,
    flags: u16,
    session_id: SessionId,
    sequence_number: u64,
    payload: Seq<u8>,
    monotonic_timestamp_us: u64,
)
    requires
        payload.len() <= 0xffff_ffff,
    ensures
        ({
            let made = framed(
                message_type,
                flags,
                session_id,
                sequence_number,
                payload,
                monotonic_timestamp_us,
            );
            &&& made is Ok <==> flags <= 3 && !wire::all_zero(session_id@) && sequence_number > 0
                && payload.len() <= message_type.max_payload_len()
            &&& made matches Ok(packet) ==> {
                &&& packet.len() == 48 + payload.len()
                &&& wire::u16_at(packet, 6) == message_type.code()
                &&& wire::u16_at(packet, 8) == flags
                &&& packet[10] == message_type.channel().code()
                &&& packet.subrange(12, 28) == session_id@
                &&& wire::u64_at(packet, 28) == sequence_number
                &&& wire::u32_at(packet, 36) == payload.len()
                &&& wire::u64_at(packet, 40) == monotonic_timestamp_us
                &&& packet.subrange(48, packet.len() as int) == payload
            }
        }),
{
    lemma_good_headers(
        message_type,
        flags,
        message_type.channel(),
        session_id@,
        sequence_number,
        payload.len() as usize,
    );
    let header = header_for(
        message_type,
        flags,
        session_id,
        sequence_number,
        payload,
        monotonic_timestamp_us,
    );
    let packet = header_bytes(header) + payload;
    lemma_header_layout(header);
    lemma_packet_parts(packet, header, payload);
    wire::lemma_reads_of_prefix(header_bytes(header), payload, 6);
}

} // verus!
