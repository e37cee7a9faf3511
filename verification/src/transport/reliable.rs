//! Reliable streams: which message may go where, and in which order.
use super::protocol;
use super::protocol::{
    decode_message, frame_message, ChannelId, MessageHeader, MessageType, SessionId, HEADER_LEN,
    PROTOCOL_VERSION,
};
use super::quic::{ProtocolStateFailure, QuicTransportError};
use crate::wire;
use vstd::prelude::*;

verus! {

pub const STREAM_MAGIC: u32 = 0x5241_5153;

pub const STREAM_PREFACE_LEN: usize = 8;

#[derive(Clone, Copy, Debug, Eq, PartialEq, Structural)]
pub enum ReliableChannelKind {
    Control,
    Input,
    Clipboard,
    FileTransfer,
    Diagnostics,
    Video,
}

impl ReliableChannelKind {
    /// The channel that the kind's messages name in their header.
    pub open spec fn channel_id_spec(self) -> ChannelId {
        match self {
            ReliableChannelKind::Control => ChannelId::Control,
            ReliableChannelKind::Input => ChannelId::ReliableInput,
            ReliableChannelKind::Clipboard => ChannelId::Clipboard,
            ReliableChannelKind::FileTransfer => ChannelId::FileTransfer,
            ReliableChannelKind::Diagnostics => ChannelId::Diagnostics,
            ReliableChannelKind::Video => ChannelId::ReliableVideo,
        }
    }

    /// The channel that the kind's messages name in their header.
    #[verifier::when_used_as_spec(channel_id_spec)]
    pub fn channel_id(self) -> (channel: ChannelId)
        ensures
            channel == self.channel_id_spec(),
    {
        match self {
            ReliableChannelKind::Control => ChannelId::Control,
            ReliableChannelKind::Input => ChannelId::ReliableInput,
            ReliableChannelKind::Clipboard => ChannelId::Clipboard,
            ReliableChannelKind::FileTransfer => ChannelId::FileTransfer,
            ReliableChannelKind::Diagnostics => ChannelId::Diagnostics,
            ReliableChannelKind::Video => ChannelId::ReliableVideo,
        }
    }

    /// How urgently the kind's stream is sent, more urgent streams first.
    pub open spec fn priority_spec(self) -> i32 {
        match self {
            ReliableChannelKind::Control => 1_000,
            ReliableChannelKind::Input => 900,
            ReliableChannelKind::Clipboard => 200,
            ReliableChannelKind::FileTransfer => 100,
            ReliableChannelKind::Diagnostics => 0,
            ReliableChannelKind::Video => 700,
        }
    }

    /// How urgently the kind's stream is sent, more urgent streams first.
    #[verifier::when_used_as_spec(priority_spec)]
    pub fn priority(self) -> (priority: i32)
        ensures
            priority == self.priority_spec(),
    {
        match self {
            ReliableChannelKind::Control => 1_000,
            ReliableChannelKind::Input => 900,
            ReliableChannelKind::Clipboard => 200,
            ReliableChannelKind::FileTransfer => 100,
            ReliableChannelKind::Diagnostics => 0,
            ReliableChannelKind::Video => 700,
        }
    }

    /// The longest message of the kind, header included, in bytes.
    pub open spec fn max_message_size_spec(self) -> usize {
        match self {
            ReliableChannelKind::Control => 0x200_0030,
            ReliableChannelKind::Input => 0x1030,
            ReliableChannelKind::Clipboard => 0x100_0030,
            ReliableChannelKind::FileTransfer => 0x10_0030,
            ReliableChannelKind::Diagnostics => 0x1_0030,
            ReliableChannelKind::Video => 0x200_0030,
        }
    }

    /// The longest message of the kind, header included, in bytes.
    #[verifier::when_used_as_spec(max_message_size_spec)]
    pub fn max_message_size(self) -> (limit: usize)
        ensures
            limit == self.max_message_size_spec(),
    {
        match self {
            ReliableChannelKind::Control => HEADER_LEN + 32 * 1024 * 1024,
            ReliableChannelKind::Input => HEADER_LEN + 4 * 1024,
            ReliableChannelKind::Clipboard => HEADER_LEN + 16 * 1024 * 1024,
            ReliableChannelKind::FileTransfer => HEADER_LEN + 1024 * 1024,
            ReliableChannelKind::Diagnostics => HEADER_LEN + 64 * 1024,
            ReliableChannelKind::Video => HEADER_LEN + 32 * 1024 * 1024,
        }
    }
}

/// The kind of stream that carries a channel, if a stream carries it.
pub open spec fn kind_of(channel: ChannelId) -> Result<ReliableChannelKind, QuicTransportError> {
    match channel {
        ChannelId::Control => Ok(ReliableChannelKind::Control),
        ChannelId::ReliableInput => Ok(ReliableChannelKind::Input),
        ChannelId::Clipboard => Ok(ReliableChannelKind::Clipboard),
        ChannelId::FileTransfer => Ok(ReliableChannelKind::FileTransfer),
        ChannelId::Diagnostics => Ok(ReliableChannelKind::Diagnostics),
        ChannelId::ReliableVideo => Ok(ReliableChannelKind::Video),
        _ => Err(QuicTransportError::ProtocolState(ProtocolStateFailure::NotReliable(channel))),
    }
}

impl vstd::std_specs::convert::TryFromSpecImpl<ChannelId> for ReliableChannelKind {
    open spec fn obeys_try_from_spec() -> bool {
        true
    }

    open spec fn try_from_spec(channel: ChannelId) -> Result<Self, QuicTransportError> {
        kind_of(channel)
    }
}

impl TryFrom<ChannelId> for ReliableChannelKind {
    type Error = QuicTransportError;

    fn try_from(channel: ChannelId) -> (result: Result<Self, QuicTransportError>) {
        match channel {
            ChannelId::Control => Ok(ReliableChannelKind::Control),
            ChannelId::ReliableInput => Ok(ReliableChannelKind::Input),
            ChannelId::Clipboard => Ok(ReliableChannelKind::Clipboard),
            ChannelId::FileTransfer => Ok(ReliableChannelKind::FileTransfer),
            ChannelId::Diagnostics => Ok(ReliableChannelKind::Diagnostics),
            ChannelId::ReliableVideo => Ok(ReliableChannelKind::Video),
            _ => Err(QuicTransportError::ProtocolState(ProtocolStateFailure::NotReliable(channel))),
        }
    }
}

/// The eight bytes that open a stream of a kind.
pub open spec fn preface_bytes(kind: ReliableChannelKind) -> Seq<u8> {
    wire::be32(STREAM_MAGIC) + wire::be16(PROTOCOL_VERSION) + seq![kind.channel_id().code(), 0u8]
}

/// The kind of stream that a preface opens.
pub open spec fn parse_preface(preface: Seq<u8>) -> Result<
    ReliableChannelKind,
    QuicTransportError,
> {
    if wire::u32_at(preface, 0) != STREAM_MAGIC || wire::u16_at(preface, 4) != PROTOCOL_VERSION
        || preface[7] != 0 {
        Err(QuicTransportError::ProtocolState(ProtocolStateFailure::InvalidPreface))
    } else {
        match protocol::channel_of(preface[6]) {
            Ok(channel) => kind_of(channel),
            Err(error) => Err(QuicTransportError::Protocol(error)),
        }
    }
}

/// The preface of a stream of `kind`.
pub fn encode_stream_preface(kind: ReliableChannelKind) -> (preface: [u8; 8])
    ensures
        preface@ == preface_bytes(kind),
{
    let preface = [0x52u8, 0x41u8, 0x51u8, 0x53u8, 0u8, 1u8, kind.channel_id().code(), 0u8];
    assert(preface@ =~= preface_bytes(kind));
    preface
}

/// Reads the preface of a stream.
pub fn decode_stream_preface(preface: &[u8; 8]) -> (result: Result<
    ReliableChannelKind,
    QuicTransportError,
>)
    ensures
        result == parse_preface(preface@),
{
    let magic: u32 = wire::read_u32(preface, 0);
    let version: u16 = wire::read_u16(preface, 4);
    if magic != STREAM_MAGIC || version != PROTOCOL_VERSION || preface[7] != 0 {
        return Err(QuicTransportError::ProtocolState(ProtocolStateFailure::InvalidPreface));
    }
    match ChannelId::try_from(preface[6]) {
        Ok(channel) => ReliableChannelKind::try_from(channel),
        Err(error) => Err(QuicTransportError::Protocol(error)),
    }
}

#[derive(Debug, Eq, PartialEq)]
pub struct ReliableMessage {
    pub header: MessageHeader,
    pub payload: Vec<u8>,
}

/// What a stream's sender does with a message: its next sequence number, and the
/// message's sequence number with the bytes to write, length first, or the error.
pub open spec fn sent(
    kind: ReliableChannelKind,
    session_id: SessionId,
    next_sequence: u64,
    message_type: MessageType,
    flags: u16,
    monotonic_timestamp_us: u64,
    payload: Seq<u8>,
) -> (u64, Result<(u64, Seq<u8>), QuicTransportError>) {
    if message_type.channel() != kind.channel_id() {
        (
            next_sequence,
            Err(
                QuicTransportError::ProtocolState(
                    ProtocolStateFailure::InvalidOnChannel { message_type, kind },
                ),
            ),
        )
    } else if next_sequence == u64::MAX {
        (
            next_sequence,
            Err(QuicTransportError::ProtocolState(ProtocolStateFailure::ReliableSequenceExhausted)),
        )
    } else {
        (
            (next_sequence + 1) as u64,
            match protocol::framed(
                message_type,
                flags,
                session_id,
                next_sequence,
                payload,
                monotonic_timestamp_us,
            ) {
                Err(error) => Err(QuicTransportError::Protocol(error)),
                Ok(packet) => if packet.len() > kind.max_message_size() {
                    Err(
                        QuicTransportError::ProtocolState(
                            ProtocolStateFailure::MessageTooLong(kind),
                        ),
                    )
                } else {
                    Ok((next_sequence, wire::be32(packet.len() as u32) + packet))
                },
            },
        )
    }
}

/// Frames a message for a stream and counts it.
fn send_reliable(
    kind: ReliableChannelKind,
    session_id: SessionId,
    next_sequence: &mut u64,
    message_type: MessageType,
    flags: u16,
    monotonic_timestamp_us: u64,
    payload: &[u8],
) -> (result: Result<(u64, Vec<u8>), QuicTransportError>)
    ensures
        ({
            let (next, outcome) = sent(
                kind,
                session_id,
                *old(next_sequence),
                message_type,
                flags,
                monotonic_timestamp_us,
                payload@,
            );
            &&& *final(next_sequence) == next
            &&& match outcome {
                Ok((sequence, bytes)) => result matches Ok((number, output)) && number == sequence
                    && output@ == bytes,
                Err(error) => result == Err::<(u64, Vec<u8>), _>(error),
            }
        }),
{
    if message_type.channel() != kind.channel_id() {
        return Err(
            QuicTransportError::ProtocolState(
                ProtocolStateFailure::InvalidOnChannel { message_type, kind },
            ),
        );
    }
    let sequence: u64 = *next_sequence;
    if sequence == u64::MAX {
        return Err(QuicTransportError::ProtocolState(ProtocolStateFailure::ReliableSequenceExhausted));
    }
    *next_sequence = sequence + 1;
    match frame_message(
        message_type,
        flags,
        session_id,
        sequence,
        payload,
        monotonic_timestamp_us,
    ) {
        Err(error) => Err(QuicTransportError::Protocol(error)),
        Ok(packet) => {
            if packet.len() > kind.max_message_size() {
                return Err(
                    QuicTransportError::ProtocolState(ProtocolStateFailure::MessageTooLong(kind)),
                );
            }
            let mut output: Vec<u8> = Vec::with_capacity(4 + packet.len());
            wire::put_u32(&mut output, packet.len() as u32);
            wire::put_bytes(&mut output, &packet);
            assert(output@ =~= wire::be32(packet@.len() as u32) + packet@);
            Ok((sequence, output))
        },
    }
}

/// The first reason, if any, why a stream's receiver refuses a message.
pub open spec fn receive_error(
    kind: ReliableChannelKind,
    session_id: SessionId,
    last_sequence: u64,
    encoded: Seq<u8>,
) -> Option<QuicTransportError> {
    if encoded.len() < HEADER_LEN || encoded.len() > kind.max_message_size() {
        Some(
            QuicTransportError::ProtocolState(
                ProtocolStateFailure::MessageLength { kind, length: encoded.len() as usize },
            ),
        )
    } else {
        match protocol::message_error(encoded) {
            Some(error) => Some(QuicTransportError::Protocol(error)),
            None => if protocol::packet_type(encoded).channel() != kind.channel_id()
                || encoded.subrange(12, 28) != session_id@ {
                Some(
                    QuicTransportError::ProtocolState(ProtocolStateFailure::ChannelOrSessionChanged),
                )
            } else if wire::u64_at(encoded, 28) <= last_sequence {
                Some(QuicTransportError::ProtocolState(ProtocolStateFailure::ReliableSequence))
            } else {
                None
            },
        }
    }
}

/// The number of bytes to read after a length field, if a message of `kind` can be so long.
pub fn check_length(kind: ReliableChannelKind, length: u32) -> (result: Result<
    usize,
    QuicTransportError,
>)
    ensures
        result == if length < HEADER_LEN || length > kind.max_message_size() {
            Err::<usize, _>(
                QuicTransportError::ProtocolState(
                    ProtocolStateFailure::MessageLength { kind, length: length as usize },
                ),
            )
        } else {
            Ok::<_, QuicTransportError>(length as usize)
        },
{
    let length: usize = length as usize;
    if length < HEADER_LEN || length > kind.max_message_size() {
        return Err(
            QuicTransportError::ProtocolState(ProtocolStateFailure::MessageLength { kind, length }),
        );
    }
    Ok(length)
}

/// Takes one message of a stream, which must come after all that were taken before.
fn receive_reliable(
    kind: ReliableChannelKind,
    session_id: SessionId,
    last_sequence: &mut u64,
    encoded: &[u8],
) -> (result: Result<ReliableMessage, QuicTransportError>)
    ensures
        match receive_error(kind, session_id, *old(last_sequence), encoded@) {
            Some(error) => result == Err::<ReliableMessage, _>(error) && *final(last_sequence)
                == *old(last_sequence),
            None => result matches Ok(message) && encoded@ == protocol::header_bytes(message.header)
                + message.payload@ && message.header.error() is None && *final(last_sequence)
                == wire::u64_at(encoded@, 28),
        },
{
    if encoded.len() < HEADER_LEN || encoded.len() > kind.max_message_size() {
        return Err(
            QuicTransportError::ProtocolState(
                ProtocolStateFailure::MessageLength { kind, length: encoded.len() },
            ),
        );
    }
    match decode_message(encoded) {
        Err(error) => Err(QuicTransportError::Protocol(error)),
        Ok(parsed) => {
            proof {
                protocol::lemma_packet_parts(encoded@, parsed.header, parsed.payload@);
            }
            if parsed.header.channel != kind.channel_id() || !wire::bytes_equal(
                &parsed.header.session_id,
                &session_id,
            ) {
                return Err(
                    QuicTransportError::ProtocolState(ProtocolStateFailure::ChannelOrSessionChanged),
                );
            }
            if parsed.header.sequence_number <= *last_sequence {
                return Err(
                    QuicTransportError::ProtocolState(ProtocolStateFailure::ReliableSequence),
                );
            }
            *last_sequence = parsed.header.sequence_number;
            Ok(
                ReliableMessage {
                    header: parsed.header,
                    payload: wire::copy_range(parsed.payload, 0, parsed.payload.len()),
                },
            )
        },
    }
}

/// Both directions of a reliable stream.
pub struct ReliableChannel {
    kind: ReliableChannelKind,
    session_id: SessionId,
    next_outgoing_sequence: u64,
    last_incoming_sequence: u64,
}

/// The sending direction of a reliable stream.
pub struct ReliableChannelSender {
    kind: ReliableChannelKind,
    session_id: SessionId,
    next_outgoing_sequence: u64,
}

/// The receiving direction of a reliable stream.
pub struct ReliableChannelReceiver {
    kind: ReliableChannelKind,
    session_id: SessionId,
    last_incoming_sequence: u64,
}

/// What a sender holds.
pub struct SenderView {
    pub kind: ReliableChannelKind,
    pub session_id: SessionId,
    pub next_sequence: u64,
}

/// What a receiver holds.
pub struct ReceiverView {
    pub kind: ReliableChannelKind,
    pub session_id: SessionId,
    pub last_sequence: u64,
}

impl SenderView {
    pub open spec fn fresh(kind: ReliableChannelKind, session_id: SessionId) -> SenderView {
        SenderView { kind, session_id, next_sequence: 1 }
    }

    /// What the sender does with a message.
    pub open spec fn sent(
        self,
        message_type: MessageType,
        flags: u16,
        monotonic_timestamp_us: u64,
        payload: Seq<u8>,
    ) -> (SenderView, Result<(u64, Seq<u8>), QuicTransportError>) {
        let (next_sequence, outcome) = sent(
            self.kind,
            self.session_id,
            self.next_sequence,
            message_type,
            flags,
            monotonic_timestamp_us,
            payload,
        );
        (SenderView { next_sequence, ..self }, outcome)
    }
}

impl ReceiverView {
    pub open spec fn fresh(kind: ReliableChannelKind, session_id: SessionId) -> ReceiverView {
        ReceiverView { kind, session_id, last_sequence: 0 }
    }

    /// The first reason, if any, why the receiver refuses a message.
    pub open spec fn error(self, encoded: Seq<u8>) -> Option<QuicTransportError> {
        receive_error(self.kind, self.session_id, self.last_sequence, encoded)
    }

    /// The receiver after a message that it took.
    pub open spec fn after(self, encoded: Seq<u8>) -> ReceiverView {
        ReceiverView { last_sequence: wire::u64_at(encoded, 28), ..self }
    }
}

impl View for ReliableChannelSender {
    type V = SenderView;

    closed spec fn view(&self) -> SenderView {
        SenderView {
            kind: self.kind,
            session_id: self.session_id,
            next_sequence: self.next_outgoing_sequence,
        }
    }
}

impl View for ReliableChannelReceiver {
    type V = ReceiverView;

    closed spec fn view(&self) -> ReceiverView {
        ReceiverView {
            kind: self.kind,
            session_id: self.session_id,
            last_sequence: self.last_incoming_sequence,
        }
    }
}

impl ReliableChannel {
    pub closed spec fn sender(&self) -> SenderView {
        SenderView {
            kind: self.kind,
            session_id: self.session_id,
            next_sequence: self.next_outgoing_sequence,
        }
    }

    pub closed spec fn receiver(&self) -> ReceiverView {
        ReceiverView {
            kind: self.kind,
            session_id: self.session_id,
            last_sequence: self.last_incoming_sequence,
        }
    }

    /// A stream of `kind` that this side opens by writing the preface.
    pub fn open(kind: ReliableChannelKind, session_id: SessionId) -> (result: (
        ReliableChannel,
        [u8; 8],
    ))
        ensures
            result.0.sender() == SenderView::fresh(kind, session_id),
            result.0.receiver() == ReceiverView::fresh(kind, session_id),
            result.1@ == preface_bytes(kind),
    {
        (
            ReliableChannel {
                kind,
                session_id,
                next_outgoing_sequence: 1,
                last_incoming_sequence: 0,
            },
            encode_stream_preface(kind),
        )
    }

    /// A stream that the other side opened with `preface`.
    pub fn accept(preface: &[u8; 8], session_id: SessionId) -> (result: Result<
        ReliableChannel,
        QuicTransportError,
    >)
        ensures
            match parse_preface(preface@) {
                Ok(kind) => result matches Ok(channel) && channel.sender() == SenderView::fresh(
                    kind,
                    session_id,
                ) && channel.receiver() == ReceiverView::fresh(kind, session_id),
                Err(error) => result == Err::<ReliableChannel, _>(error),
            },
    {
        let kind = decode_stream_preface(preface)?;
        Ok(
            ReliableChannel {
                kind,
                session_id,
                next_outgoing_sequence: 1,
                last_incoming_sequence: 0,
            },
        )
    }

    pub fn kind(&self) -> (kind: ReliableChannelKind)
        ensures
            kind == self.sender().kind,
            kind == self.receiver().kind,
    {
        self.kind
    }

    /// The two directions, which go on where the stream stands.
    pub fn into_split(self) -> (split: (ReliableChannelSender, ReliableChannelReceiver))
        ensures
            split.0@ == self.sender(),
            split.1@ == self.receiver(),
    {
        (
            ReliableChannelSender {
                kind: self.kind,
                session_id: self.session_id,
                next_outgoing_sequence: self.next_outgoing_sequence,
            },
            ReliableChannelReceiver {
                kind: self.kind,
                session_id: self.session_id,
                last_incoming_sequence: self.last_incoming_sequence,
            },
        )
    }

    /// Frames a message: its sequence number and the bytes to write.
    pub fn send(
        &mut self,
        message_type: MessageType,
        flags: u16,
        monotonic_timestamp_us: u64,
        payload: &[u8],
    ) -> (result: Result<(u64, Vec<u8>), QuicTransportError>)
        ensures
            ({
                let (sender, outcome) = old(self).sender().sent(
                    message_type,
                    flags,
                    monotonic_timestamp_us,
                    payload@,
                );
                &&& final(self).sender() == sender
                &&& final(self).receiver() == old(self).receiver()
                &&& match outcome {
                    Ok((sequence, bytes)) => result matches Ok((number, output)) && number
                        == sequence && output@ == bytes,
                    Err(error) => result == Err::<(u64, Vec<u8>), _>(error),
                }
            }),
    {
        send_reliable(
            self.kind,
            self.session_id,
            &mut self.next_outgoing_sequence,
            message_type,
            flags,
            monotonic_timestamp_us,
            payload,
        )
    }

    /// Takes the message that follows a length field.
    pub fn receive(&mut self, encoded: &[u8]) -> (result: Result<
        ReliableMessage,
        QuicTransportError,
    >)
        ensures
            final(self).sender() == old(self).sender(),
            match old(self).receiver().error(encoded@) {
                Some(error) => result == Err::<ReliableMessage, _>(error) && final(self).receiver()
                    == old(self).receiver(),
                None => result matches Ok(message) && encoded@ == protocol::header_bytes(
                    message.header,
                ) + message.payload@ && message.header.error() is None && final(self).receiver()
                    == old(self).receiver().after(encoded@),
            },
    {
        receive_reliable(self.kind, self.session_id, &mut self.last_incoming_sequence, encoded)
    }
}

impl ReliableChannelSender {
    pub fn kind(&self) -> (kind: ReliableChannelKind)
        ensures
            kind == self@.kind,
    {
        self.kind
    }

    /// Frames a message: its sequence number and the bytes to write.
    pub fn send(
        &mut self,
        message_type: MessageType,
        flags: u16,
        monotonic_timestamp_us: u64,
        payload: &[u8],
    ) -> (result: Result<(u64, Vec<u8>), QuicTransportError>)
        ensures
            ({
                let (sender, outcome) = old(self)@.sent(
                    message_type,
                    flags,
                    monotonic_timestamp_us,
                    payload@,
                );
                &&& final(self)@ == sender
                &&& match outcome {
                    Ok((sequence, bytes)) => result matches Ok((number, output)) && number
                        == sequence && output@ == bytes,
                    Err(error) => result == Err::<(u64, Vec<u8>), _>(error),
                }
            }),
    {
        send_reliable(
            self.kind,
            self.session_id,
            &mut self.next_outgoing_sequence,
            message_type,
            flags,
            monotonic_timestamp_us,
            payload,
        )
    }
}

impl ReliableChannelReceiver {
    pub fn kind(&self) -> (kind: ReliableChannelKind)
        ensures
            kind == self@.kind,
    {
        self.kind
    }

    /// Takes the message that follows a length field.
    pub fn receive(&mut self, encoded: &[u8]) -> (result: Result<
        ReliableMessage,
        QuicTransportError,
    >)
        ensures
            match old(self)@.error(encoded@) {
                Some(error) => result == Err::<ReliableMessage, _>(error) && final(self)@ == old(
                    self,
                )@,
                None => result matches Ok(message) && encoded@ == protocol::header_bytes(
                    message.header,
                ) + message.payload@ && message.header.error() is None && final(self)@ == old(
                    self,
                )@.after(encoded@),
            },
    {
        receive_reliable(self.kind, self.session_id, &mut self.last_incoming_sequence, encoded)
    }
}

/// A preface opens a stream of the kind that it was written for.
pub proof fn lemma_preface_round_trip(kind: ReliableChannelKind)
    ensures
        parse_preface(preface_bytes(kind)) == Ok::<_, QuicTransportError>(kind),
{
    let preface = preface_bytes(kind);
    assert(preface.subrange(0, 4) =~= wire::be32(STREAM_MAGIC));
    assert(preface.subrange(4, 6) =~= wire::be16(PROTOCOL_VERSION));
    wire::lemma_u32_round_trip(preface, 0, STREAM_MAGIC);
    wire::lemma_u16_round_trip(preface, 4, PROTOCOL_VERSION);
}

/// A message that its type admits is never too long for its stream.
pub proof fn lemma_admitted_message_fits(
    kind: ReliableChannelKind,
    message_type: MessageType,
    length: usize,
)
    requires
        message_type.channel() == kind.channel_id(),
        length <= message_type.max_payload_len(),
    ensures
        HEADER_LEN + length <= kind.max_message_size(),
{
}

/// The parts of a message that its length precedes.
proof fn lemma_length_prefix(packet: Seq<u8>)
    requires
        packet.len() <= u32::MAX,
    ensures
        ({
            let bytes = wire::be32(packet.len() as u32) + packet;
            &&& bytes.subrange(4, bytes.len() as int) == packet
            &&& wire::u32_at(bytes, 0) == packet.len()
        }),
{
    let bytes = wire::be32(packet.len() as u32) + packet;
    assert(bytes.subrange(4, bytes.len() as int) =~= packet);
    assert(bytes.subrange(0, 4) =~= wire::be32(packet.len() as u32));
    wire::lemma_u32_round_trip(bytes, 0, packet.len() as u32);
}

/// What one side sends, the other side of the same stream takes, as long as it has taken
/// only earlier messages: the payload and the sequence number arrive as they were sent.
pub proof fn lemma_sent_message_is_received(
    sender: SenderView,
    receiver: ReceiverView,
    message_type: MessageType,
    flags: u16,
    monotonic_timestamp_us: u64,
    payload: Seq<u8>,
)
    requires
        sender.kind == receiver.kind,
        sender.session_id == receiver.session_id,
        receiver.last_sequence < sender.next_sequence,
        payload.len() <= u32::MAX,
        sender.sent(message_type, flags, monotonic_timestamp_us, payload).1 is Ok,
    ensures
        ({
            let (next, outcome) = sender.sent(
                message_type,
                flags,
                monotonic_timestamp_us,
                payload,
            );
            let (sequence, bytes) = outcome->Ok_0;
            let encoded = bytes.subrange(4, bytes.len() as int);
            &&& sequence == sender.next_sequence
            &&& wire::u32_at(bytes, 0) == encoded.len()
            &&& receiver.error(encoded) is None
            &&& protocol::packet_payload(encoded) == payload
            &&& protocol::packet_type(encoded) == message_type
            &&& receiver.after(encoded).last_sequence == sequence
            &&& receiver.after(encoded).last_sequence < next.next_sequence
        }),
{
    let (next, outcome) = sender.sent(message_type, flags, monotonic_timestamp_us, payload);
    let (sequence, bytes) = outcome->Ok_0;
    let packet = protocol::framed(
        message_type,
        flags,
        sender.session_id,
        sender.next_sequence,
        payload,
        monotonic_timestamp_us,
    )->Ok_0;
    protocol::lemma_framed_parts(
        message_type,
        flags,
        sender.session_id,
        sender.next_sequence,
        payload,
        monotonic_timestamp_us,
    );
    lemma_length_prefix(packet);
}

/// A message that was taken is not taken a second time, nor is one that was sent before it.
pub proof fn lemma_no_message_twice(receiver: ReceiverView, taken: Seq<u8>, other: Seq<u8>)
    requires
        receiver.error(taken) is None,
        wire::u64_at(other, 28) <= wire::u64_at(taken, 28),
    ensures
        receiver.after(taken).error(other) is Some,
        receiver.last_sequence < receiver.after(taken).last_sequence,
{
}


/// Each kind of stream has its own channel, and no other channel has a stream.
pub proof fn lemma_streams_have_their_channel(kind: ReliableChannelKind, channel: ChannelId)
    ensures
        kind is Control <==> kind.channel_id() == ChannelId::Control,
        kind is Input <==> kind.channel_id() == ChannelId::ReliableInput,
        kind is Clipboard <==> kind.channel_id() == ChannelId::Clipboard,
        kind is FileTransfer <==> kind.channel_id() == ChannelId::FileTransfer,
        kind is Diagnostics <==> kind.channel_id() == ChannelId::Diagnostics,
        kind is Video <==> kind.channel_id() == ChannelId::ReliableVideo,
        kind_of(channel) == Ok::<_, QuicTransportError>(kind) <==> kind.channel_id() == channel,
        (forall|any: ReliableChannelKind| #[trigger] any.channel_id() != channel) ==> kind_of(
            channel,
        ) == Err::<ReliableChannelKind, _>(
            QuicTransportError::ProtocolState(ProtocolStateFailure::NotReliable(channel)),
        ),
{
    assert(ReliableChannelKind::Control.channel_id() == ChannelId::Control);
    assert(ReliableChannelKind::Input.channel_id() == ChannelId::ReliableInput);
    assert(ReliableChannelKind::Clipboard.channel_id() == ChannelId::Clipboard);
    assert(ReliableChannelKind::FileTransfer.channel_id() == ChannelId::FileTransfer);
    assert(ReliableChannelKind::Diagnostics.channel_id() == ChannelId::Diagnostics);
    assert(ReliableChannelKind::Video.channel_id() == ChannelId::ReliableVideo);
}

/// Control is the most urgent, then input, then video; the clipboard goes before files, and
/// diagnostics come last.
pub proof fn lemma_urgent_streams_go_first(kind: ReliableChannelKind)
    ensures
        kind is Control ==> kind.priority() == 1_000,
        kind is Input ==> kind.priority() == 900,
        kind is Video ==> kind.priority() == 700,
        kind is Clipboard ==> kind.priority() == 200,
        kind is FileTransfer ==> kind.priority() == 100,
        kind is Diagnostics ==> kind.priority() == 0,
{
}

/// How long the messages of a stream can be: a header of 48 bytes, and a payload of 32 MiB for
/// control and video, 16 MiB for the clipboard, 1 MiB for files, 64 KiB for diagnostics and
/// 4 KiB for input.
pub proof fn lemma_stream_message_limits(kind: ReliableChannelKind)
    ensures
        kind is Control ==> kind.max_message_size() == 48 + 33_554_432,
        kind is Video ==> kind.max_message_size() == 48 + 33_554_432,
        kind is Clipboard ==> kind.max_message_size() == 48 + 16_777_216,
        kind is FileTransfer ==> kind.max_message_size() == 48 + 1_048_576,
        kind is Diagnostics ==> kind.max_message_size() == 48 + 65_536,
        kind is Input ==> kind.max_message_size() == 48 + 4_096,
{
}

/// A stream opens with eight bytes: the letters RAQS, version 1, the number of its channel and
/// a zero.
pub proof fn lemma_preface_layout(kind: ReliableChannelKind)
    ensures
        preface_bytes(kind).len() == 8,
        wire::u32_at(preface_bytes(kind), 0) == 0x5241_5153,
        wire::u16_at(preface_bytes(kind), 4) == 1,
        preface_bytes(kind)[6] == kind.channel_id().code(),
        preface_bytes(kind)[7] == 0,
{
    lemma_preface_round_trip(kind);
    let preface = preface_bytes(kind);
    assert(preface.subrange(0, 4) =~= wire::be32(STREAM_MAGIC));
    assert(preface.subrange(4, 6) =~= wire::be16(PROTOCOL_VERSION));
    wire::lemma_u32_round_trip(preface, 0, STREAM_MAGIC);
    wire::lemma_u16_round_trip(preface, 4, PROTOCOL_VERSION);
}

/// A preface opens a stream of a kind exactly where it holds the letters RAQS, version 1, the
/// number of the kind's channel and a zero.
pub proof fn lemma_prefaces_that_open_a_stream(preface: Seq<u8>, kind: ReliableChannelKind)
    ensures
        parse_preface(preface) == Ok::<_, QuicTransportError>(kind) <==> {
            &&& wire::u32_at(preface, 0) == 0x5241_5153
            &&& wire::u16_at(preface, 4) == 1
            &&& preface[6] == kind.channel_id().code()
            &&& preface[7] == 0
        },
{
    protocol::lemma_wire_numbers(1, preface[6]);
}

/// A message goes out where its type belongs to the stream, a number is left for it, it can be
/// framed and it is not too long. It then stands behind its length, under the next number.
/// A number is used up wherever one was given to the message.
pub proof fn lemma_messages_that_can_be_sent(
    sender: SenderView,
    message_type: MessageType,
    flags: u16,
    monotonic_timestamp_us: u64,
    payload: Seq<u8>,
)
    requires
        payload.len() <= u32::MAX,
    ensures
        ({
            let (after, outcome) = sender.sent(message_type, flags, monotonic_timestamp_us, payload);
            let framed = protocol::framed(
                message_type,
                flags,
                sender.session_id,
                sender.next_sequence,
                payload,
                monotonic_timestamp_us,
            );
            let numbered = message_type.channel() == sender.kind.channel_id()
                && sender.next_sequence < 0xffff_ffff_ffff_ffff;
            &&& outcome is Ok <==> numbered && framed is Ok && framed->Ok_0.len()
                <= sender.kind.max_message_size()
            &&& outcome is Ok ==> {
                let bytes = outcome->Ok_0.1;
                &&& outcome->Ok_0.0 == sender.next_sequence
                &&& bytes.len() == framed->Ok_0.len() + 4
                &&& wire::u32_at(bytes, 0) == framed->Ok_0.len()
                &&& bytes.subrange(4, bytes.len() as int) == framed->Ok_0
            }
            &&& after.kind == sender.kind
            &&& after.session_id == sender.session_id
            &&& after.next_sequence == sender.next_sequence + if numbered {
                1int
            } else {
                0
            }
            &&& message_type.channel() != sender.kind.channel_id() ==> outcome->Err_0
                == QuicTransportError::ProtocolState(
                ProtocolStateFailure::InvalidOnChannel { message_type, kind: sender.kind },
            )
            &&& message_type.channel() == sender.kind.channel_id() && !numbered
                ==> outcome->Err_0 == QuicTransportError::ProtocolState(
                ProtocolStateFailure::ReliableSequenceExhausted,
            )
            &&& numbered && framed is Err ==> outcome->Err_0 == QuicTransportError::Protocol(
                framed->Err_0,
            )
        }),
{
    let framed = protocol::framed(
        message_type,
        flags,
        sender.session_id,
        sender.next_sequence,
        payload,
        monotonic_timestamp_us,
    );
    if framed is Ok && framed->Ok_0.len() <= sender.kind.max_message_size() {
        lemma_length_prefix(framed->Ok_0);
    }
}

/// A message is taken exactly where its length is one that the stream can carry, the packet is
/// good, it belongs to the stream and to the session, and its number is above all that were
/// taken before.
pub proof fn lemma_messages_that_are_taken(receiver: ReceiverView, encoded: Seq<u8>)
    ensures
        receiver.error(encoded) is None <==> {
            &&& 48 <= encoded.len() <= receiver.kind.max_message_size()
            &&& protocol::message_error(encoded) is None
            &&& protocol::packet_type(encoded).channel() == receiver.kind.channel_id()
            &&& encoded.subrange(12, 28) == receiver.session_id@
            &&& receiver.last_sequence < wire::u64_at(encoded, 28)
        },
        receiver.after(encoded).last_sequence == wire::u64_at(encoded, 28),
        receiver.after(encoded).kind == receiver.kind,
        receiver.after(encoded).session_id == receiver.session_id,
{
}

/// A new stream has sent and taken nothing: its first message has number 1.
pub proof fn lemma_numbers_begin_with_one(kind: ReliableChannelKind, session_id: SessionId)
    ensures
        SenderView::fresh(kind, session_id).next_sequence == 1,
        SenderView::fresh(kind, session_id).kind == kind,
        SenderView::fresh(kind, session_id).session_id == session_id,
        ReceiverView::fresh(kind, session_id).last_sequence == 0,
        ReceiverView::fresh(kind, session_id).kind == kind,
        ReceiverView::fresh(kind, session_id).session_id == session_id,
{
}


/// Why a message is refused: first its length, then the packet itself, then its channel or
/// session, then its number.
pub proof fn lemma_refused_messages(receiver: ReceiverView, encoded: Seq<u8>)
    ensures
        ({
            let error = receiver.error(encoded);
            let fits = 48 <= encoded.len() <= receiver.kind.max_message_size();
            let packet = protocol::message_error(encoded);
            let ours = protocol::packet_type(encoded).channel() == receiver.kind.channel_id()
                && encoded.subrange(12, 28) == receiver.session_id@;
            &&& !fits ==> error == Some(
                QuicTransportError::ProtocolState(
                    ProtocolStateFailure::MessageLength {
                        kind: receiver.kind,
                        length: encoded.len() as usize,
                    },
                ),
            )
            &&& fits && packet is Some ==> error == Some(
                QuicTransportError::Protocol(packet->Some_0),
            )
            &&& fits && packet is None && !ours ==> error == Some(
                QuicTransportError::ProtocolState(ProtocolStateFailure::ChannelOrSessionChanged),
            )
            &&& fits && packet is None && ours && wire::u64_at(encoded, 28)
                <= receiver.last_sequence ==> error == Some(
                QuicTransportError::ProtocolState(ProtocolStateFailure::ReliableSequence),
            )
        }),
{
}

/// Why a preface opens no stream: it is none of ours, or its channel is unknown, or has no
/// stream.
pub proof fn lemma_refused_prefaces(preface: Seq<u8>)
    ensures
        ({
            let result = parse_preface(preface);
            let ours = wire::u32_at(preface, 0) == 0x5241_5153 && wire::u16_at(preface, 4) == 1
                && preface[7] == 0;
            let byte = preface[6];
            &&& !ours ==> result == Err::<ReliableChannelKind, _>(
                QuicTransportError::ProtocolState(ProtocolStateFailure::InvalidPreface),
            )
            &&& ours && !(1 <= byte <= 6 || 16 <= byte <= 18) ==> result == Err::<
                ReliableChannelKind,
                _,
            >(QuicTransportError::Protocol(protocol::ProtocolError::UnknownChannel(byte)))
            &&& ours && 16 <= byte <= 18 ==> result == Err::<ReliableChannelKind, _>(
                QuicTransportError::ProtocolState(
                    ProtocolStateFailure::NotReliable(protocol::channel_of(byte)->Ok_0),
                ),
            )
            &&& ours && 1 <= byte <= 6 ==> result is Ok
        }),
{
}

} // verus!
