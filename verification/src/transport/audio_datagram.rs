//! Audio packets in datagrams, and the buffer that plays them out in order.
use super::protocol;
use super::protocol::{
    decode_message, encode_message, ChannelId, MessageHeader, MessageType, ProtocolError,
    SessionId, HEADER_LEN,
};
use crate::counting;
use crate::time::{Duration, Instant};
use crate::wire;
use std::collections::BTreeMap;
use vstd::prelude::*;

verus! {

broadcast use {vstd::std_specs::btree::group_btree_axioms, vstd::laws_cmp::group_laws_cmp};

pub const AUDIO_PACKET_HEADER_LEN: usize = 20;

pub const MAX_AUDIO_PAYLOAD_BYTES: usize = 64 * 1024;

pub const MAX_AUDIO_SEQUENCE_AHEAD: u64 = 4096;

#[derive(Clone, Copy, Debug, Eq, PartialEq, Structural)]
pub enum AudioCodec {
    Opus,
}

impl AudioCodec {
    /// The byte that stands for the codec on the wire.
    pub open spec fn code_spec(self) -> u8 {
        match self {
            AudioCodec::Opus => 1,
        }
    }

    /// The byte that stands for the codec on the wire.
    #[verifier::when_used_as_spec(code_spec)]
    pub fn code(self) -> (code: u8)
        ensures
            code == self.code_spec(),
    {
        match self {
            AudioCodec::Opus => 1,
        }
    }
}

/// The codec that a byte stands for.
pub open spec fn audio_codec_of(value: u8) -> Result<AudioCodec, AudioDatagramError> {
    match value {
        1 => Ok(AudioCodec::Opus),
        _ => Err(AudioDatagramError::UnknownCodec(value)),
    }
}

impl vstd::std_specs::convert::TryFromSpecImpl<u8> for AudioCodec {
    open spec fn obeys_try_from_spec() -> bool {
        true
    }

    open spec fn try_from_spec(value: u8) -> Result<Self, AudioDatagramError> {
        audio_codec_of(value)
    }
}

impl TryFrom<u8> for AudioCodec {
    type Error = AudioDatagramError;

    fn try_from(value: u8) -> (result: Result<Self, AudioDatagramError>) {
        match value {
            1 => Ok(AudioCodec::Opus),
            _ => Err(AudioDatagramError::UnknownCodec(value)),
        }
    }
}

#[derive(Clone, Copy, Debug, Eq, PartialEq, Structural)]
pub struct AudioPacketMetadata {
    pub sequence_number: u64,
    pub capture_timestamp_us: u64,
    pub codec: AudioCodec,
    pub channels: u8,
    pub sample_rate_hz: u32,
}

#[derive(Clone, Debug, Eq, PartialEq)]
pub struct AudioPacket {
    pub metadata: AudioPacketMetadata,
    pub payload: Vec<u8>,
}

/// A packet as a value: what it says of itself, and its bytes.
pub struct PacketView {
    pub metadata: AudioPacketMetadata,
    pub payload: Seq<u8>,
}

impl View for AudioPacket {
    type V = PacketView;

    open spec fn view(&self) -> PacketView {
        PacketView { metadata: self.metadata, payload: self.payload@ }
    }
}

#[derive(Clone, Copy, Debug, Eq, PartialEq, Structural)]
pub enum AudioDatagramError {
    Protocol(ProtocolError),
    UnknownCodec(u8),
    HeaderTruncated,
    ReservedField,
    ZeroSequence,
    InvalidChannelCount(u8),
    InvalidSampleRate(u32),
    InvalidPayloadSize(usize),
    DatagramTooSmall(usize),
    InvalidJitterConfig,
    MemoryLimit,
    SequenceGap,
}

/// The first rule that a packet's metadata breaks, if any.
pub open spec fn metadata_error(metadata: AudioPacketMetadata) -> Option<AudioDatagramError> {
    if metadata.sequence_number == 0 {
        Some(AudioDatagramError::ZeroSequence)
    } else if metadata.channels == 0 || metadata.channels > 8 {
        Some(AudioDatagramError::InvalidChannelCount(metadata.channels))
    } else if !(8_000 <= metadata.sample_rate_hz <= 192_000) {
        Some(AudioDatagramError::InvalidSampleRate(metadata.sample_rate_hz))
    } else {
        None
    }
}

fn validate_metadata(metadata: AudioPacketMetadata) -> (result: Result<(), AudioDatagramError>)
    ensures
        match metadata_error(metadata) {
            Some(error) => result == Err::<(), _>(error),
            None => result == Ok::<_, AudioDatagramError>(()),
        },
{
    if metadata.sequence_number == 0 {
        return Err(AudioDatagramError::ZeroSequence);
    }
    if metadata.channels == 0 || metadata.channels > 8 {
        return Err(AudioDatagramError::InvalidChannelCount(metadata.channels));
    }
    if metadata.sample_rate_hz < 8_000 || metadata.sample_rate_hz > 192_000 {
        return Err(AudioDatagramError::InvalidSampleRate(metadata.sample_rate_hz));
    }
    Ok(())
}

/// The payload of an audio message.
pub open spec fn audio_payload_bytes(packet: PacketView) -> Seq<u8> {
    wire::be64(packet.metadata.capture_timestamp_us) + seq![
        packet.metadata.codec.code(),
        packet.metadata.channels,
    ] + wire::be16(0) + wire::be32(packet.metadata.sample_rate_hz) + wire::be32(
        packet.payload.len() as u32,
    ) + packet.payload
}

/// The header of an audio message.
pub open spec fn audio_header(
    session_id: SessionId,
    monotonic_timestamp_us: u64,
    packet: PacketView,
) -> MessageHeader {
    MessageHeader {
        message_type: MessageType::AudioPacket,
        flags: 0,
        channel: ChannelId::AudioDatagram,
        session_id,
        sequence_number: packet.metadata.sequence_number,
        payload_length: (AUDIO_PACKET_HEADER_LEN + packet.payload.len()) as u32,
        monotonic_timestamp_us,
    }
}

/// The datagram that carries a packet.
pub open spec fn audio_datagram(
    session_id: SessionId,
    monotonic_timestamp_us: u64,
    packet: PacketView,
) -> Seq<u8> {
    protocol::header_bytes(audio_header(session_id, monotonic_timestamp_us, packet))
        + audio_payload_bytes(packet)
}

/// The first reason, if any, why a packet cannot be sent in one datagram.
pub open spec fn audio_sending_error(
    session_id: Seq<u8>,
    metadata: AudioPacketMetadata,
    length: usize,
    max_datagram_size: usize,
) -> Option<AudioDatagramError> {
    if metadata_error(metadata) is Some {
        metadata_error(metadata)
    } else if length == 0 || length > MAX_AUDIO_PAYLOAD_BYTES {
        Some(AudioDatagramError::InvalidPayloadSize(length))
    } else if HEADER_LEN + AUDIO_PACKET_HEADER_LEN + length > max_datagram_size {
        Some(AudioDatagramError::DatagramTooSmall(max_datagram_size))
    } else {
        match protocol::field_error(
            MessageType::AudioPacket,
            0,
            ChannelId::AudioDatagram,
            session_id,
            metadata.sequence_number,
            (AUDIO_PACKET_HEADER_LEN + length) as usize,
        ) {
            Some(error) => Some(AudioDatagramError::Protocol(error)),
            None => None,
        }
    }
}

/// The packet in the payload of an audio message, or the first reason why there is none.
pub open spec fn parse_audio_payload(sequence_number: u64, payload: Seq<u8>) -> Result<
    PacketView,
    AudioDatagramError,
> {
    let audio = payload.subrange(AUDIO_PACKET_HEADER_LEN as int, payload.len() as int);
    if payload.len() < AUDIO_PACKET_HEADER_LEN {
        Err(AudioDatagramError::HeaderTruncated)
    } else if wire::u16_at(payload, 10) != 0 {
        Err(AudioDatagramError::ReservedField)
    } else if audio.len() == 0 || audio.len() > MAX_AUDIO_PAYLOAD_BYTES || audio.len()
        != wire::u32_at(payload, 16) {
        Err(AudioDatagramError::InvalidPayloadSize(wire::u32_at(payload, 16) as usize))
    } else {
        match audio_codec_of(payload[8]) {
            Err(error) => Err(error),
            Ok(codec) => {
                let metadata = AudioPacketMetadata {
                    sequence_number,
                    capture_timestamp_us: wire::u64_at(payload, 0),
                    codec,
                    channels: payload[9],
                    sample_rate_hz: wire::u32_at(payload, 12),
                };
                match metadata_error(metadata) {
                    Some(error) => Err(error),
                    None => Ok(PacketView { metadata, payload: audio }),
                }
            },
        }
    }
}

/// The packet that a datagram carries, or the first reason why it carries none.
pub open spec fn parse_audio_datagram(datagram: Seq<u8>) -> Result<PacketView, AudioDatagramError> {
    match protocol::message_error(datagram) {
        Some(error) => Err(AudioDatagramError::Protocol(error)),
        None => if protocol::packet_type(datagram) != MessageType::AudioPacket {
            Err(
                AudioDatagramError::Protocol(
                    ProtocolError::ChannelMismatch {
                        message_type: protocol::packet_type(datagram),
                        channel: protocol::packet_type(datagram).channel(),
                    },
                ),
            )
        } else {
            parse_audio_payload(
                wire::u64_at(datagram, 28),
                protocol::packet_payload(datagram),
            )
        },
    }
}

/// The datagram for one packet of encoded audio.
pub fn encode_audio_datagram(
    session_id: SessionId,
    monotonic_timestamp_us: u64,
    metadata: AudioPacketMetadata,
    encoded_audio: &[u8],
    max_datagram_size: usize,
) -> (result: Result<Vec<u8>, AudioDatagramError>)
    ensures
        match audio_sending_error(
            session_id@,
            metadata,
            encoded_audio.len(),
            max_datagram_size,
        ) {
            Some(error) => result == Err::<Vec<u8>, _>(error),
            None => result matches Ok(datagram) && datagram@ == audio_datagram(
                session_id,
                monotonic_timestamp_us,
                PacketView { metadata, payload: encoded_audio@ },
            ) && datagram@.len() <= max_datagram_size,
        },
{
    validate_metadata(metadata)?;
    if encoded_audio.len() == 0 || encoded_audio.len() > MAX_AUDIO_PAYLOAD_BYTES {
        return Err(AudioDatagramError::InvalidPayloadSize(encoded_audio.len()));
    }
    if HEADER_LEN + AUDIO_PACKET_HEADER_LEN + encoded_audio.len() > max_datagram_size {
        return Err(AudioDatagramError::DatagramTooSmall(max_datagram_size));
    }
    let ghost packet = PacketView { metadata, payload: encoded_audio@ };
    let mut payload: Vec<u8> = Vec::new();
    wire::put_u64(&mut payload, metadata.capture_timestamp_us);
    wire::put_u8(&mut payload, metadata.codec.code());
    wire::put_u8(&mut payload, metadata.channels);
    wire::put_u16(&mut payload, 0);
    wire::put_u32(&mut payload, metadata.sample_rate_hz);
    wire::put_u32(&mut payload, encoded_audio.len() as u32);
    wire::put_bytes(&mut payload, encoded_audio);
    assert(payload@ =~= audio_payload_bytes(packet));
    let header = match MessageHeader::new(
        MessageType::AudioPacket,
        0,
        session_id,
        metadata.sequence_number,
        payload.len(),
        monotonic_timestamp_us,
    ) {
        Ok(header) => header,
        Err(error) => {
            return Err(AudioDatagramError::Protocol(error));
        },
    };
    match encode_message(&header, &payload) {
        Ok(datagram) => {
            proof {
                protocol::lemma_packet_parts(datagram@, header, payload@);
            }
            Ok(datagram)
        },
        Err(error) => Err(AudioDatagramError::Protocol(error)),
    }
}

fn decode_audio_payload(sequence_number: u64, payload: &[u8]) -> (result: Result<
    AudioPacket,
    AudioDatagramError,
>)
    ensures
        match parse_audio_payload(sequence_number, payload@) {
            Err(error) => result == Err::<AudioPacket, _>(error),
            Ok(view) => result matches Ok(packet) && packet@ == view,
        },
{
    if payload.len() < AUDIO_PACKET_HEADER_LEN {
        return Err(AudioDatagramError::HeaderTruncated);
    }
    if wire::read_u16(payload, 10) != 0 {
        return Err(AudioDatagramError::ReservedField);
    }
    let declared: u32 = wire::read_u32(payload, 16);
    let audio = wire::copy_range(payload, AUDIO_PACKET_HEADER_LEN, payload.len());
    if audio.len() == 0 || audio.len() > MAX_AUDIO_PAYLOAD_BYTES || audio.len() != declared as usize {
        return Err(AudioDatagramError::InvalidPayloadSize(declared as usize));
    }
    let codec = AudioCodec::try_from(payload[8])?;
    let metadata = AudioPacketMetadata {
        sequence_number,
        capture_timestamp_us: wire::read_u64(payload, 0),
        codec,
        channels: payload[9],
        sample_rate_hz: wire::read_u32(payload, 12),
    };
    validate_metadata(metadata)?;
    Ok(AudioPacket { metadata, payload: audio })
}

/// The packet that a datagram carries.
pub fn decode_audio_datagram(datagram: &[u8]) -> (result: Result<AudioPacket, AudioDatagramError>)
    ensures
        match parse_audio_datagram(datagram@) {
            Err(error) => result == Err::<AudioPacket, _>(error),
            Ok(view) => result matches Ok(packet) && packet@ == view,
        },
{
    let message = match decode_message(datagram) {
        Ok(message) => message,
        Err(error) => {
            return Err(AudioDatagramError::Protocol(error));
        },
    };
    proof {
        protocol::lemma_packet_parts(datagram@, message.header, message.payload@);
    }
    if message.header.message_type != MessageType::AudioPacket {
        return Err(
            AudioDatagramError::Protocol(
                ProtocolError::ChannelMismatch {
                    message_type: message.header.message_type,
                    channel: message.header.channel,
                },
            ),
        );
    }
    decode_audio_payload(message.header.sequence_number, message.payload)
}

/// Reading the payload of an audio message gives back the packet it was made of.
#[verifier::rlimit(60)]
#[verifier::spinoff_prover]
pub proof fn lemma_audio_payload_round_trip(packet: PacketView)
    requires
        0 < packet.payload.len() <= MAX_AUDIO_PAYLOAD_BYTES,
        metadata_error(packet.metadata) is None,
    ensures
        audio_payload_bytes(packet).len() == AUDIO_PACKET_HEADER_LEN + packet.payload.len(),
        parse_audio_payload(packet.metadata.sequence_number, audio_payload_bytes(packet)) == Ok::<
            _,
            AudioDatagramError,
        >(packet),
{
    let payload = audio_payload_bytes(packet);
    let length = packet.payload.len() as u32;
    assert(payload.subrange(0, 8) =~= wire::be64(packet.metadata.capture_timestamp_us));
    assert(payload.subrange(10, 12) =~= wire::be16(0));
    assert(payload.subrange(12, 16) =~= wire::be32(packet.metadata.sample_rate_hz));
    assert(payload.subrange(16, 20) =~= wire::be32(length));
    assert(payload.subrange(20, payload.len() as int) =~= packet.payload);
    wire::lemma_u64_round_trip(payload, 0, packet.metadata.capture_timestamp_us);
    wire::lemma_u16_round_trip(payload, 10, 0);
    wire::lemma_u32_round_trip(payload, 12, packet.metadata.sample_rate_hz);
    wire::lemma_u32_round_trip(payload, 16, length);
    assert(payload[8] == packet.metadata.codec.code());
    assert(payload[9] == packet.metadata.channels);
}

/// A packet that can be sent comes back from its datagram.
pub proof fn lemma_audio_round_trip(
    session_id: SessionId,
    monotonic_timestamp_us: u64,
    packet: PacketView,
    max_datagram_size: usize,
)
    requires
        packet.payload.len() <= usize::MAX,
        audio_sending_error(
            session_id@,
            packet.metadata,
            packet.payload.len() as usize,
            max_datagram_size,
        ) is None,
    ensures
        parse_audio_datagram(audio_datagram(session_id, monotonic_timestamp_us, packet)) == Ok::<
            _,
            AudioDatagramError,
        >(packet),
{
    let payload = audio_payload_bytes(packet);
    let header = audio_header(session_id, monotonic_timestamp_us, packet);
    lemma_audio_payload_round_trip(packet);
    protocol::lemma_encoded_message_decodes(header, payload);
    protocol::lemma_packet_parts(
        audio_datagram(session_id, monotonic_timestamp_us, packet),
        header,
        payload,
    );
}

#[derive(Clone, Copy, Debug)]
pub struct AudioJitterConfig {
    pub playout_delay: Duration,
    pub max_packet_age: Duration,
    pub max_packets: usize,
    pub max_memory_bytes: usize,
    pub start_packets: usize,
}

impl Default for AudioJitterConfig {
    fn default() -> (config: AudioJitterConfig)
        ensures
            config.playout_delay == Duration::of_millis(30),
            config.max_packet_age == Duration::of_millis(120),
            config.max_packets == 64,
            config.max_memory_bytes == 2 * 1024 * 1024,
            config.start_packets == 3,
    {
        AudioJitterConfig {
            playout_delay: Duration::from_millis(30),
            max_packet_age: Duration::from_millis(120),
            max_packets: 64,
            max_memory_bytes: 2 * 1024 * 1024,
            start_packets: 3,
        }
    }
}

#[derive(Clone, Debug, Eq, PartialEq, Structural)]
pub struct AudioJitterStats {
    pub accepted_packets: u64,
    pub played_packets: u64,
    pub duplicate_packets: u64,
    pub late_packets: u64,
    pub lost_packets: u64,
    pub evicted_packets: u64,
}

impl AudioJitterStats {
    pub open spec fn zero() -> AudioJitterStats {
        AudioJitterStats {
            accepted_packets: 0,
            played_packets: 0,
            duplicate_packets: 0,
            late_packets: 0,
            lost_packets: 0,
            evicted_packets: 0,
        }
    }
}

impl Default for AudioJitterStats {
    fn default() -> (stats: AudioJitterStats)
        ensures
            stats == AudioJitterStats::zero(),
    {
        AudioJitterStats {
            accepted_packets: 0,
            played_packets: 0,
            duplicate_packets: 0,
            late_packets: 0,
            lost_packets: 0,
            evicted_packets: 0,
        }
    }
}

#[derive(Clone, Copy, Debug, Eq, PartialEq, Structural)]
pub struct AudioJitterState {
    pub queue_depth: usize,
    pub buffered_bytes: usize,
    pub buffered_capture_span_us: u64,
}

impl Default for AudioJitterState {
    fn default() -> (state: AudioJitterState)
        ensures
            state.queue_depth == 0,
            state.buffered_bytes == 0,
            state.buffered_capture_span_us == 0,
    {
        AudioJitterState { queue_depth: 0, buffered_bytes: 0, buffered_capture_span_us: 0 }
    }
}

#[derive(Debug, Eq, PartialEq)]
pub enum AudioPlayoutItem {
    Packet(AudioPacket),
    PacketLoss { sequence_number: u64 },
}

/// What is played next: a packet, or the place of one that is missing.
pub enum PlayoutView {
    Packet(PacketView),
    PacketLoss(u64),
}

impl View for AudioPlayoutItem {
    type V = PlayoutView;

    open spec fn view(&self) -> PlayoutView {
        match self {
            AudioPlayoutItem::Packet(packet) => PlayoutView::Packet(packet@),
            AudioPlayoutItem::PacketLoss { sequence_number } => PlayoutView::PacketLoss(
                *sequence_number,
            ),
        }
    }
}

/// A packet that waits, with the time of its arrival.
pub struct BufferedView {
    pub packet: PacketView,
    pub arrived_at: Instant,
}

/// The state of a jitter buffer.
pub struct JitterView {
    pub config: AudioJitterConfig,
    pub packets: Map<u64, BufferedView>,
    pub next_sequence: Option<u64>,
    pub playout_started: bool,
    pub stats: AudioJitterStats,
}

/// The bytes that a waiting packet takes, as a function.
pub open spec fn packet_weight() -> spec_fn(BufferedView) -> nat {
    |buffered: BufferedView| buffered.packet.payload.len()
}

/// The bytes that waiting packets take.
pub open spec fn buffered_total(packets: Map<u64, BufferedView>) -> nat {
    counting::sum_over(packets, packet_weight())
}

/// The number after `sequence`, if there is one.
pub open spec fn sequence_after(sequence: u64) -> Option<u64> {
    if sequence == u64::MAX {
        None
    } else {
        Some((sequence + 1) as u64)
    }
}

/// The smaller of a sequence number that may be unknown and a known one.
pub open spec fn earlier_of(sequence: Option<u64>, other: u64) -> u64 {
    match sequence {
        Some(sequence) => if sequence < other {
            sequence
        } else {
            other
        },
        None => other,
    }
}

impl JitterView {
    /// A buffer that has seen nothing.
    pub open spec fn fresh(config: AudioJitterConfig) -> JitterView {
        JitterView {
            config,
            packets: Map::empty(),
            next_sequence: None,
            playout_started: false,
            stats: AudioJitterStats::zero(),
        }
    }

    /// The highest sequence number among the waiting packets and `sequence`.
    pub open spec fn highest_with(self, sequence: u64) -> u64 {
        if self.packets.dom().len() > 0 && counting::greatest(self.packets.dom()) > sequence {
            counting::greatest(self.packets.dom())
        } else {
            sequence
        }
    }

    /// Whether a packet of `length` bytes needs another one to leave first.
    pub open spec fn is_full_for(self, length: nat) -> bool {
        self.packets.len() >= self.config.max_packets || buffered_total(self.packets) + length
            > self.config.max_memory_bytes
    }

    /// The state without its oldest packet.
    pub open spec fn without_oldest(self) -> JitterView {
        let oldest = counting::least(self.packets.dom());
        JitterView {
            packets: self.packets.remove(oldest),
            next_sequence: if self.next_sequence == Some(oldest) {
                sequence_after(oldest)
            } else {
                self.next_sequence
            },
            stats: AudioJitterStats {
                evicted_packets: counting::saturated64(self.stats.evicted_packets, 1),
                ..self.stats
            },
            ..self
        }
    }

    /// The state after the oldest packets made room for `length` bytes.
    pub open spec fn with_room(self, length: nat) -> JitterView
        decreases self.packets.dom().len(),
        when self.packets.dom().finite()
    {
        if self.is_full_for(length) && self.packets.dom().len() > 0
            && self.packets.contains_key(counting::least(self.packets.dom())) {
            self.without_oldest().with_room(length)
        } else {
            self
        }
    }

    /// The state with one more packet waiting.
    pub open spec fn holding(self, packet: PacketView, now: Instant) -> JitterView {
        JitterView {
            packets: self.packets.insert(
                packet.metadata.sequence_number,
                BufferedView { packet, arrived_at: now },
            ),
            next_sequence: Some(earlier_of(self.next_sequence, packet.metadata.sequence_number)),
            stats: AudioJitterStats {
                accepted_packets: counting::saturated64(self.stats.accepted_packets, 1),
                ..self.stats
            },
            ..self
        }
    }

    /// Whether a packet comes after its place was played.
    pub open spec fn is_late(self, sequence: u64) -> bool {
        self.playout_started && self.next_sequence is Some && sequence
            < self.next_sequence->Some_0
    }

    /// What `push` does and returns.
    pub open spec fn pushed(self, packet: PacketView, now: Instant) -> (
        JitterView,
        Result<bool, AudioDatagramError>,
    ) {
        let sequence = packet.metadata.sequence_number;
        let length = packet.payload.len();
        if metadata_error(packet.metadata) is Some {
            (self, Err(metadata_error(packet.metadata)->Some_0))
        } else if length == 0 || length > MAX_AUDIO_PAYLOAD_BYTES {
            (self, Err(AudioDatagramError::InvalidPayloadSize(length as usize)))
        } else if self.is_late(sequence) {
            (
                JitterView {
                    stats: AudioJitterStats {
                        late_packets: counting::saturated64(self.stats.late_packets, 1),
                        ..self.stats
                    },
                    ..self
                },
                Ok(false),
            )
        } else if self.packets.contains_key(sequence) {
            (
                JitterView {
                    stats: AudioJitterStats {
                        duplicate_packets: counting::saturated64(self.stats.duplicate_packets, 1),
                        ..self.stats
                    },
                    ..self
                },
                Ok(false),
            )
        } else if self.highest_with(sequence) - earlier_of(self.next_sequence, sequence)
            > MAX_AUDIO_SEQUENCE_AHEAD {
            (self, Err(AudioDatagramError::SequenceGap))
        } else if length > self.config.max_memory_bytes {
            (self, Err(AudioDatagramError::MemoryLimit))
        } else {
            (self.with_room(length).holding(packet, now), Ok(true))
        }
    }

    /// What `push_datagram` does and returns.
    pub open spec fn pushed_datagram(self, datagram: Seq<u8>, now: Instant) -> (
        JitterView,
        Result<bool, AudioDatagramError>,
    ) {
        match parse_audio_datagram(datagram) {
            Err(error) => (self, Err(error)),
            Ok(packet) => self.pushed(packet, now),
        }
    }

    /// The packets that have waited too long to be played.
    pub open spec fn overdue(self, now: Instant) -> Set<u64> {
        self.packets.dom().filter(
            |sequence: u64|
                now.since(self.packets[sequence].arrived_at).nanos
                    >= self.config.max_packet_age.nanos,
        )
    }

    /// The state without the packets that have waited too long.
    pub open spec fn without_overdue(self, now: Instant) -> JitterView {
        JitterView {
            packets: self.packets.remove_keys(self.overdue(now)),
            stats: AudioJitterStats {
                late_packets: counting::saturated64(
                    self.stats.late_packets,
                    self.overdue(now).len(),
                ),
                ..self.stats
            },
            ..self
        }
    }

    /// Whether enough packets wait, or this one has waited long enough, to play on.
    pub open spec fn is_due(self, buffered: BufferedView, now: Instant) -> bool {
        self.packets.len() >= self.config.start_packets || now.since(buffered.arrived_at).nanos
            >= self.config.playout_delay.nanos
    }

    /// What is played from a state without overdue packets, and the state after it.
    pub open spec fn played(self, now: Instant) -> (JitterView, Option<PlayoutView>) {
        match self.next_sequence {
            None => (self, None),
            Some(sequence) => if self.packets.contains_key(sequence) {
                if self.is_due(self.packets[sequence], now) {
                    (
                        JitterView {
                            packets: self.packets.remove(sequence),
                            next_sequence: sequence_after(sequence),
                            playout_started: true,
                            stats: AudioJitterStats {
                                played_packets: counting::saturated64(
                                    self.stats.played_packets,
                                    1,
                                ),
                                ..self.stats
                            },
                            ..self
                        },
                        Some(PlayoutView::Packet(self.packets[sequence].packet)),
                    )
                } else {
                    (self, None)
                }
            } else if self.packets.dom().len() > 0 && self.is_due(
                self.packets[counting::least(self.packets.dom())],
                now,
            ) {
                (
                    JitterView {
                        next_sequence: sequence_after(sequence),
                        playout_started: true,
                        stats: AudioJitterStats {
                            lost_packets: counting::saturated64(self.stats.lost_packets, 1),
                            ..self.stats
                        },
                        ..self
                    },
                    Some(PlayoutView::PacketLoss(sequence)),
                )
            } else {
                (self, None)
            },
        }
    }

    /// What `pop_ready` does and returns.
    pub open spec fn popped(self, now: Instant) -> (JitterView, Option<PlayoutView>) {
        self.without_overdue(now).played(now)
    }

    /// How far the capture times of the first and the last packet lie apart.
    pub open spec fn capture_span(self) -> u64 {
        if self.packets.dom().len() == 0 {
            0
        } else {
            let first = self.packets[counting::least(
                self.packets.dom(),
            )].packet.metadata.capture_timestamp_us;
            let last = self.packets[counting::greatest(
                self.packets.dom(),
            )].packet.metadata.capture_timestamp_us;
            if last >= first {
                (last - first) as u64
            } else {
                0
            }
        }
    }
}

struct BufferedAudioPacket {
    packet: AudioPacket,
    arrived_at: Instant,
}

impl BufferedAudioPacket {
    spec fn model(self) -> BufferedView {
        BufferedView { packet: self.packet@, arrived_at: self.arrived_at }
    }
}

spec fn models(packets: Map<u64, BufferedAudioPacket>) -> Map<u64, BufferedView> {
    packets.map_values(|packet: BufferedAudioPacket| packet.model())
}

/// Puts audio packets in order and plays them out after a short delay.
pub struct AudioJitterBuffer {
    config: AudioJitterConfig,
    packets: BTreeMap<u64, BufferedAudioPacket>,
    next_sequence: Option<u64>,
    playout_started: bool,
    buffered_bytes: usize,
    stats: AudioJitterStats,
}

impl View for AudioJitterBuffer {
    type V = JitterView;

    closed spec fn view(&self) -> JitterView {
        JitterView {
            config: self.config,
            packets: models(self.packets@),
            next_sequence: self.next_sequence,
            playout_started: self.playout_started,
            stats: self.stats,
        }
    }
}

/// Whether a configuration can be used.
pub open spec fn config_ok(config: AudioJitterConfig) -> bool {
    config.max_packets > 0 && config.max_memory_bytes > 0 && 0 < config.start_packets
        <= config.max_packets && config.playout_delay.nanos <= config.max_packet_age.nanos
}

proof fn lemma_total_remove(packets: Map<u64, BufferedView>, sequence: u64)
    requires
        packets.dom().finite(),
        packets.contains_key(sequence),
    ensures
        buffered_total(packets) == packets[sequence].packet.payload.len() + buffered_total(
            packets.remove(sequence),
        ),
{
    counting::lemma_sum_remove(packets, packet_weight(), sequence);
}

proof fn lemma_total_insert(packets: Map<u64, BufferedView>, sequence: u64, buffered: BufferedView)
    requires
        packets.dom().finite(),
        !packets.contains_key(sequence),
    ensures
        buffered_total(packets.insert(sequence, buffered)) == buffered.packet.payload.len()
            + buffered_total(packets),
{
    counting::lemma_sum_insert(packets, packet_weight(), sequence, buffered);
    assert(packets.remove(sequence) =~= packets);
}

impl AudioJitterBuffer {
    /// What holds of a buffer between calls.
    pub closed spec fn wf(self) -> bool {
        &&& config_ok(self.config)
        &&& self.packets@.len() <= self.config.max_packets
        &&& self.buffered_bytes == buffered_total(self@.packets)
        &&& self.buffered_bytes <= self.config.max_memory_bytes
        &&& forall|sequence: u64| #[trigger]
            self.packets@.contains_key(sequence) ==> {
                &&& self.packets@[sequence].packet.metadata.sequence_number == sequence
                &&& self.next_sequence is Some
                &&& self.next_sequence->Some_0 <= sequence
            }
    }

    pub fn new(config: AudioJitterConfig) -> (result: Result<AudioJitterBuffer, AudioDatagramError>)
        ensures
            if config_ok(config) {
                result matches Ok(buffer) && buffer.wf() && buffer@ == JitterView::fresh(config)
            } else {
                result == Err::<AudioJitterBuffer, _>(AudioDatagramError::InvalidJitterConfig)
            },
    {
        if config.max_packets == 0 || config.max_memory_bytes == 0 || config.start_packets == 0
            || config.start_packets > config.max_packets || config.playout_delay.nanos
            > config.max_packet_age.nanos {
            return Err(AudioDatagramError::InvalidJitterConfig);
        }
        let buffer = AudioJitterBuffer {
            config,
            packets: BTreeMap::new(),
            next_sequence: None,
            playout_started: false,
            buffered_bytes: 0,
            stats: AudioJitterStats::default(),
        };
        assert(buffer@.packets =~= Map::empty());
        Ok(buffer)
    }

    fn evict_oldest(&mut self) -> (evicted: bool)
        requires
            old(self).wf(),
        ensures
            final(self).wf(),
            evicted == (old(self)@.packets.dom().len() > 0),
            evicted ==> final(self)@ == old(self)@.without_oldest()
                && old(self)@.packets.contains_key(counting::least(old(self)@.packets.dom()))
                && final(self)@.packets.len() < old(self)@.packets.len(),
            !evicted ==> final(self)@ == old(self)@,
    {
        let keys = counting::keys_in_order(&self.packets);
        assert(self@.packets.dom() =~= self.packets@.dom());
        if keys.len() == 0 {
            return false;
        }
        let sequence: u64 = keys[0];
        proof {
            counting::lemma_ends_of_order(keys@, self@.packets.dom());
            lemma_total_remove(self@.packets, sequence);
            assert(models(self.packets@.remove(sequence)) =~= self@.packets.remove(sequence));
        }
        match self.packets.remove(&sequence) {
            Some(packet) => {
                self.buffered_bytes = self.buffered_bytes.saturating_sub(
                    packet.packet.payload.len(),
                );
                let is_next = match self.next_sequence {
                    Some(next) => next == sequence,
                    None => false,
                };
                if is_next {
                    self.next_sequence = sequence.checked_add(1);
                }
                self.stats.evicted_packets = self.stats.evicted_packets.saturating_add(1);
                true
            },
            None => false,
        }
    }

    /// Takes in a datagram that carries a packet.
    pub fn push_datagram(&mut self, datagram: &[u8], now: Instant) -> (result: Result<
        bool,
        AudioDatagramError,
    >)
        requires
            old(self).wf(),
        ensures
            final(self).wf(),
            (final(self)@, result) == old(self)@.pushed_datagram(datagram@, now),
    {
        let packet = decode_audio_datagram(datagram)?;
        self.push(packet, now)
    }

    /// Whether a packet of `length` bytes needs another one to leave first.
    fn needs_room(&self, length: usize) -> (full: bool)
        requires
            self.wf(),
        ensures
            full == self@.is_full_for(length as nat),
    {
        assert(self@.packets.dom() =~= self.packets@.dom());
        if self.packets.len() >= self.config.max_packets {
            return true;
        }
        match self.buffered_bytes.checked_add(length) {
            Some(total) => total > self.config.max_memory_bytes,
            None => true,
        }
    }

    /// The highest sequence number among the waiting packets and `sequence`.
    fn highest_with(&self, sequence: u64) -> (highest: u64)
        requires
            self.wf(),
        ensures
            highest == self@.highest_with(sequence),
    {
        let keys = counting::keys_in_order(&self.packets);
        assert(self@.packets.dom() =~= self.packets@.dom());
        if keys.len() > 0 {
            proof {
                counting::lemma_ends_of_order(keys@, self@.packets.dom());
            }
            let last: u64 = keys[keys.len() - 1];
            if last > sequence {
                return last;
            }
        }
        sequence
    }

    /// Lets the oldest packets go until there is room for `length` bytes.
    fn make_room(&mut self, length: usize)
        requires
            old(self).wf(),
            length <= old(self)@.config.max_memory_bytes,
        ensures
            final(self).wf(),
            final(self)@ == old(self)@.with_room(length as nat),
            !final(self)@.is_full_for(length as nat),
            final(self)@.packets.dom().subset_of(old(self)@.packets.dom()),
            final(self)@.config == old(self)@.config,
            final(self)@.playout_started == old(self)@.playout_started,
    {
        let ghost start = self@;
        assert(start.packets.dom() =~= self.packets@.dom());
        while self.needs_room(length)
            invariant
                self.wf(),
                self@.packets.dom().finite(),
                length <= self@.config.max_memory_bytes,
                self@.with_room(length as nat) == start.with_room(length as nat),
                self@.packets.dom().subset_of(start.packets.dom()),
                self@.config == start.config,
                self@.playout_started == start.playout_started,
            decreases self@.packets.dom().len(),
        {
            let ghost before = self@;
            assert(self@.packets.dom() =~= self.packets@.dom());
            let evicted = self.evict_oldest();
            assert(self@.packets.dom() =~= self.packets@.dom());
            assert(evicted);
        }
    }

    /// Takes in a packet; tells whether it waits now to be played.
    pub fn push(&mut self, packet: AudioPacket, now: Instant) -> (result: Result<
        bool,
        AudioDatagramError,
    >)
        requires
            old(self).wf(),
        ensures
            final(self).wf(),
            (final(self)@, result) == old(self)@.pushed(packet@, now),
    {
        validate_metadata(packet.metadata)?;
        if packet.payload.len() == 0 || packet.payload.len() > MAX_AUDIO_PAYLOAD_BYTES {
            return Err(AudioDatagramError::InvalidPayloadSize(packet.payload.len()));
        }
        let sequence: u64 = packet.metadata.sequence_number;
        let earliest: u64 = match self.next_sequence {
            Some(next) => {
                if self.playout_started && sequence < next {
                    self.stats.late_packets = self.stats.late_packets.saturating_add(1);
                    return Ok(false);
                }
                if next < sequence {
                    next
                } else {
                    sequence
                }
            },
            None => sequence,
        };
        assert(self@.packets.dom() =~= self.packets@.dom());
        if self.packets.contains_key(&sequence) {
            self.stats.duplicate_packets = self.stats.duplicate_packets.saturating_add(1);
            return Ok(false);
        }
        let highest: u64 = self.highest_with(sequence);
        if highest.saturating_sub(earliest) > MAX_AUDIO_SEQUENCE_AHEAD {
            return Err(AudioDatagramError::SequenceGap);
        }
        if packet.payload.len() > self.config.max_memory_bytes {
            return Err(AudioDatagramError::MemoryLimit);
        }
        self.make_room(packet.payload.len());
        self.hold(packet, now);
        Ok(true)
    }

    /// Keeps a packet for which there is room.
    fn hold(&mut self, packet: AudioPacket, now: Instant)
        requires
            old(self).wf(),
            !old(self)@.packets.contains_key(packet@.metadata.sequence_number),
            !old(self)@.is_full_for(packet@.payload.len()),
        ensures
            final(self).wf(),
            final(self)@ == old(self)@.holding(packet@, now),
    {
        let sequence: u64 = packet.metadata.sequence_number;
        let ghost buffered = BufferedView { packet: packet@, arrived_at: now };
        proof {
            assert(self@.packets.dom() =~= self.packets@.dom());
            lemma_total_insert(self@.packets, sequence, buffered);
        }
        self.next_sequence = Some(
            match self.next_sequence {
                Some(next) => if next < sequence {
                    next
                } else {
                    sequence
                },
                None => sequence,
            },
        );
        self.buffered_bytes = self.buffered_bytes + packet.payload.len();
        let held = BufferedAudioPacket { packet, arrived_at: now };
        proof {
            assert(models(self.packets@.insert(sequence, held)) =~= models(self.packets@).insert(
                sequence,
                buffered,
            ));
        }
        self.packets.insert(sequence, held);
        self.stats.accepted_packets = self.stats.accepted_packets.saturating_add(1);
    }

    fn discard_expired(&mut self, now: Instant)
        requires
            old(self).wf(),
        ensures
            final(self).wf(),
            final(self)@ == old(self)@.without_overdue(now),
    {
        let keys = counting::keys_in_order(&self.packets);
        let ghost mut gone: Set<u64> = Set::empty();
        let ghost before = self@;
        let mut index: usize = 0;
        assert(before.packets.dom() =~= self.packets@.dom());
        assert(before.packets.remove_keys(gone) =~= before.packets);
        while index < keys.len()
            invariant
                self.wf(),
                counting::lists_in_order(keys@, before.packets.dom()),
                index <= keys@.len(),
                gone.finite(),
                forall|id: u64| #[trigger]
                    gone.contains(id) <==> (before.overdue(now).contains(id) && exists|k: int|
                        0 <= k < index && keys@[k] == id),
                self@ == (JitterView {
                    packets: before.packets.remove_keys(gone),
                    stats: AudioJitterStats {
                        late_packets: counting::saturated64(before.stats.late_packets, gone.len()),
                        ..before.stats
                    },
                    ..before
                }),
            decreases keys@.len() - index,
        {
            let sequence: u64 = keys[index];
            assert(keys@.contains(sequence));
            assert(!gone.contains(sequence)) by {
                if gone.contains(sequence) {
                    let k = choose|k: int| 0 <= k < index && keys@[k] == sequence;
                    assert(keys@[k] < keys@[index as int]);
                }
            }
            assert(self@.packets.contains_key(sequence));
            let overdue = match self.packets.get(&sequence) {
                Some(packet) => {
                    assert(self@.packets[sequence] == packet.model());
                    now.saturating_duration_since(packet.arrived_at).nanos
                        >= self.config.max_packet_age.nanos
                },
                None => false,
            };
            if overdue {
                self.remove_packet(sequence);
                self.stats.late_packets = self.stats.late_packets.saturating_add(1);
                proof {
                    assert(before.packets.remove_keys(gone).remove(sequence)
                        =~= before.packets.remove_keys(gone.insert(sequence)));
                    gone = gone.insert(sequence);
                }
            }
            index = index + 1;
        }
        assert(gone =~= before.overdue(now)) by {
            assert forall|id: u64| before.overdue(now).contains(id) implies gone.contains(id) by {
                assert(keys@.contains(id));
                let k = choose|k: int| 0 <= k < keys@.len() && keys@[k] == id;
                assert(keys@[k] == id);
            }
        }
    }

    fn remove_packet(&mut self, sequence: u64) -> (packet: AudioPacket)
        requires
            old(self).wf(),
            old(self)@.packets.contains_key(sequence),
        ensures
            final(self).wf(),
            final(self)@ == (JitterView {
                packets: old(self)@.packets.remove(sequence),
                ..old(self)@
            }),
            packet@ == old(self)@.packets[sequence].packet,
    {
        proof {
            assert(self@.packets.dom() =~= self.packets@.dom());
            lemma_total_remove(self@.packets, sequence);
            assert(models(self.packets@.remove(sequence)) =~= self@.packets.remove(sequence));
            assert(self@.packets[sequence] == self.packets@[sequence].model());
        }
        let buffered = self.packets.remove(&sequence).unwrap();
        self.buffered_bytes = self.buffered_bytes.saturating_sub(buffered.packet.payload.len());
        buffered.packet
    }

    /// Whether the packet `sequence`, which waits, can be played now.
    fn is_due(&self, sequence: u64, now: Instant) -> (due: bool)
        requires
            self.wf(),
            self@.packets.contains_key(sequence),
        ensures
            due == self@.is_due(self@.packets[sequence], now),
    {
        assert(self@.packets.dom() =~= self.packets@.dom());
        match self.packets.get(&sequence) {
            Some(buffered) => {
                assert(self@.packets[sequence] == buffered.model());
                self.packets.len() >= self.config.start_packets || now.saturating_duration_since(
                    buffered.arrived_at,
                ).nanos >= self.config.playout_delay.nanos
            },
            None => false,
        }
    }

    /// What is to be played now: the next packet, the loss of it, or nothing.
    pub fn pop_ready(&mut self, now: Instant) -> (item: Option<AudioPlayoutItem>)
        requires
            old(self).wf(),
        ensures
            final(self).wf(),
            final(self)@ == old(self)@.popped(now).0,
            match old(self)@.popped(now).1 {
                Some(view) => item matches Some(played) && played@ == view,
                None => item is None,
            },
    {
        self.discard_expired(now);
        let ghost before = self@;
        assert(before.packets.dom() =~= self.packets@.dom());
        let sequence: u64 = match self.next_sequence {
            Some(sequence) => sequence,
            None => {
                return None;
            },
        };
        if self.packets.contains_key(&sequence) {
            if !self.is_due(sequence, now) {
                return None;
            }
            let packet = self.remove_packet(sequence);
            assert forall|other: u64| self.packets@.contains_key(other) implies other
                > sequence by {
                assert(self@.packets.contains_key(other));
                assert(before.packets.contains_key(other));
            }
            self.next_sequence = sequence.checked_add(1);
            self.playout_started = true;
            self.stats.played_packets = self.stats.played_packets.saturating_add(1);
            return Some(AudioPlayoutItem::Packet(packet));
        }
        let keys = counting::keys_in_order(&self.packets);
        if keys.len() == 0 {
            return None;
        }
        proof {
            counting::lemma_ends_of_order(keys@, before.packets.dom());
        }
        if !self.is_due(keys[0], now) {
            return None;
        }
        self.next_sequence = sequence.checked_add(1);
        self.playout_started = true;
        self.stats.lost_packets = self.stats.lost_packets.saturating_add(1);
        Some(AudioPlayoutItem::PacketLoss { sequence_number: sequence })
    }

    /// How much waits to be played.
    pub fn state(&self) -> (state: AudioJitterState)
        requires
            self.wf(),
        ensures
            state.queue_depth == self@.packets.len(),
            state.queue_depth <= self@.config.max_packets,
            state.buffered_bytes == buffered_total(self@.packets),
            state.buffered_bytes <= self@.config.max_memory_bytes,
            state.buffered_capture_span_us == self@.capture_span(),
    {
        let keys = counting::keys_in_order(&self.packets);
        assert(self@.packets.dom() =~= self.packets@.dom());
        let span: u64 = if keys.len() == 0 {
            0
        } else {
            proof {
                counting::lemma_ends_of_order(keys@, self@.packets.dom());
            }
            let first: u64 = self.capture_time(keys[0]);
            let last: u64 = self.capture_time(keys[keys.len() - 1]);
            last.saturating_sub(first)
        };
        AudioJitterState {
            queue_depth: self.packets.len(),
            buffered_bytes: self.buffered_bytes,
            buffered_capture_span_us: span,
        }
    }

    fn capture_time(&self, sequence: u64) -> (time: u64)
        requires
            self.wf(),
            self@.packets.contains_key(sequence),
        ensures
            time == self@.packets[sequence].packet.metadata.capture_timestamp_us,
    {
        assert(self@.packets.dom() =~= self.packets@.dom());
        match self.packets.get(&sequence) {
            Some(buffered) => {
                assert(self@.packets[sequence] == buffered.model());
                buffered.packet.metadata.capture_timestamp_us
            },
            None => 0,
        }
    }

    pub fn stats(&self) -> (stats: &AudioJitterStats)
        ensures
            *stats == self@.stats,
    {
        &self.stats
    }

    /// Forgets all packets and where playing stood.
    pub fn reset(&mut self)
        requires
            old(self).wf(),
        ensures
            final(self).wf(),
            final(self)@ == (JitterView {
                stats: old(self)@.stats,
                ..JitterView::fresh(old(self)@.config)
            }),
    {
        self.packets.clear();
        self.next_sequence = None;
        self.playout_started = false;
        self.buffered_bytes = 0;
        assert(self@.packets =~= Map::empty());
    }
}

impl PlayoutView {
    /// The place in the stream that is played.
    pub open spec fn sequence(self) -> u64 {
        match self {
            PlayoutView::Packet(packet) => packet.metadata.sequence_number,
            PlayoutView::PacketLoss(sequence) => sequence,
        }
    }
}

impl JitterView {
    /// Every packet waits in its own place, and none before the next one to be played.
    pub open spec fn ordered(self) -> bool {
        &&& self.packets.dom().finite()
        &&& forall|sequence: u64| #[trigger]
            self.packets.contains_key(sequence) ==> {
                &&& self.packets[sequence].packet.metadata.sequence_number == sequence
                &&& self.next_sequence is Some
                &&& self.next_sequence->Some_0 <= sequence
            }
    }
}

/// The packets of a buffer are in order between calls.
pub proof fn lemma_buffer_is_ordered(buffer: AudioJitterBuffer)
    requires
        buffer.wf(),
    ensures
        buffer@.ordered(),
        buffer@.packets.len() <= buffer@.config.max_packets,
        buffered_total(buffer@.packets) <= buffer@.config.max_memory_bytes,
{
    assert(buffer@.packets.dom() =~= buffer.packets@.dom());
    assert forall|sequence: u64| #[trigger] buffer@.packets.contains_key(sequence) implies {
        &&& buffer@.packets[sequence].packet.metadata.sequence_number == sequence
        &&& buffer@.next_sequence is Some
        &&& buffer@.next_sequence->Some_0 <= sequence
    } by {
        assert(buffer.packets@.contains_key(sequence));
    }
}

/// What is played is the next place in the stream, and the place after it comes next.
pub proof fn lemma_playout_in_order(state: JitterView, now: Instant)
    requires
        state.ordered(),
    ensures
        match state.popped(now) {
            (after, Some(item)) => state.next_sequence == Some(item.sequence())
                && after.next_sequence == sequence_after(item.sequence())
                && after.playout_started,
            (after, None) => after.next_sequence == state.next_sequence && after.playout_started
                == state.playout_started,
        },
{
    let rest = state.without_overdue(now);
    assert forall|sequence: u64| rest.packets.contains_key(
        sequence,
    ) implies #[trigger] state.packets.contains_key(sequence) by {}
}

/// Whether the second of two places is unknown or not before the first.
pub open spec fn not_before(first: Option<u64>, second: Option<u64>) -> bool {
    first is Some && second is Some ==> first->Some_0 <= second->Some_0
}

#[verifier::rlimit(50)]
#[verifier::spinoff_prover]
proof fn lemma_room_keeps_place(state: JitterView, length: nat)
    requires
        state.packets.dom().finite(),
    ensures
        state.with_room(length).playout_started == state.playout_started,
        not_before(state.next_sequence, state.with_room(length).next_sequence),
    decreases state.packets.dom().len(),
{
    if state.is_full_for(length) && state.packets.dom().len() > 0 && state.packets.contains_key(
        counting::least(state.packets.dom()),
    ) {
        lemma_room_keeps_place(state.without_oldest(), length);
        if state.without_oldest().next_sequence is None {
            lemma_room_keeps_none(state.without_oldest(), length);
        } else {
            assert(not_before(state.next_sequence, state.without_oldest().next_sequence));
        }
    }
}

proof fn lemma_room_keeps_none(state: JitterView, length: nat)
    requires
        state.packets.dom().finite(),
        state.next_sequence is None,
    ensures
        state.with_room(length).next_sequence is None,
    decreases state.packets.dom().len(),
{
    if state.is_full_for(length) && state.packets.dom().len() > 0 && state.packets.contains_key(
        counting::least(state.packets.dom()),
    ) {
        lemma_room_keeps_none(state.without_oldest(), length);
    }
}

/// Once playing has started, no packet that arrives moves it back, so that no
/// place of the stream is played twice.
pub proof fn lemma_arrivals_never_rewind(state: JitterView, packet: PacketView, now: Instant)
    requires
        state.packets.dom().finite(),
        state.playout_started,
        state.next_sequence is Some,
    ensures
        state.pushed(packet, now).0.playout_started,
        state.pushed(packet, now).0.next_sequence is Some,
        state.pushed(packet, now).0.next_sequence->Some_0 >= state.next_sequence->Some_0,
{
    lemma_room_keeps_place(state, packet.payload.len());
}

/// A packet that arrives is either only counted, or takes a place that was not played yet.
proof fn lemma_arrival(state: JitterView, packet: PacketView, now: Instant)
    ensures
        ({
            let after = state.pushed(packet, now).0;
            ||| after == (JitterView { stats: after.stats, ..state })
                && after.stats.evicted_packets == state.stats.evicted_packets
            ||| after == state.with_room(packet.payload.len()).holding(packet, now)
                && !state.is_late(packet.metadata.sequence_number)
        }),
{
}

/// Once playing has started, a packet that arrives while there is room for it leaves the next
/// place to be played as it is.
pub proof fn lemma_arrival_keeps_place(state: JitterView, packet: PacketView, now: Instant)
    requires
        state.packets.dom().finite(),
        state.playout_started,
        state.next_sequence is Some,
        !state.is_full_for(packet.payload.len()),
    ensures
        state.pushed(packet, now).0.next_sequence == state.next_sequence,
{
    lemma_arrival(state, packet, now);
    assert(state.with_room(packet.payload.len()) == state);
}

proof fn lemma_room_keeps_order(state: JitterView, length: nat)
    requires
        state.ordered(),
    ensures
        state.with_room(length).ordered(),
        state.with_room(length).stats.evicted_packets >= state.stats.evicted_packets,
        state.with_room(length) == state || state.stats.evicted_packets == u64::MAX
            || state.with_room(length).stats.evicted_packets > state.stats.evicted_packets,
    decreases state.packets.dom().len(),
{
    let oldest = counting::least(state.packets.dom());
    if state.is_full_for(length) && state.packets.dom().len() > 0 && state.packets.contains_key(
        oldest,
    ) {
        let rest = state.without_oldest();
        counting::lemma_least(state.packets.dom());
        assert(rest.packets.dom() =~= state.packets.dom().remove(oldest));
        assert forall|sequence: u64| #[trigger] rest.packets.contains_key(sequence) implies {
            &&& rest.packets[sequence].packet.metadata.sequence_number == sequence
            &&& rest.next_sequence is Some
            &&& rest.next_sequence->Some_0 <= sequence
        } by {
            assert(state.packets.contains_key(sequence));
            assert(state.packets.dom().contains(sequence));
        }
        lemma_room_keeps_order(rest, length);
    }
}

/// A packet that arrives leaves the packets in order. The next place to be played changes
/// only where an older packet had to leave, which is counted.
proof fn lemma_arrival_keeps_order(state: JitterView, packet: PacketView, now: Instant)
    requires
        state.ordered(),
    ensures
        ({
            let after = state.pushed(packet, now).0;
            &&& after.ordered()
            &&& after.stats.evicted_packets >= state.stats.evicted_packets
            &&& state.playout_started && state.next_sequence is Some
                && state.stats.evicted_packets < u64::MAX && after.stats.evicted_packets
                == state.stats.evicted_packets ==> after.playout_started && after.next_sequence
                == state.next_sequence
        }),
{
    let sequence = packet.metadata.sequence_number;
    let room = state.with_room(packet.payload.len());
    lemma_arrival(state, packet, now);
    let after = room.holding(packet, now);
    lemma_room_keeps_order(state, packet.payload.len());
    assert(after.packets.dom() =~= room.packets.dom().insert(sequence));
    assert forall|other: u64| #[trigger] after.packets.contains_key(other) implies {
        &&& after.packets[other].packet.metadata.sequence_number == other
        &&& after.next_sequence is Some
        &&& after.next_sequence->Some_0 <= other
    } by {
        if other != sequence {
            assert(room.packets.contains_key(other));
        }
    }
    assert(after.ordered());
}

proof fn lemma_playout_keeps_order(state: JitterView, now: Instant)
    requires
        state.ordered(),
    ensures
        state.popped(now).0.ordered(),
        state.popped(now).0.stats.evicted_packets == state.stats.evicted_packets,
{
    let rest = state.without_overdue(now);
    let after = state.popped(now).0;
    assert(rest.packets.dom() =~= state.packets.dom().difference(state.overdue(now)));
    assert forall|sequence: u64| #[trigger] after.packets.contains_key(sequence) implies {
        &&& after.packets[sequence].packet.metadata.sequence_number == sequence
        &&& after.next_sequence is Some
        &&& after.next_sequence->Some_0 <= sequence
    } by {
        assert(rest.packets.contains_key(sequence));
        assert(state.packets.contains_key(sequence));
    }
    if after.packets != rest.packets {
        assert(after.packets.dom() =~= rest.packets.dom().remove(state.next_sequence->Some_0));
    }
}

/// A call that changes a jitter buffer and does not reset it.
pub enum JitterCall {
    Push(PacketView, Instant),
    PushDatagram(Seq<u8>, Instant),
    PopReady(Instant),
}

impl JitterView {
    /// The state after a call.
    pub open spec fn after_call(self, call: JitterCall) -> JitterView {
        match call {
            JitterCall::Push(packet, now) => self.pushed(packet, now).0,
            JitterCall::PushDatagram(datagram, now) => self.pushed_datagram(datagram, now).0,
            JitterCall::PopReady(now) => self.popped(now).0,
        }
    }

    /// The state after calls, one after the other.
    pub open spec fn after_calls(self, calls: Seq<JitterCall>) -> JitterView
        decreases calls.len(),
    {
        if calls.len() == 0 {
            self
        } else {
            self.after_calls(calls.drop_last()).after_call(calls.last())
        }
    }

    /// Whether none of the calls, one after the other, gives anything to play.
    pub open spec fn plays_nothing(self, calls: Seq<JitterCall>) -> bool
        decreases calls.len(),
    {
        calls.len() == 0 || {
            &&& self.plays_nothing(calls.drop_last())
            &&& calls.last() matches JitterCall::PopReady(now) ==> self.after_calls(
                calls.drop_last(),
            ).popped(now).1 is None
        }
    }
}

proof fn lemma_calls_keep_place(state: JitterView, calls: Seq<JitterCall>)
    requires
        state.ordered(),
        state.playout_started,
        state.next_sequence is Some,
        state.stats.evicted_packets < u64::MAX,
        state.plays_nothing(calls),
    ensures
        ({
            let after = state.after_calls(calls);
            &&& after.ordered()
            &&& after.stats.evicted_packets >= state.stats.evicted_packets
            &&& after.stats.evicted_packets == state.stats.evicted_packets
                ==> after.playout_started && after.next_sequence == state.next_sequence
        }),
    decreases calls.len(),
{
    if calls.len() > 0 {
        let before = state.after_calls(calls.drop_last());
        lemma_calls_keep_place(state, calls.drop_last());
        match calls.last() {
            JitterCall::Push(packet, now) => lemma_arrival_keeps_order(before, packet, now),
            JitterCall::PushDatagram(datagram, now) => {
                if let Ok(packet) = parse_audio_datagram(datagram) {
                    lemma_arrival_keeps_order(before, packet, now);
                }
            },
            JitterCall::PopReady(now) => {
                lemma_playout_keeps_order(before, now);
                lemma_playout_in_order(before, now);
            },
        }
    }
}

/// Playing has neither gaps nor repeats: while no packet has to leave for another one, what is
/// played next, after whatever arrived in between, is the place behind the one played last.
/// Where packets have left is seen from their count, as long as it can still grow.
pub proof fn lemma_playout_has_no_gaps(
    state: JitterView,
    first: Instant,
    calls: Seq<JitterCall>,
    second: Instant,
)
    requires
        state.ordered(),
        state.popped(first).1 is Some,
        state.popped(first).1->Some_0.sequence() < u64::MAX,
        state.popped(first).0.plays_nothing(calls),
        state.popped(first).0.after_calls(calls).popped(second).1 is Some,
        state.stats.evicted_packets < u64::MAX,
        state.popped(first).0.after_calls(calls).popped(second).0.stats.evicted_packets
            == state.stats.evicted_packets,
    ensures
        state.popped(first).0.after_calls(calls).popped(second).1->Some_0.sequence()
            == state.popped(first).1->Some_0.sequence() + 1,
{
    let played = state.popped(first).0;
    lemma_playout_in_order(state, first);
    lemma_playout_keeps_order(state, first);
    lemma_calls_keep_place(played, calls);
    lemma_playout_in_order(played.after_calls(calls), second);
    lemma_playout_keeps_order(played.after_calls(calls), second);
}

impl JitterView {
    /// Whether a packet still waits at the given time: it is there, and not too old.
    pub open spec fn waits(self, sequence: u64, now: Instant) -> bool {
        self.packets.contains_key(sequence) && now.since(self.packets[sequence].arrived_at).nanos
            < self.config.max_packet_age.nanos
    }

    /// The places of the packets that still wait at the given time.
    pub open spec fn waiting(self, now: Instant) -> Set<u64> {
        Set::new(|sequence: u64| self.waits(sequence, now))
    }
}

proof fn lemma_waiting(state: JitterView, now: Instant)
    requires
        state.packets.dom().finite(),
    ensures
        state.without_overdue(now).packets.dom() == state.waiting(now),
        state.waiting(now).finite(),
        state.overdue(now).finite(),
        forall|sequence: u64| #[trigger]
            state.waits(sequence, now) ==> state.without_overdue(now).packets[sequence]
                == state.packets[sequence],
        state.packets.dom().len() == state.waiting(now).len() + state.overdue(now).len(),
{
    let rest = state.without_overdue(now).packets;
    assert(rest.dom() =~= state.waiting(now));
    assert(state.waiting(now) =~= state.packets.dom().difference(state.overdue(now)));
    assert(state.overdue(now).subset_of(state.packets.dom()));
    vstd::set_lib::lemma_set_intersect_union_lens(state.waiting(now), state.overdue(now));
    assert(state.waiting(now).union(state.overdue(now)) =~= state.packets.dom());
    assert(state.waiting(now).intersect(state.overdue(now)) =~= Set::empty());
}

/// A packet that waits in the next place is what is played, with the metadata and the bytes
/// that it came with: as soon as enough packets wait, or once it has waited for the playout
/// delay.
pub proof fn lemma_waiting_packet_is_played(state: JitterView, sequence: u64, now: Instant)
    requires
        state.packets.dom().finite(),
        state.next_sequence == Some(sequence),
        state.waits(sequence, now),
    ensures
        state.popped(now).1 == if state.waiting(now).len() >= state.config.start_packets
            || now.since(state.packets[sequence].arrived_at).nanos
            >= state.config.playout_delay.nanos {
            Some(PlayoutView::Packet(state.packets[sequence].packet))
        } else {
            None
        },
{
    lemma_waiting(state, now);
}

/// A loss is reported only for the next place, where no packet waits there, but one does behind
/// it: as soon as enough packets wait, or once the first of them has waited for the playout
/// delay. Without any packet that waits nothing is played.
pub proof fn lemma_only_missing_packets_are_lost(state: JitterView, now: Instant)
    requires
        state.ordered(),
    ensures
        state.popped(now).1 matches Some(PlayoutView::PacketLoss(sequence)) ==> {
            &&& state.next_sequence == Some(sequence)
            &&& !state.waits(sequence, now)
            &&& exists|later: u64| later > sequence && #[trigger] state.waits(later, now)
        },
        state.next_sequence matches Some(sequence) ==> !state.waits(sequence, now) ==> (
        state.popped(now).1 == Some(PlayoutView::PacketLoss(sequence)) <==> {
            ||| state.waiting(now).len() > 0 && state.waiting(now).len()
                >= state.config.start_packets
            ||| exists|first: u64| #[trigger]
                state.waits(first, now) && now.since(state.packets[first].arrived_at).nanos
                    >= state.config.playout_delay.nanos && forall|other: u64| #[trigger]
                    state.waits(other, now) ==> first <= other
        }),
        state.next_sequence is None ==> state.popped(now).1 is None,
        state.waiting(now).len() == 0 ==> state.popped(now).1 is None,
{
    lemma_waiting(state, now);
    let rest = state.without_overdue(now);
    if state.waiting(now).len() > 0 {
        counting::lemma_least(state.waiting(now));
        let first = counting::least(state.waiting(now));
        assert(state.waiting(now).contains(first));
        assert(state.waits(first, now));
        assert(state.packets.contains_key(first));
        assert forall|other: u64| #[trigger] state.waits(other, now) implies first <= other by {
            assert(state.waiting(now).contains(other));
        }
    } else {
        assert forall|other: u64| !#[trigger] state.waits(other, now) by {
            if state.waits(other, now) {
                assert(state.waiting(now).contains(other));
            }
        }
    }
}

/// What playing does besides: what was too old is gone and counts as late, the packet that is
/// played is gone and counts as played, a loss counts as lost, and every other packet that
/// waits stays as it is.
pub proof fn lemma_playout_keeps_the_rest(state: JitterView, now: Instant)
    requires
        state.packets.dom().finite(),
    ensures
        ({
            let (after, item) = state.popped(now);
            let late = state.stats.late_packets + (state.packets.dom().len() - state.waiting(
                now,
            ).len());
            &&& after.config == state.config
            &&& forall|sequence: u64| #[trigger]
                after.packets.contains_key(sequence) <==> state.waits(sequence, now) && !(
                item matches Some(PlayoutView::Packet(_)) && state.next_sequence == Some(sequence))
            &&& forall|sequence: u64| #[trigger]
                after.packets.contains_key(sequence) ==> after.packets[sequence]
                    == state.packets[sequence]
            &&& late <= u64::MAX ==> after.stats.late_packets == late
            &&& after.stats.accepted_packets == state.stats.accepted_packets
            &&& after.stats.duplicate_packets == state.stats.duplicate_packets
            &&& after.stats.evicted_packets == state.stats.evicted_packets
            &&& state.stats.played_packets < u64::MAX ==> after.stats.played_packets
                == state.stats.played_packets + if item matches Some(PlayoutView::Packet(_)) {
                1int
            } else {
                0int
            }
            &&& state.stats.lost_packets < u64::MAX ==> after.stats.lost_packets
                == state.stats.lost_packets + if item matches Some(PlayoutView::PacketLoss(_)) {
                1int
            } else {
                0int
            }
        }),
{
    lemma_waiting(state, now);
    let after = state.popped(now).0;
    assert forall|sequence: u64| #[trigger] after.packets.contains_key(sequence) implies
        state.waits(sequence, now) by {
        assert(state.without_overdue(now).packets.dom().contains(sequence));
        assert(state.waiting(now).contains(sequence));
    }
    assert forall|sequence: u64| state.waits(sequence, now) implies #[trigger]
        state.without_overdue(now).packets.contains_key(sequence) by {
        assert(state.waiting(now).contains(sequence));
    }
}

/// A packet is taken in exactly where it has a sequence number, one to eight channels, a sample
/// rate from 8 to 192 kHz and one to 65536 bytes that fit in the memory; where its place was not
/// played yet and is free; and where it is not more than 4096 places away from the others. It
/// waits from then on just as it came.
#[verifier::rlimit(60)]
#[verifier::spinoff_prover]
pub proof fn lemma_good_packets_are_taken(state: JitterView, packet: PacketView, now: Instant)
    requires
        state.packets.dom().finite(),
    ensures
        ({
            let sequence = packet.metadata.sequence_number;
            let good = {
                &&& sequence > 0
                &&& 1 <= packet.metadata.channels <= 8
                &&& 8_000 <= packet.metadata.sample_rate_hz <= 192_000
                &&& 1 <= packet.payload.len() <= 65_536
            };
            let played = state.playout_started && state.next_sequence is Some && sequence
                < state.next_sequence->Some_0;
            let near = {
                &&& state.next_sequence matches Some(next) ==> sequence <= next + 4_096
                &&& forall|other: u64| #[trigger]
                    state.packets.contains_key(other) ==> other <= sequence + 4_096 && (
                    state.next_sequence matches Some(next) ==> other <= next + 4_096)
            };
            let (after, result) = state.pushed(packet, now);
            &&& result == Ok::<_, AudioDatagramError>(true) <==> good && !played
                && !state.packets.contains_key(sequence) && near && packet.payload.len()
                <= state.config.max_memory_bytes
            &&& result == Ok::<_, AudioDatagramError>(false) <==> good && (played
                || state.packets.contains_key(sequence))
            &&& result == Ok::<_, AudioDatagramError>(true) ==> {
                &&& after.packets.contains_key(sequence)
                &&& after.packets[sequence].packet == packet
                &&& after.packets[sequence].arrived_at == now
                &&& state.stats.accepted_packets < u64::MAX ==> after.stats.accepted_packets
                    == state.stats.accepted_packets + 1
            }
            &&& result != Ok::<_, AudioDatagramError>(true) ==> {
                &&& after.packets == state.packets
                &&& after.next_sequence == state.next_sequence
                &&& after.stats.accepted_packets == state.stats.accepted_packets
                &&& after.stats.evicted_packets == state.stats.evicted_packets
            }
            &&& result is Err ==> after == state
            &&& result == Ok::<_, AudioDatagramError>(false) && played ==> (
            state.stats.late_packets < u64::MAX ==> after.stats.late_packets
                == state.stats.late_packets + 1)
            &&& result == Ok::<_, AudioDatagramError>(false) && !played ==> (
            state.stats.duplicate_packets < u64::MAX ==> after.stats.duplicate_packets
                == state.stats.duplicate_packets + 1)
            &&& after.config == state.config
            &&& after.playout_started == state.playout_started
            &&& after.stats.played_packets == state.stats.played_packets
            &&& after.stats.lost_packets == state.stats.lost_packets
        }),
{
    let sequence = packet.metadata.sequence_number;
    let length = packet.payload.len();
    let far = state.highest_with(sequence) - earlier_of(state.next_sequence, sequence) > 4_096;
    lemma_nearness(state, sequence);
    assert(far ==> !(length == 0 || length > 65_536) ==> state.pushed(packet, now).1 != Ok::<
        _,
        AudioDatagramError,
    >(true));
    let room = state.with_room(length);
    assert(room.config == state.config && room.playout_started == state.playout_started
        && room.stats.accepted_packets == state.stats.accepted_packets && room.stats.played_packets
        == state.stats.played_packets && room.stats.lost_packets == state.stats.lost_packets) by {
        lemma_room(state, length);
    }
}

/// The span of sequence numbers is short exactly where no two of them are far apart.
proof fn lemma_nearness(state: JitterView, sequence: u64)
    requires
        state.packets.dom().finite(),
    ensures
        state.highest_with(sequence) - earlier_of(state.next_sequence, sequence) <= 4_096 <==> {
            &&& state.next_sequence matches Some(next) ==> sequence <= next + 4_096
            &&& forall|other: u64| #[trigger]
                state.packets.contains_key(other) ==> other <= sequence + 4_096 && (
                state.next_sequence matches Some(next) ==> other <= next + 4_096)
        },
{
    if state.packets.dom().len() > 0 {
        counting::lemma_greatest(state.packets.dom());
        assert(state.packets.contains_key(counting::greatest(state.packets.dom())));
        assert forall|other: u64| #[trigger] state.packets.contains_key(other) implies other
            <= counting::greatest(state.packets.dom()) by {
            assert(state.packets.dom().contains(other));
        }
    } else {
        assert forall|other: u64| !#[trigger] state.packets.contains_key(other) by {
            assert(!state.packets.dom().contains(other));
        }
    }
}

/// What making room does: the oldest packets leave, none more than needed, and all others stay.
proof fn lemma_room(state: JitterView, length: nat)
    requires
        state.packets.dom().finite(),
    ensures
        ({
            let room = state.with_room(length);
            &&& room.packets.dom().finite()
            &&& room.config == state.config
            &&& room.playout_started == state.playout_started
            &&& room.stats == (AudioJitterStats {
                evicted_packets: room.stats.evicted_packets,
                ..state.stats
            })
            &&& forall|kept: u64| #[trigger]
                room.packets.contains_key(kept) ==> state.packets.contains_key(kept)
                    && room.packets[kept] == state.packets[kept]
            &&& forall|gone: u64, kept: u64|
                state.packets.contains_key(gone) && !#[trigger] room.packets.contains_key(gone)
                    && #[trigger] room.packets.contains_key(kept) ==> gone < kept
            &&& state.packets.dom().len() < state.config.max_packets && buffered_total(
                state.packets,
            ) + length <= state.config.max_memory_bytes ==> room == state
            &&& room.packets != state.packets ==> exists|gone: u64|
                is_last_to_leave(state, room, gone, length)
            &&& state.stats.evicted_packets + (state.packets.dom().len() - room.packets.dom().len())
                <= u64::MAX ==> room.stats.evicted_packets == state.stats.evicted_packets + (
            state.packets.dom().len() - room.packets.dom().len())
            &&& room.packets.dom().len() <= state.packets.dom().len()
        }),
    decreases state.packets.dom().len(),
{
    let oldest = counting::least(state.packets.dom());
    let room = state.with_room(length);
    if state.is_full_for(length) && state.packets.dom().len() > 0 && state.packets.contains_key(
        oldest,
    ) {
        let rest = state.without_oldest();
        counting::lemma_least(state.packets.dom());
        assert(rest.packets.dom() =~= state.packets.dom().remove(oldest));
        lemma_room(rest, length);
        assert forall|gone: u64, kept: u64|
            state.packets.contains_key(gone) && !#[trigger] room.packets.contains_key(gone)
                && #[trigger] room.packets.contains_key(kept) implies gone < kept by {
            assert(rest.packets.contains_key(kept));
            assert(state.packets.dom().contains(kept));
            if gone != oldest {
                assert(rest.packets.contains_key(gone));
            }
        }
        if room.packets == rest.packets {
            assert(room.packets.insert(oldest, state.packets[oldest]) =~= state.packets);
            assert(is_last_to_leave(state, room, oldest, length));
        } else {
            let gone = choose|gone: u64| is_last_to_leave(rest, room, gone, length);
            assert(rest.packets.contains_key(gone));
            assert(room.packets.insert(gone, rest.packets[gone]) == room.packets.insert(
                gone,
                state.packets[gone],
            ));
            assert(is_last_to_leave(state, room, gone, length));
        }
    }
}

/// Whether a packet left although all newer ones could stay: with it there would have been too
/// many packets or bytes.
pub open spec fn is_last_to_leave(
    before: JitterView,
    after: JitterView,
    gone: u64,
    length: nat,
) -> bool {
    let with = after.packets.insert(gone, before.packets[gone]);
    &&& before.packets.contains_key(gone)
    &&& !after.packets.contains_key(gone)
    &&& with.dom().len() >= before.config.max_packets || buffered_total(with) + length
        > before.config.max_memory_bytes
}

proof fn lemma_arrival_is_put_in_place(state: JitterView, packet: PacketView, now: Instant)
    ensures
        ({
            let (after, result) = state.pushed(packet, now);
            &&& result == Ok::<_, AudioDatagramError>(true) ==> after == state.with_room(
                packet.payload.len(),
            ).holding(packet, now) && !state.packets.contains_key(packet.metadata.sequence_number)
            &&& result != Ok::<_, AudioDatagramError>(true) ==> after.packets == state.packets
        }),
{
}

/// Packets leave only for one that is taken in and for which there is no room: always the oldest
/// ones, each of them counted, and no more than needed. All others wait on as they were.
#[verifier::rlimit(60)]
#[verifier::spinoff_prover]
pub proof fn lemma_only_the_oldest_leave(state: JitterView, packet: PacketView, now: Instant)
    requires
        state.packets.dom().finite(),
    ensures
        ({
            let sequence = packet.metadata.sequence_number;
            let (after, result) = state.pushed(packet, now);
            let rest = JitterView { packets: after.packets.remove(sequence), ..after };
            let left = state.packets.dom().len() - rest.packets.dom().len();
            &&& forall|kept: u64|
                kept != sequence && #[trigger] after.packets.contains_key(kept)
                    ==> state.packets.contains_key(kept) && after.packets[kept]
                    == state.packets[kept]
            &&& forall|gone: u64, kept: u64|
                state.packets.contains_key(gone) && !#[trigger] after.packets.contains_key(gone)
                    && kept != sequence && #[trigger] after.packets.contains_key(kept) ==> gone
                    < kept
            &&& state.packets.dom().len() < state.config.max_packets && buffered_total(
                state.packets,
            ) + packet.payload.len() <= state.config.max_memory_bytes ==> forall|kept: u64|
                #[trigger] state.packets.contains_key(kept) ==> after.packets.contains_key(kept)
            &&& result == Ok::<_, AudioDatagramError>(true) && rest.packets != state.packets
                ==> exists|gone: u64| is_last_to_leave(state, rest, gone, packet.payload.len())
            &&& result == Ok::<_, AudioDatagramError>(true) && state.stats.evicted_packets + left
                <= u64::MAX ==> after.stats.evicted_packets == state.stats.evicted_packets + left
        }),
{
    let sequence = packet.metadata.sequence_number;
    let room = state.with_room(packet.payload.len());
    let after = state.pushed(packet, now).0;
    lemma_arrival_is_put_in_place(state, packet, now);
    lemma_room(state, packet.payload.len());
    if state.pushed(packet, now).1 == Ok::<_, AudioDatagramError>(true) {
        assert(!room.packets.contains_key(sequence));
        assert(after.packets.remove(sequence) =~= room.packets);
        if room.packets != state.packets {
            let gone = choose|gone: u64|
                is_last_to_leave(state, room, gone, packet.payload.len());
            assert(is_last_to_leave(
                state,
                JitterView { packets: after.packets.remove(sequence), ..after },
                gone,
                packet.payload.len(),
            ));
        }
    }
}

/// A packet that arrives first fixes where playing begins, and an older one that comes before
/// anything was played moves the beginning back.
pub proof fn lemma_playout_begins_with_the_oldest(
    state: JitterView,
    packet: PacketView,
    now: Instant,
)
    requires
        state.ordered(),
        state.pushed(packet, now).1 == Ok::<_, AudioDatagramError>(true),
    ensures
        ({
            let sequence = packet.metadata.sequence_number;
            let after = state.pushed(packet, now).0;
            &&& state.next_sequence is None ==> after.next_sequence == Some(sequence)
            &&& state.next_sequence matches Some(next) ==> sequence < next ==> after.next_sequence
                == Some(sequence)
            &&& state.next_sequence matches Some(next) ==> sequence >= next
                && after.stats.evicted_packets == state.stats.evicted_packets
                && state.stats.evicted_packets < u64::MAX ==> after.next_sequence == Some(next)
            &&& after.next_sequence is Some && after.next_sequence->Some_0 <= sequence
            &&& state.next_sequence matches Some(next) ==> next < sequence ==> after.next_sequence
                == Some(next) || after.next_sequence == Some(sequence) || exists|gone: u64|
                #[trigger] state.packets.contains_key(gone) && !after.packets.contains_key(gone)
                    && after.next_sequence == Some((gone + 1) as u64)
        }),
{
    lemma_room_keeps_order(state, packet.payload.len());
    lemma_room_place(state, packet.payload.len());
    lemma_room(state, packet.payload.len());
    lemma_room_keeps_place(state, packet.payload.len());
    if state.next_sequence is None {
        lemma_room_keeps_none(state, packet.payload.len());
    }
}

proof fn lemma_room_place(state: JitterView, length: nat)
    requires
        state.ordered(),
    ensures
        ({
            let room = state.with_room(length);
            ||| room.next_sequence == state.next_sequence
            ||| room.next_sequence is None
            ||| exists|gone: u64| #[trigger]
                state.packets.contains_key(gone) && !room.packets.contains_key(gone)
                    && room.next_sequence == Some((gone + 1) as u64)
        }),
    decreases state.packets.dom().len(),
{
    let oldest = counting::least(state.packets.dom());
    let room = state.with_room(length);
    if state.is_full_for(length) && state.packets.dom().len() > 0 && state.packets.contains_key(
        oldest,
    ) {
        let rest = state.without_oldest();
        counting::lemma_least(state.packets.dom());
        assert(rest.packets.dom() =~= state.packets.dom().remove(oldest));
        assert forall|sequence: u64| #[trigger] rest.packets.contains_key(sequence) implies {
            &&& rest.packets[sequence].packet.metadata.sequence_number == sequence
            &&& rest.next_sequence is Some
            &&& rest.next_sequence->Some_0 <= sequence
        } by {
            assert(state.packets.contains_key(sequence));
            assert(state.packets.dom().contains(sequence));
        }
        lemma_room_place(rest, length);
        lemma_room(rest, length);
        assert(!rest.packets.contains_key(oldest));
        assert(!room.packets.contains_key(oldest));
        if room.next_sequence != rest.next_sequence && room.next_sequence is Some {
            let gone = choose|gone: u64| #[trigger]
                rest.packets.contains_key(gone) && !room.packets.contains_key(gone)
                    && room.next_sequence == Some((gone + 1) as u64);
            assert(state.packets.contains_key(gone));
        }
    }
}

/// A packet that waits is never lost on the way: after any call it still waits as it came, or
/// was played as it came, or had waited too long, or was the oldest where room was needed.
pub proof fn lemma_waiting_packet_is_not_lost(state: JitterView, call: JitterCall, sequence: u64)
    requires
        state.ordered(),
        state.packets.contains_key(sequence),
        state.stats.evicted_packets < u64::MAX,
    ensures
        ({
            let after = state.after_call(call);
            ||| after.packets.contains_key(sequence) && after.packets[sequence]
                == state.packets[sequence]
            ||| after.stats.evicted_packets > state.stats.evicted_packets && call
                !is PopReady
            ||| call matches JitterCall::PopReady(now) && (!state.waits(sequence, now)
                || state.popped(now).1 == Some(
                PlayoutView::Packet(state.packets[sequence].packet),
            ))
        }),
{
    match call {
        JitterCall::Push(packet, now) => {
            lemma_kept_or_evicted(state, packet, now, sequence);
        },
        JitterCall::PushDatagram(datagram, now) => {
            if let Ok(packet) = parse_audio_datagram(datagram) {
                lemma_kept_or_evicted(state, packet, now, sequence);
            }
        },
        JitterCall::PopReady(now) => {
            lemma_playout_keeps_the_rest(state, now);
            lemma_waiting(state, now);
        },
    }
}

proof fn lemma_kept_or_evicted(state: JitterView, packet: PacketView, now: Instant, sequence: u64)
    requires
        state.ordered(),
        state.packets.contains_key(sequence),
        state.stats.evicted_packets < u64::MAX,
    ensures
        ({
            let after = state.pushed(packet, now).0;
            ||| after.packets.contains_key(sequence) && after.packets[sequence]
                == state.packets[sequence]
            ||| after.stats.evicted_packets > state.stats.evicted_packets
        }),
{
    lemma_arrival(state, packet, now);
    lemma_room_keeps_order(state, packet.payload.len());
    lemma_good_packets_are_taken(state, packet, now);
}

/// Audio can be sent exactly where it is good and its datagram, with 68 bytes before the audio,
/// is not too long.
pub proof fn lemma_audio_that_can_be_sent(
    session_id: Seq<u8>,
    metadata: AudioPacketMetadata,
    length: usize,
    max_datagram_size: usize,
)
    ensures
        audio_sending_error(session_id, metadata, length, max_datagram_size) is None <==> {
            &&& metadata.sequence_number > 0
            &&& 1 <= metadata.channels <= 8
            &&& 8_000 <= metadata.sample_rate_hz <= 192_000
            &&& 1 <= length <= 65_516
            &&& 68 + length <= max_datagram_size
            &&& !wire::all_zero(session_id)
        },
{
    assert(0u16 & !3u16 == 0) by (bit_vector);
}

/// Where each part of a packet stands in its datagram.
#[verifier::rlimit(60)]
#[verifier::spinoff_prover]
pub proof fn lemma_audio_layout(
    session_id: SessionId,
    monotonic_timestamp_us: u64,
    packet: PacketView,
)
    requires
        packet.payload.len() <= 0xffff,
    ensures
        ({
            let payload = audio_payload_bytes(packet);
            &&& payload.len() == 20 + packet.payload.len()
            &&& wire::u64_at(payload, 0) == packet.metadata.capture_timestamp_us
            &&& payload[8] == 1
            &&& payload[9] == packet.metadata.channels
            &&& wire::u16_at(payload, 10) == 0
            &&& wire::u32_at(payload, 12) == packet.metadata.sample_rate_hz
            &&& wire::u32_at(payload, 16) == packet.payload.len()
            &&& payload.subrange(20, payload.len() as int) == packet.payload
            &&& audio_datagram(session_id, monotonic_timestamp_us, packet).subrange(
                48,
                68 + packet.payload.len() as int,
            ) == payload
        }),
{
    let payload = audio_payload_bytes(packet);
    let length = packet.payload.len() as u32;
    assert(payload.subrange(0, 8) =~= wire::be64(packet.metadata.capture_timestamp_us));
    assert(payload.subrange(10, 12) =~= wire::be16(0));
    assert(payload.subrange(12, 16) =~= wire::be32(packet.metadata.sample_rate_hz));
    assert(payload.subrange(16, 20) =~= wire::be32(length));
    assert(payload.subrange(20, payload.len() as int) =~= packet.payload);
    wire::lemma_u64_round_trip(payload, 0, packet.metadata.capture_timestamp_us);
    wire::lemma_u16_round_trip(payload, 10, 0);
    wire::lemma_u32_round_trip(payload, 12, packet.metadata.sample_rate_hz);
    wire::lemma_u32_round_trip(payload, 16, length);
    assert(audio_datagram(session_id, monotonic_timestamp_us, packet).subrange(
        48,
        68 + packet.payload.len() as int,
    ) =~= payload);
}

/// A payload is read as a packet exactly where all its fields are in their ranges.
pub proof fn lemma_audio_that_can_be_read(sequence_number: u64, payload: Seq<u8>)
    ensures
        parse_audio_payload(sequence_number, payload) is Ok <==> {
            &&& 21 <= payload.len() <= 65_556
            &&& wire::u16_at(payload, 10) == 0
            &&& wire::u32_at(payload, 16) == payload.len() - 20
            &&& payload[8] == 1
            &&& 1 <= payload[9] <= 8
            &&& 8_000 <= wire::u32_at(payload, 12) <= 192_000
            &&& sequence_number > 0
        },
        parse_audio_payload(sequence_number, payload) matches Ok(packet) ==> {
            &&& packet.metadata.sequence_number == sequence_number
            &&& packet.metadata.capture_timestamp_us == wire::u64_at(payload, 0)
            &&& packet.metadata.channels == payload[9]
            &&& packet.metadata.sample_rate_hz == wire::u32_at(payload, 12)
            &&& packet.payload == payload.subrange(20, payload.len() as int)
        },
        parse_audio_payload(sequence_number, payload) matches Err(error) ==> match error {
            AudioDatagramError::HeaderTruncated => payload.len() < 20,
            AudioDatagramError::ReservedField => wire::u16_at(payload, 10) != 0,
            AudioDatagramError::InvalidPayloadSize(size) => size == wire::u32_at(payload, 16) && (
            payload.len() == 20 || payload.len() > 65_556 || size != payload.len() - 20),
            AudioDatagramError::UnknownCodec(code) => code == payload[8] && code != 1,
            AudioDatagramError::ZeroSequence => sequence_number == 0,
            AudioDatagramError::InvalidChannelCount(count) => count == payload[9] && (count == 0
                || count > 8),
            AudioDatagramError::InvalidSampleRate(rate) => rate == wire::u32_at(payload, 12) && !(
            8_000 <= rate <= 192_000),
            _ => false,
        },
{
}


/// The byte that stands for the audio codec on the wire.
pub proof fn lemma_audio_codec_bytes(value: u8, codec: AudioCodec)
    ensures
        audio_codec_of(value) is Ok <==> value == 1,
        audio_codec_of(value) is Err ==> audio_codec_of(value)->Err_0
            == AudioDatagramError::UnknownCodec(value),
        codec.code() == 1,
        audio_codec_of(1) == Ok::<_, AudioDatagramError>(AudioCodec::Opus),
{
}


/// The place after another one, up to the last.
pub proof fn lemma_places_follow_each_other(sequence: u64)
    ensures
        sequence < 0xffff_ffff_ffff_ffff ==> sequence_after(sequence) is Some && sequence_after(
            sequence,
        )->Some_0 == sequence + 1,
        sequence_after(0xffff_ffff_ffff_ffff) is None,
{
}

/// How far the waiting packets reach: from the capture of the first to that of the last, and
/// nothing where that is earlier or where none waits.
pub proof fn lemma_buffered_span(state: JitterView, first: u64, last: u64)
    requires
        state.packets.dom().finite(),
        state.packets.contains_key(first),
        state.packets.contains_key(last),
        forall|sequence: u64| #[trigger]
            state.packets.contains_key(sequence) ==> first <= sequence <= last,
    ensures
        ({
            let begin = state.packets[first].packet.metadata.capture_timestamp_us;
            let end = state.packets[last].packet.metadata.capture_timestamp_us;
            &&& begin <= end ==> state.capture_span() == end - begin
            &&& begin > end ==> state.capture_span() == 0
        }),
{
    counting::lemma_least(state.packets.dom());
    counting::lemma_greatest(state.packets.dom());
    assert(state.packets.contains_key(counting::least(state.packets.dom())));
    assert(state.packets.contains_key(counting::greatest(state.packets.dom())));
}

/// Nothing reaches nowhere, and a new buffer has seen nothing.
pub proof fn lemma_new_buffer(config: AudioJitterConfig, sequence: u64)
    ensures
        ({
            let state = JitterView::fresh(config);
            &&& state.config == config
            &&& !state.packets.contains_key(sequence)
            &&& state.next_sequence is None
            &&& !state.playout_started
            &&& state.capture_span() == 0
            &&& state.stats.accepted_packets == 0
            &&& state.stats.played_packets == 0
            &&& state.stats.duplicate_packets == 0
            &&& state.stats.late_packets == 0
            &&& state.stats.lost_packets == 0
            &&& state.stats.evicted_packets == 0
        }),
{
}

/// A buffer can be made exactly where it has room, begins with at least one packet and at most
/// as many as fit, and plays no later than packets get too old.
pub proof fn lemma_valid_buffers(config: AudioJitterConfig)
    ensures
        config_ok(config) <==> config.max_packets >= 1 && config.max_memory_bytes >= 1 && 1
            <= config.start_packets <= config.max_packets && config.playout_delay.nanos
            <= config.max_packet_age.nanos,
{
}

/// Waiting packets hold as many bytes as their payloads.
pub proof fn lemma_every_payload_counts(
    packets: Map<u64, BufferedView>,
    sequence: u64,
    buffered: BufferedView,
)
    requires
        packets.dom().finite(),
        !packets.contains_key(sequence),
    ensures
        buffered_total(Map::empty()) == 0,
        buffered_total(packets.insert(sequence, buffered)) == buffered_total(packets)
            + buffered.packet.payload.len(),
{
    counting::lemma_sum_insert(packets, packet_weight(), sequence, buffered);
    assert(packets.remove(sequence) =~= packets);
}

/// The message around a packet of audio: its type, no flags, the session, the packet's number
/// and the time.
pub proof fn lemma_audio_message(
    session_id: SessionId,
    monotonic_timestamp_us: u64,
    packet: PacketView,
    max_datagram_size: usize,
)
    requires
        packet.payload.len() <= usize::MAX,
        audio_sending_error(
            session_id@,
            packet.metadata,
            packet.payload.len() as usize,
            max_datagram_size,
        ) is None,
    ensures
        ({
            let datagram = audio_datagram(session_id, monotonic_timestamp_us, packet);
            &&& datagram.len() == 68 + packet.payload.len()
            &&& protocol::packet_type(datagram) is AudioPacket
            &&& wire::u16_at(datagram, 8) == 0
            &&& datagram.subrange(12, 28) == session_id@
            &&& wire::u64_at(datagram, 28) == packet.metadata.sequence_number
            &&& wire::u64_at(datagram, 40) == monotonic_timestamp_us
        }),
{
    let header = audio_header(session_id, monotonic_timestamp_us, packet);
    let payload = audio_payload_bytes(packet);
    lemma_audio_payload_round_trip(packet);
    protocol::lemma_encoded_message_decodes(header, payload);
    protocol::lemma_packet_parts(
        audio_datagram(session_id, monotonic_timestamp_us, packet),
        header,
        payload,
    );
}

/// A datagram holds audio exactly where it is a good message of that type with a packet in its
/// payload, and it is then taken as that packet is.
pub proof fn lemma_datagrams_with_audio(state: JitterView, datagram: Seq<u8>, now: Instant)
    ensures
        ({
            let read = parse_audio_payload(
                wire::u64_at(datagram, 28),
                datagram.subrange(48, datagram.len() as int),
            );
            let parsed = parse_audio_datagram(datagram);
            &&& parsed is Ok <==> protocol::message_error(datagram) is None
                && protocol::packet_type(datagram) is AudioPacket && read is Ok
            &&& parsed is Ok ==> parsed == read && state.pushed_datagram(datagram, now)
                == state.pushed(parsed->Ok_0, now)
            &&& parsed is Err ==> state.pushed_datagram(datagram, now) == (
                state,
                Err::<bool, _>(parsed->Err_0),
            )
        }),
{
    assert(protocol::packet_payload(datagram) =~= datagram.subrange(48, datagram.len() as int));
}

/// Why a packet is refused: the first of its own faults, then its distance from what is awaited
/// or waits, then its size.
pub proof fn lemma_refused_packets(state: JitterView, packet: PacketView, now: Instant)
    requires
        state.pushed(packet, now).1 is Err,
    ensures
        match state.pushed(packet, now).1->Err_0 {
            AudioDatagramError::ZeroSequence => packet.metadata.sequence_number == 0,
            AudioDatagramError::InvalidChannelCount(count) => count == packet.metadata.channels && (
            count == 0 || count > 8),
            AudioDatagramError::InvalidSampleRate(rate) => rate == packet.metadata.sample_rate_hz
                && !(8_000 <= rate <= 192_000),
            AudioDatagramError::InvalidPayloadSize(size) => size == packet.payload.len() as usize
                && (packet.payload.len() == 0 || packet.payload.len() > 65_536),
            AudioDatagramError::SequenceGap => !state.packets.contains_key(
                packet.metadata.sequence_number,
            ),
            AudioDatagramError::MemoryLimit => packet.payload.len()
                > state.config.max_memory_bytes,
            _ => false,
        },
{
}

} // verus!
