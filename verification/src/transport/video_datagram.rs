//! Video frames in datagrams: splitting a frame into fragments and putting
//! fragments together again under limits of time and memory.
use super::protocol;
use super::protocol::{
    decode_message, encode_message, ChannelId, MessageHeader, MessageType, ProtocolError,
    SessionId, HEADER_LEN,
};
use crate::counting;
use crate::time::{Duration, Instant};
use crate::wire;
use std::collections::BTreeMap;
use vstd::prelude::*;

verus! {

broadcast use {vstd::std_specs::btree::group_btree_axioms, vstd::laws_cmp::group_laws_cmp};

pub const VIDEO_FRAGMENT_HEADER_LEN: usize = 28;

pub const FLAG_KEYFRAME: u8 = 1;

pub const FLAG_CODEC_CONFIG: u8 = 2;

pub const KNOWN_FRAME_FLAGS: u8 = 3;

pub const MAX_VIDEO_FRAME_BYTES: usize = 32 * 1024 * 1024;

pub const MAX_VIDEO_FRAGMENTS: usize = 32 * 1024;

#[derive(Clone, Copy, Debug, Eq, PartialEq, Structural)]
pub enum VideoCodec {
    H264,
    H265,
    Vp8,
    Vp9,
    Av1,
    Raw,
}

impl VideoCodec {
    /// The byte that stands for the codec on the wire.
    pub open spec fn code_spec(self) -> u8 {
        match self {
            VideoCodec::H264 => 1,
            VideoCodec::H265 => 2,
            VideoCodec::Vp8 => 3,
            VideoCodec::Vp9 => 4,
            VideoCodec::Av1 => 5,
            VideoCodec::Raw => 6,
        }
    }

    /// The byte that stands for the codec on the wire.
    #[verifier::when_used_as_spec(code_spec)]
    pub fn code(self) -> (code: u8)
        ensures
            code == self.code_spec(),
    {
        match self {
            VideoCodec::H264 => 1,
            VideoCodec::H265 => 2,
            VideoCodec::Vp8 => 3,
            VideoCodec::Vp9 => 4,
            VideoCodec::Av1 => 5,
            VideoCodec::Raw => 6,
        }
    }
}

/// The codec that a byte stands for.
pub open spec fn video_codec_of(value: u8) -> Result<VideoCodec, VideoDatagramError> {
    match value {
        1 => Ok(VideoCodec::H264),
        2 => Ok(VideoCodec::H265),
        3 => Ok(VideoCodec::Vp8),
        4 => Ok(VideoCodec::Vp9),
        5 => Ok(VideoCodec::Av1),
        6 => Ok(VideoCodec::Raw),
        _ => Err(VideoDatagramError::UnknownCodec(value)),
    }
}

impl vstd::std_specs::convert::TryFromSpecImpl<u8> for VideoCodec {
    open spec fn obeys_try_from_spec() -> bool {
        true
    }

    open spec fn try_from_spec(value: u8) -> Result<Self, VideoDatagramError> {
        video_codec_of(value)
    }
}

impl TryFrom<u8> for VideoCodec {
    type Error = VideoDatagramError;

    fn try_from(value: u8) -> (result: Result<Self, VideoDatagramError>) {
        match value {
            1 => Ok(VideoCodec::H264),
            2 => Ok(VideoCodec::H265),
            3 => Ok(VideoCodec::Vp8),
            4 => Ok(VideoCodec::Vp9),
            5 => Ok(VideoCodec::Av1),
            6 => Ok(VideoCodec::Raw),
            _ => Err(VideoDatagramError::UnknownCodec(value)),
        }
    }
}

#[derive(Clone, Copy, Debug, Eq, PartialEq, Structural)]
pub struct VideoFrameMetadata {
    pub frame_id: u64,
    pub codec: VideoCodec,
    pub flags: u8,
    pub presentation_timestamp_us: u64,
}

#[derive(Clone, Debug, Eq, PartialEq)]
pub struct CompleteVideoFrame {
    pub metadata: VideoFrameMetadata,
    pub payload: Vec<u8>,
}

#[derive(Clone, Copy, Debug, Eq, PartialEq, Structural)]
pub enum VideoDatagramError {
    Protocol(ProtocolError),
    ZeroFrameId,
    UnknownCodec(u8),
    UnknownFlags(u8),
    HeaderTruncated,
    ReservedField,
    InvalidFragmentIndex { index: usize, count: usize },
    InvalidFragmentCount(usize),
    InvalidFrameSize(usize),
    EmptyFragment,
    DatagramTooSmall(usize),
    SequenceOverflow,
    InconsistentMetadata,
    ConflictingDuplicate,
    MemoryLimit,
}

/// The head of one fragment: the frame it belongs to and its place in it.
#[derive(Clone, Copy, Debug, Eq, PartialEq, Structural)]
pub struct FragmentHeader {
    pub metadata: VideoFrameMetadata,
    pub fragment_index: usize,
    pub fragment_count: usize,
    pub frame_size: usize,
}

impl FragmentHeader {
    /// Whether two fragments are parts of one frame.
    pub open spec fn same_frame(self, other: FragmentHeader) -> bool {
        self.metadata == other.metadata && self.fragment_count == other.fragment_count
            && self.frame_size == other.frame_size
    }

    fn belongs_to_same_frame(self, other: FragmentHeader) -> (same: bool)
        ensures
            same == self.same_frame(other),
    {
        self.metadata == other.metadata && self.fragment_count == other.fragment_count
            && self.frame_size == other.frame_size
    }
}

/// The first rule that a frame's metadata breaks, if any.
pub open spec fn metadata_error(metadata: VideoFrameMetadata) -> Option<VideoDatagramError> {
    if metadata.frame_id == 0 {
        Some(VideoDatagramError::ZeroFrameId)
    } else if metadata.flags & !KNOWN_FRAME_FLAGS != 0 {
        Some(VideoDatagramError::UnknownFlags(metadata.flags))
    } else {
        None
    }
}

fn validate_frame_metadata(metadata: VideoFrameMetadata) -> (result: Result<
    (),
    VideoDatagramError,
>)
    ensures
        match metadata_error(metadata) {
            Some(error) => result == Err::<(), _>(error),
            None => result == Ok::<_, VideoDatagramError>(()),
        },
{
    if metadata.frame_id == 0 {
        return Err(VideoDatagramError::ZeroFrameId);
    }
    if metadata.flags & !KNOWN_FRAME_FLAGS != 0 {
        return Err(VideoDatagramError::UnknownFlags(metadata.flags));
    }
    Ok(())
}

/// The twenty-eight bytes of a fragment's head.
pub open spec fn fragment_header_bytes(header: FragmentHeader) -> Seq<u8> {
    wire::be64(header.metadata.frame_id) + wire::be16(header.fragment_index as u16) + wire::be16(
        header.fragment_count as u16,
    ) + seq![header.metadata.codec.code(), header.metadata.flags] + wire::be16(0) + wire::be64(
        header.metadata.presentation_timestamp_us,
    ) + wire::be32(header.frame_size as u32)
}

/// What the payload of a fragment message holds, or the first reason why it holds none.
pub open spec fn parse_fragment(payload: Seq<u8>) -> Result<
    (FragmentHeader, Seq<u8>),
    VideoDatagramError,
> {
    if payload.len() < VIDEO_FRAGMENT_HEADER_LEN {
        Err(VideoDatagramError::HeaderTruncated)
    } else if payload.len() == VIDEO_FRAGMENT_HEADER_LEN {
        Err(VideoDatagramError::EmptyFragment)
    } else if wire::u16_at(payload, 14) != 0 {
        Err(VideoDatagramError::ReservedField)
    } else {
        match video_codec_of(payload[12]) {
            Err(error) => Err(error),
            Ok(codec) => Ok(
                (
                    FragmentHeader {
                        metadata: VideoFrameMetadata {
                            frame_id: wire::u64_at(payload, 0),
                            codec,
                            flags: payload[13],
                            presentation_timestamp_us: wire::u64_at(payload, 16),
                        },
                        fragment_index: wire::u16_at(payload, 8) as usize,
                        fragment_count: wire::u16_at(payload, 10) as usize,
                        frame_size: wire::u32_at(payload, 24) as usize,
                    },
                    payload.subrange(VIDEO_FRAGMENT_HEADER_LEN as int, payload.len() as int),
                ),
            ),
        }
    }
}

/// What a datagram holds if it is a video fragment, or the first reason why it is none.
pub open spec fn parse_datagram(datagram: Seq<u8>) -> Result<
    (FragmentHeader, Seq<u8>),
    VideoDatagramError,
> {
    match protocol::message_error(datagram) {
        Some(error) => Err(VideoDatagramError::Protocol(error)),
        None => if protocol::packet_type(datagram) != MessageType::VideoFragment {
            Err(
                VideoDatagramError::Protocol(
                    ProtocolError::ChannelMismatch {
                        message_type: protocol::packet_type(datagram),
                        channel: protocol::packet_type(datagram).channel(),
                    },
                ),
            )
        } else {
            parse_fragment(protocol::packet_payload(datagram))
        },
    }
}

fn encode_fragment_payload(header: FragmentHeader, fragment: &[u8]) -> (result: Result<
    Vec<u8>,
    VideoDatagramError,
>)
    ensures
        if fragment@.len() == 0 {
            result == Err::<Vec<u8>, _>(VideoDatagramError::EmptyFragment)
        } else if header.fragment_index > u16::MAX {
            result == Err::<Vec<u8>, _>(
                (VideoDatagramError::InvalidFragmentIndex {
                    index: header.fragment_index,
                    count: header.fragment_count,
                }),
            )
        } else if header.fragment_count > u16::MAX {
            result == Err::<Vec<u8>, _>(
                VideoDatagramError::InvalidFragmentCount(header.fragment_count),
            )
        } else if header.frame_size > u32::MAX {
            result == Err::<Vec<u8>, _>(VideoDatagramError::InvalidFrameSize(header.frame_size))
        } else {
            result matches Ok(payload) && payload@ == fragment_header_bytes(header) + fragment@
        },
{
    if fragment.len() == 0 {
        return Err(VideoDatagramError::EmptyFragment);
    }
    if header.fragment_index > 0xffff {
        return Err(
            VideoDatagramError::InvalidFragmentIndex {
                index: header.fragment_index,
                count: header.fragment_count,
            },
        );
    }
    if header.fragment_count > 0xffff {
        return Err(VideoDatagramError::InvalidFragmentCount(header.fragment_count));
    }
    if header.frame_size as u64 > 0xffff_ffff {
        return Err(VideoDatagramError::InvalidFrameSize(header.frame_size));
    }
    let mut payload: Vec<u8> = Vec::new();
    wire::put_u64(&mut payload, header.metadata.frame_id);
    wire::put_u16(&mut payload, header.fragment_index as u16);
    wire::put_u16(&mut payload, header.fragment_count as u16);
    wire::put_u8(&mut payload, header.metadata.codec.code());
    wire::put_u8(&mut payload, header.metadata.flags);
    wire::put_u16(&mut payload, 0);
    wire::put_u64(&mut payload, header.metadata.presentation_timestamp_us);
    wire::put_u32(&mut payload, header.frame_size as u32);
    assert(payload@ =~= fragment_header_bytes(header));
    wire::put_bytes(&mut payload, fragment);
    Ok(payload)
}

fn decode_fragment_payload(payload: &[u8]) -> (result: Result<
    (FragmentHeader, &[u8]),
    VideoDatagramError,
>)
    ensures
        match parse_fragment(payload@) {
            Err(error) => result == Err::<(FragmentHeader, &[u8]), _>(error),
            Ok(parsed) => result matches Ok(decoded) && decoded.0 == parsed.0 && decoded.1@
                == parsed.1,
        },
{
    if payload.len() <= VIDEO_FRAGMENT_HEADER_LEN {
        return Err(
            if payload.len() < VIDEO_FRAGMENT_HEADER_LEN {
                VideoDatagramError::HeaderTruncated
            } else {
                VideoDatagramError::EmptyFragment
            },
        );
    }
    if wire::read_u16(payload, 14) != 0 {
        return Err(VideoDatagramError::ReservedField);
    }
    let codec = VideoCodec::try_from(payload[12])?;
    let header = FragmentHeader {
        metadata: VideoFrameMetadata {
            frame_id: wire::read_u64(payload, 0),
            codec,
            flags: payload[13],
            presentation_timestamp_us: wire::read_u64(payload, 16),
        },
        fragment_index: wire::read_u16(payload, 8) as usize,
        fragment_count: wire::read_u16(payload, 10) as usize,
        frame_size: wire::read_u32(payload, 24) as usize,
    };
    Ok(
        (
            header,
            vstd::slice::slice_subrange(payload, VIDEO_FRAGMENT_HEADER_LEN, payload.len()),
        ),
    )
}

fn decode_fragment_datagram(datagram: &[u8]) -> (result: Result<
    (FragmentHeader, &[u8]),
    VideoDatagramError,
>)
    ensures
        match parse_datagram(datagram@) {
            Err(error) => result == Err::<(FragmentHeader, &[u8]), _>(error),
            Ok(parsed) => result matches Ok(decoded) && decoded.0 == parsed.0 && decoded.1@
                == parsed.1,
        },
{
    let message = match decode_message(datagram) {
        Ok(message) => message,
        Err(error) => {
            return Err(VideoDatagramError::Protocol(error));
        },
    };
    proof {
        protocol::lemma_packet_parts(datagram@, message.header, message.payload@);
    }
    if message.header.message_type != MessageType::VideoFragment {
        return Err(
            VideoDatagramError::Protocol(
                ProtocolError::ChannelMismatch {
                    message_type: message.header.message_type,
                    channel: message.header.channel,
                },
            ),
        );
    }
    decode_fragment_payload(message.payload)
}

/// Where the fragment with the given index begins in a frame of `length` bytes
/// that is cut into pieces of `size` bytes.
pub open spec fn fragment_start(length: int, size: int, index: int) -> int {
    if index * size <= length {
        index * size
    } else {
        length
    }
}

/// The bytes of the fragment with the given index.
pub open spec fn fragment_chunk(frame: Seq<u8>, size: int, index: int) -> Seq<u8> {
    frame.subrange(
        fragment_start(frame.len() as int, size, index),
        fragment_start(frame.len() as int, size, index + 1),
    )
}

/// How many pieces of `size` bytes a frame of `length` bytes takes.
pub open spec fn fragment_count(length: int, size: int) -> int {
    (length - 1) / size + 1
}

/// The frame bytes that fit in a datagram of the given size.
pub open spec fn fragment_room(max_datagram_size: usize) -> int {
    max_datagram_size - HEADER_LEN - VIDEO_FRAGMENT_HEADER_LEN
}

/// The first reason, if any, why a frame cannot be sent in fragments.
pub open spec fn fragmenting_error(
    session_id: Seq<u8>,
    first_sequence_number: u64,
    metadata: VideoFrameMetadata,
    length: usize,
    max_datagram_size: usize,
) -> Option<VideoDatagramError> {
    let room = fragment_room(max_datagram_size);
    let count = fragment_count(length as int, room);
    if metadata_error(metadata) is Some {
        metadata_error(metadata)
    } else if length == 0 || length > MAX_VIDEO_FRAME_BYTES {
        Some(VideoDatagramError::InvalidFrameSize(length))
    } else if room <= 0 {
        Some(VideoDatagramError::DatagramTooSmall(max_datagram_size))
    } else if count > MAX_VIDEO_FRAGMENTS {
        Some(VideoDatagramError::InvalidFragmentCount(count as usize))
    } else if first_sequence_number + count - 1 > u64::MAX {
        Some(VideoDatagramError::SequenceOverflow)
    } else {
        match protocol::field_error(
            MessageType::VideoFragment,
            0,
            ChannelId::VideoDatagram,
            session_id,
            first_sequence_number,
            (VIDEO_FRAGMENT_HEADER_LEN + fragment_start(length as int, room, 1)) as usize,
        ) {
            Some(error) => Some(VideoDatagramError::Protocol(error)),
            None => None,
        }
    }
}

/// The datagram of the fragment with the given index.
pub open spec fn fragment_datagram(
    session_id: SessionId,
    first_sequence_number: u64,
    monotonic_timestamp_us: u64,
    metadata: VideoFrameMetadata,
    frame: Seq<u8>,
    size: int,
    index: int,
) -> Seq<u8> {
    let chunk = fragment_chunk(frame, size, index);
    protocol::header_bytes(
        MessageHeader {
            message_type: MessageType::VideoFragment,
            flags: 0,
            channel: ChannelId::VideoDatagram,
            session_id,
            sequence_number: (first_sequence_number + index) as u64,
            payload_length: (VIDEO_FRAGMENT_HEADER_LEN + chunk.len()) as u32,
            monotonic_timestamp_us,
        },
    ) + (fragment_header_bytes(
        FragmentHeader {
            metadata,
            fragment_index: index as usize,
            fragment_count: fragment_count(frame.len() as int, size) as usize,
            frame_size: frame.len() as usize,
        },
    ) + chunk)
}

/// Facts on the pieces of a frame: none is empty or longer than `size`, and the
/// last one ends where the frame ends.
pub proof fn lemma_fragment_pieces(length: int, size: int, index: int)
    requires
        0 < length,
        0 < size,
        0 <= index < fragment_count(length, size),
    ensures
        fragment_count(length, size) <= length,
        fragment_start(length, size, index) == index * size,
        index * size < length,
        fragment_start(length, size, index) < fragment_start(length, size, index + 1) <= length,
        fragment_start(length, size, index + 1) - fragment_start(length, size, index) <= size,
        fragment_start(length, size, index + 1) == if length - index * size <= size {
            length
        } else {
            index * size + size
        },
        fragment_start(length, size, fragment_count(length, size)) == length,
        fragment_start(length, size, index + 1) - fragment_start(length, size, index)
            <= fragment_start(length, size, 1),
        fragment_start(length, size, 0) == 0,
{
    let quotient = (length - 1) / size;
    vstd::arithmetic::div_mod::lemma_fundamental_div_mod(length - 1, size);
    vstd::arithmetic::div_mod::lemma_mod_bound(length - 1, size);
    assert(size * quotient == quotient * size) by (nonlinear_arith);
    assert((quotient + 1) * size == quotient * size + size) by (nonlinear_arith);
    assert((index + 1) * size == index * size + size) by (nonlinear_arith);
    assert(index * size <= quotient * size) by (nonlinear_arith)
        requires
            index <= quotient,
            0 < size,
    ;
    assert(0 <= index * size) by (nonlinear_arith)
        requires
            0 <= index,
            0 < size,
    ;
    assert(quotient <= quotient * size) by (nonlinear_arith)
        requires
            0 <= quotient,
            1 <= size,
    ;
    assert(0 * size == 0) by (nonlinear_arith);
    assert(1 * size == size) by (nonlinear_arith);
}

/// Splits a frame into datagrams of at most `max_datagram_size` bytes.
pub fn fragment_video_frame(
    session_id: SessionId,
    first_sequence_number: u64,
    monotonic_timestamp_us: u64,
    metadata: VideoFrameMetadata,
    encoded_frame: &[u8],
    max_datagram_size: usize,
) -> (result: Result<Vec<Vec<u8>>, VideoDatagramError>)
    ensures
        match fragmenting_error(
            session_id@,
            first_sequence_number,
            metadata,
            encoded_frame.len(),
            max_datagram_size,
        ) {
            Some(error) => result == Err::<Vec<Vec<u8>>, _>(error),
            None => {
                &&& result is Ok
                &&& result->Ok_0@.len() == fragment_count(
                    encoded_frame@.len() as int,
                    fragment_room(max_datagram_size),
                )
                &&& forall|index: int|
                    0 <= index < result->Ok_0@.len() ==> {
                        &&& (#[trigger] result->Ok_0@[index])@ == fragment_datagram(
                            session_id,
                            first_sequence_number,
                            monotonic_timestamp_us,
                            metadata,
                            encoded_frame@,
                            fragment_room(max_datagram_size),
                            index,
                        )
                        &&& result->Ok_0@[index]@.len() <= max_datagram_size
                    }
            },
        },
{
    validate_frame_metadata(metadata)?;
    let length: usize = encoded_frame.len();
    if length == 0 || length > MAX_VIDEO_FRAME_BYTES {
        return Err(VideoDatagramError::InvalidFrameSize(length));
    }
    if max_datagram_size <= HEADER_LEN + VIDEO_FRAGMENT_HEADER_LEN {
        return Err(VideoDatagramError::DatagramTooSmall(max_datagram_size));
    }
    let size: usize = max_datagram_size - HEADER_LEN - VIDEO_FRAGMENT_HEADER_LEN;
    proof {
        vstd::arithmetic::div_mod::lemma_div_pos_is_pos(length - 1, size as int);
        lemma_fragment_pieces(length as int, size as int, 0);
    }
    let count: usize = (length - 1) / size + 1;
    if count > MAX_VIDEO_FRAGMENTS {
        return Err(VideoDatagramError::InvalidFragmentCount(count));
    }
    if first_sequence_number > u64::MAX - (count as u64 - 1) {
        return Err(VideoDatagramError::SequenceOverflow);
    }
    let mut datagrams: Vec<Vec<u8>> = Vec::new();
    let mut start: usize = 0;
    let mut index: usize = 0;
    while index < count
        invariant
            0 < length == encoded_frame@.len(),
            length <= MAX_VIDEO_FRAME_BYTES,
            0 < size,
            size == fragment_room(max_datagram_size),
            count == fragment_count(length as int, size as int),
            count <= MAX_VIDEO_FRAGMENTS,
            first_sequence_number + count - 1 <= u64::MAX,
            metadata_error(metadata) is None,
            index <= count,
            start == fragment_start(length as int, size as int, index as int),
            index > 0 ==> fragmenting_error(
                session_id@,
                first_sequence_number,
                metadata,
                length,
                max_datagram_size,
            ) is None,
            datagrams@.len() == index,
            forall|k: int|
                0 <= k < index ==> {
                    &&& (#[trigger] datagrams@[k])@ == fragment_datagram(
                        session_id,
                        first_sequence_number,
                        monotonic_timestamp_us,
                        metadata,
                        encoded_frame@,
                        size as int,
                        k,
                    )
                    &&& datagrams@[k]@.len() <= max_datagram_size
                },
        decreases count - index,
    {
        proof {
            lemma_fragment_pieces(length as int, size as int, index as int);
        }
        let end: usize = if length - start <= size {
            length
        } else {
            start + size
        };
        let fragment = vstd::slice::slice_subrange(encoded_frame, start, end);
        let ghost head = FragmentHeader {
            metadata,
            fragment_index: index,
            fragment_count: count,
            frame_size: length,
        };
        let payload = encode_fragment_payload(
            FragmentHeader {
                metadata,
                fragment_index: index,
                fragment_count: count,
                frame_size: length,
            },
            fragment,
        )?;
        proof {
            lemma_fragment_header_len(head);
        }
        let header = match MessageHeader::new(
            MessageType::VideoFragment,
            0,
            session_id,
            first_sequence_number + index as u64,
            payload.len(),
            monotonic_timestamp_us,
        ) {
            Ok(header) => header,
            Err(error) => {
                return Err(VideoDatagramError::Protocol(error));
            },
        };
        let datagram = match encode_message(&header, &payload) {
            Ok(datagram) => datagram,
            Err(error) => {
                return Err(VideoDatagramError::Protocol(error));
            },
        };
        proof {
            protocol::lemma_packet_parts(datagram@, header, payload@);
        }
        datagrams.push(datagram);
        start = end;
        index = index + 1;
    }
    Ok(datagrams)
}

proof fn lemma_fragment_header_len(header: FragmentHeader)
    ensures
        fragment_header_bytes(header).len() == VIDEO_FRAGMENT_HEADER_LEN,
{
}

#[derive(Clone, Copy, Debug)]
pub struct VideoReassemblyConfig {
    pub max_frame_bytes: usize,
    pub max_pending_frames: usize,
    pub max_memory_bytes: usize,
    pub fragment_deadline: Duration,
    pub keyframe_request_after_drops: u32,
    pub keyframe_request_interval: Duration,
}

impl Default for VideoReassemblyConfig {
    fn default() -> (config: VideoReassemblyConfig)
        ensures
            config.max_frame_bytes == MAX_VIDEO_FRAME_BYTES,
            config.max_pending_frames == 8,
            config.max_memory_bytes == 64 * 1024 * 1024,
            config.fragment_deadline == Duration::of_millis(80),
            config.keyframe_request_after_drops == 3,
            config.keyframe_request_interval == Duration::of_millis(500),
    {
        VideoReassemblyConfig {
            max_frame_bytes: MAX_VIDEO_FRAME_BYTES,
            max_pending_frames: 8,
            max_memory_bytes: 64 * 1024 * 1024,
            fragment_deadline: Duration::from_millis(80),
            keyframe_request_after_drops: 3,
            keyframe_request_interval: Duration::from_millis(500),
        }
    }
}

#[derive(Clone, Debug, Eq, PartialEq, Structural)]
pub struct VideoReassemblyStats {
    pub completed_frames: u64,
    pub expired_frames: u64,
    pub evicted_frames: u64,
    pub duplicate_fragments: u64,
    pub obsolete_fragments: u64,
    pub malformed_fragments: u64,
}

impl VideoReassemblyStats {
    pub open spec fn zero() -> VideoReassemblyStats {
        VideoReassemblyStats {
            completed_frames: 0,
            expired_frames: 0,
            evicted_frames: 0,
            duplicate_fragments: 0,
            obsolete_fragments: 0,
            malformed_fragments: 0,
        }
    }
}

impl Default for VideoReassemblyStats {
    fn default() -> (stats: VideoReassemblyStats)
        ensures
            stats == VideoReassemblyStats::zero(),
    {
        VideoReassemblyStats {
            completed_frames: 0,
            expired_frames: 0,
            evicted_frames: 0,
            duplicate_fragments: 0,
            obsolete_fragments: 0,
            malformed_fragments: 0,
        }
    }
}

#[derive(Debug, Eq, PartialEq)]
pub struct VideoReassemblyOutcome {
    pub frame: Option<CompleteVideoFrame>,
    pub dropped_frames: u32,
    pub request_keyframe: bool,
}

impl Default for VideoReassemblyOutcome {
    fn default() -> (outcome: VideoReassemblyOutcome)
        ensures
            outcome.frame is None,
            outcome.dropped_frames == 0,
            !outcome.request_keyframe,
    {
        VideoReassemblyOutcome { frame: None, dropped_frames: 0, request_keyframe: false }
    }
}

/// What a call tells its caller: a finished frame, how many frames were given
/// up, and whether a keyframe should be requested.
pub struct OutcomeView {
    pub frame: Option<(VideoFrameMetadata, Seq<u8>)>,
    pub dropped_frames: u32,
    pub request_keyframe: bool,
}

impl View for VideoReassemblyOutcome {
    type V = OutcomeView;

    open spec fn view(&self) -> OutcomeView {
        OutcomeView {
            frame: match self.frame {
                Some(frame) => Some((frame.metadata, frame.payload@)),
                None => None,
            },
            dropped_frames: self.dropped_frames,
            request_keyframe: self.request_keyframe,
        }
    }
}

/// A frame of which some fragments are still missing.
pub struct PendingView {
    pub metadata: VideoFrameMetadata,
    pub frame_size: usize,
    pub fragments: Seq<Option<Seq<u8>>>,
    pub created_at: Instant,
}

/// How many fragments have arrived.
pub open spec fn arrived_count(fragments: Seq<Option<Seq<u8>>>) -> nat
    decreases fragments.len(),
{
    if fragments.len() == 0 {
        0
    } else {
        arrived_count(fragments.drop_last()) + if fragments.last() is Some {
            1nat
        } else {
            0nat
        }
    }
}

/// How many bytes have arrived.
pub open spec fn arrived_bytes(fragments: Seq<Option<Seq<u8>>>) -> nat
    decreases fragments.len(),
{
    if fragments.len() == 0 {
        0
    } else {
        arrived_bytes(fragments.drop_last()) + match fragments.last() {
            Some(bytes) => bytes.len(),
            None => 0,
        }
    }
}

/// The bytes that have arrived, in the order of their fragments.
pub open spec fn joined(fragments: Seq<Option<Seq<u8>>>) -> Seq<u8>
    decreases fragments.len(),
{
    if fragments.len() == 0 {
        Seq::empty()
    } else {
        joined(fragments.drop_last()) + match fragments.last() {
            Some(bytes) => bytes,
            None => Seq::empty(),
        }
    }
}

impl PendingView {
    pub open spec fn bytes(self) -> nat {
        arrived_bytes(self.fragments)
    }

    /// A frame of which nothing has arrived yet.
    pub open spec fn empty(header: FragmentHeader, now: Instant) -> PendingView {
        PendingView {
            metadata: header.metadata,
            frame_size: header.frame_size,
            fragments: Seq::new(header.fragment_count as nat, |i: int| None),
            created_at: now,
        }
    }

    /// Whether a fragment with this head is a part of the frame.
    pub open spec fn matches(self, header: FragmentHeader) -> bool {
        self.metadata == header.metadata && self.fragments.len() == header.fragment_count
            && self.frame_size == header.frame_size
    }

    /// The frame with one more fragment.
    pub open spec fn with_fragment(self, index: int, bytes: Seq<u8>) -> PendingView {
        PendingView { fragments: self.fragments.update(index, Some(bytes)), ..self }
    }
}

/// The state of a reassembler.
pub struct ReassemblerView {
    pub config: VideoReassemblyConfig,
    pub pending: Map<u64, PendingView>,
    pub last_completed_frame_id: u64,
    pub consecutive_dropped_frames: u32,
    pub last_keyframe_request: Option<Instant>,
    pub stats: VideoReassemblyStats,
}

/// The bytes that unfinished frames hold.
pub open spec fn pending_total(pending: Map<u64, PendingView>) -> nat {
    counting::sum_over(pending, frame_weight())
}

/// The bytes that an unfinished frame holds, as a function.
pub open spec fn frame_weight() -> spec_fn(PendingView) -> nat {
    |frame: PendingView| frame.bytes()
}

proof fn lemma_total_remove(pending: Map<u64, PendingView>, id: u64)
    requires
        pending.dom().finite(),
        pending.contains_key(id),
    ensures
        pending_total(pending) == pending[id].bytes() + pending_total(pending.remove(id)),
{
    counting::lemma_sum_remove(pending, frame_weight(), id);
}

proof fn lemma_total_insert(pending: Map<u64, PendingView>, id: u64, frame: PendingView)
    requires
        pending.dom().finite(),
    ensures
        pending_total(pending.insert(id, frame)) == frame.bytes() + pending_total(
            pending.remove(id),
        ),
{
    counting::lemma_sum_insert(pending, frame_weight(), id, frame);
}

impl ReassemblerView {
    /// A reassembler that has seen nothing.
    pub open spec fn fresh(config: VideoReassemblyConfig) -> ReassemblerView {
        ReassemblerView {
            config,
            pending: Map::empty(),
            last_completed_frame_id: 0,
            consecutive_dropped_frames: 0,
            last_keyframe_request: None,
            stats: VideoReassemblyStats::zero(),
        }
    }

    /// Whether it is time to ask for a keyframe.
    pub open spec fn keyframe_due(self, now: Instant) -> bool {
        &&& self.consecutive_dropped_frames >= self.config.keyframe_request_after_drops
        &&& match self.last_keyframe_request {
            Some(last) => now.since(last).nanos >= self.config.keyframe_request_interval.nanos,
            None => true,
        }
    }

    /// The state once it was asked whether a keyframe is due.
    pub open spec fn keyframe_asked(self, now: Instant) -> ReassemblerView {
        if self.keyframe_due(now) {
            ReassemblerView { last_keyframe_request: Some(now), ..self }
        } else {
            self
        }
    }

    /// The frames whose fragments did not arrive in time.
    pub open spec fn overdue(self, now: Instant) -> Set<u64> {
        self.pending.dom().filter(
            |id: u64|
                now.since(self.pending[id].created_at).nanos
                    >= self.config.fragment_deadline.nanos,
        )
    }

    /// The state without the frames that are overdue.
    pub open spec fn without_overdue(self, now: Instant) -> ReassemblerView {
        let count = self.overdue(now).len();
        ReassemblerView {
            pending: self.pending.remove_keys(self.overdue(now)),
            consecutive_dropped_frames: counting::saturated32(
                self.consecutive_dropped_frames,
                count,
            ),
            stats: VideoReassemblyStats {
                expired_frames: counting::saturated64(self.stats.expired_frames, count),
                ..self.stats
            },
            ..self
        }
    }

    /// What `expire` does.
    pub open spec fn expired(self, now: Instant) -> ReassemblerView {
        self.without_overdue(now).keyframe_asked(now)
    }

    /// What `expire` reports.
    pub open spec fn expiry(self, now: Instant) -> OutcomeView {
        OutcomeView {
            frame: None,
            dropped_frames: counting::saturated32(0, self.overdue(now).len()),
            request_keyframe: self.without_overdue(now).keyframe_due(now),
        }
    }

    /// The unfinished frames that are not newer than the last finished one.
    pub open spec fn obsolete(self) -> Set<u64> {
        self.pending.dom().filter(|id: u64| id <= self.last_completed_frame_id)
    }

    /// The unfinished frame with the smallest identifier.
    pub open spec fn oldest(self) -> u64 {
        counting::least(self.pending.dom())
    }

    /// The state without its oldest unfinished frame.
    pub open spec fn without_oldest(self) -> ReassemblerView {
        ReassemblerView {
            pending: self.pending.remove(self.oldest()),
            consecutive_dropped_frames: counting::saturated32(self.consecutive_dropped_frames, 1),
            stats: VideoReassemblyStats {
                evicted_frames: counting::saturated64(self.stats.evicted_frames, 1),
                ..self.stats
            },
            ..self
        }
    }

    /// The state with one malformed fragment more on record, and without its frame.
    pub open spec fn rejecting(self, id: u64) -> ReassemblerView {
        ReassemblerView {
            pending: self.pending.remove(id),
            stats: VideoReassemblyStats {
                malformed_fragments: counting::saturated64(self.stats.malformed_fragments, 1),
                ..self.stats
            },
            ..self
        }
    }

    /// The state after the frame `id` was finished: it and all older frames are gone.
    pub open spec fn completing(self, id: u64) -> ReassemblerView {
        let older = self.pending.dom().filter(|other: u64| other < id);
        ReassemblerView {
            pending: self.pending.remove_keys(self.pending.dom().filter(|other: u64| other <= id)),
            last_completed_frame_id: id,
            consecutive_dropped_frames: 0,
            stats: VideoReassemblyStats {
                completed_frames: counting::saturated64(self.stats.completed_frames, 1),
                obsolete_fragments: counting::saturated64(
                    self.stats.obsolete_fragments,
                    older.len(),
                ),
                ..self.stats
            },
            ..self
        }
    }

    /// The first limit that a fragment's head exceeds, if any.
    pub open spec fn limit_error(self, header: FragmentHeader) -> Option<VideoDatagramError> {
        if metadata_error(header.metadata) is Some {
            metadata_error(header.metadata)
        } else if header.fragment_count == 0 || header.fragment_count > MAX_VIDEO_FRAGMENTS {
            Some(VideoDatagramError::InvalidFragmentCount(header.fragment_count))
        } else if header.fragment_index >= header.fragment_count {
            Some(
                VideoDatagramError::InvalidFragmentIndex {
                    index: header.fragment_index,
                    count: header.fragment_count,
                },
            )
        } else if header.frame_size == 0 || header.frame_size > self.config.max_frame_bytes {
            Some(VideoDatagramError::InvalidFrameSize(header.frame_size))
        } else {
            None
        }
    }

    /// Whether a frame has to go before the frame `id` can be taken in.
    pub open spec fn is_full_for(self, id: u64) -> bool {
        !self.pending.contains_key(id) && self.pending.len() >= self.config.max_pending_frames
    }

    /// What a fragment of the frame `id` is added to.
    pub open spec fn frame_for(self, header: FragmentHeader, now: Instant) -> PendingView {
        if self.pending.contains_key(header.metadata.frame_id) {
            self.pending[header.metadata.frame_id]
        } else {
            PendingView::empty(header, now)
        }
    }

    /// What a fragment does to a state that has room for its frame, and what is reported.
    pub open spec fn adding(
        self,
        outcome: OutcomeView,
        header: FragmentHeader,
        bytes: Seq<u8>,
        now: Instant,
    ) -> (ReassemblerView, Result<OutcomeView, VideoDatagramError>) {
        let id = header.metadata.frame_id;
        let index = header.fragment_index as int;
        let frame = self.frame_for(header, now);
        let filled = frame.with_fragment(index, bytes);
        let kept = ReassemblerView { pending: self.pending.insert(id, filled), ..self };
        if !frame.matches(header) {
            (self.rejecting(id), Err(VideoDatagramError::InconsistentMetadata))
        } else if frame.fragments[index] == Some(bytes) {
            (
                ReassemblerView {
                    stats: VideoReassemblyStats {
                        duplicate_fragments: counting::saturated64(
                            self.stats.duplicate_fragments,
                            1,
                        ),
                        ..self.stats
                    },
                    ..self
                },
                Ok(outcome),
            )
        } else if frame.fragments[index] is Some {
            (self.rejecting(id), Err(VideoDatagramError::ConflictingDuplicate))
        } else if pending_total(self.pending) + bytes.len() > self.config.max_memory_bytes {
            (
                ReassemblerView { pending: self.pending.remove(id), ..self },
                Err(VideoDatagramError::MemoryLimit),
            )
        } else if filled.bytes() > header.frame_size {
            (
                self.rejecting(id),
                Err(VideoDatagramError::InvalidFrameSize(filled.bytes() as usize)),
            )
        } else if arrived_count(filled.fragments) < header.fragment_count {
            (
                kept.keyframe_asked(now),
                Ok(OutcomeView { request_keyframe: kept.keyframe_due(now), ..outcome }),
            )
        } else if filled.bytes() != header.frame_size {
            (
                self.rejecting(id),
                Err(VideoDatagramError::InvalidFrameSize(filled.bytes() as usize)),
            )
        } else {
            (
                self.completing(id),
                Ok(
                    OutcomeView {
                        frame: Some((header.metadata, joined(filled.fragments))),
                        ..outcome
                    },
                ),
            )
        }
    }

    /// What `push` does and reports.
    pub open spec fn pushed(self, datagram: Seq<u8>, now: Instant) -> (
        ReassemblerView,
        Result<OutcomeView, VideoDatagramError>,
    ) {
        let state = self.expired(now);
        let outcome = self.expiry(now);
        match parse_datagram(datagram) {
            Err(error) => (state, Err(error)),
            Ok((header, bytes)) => if state.limit_error(header) is Some {
                (state, Err(state.limit_error(header)->Some_0))
            } else if header.metadata.frame_id <= state.last_completed_frame_id {
                (
                    ReassemblerView {
                        stats: VideoReassemblyStats {
                            obsolete_fragments: counting::saturated64(
                                state.stats.obsolete_fragments,
                                1,
                            ),
                            ..state.stats
                        },
                        ..state
                    },
                    Ok(outcome),
                )
            } else if state.is_full_for(header.metadata.frame_id) {
                state.without_oldest().adding(
                    OutcomeView {
                        dropped_frames: counting::saturated32(outcome.dropped_frames, 1),
                        ..outcome
                    },
                    header,
                    bytes,
                    now,
                )
            } else {
                state.adding(outcome, header, bytes, now)
            },
        }
    }
}

struct PendingFrame {
    header: FragmentHeader,
    fragments: Vec<Option<Vec<u8>>>,
    received_fragments: usize,
    received_bytes: usize,
    created_at: Instant,
}

spec fn fragment_views(fragments: Seq<Option<Vec<u8>>>) -> Seq<Option<Seq<u8>>> {
    fragments.map_values(
        |fragment: Option<Vec<u8>>|
            match fragment {
                Some(bytes) => Some(bytes@),
                None => None,
            },
    )
}

impl PendingFrame {
    spec fn model(self) -> PendingView {
        PendingView {
            metadata: self.header.metadata,
            frame_size: self.header.frame_size,
            fragments: fragment_views(self.fragments@),
            created_at: self.created_at,
        }
    }

    /// The counters agree with the fragments, and something is still missing.
    spec fn wf(self, config: VideoReassemblyConfig) -> bool {
        &&& self.fragments@.len() == self.header.fragment_count
        &&& 0 < self.header.fragment_count <= MAX_VIDEO_FRAGMENTS
        &&& 0 < self.header.frame_size <= config.max_frame_bytes
        &&& self.received_fragments == arrived_count(self.model().fragments)
        &&& self.received_bytes == self.model().bytes()
        &&& self.received_bytes <= self.header.frame_size
        &&& self.received_fragments < self.header.fragment_count
    }
}

spec fn models(pending: Map<u64, PendingFrame>) -> Map<u64, PendingView> {
    pending.map_values(|frame: PendingFrame| frame.model())
}

/// Puts the fragments of video frames together, within its limits.
pub struct VideoReassembler {
    config: VideoReassemblyConfig,
    pending: BTreeMap<u64, PendingFrame>,
    pending_bytes: usize,
    last_completed_frame_id: u64,
    consecutive_dropped_frames: u32,
    last_keyframe_request: Option<Instant>,
    stats: VideoReassemblyStats,
}

impl View for VideoReassembler {
    type V = ReassemblerView;

    closed spec fn view(&self) -> ReassemblerView {
        ReassemblerView {
            config: self.config,
            pending: models(self.pending@),
            last_completed_frame_id: self.last_completed_frame_id,
            consecutive_dropped_frames: self.consecutive_dropped_frames,
            last_keyframe_request: self.last_keyframe_request,
            stats: self.stats,
        }
    }
}

/// The limits that a configuration must keep.
pub open spec fn config_error(config: VideoReassemblyConfig) -> Option<VideoDatagramError> {
    if config.max_frame_bytes == 0 || config.max_frame_bytes > MAX_VIDEO_FRAME_BYTES {
        Some(VideoDatagramError::InvalidFrameSize(config.max_frame_bytes))
    } else if config.max_pending_frames == 0 || config.max_memory_bytes < config.max_frame_bytes {
        Some(VideoDatagramError::MemoryLimit)
    } else {
        None
    }
}

impl VideoReassembler {
    /// What holds of a reassembler between calls.
    pub closed spec fn wf(self) -> bool {
        &&& self.wf_except_age()
        &&& forall|id: u64| #[trigger]
            self.pending@.contains_key(id) ==> id > self.last_completed_frame_id
    }

    /// What holds also while frames older than the last finished one are still there.
    spec fn wf_except_age(self) -> bool {
        &&& config_error(self.config) is None
        &&& self.pending@.len() <= self.config.max_pending_frames
        &&& self.pending_bytes == pending_total(self@.pending)
        &&& self.pending_bytes <= self.config.max_memory_bytes
        &&& forall|id: u64| #[trigger]
            self.pending@.contains_key(id) ==> {
                &&& self.pending@[id].wf(self.config)
                &&& self.pending@[id].header.metadata.frame_id == id
            }
    }

    pub fn new(config: VideoReassemblyConfig) -> (result: Result<
        VideoReassembler,
        VideoDatagramError,
    >)
        ensures
            match config_error(config) {
                Some(error) => result == Err::<VideoReassembler, _>(error),
                None => result matches Ok(reassembler) && reassembler.wf() && reassembler@
                    == ReassemblerView::fresh(config),
            },
    {
        if config.max_frame_bytes == 0 || config.max_frame_bytes > MAX_VIDEO_FRAME_BYTES {
            return Err(VideoDatagramError::InvalidFrameSize(config.max_frame_bytes));
        }
        if config.max_pending_frames == 0 || config.max_memory_bytes < config.max_frame_bytes {
            return Err(VideoDatagramError::MemoryLimit);
        }
        let reassembler = VideoReassembler {
            config,
            pending: BTreeMap::new(),
            pending_bytes: 0,
            last_completed_frame_id: 0,
            consecutive_dropped_frames: 0,
            last_keyframe_request: None,
            stats: VideoReassemblyStats::default(),
        };
        assert(reassembler@.pending =~= Map::empty());
        Ok(reassembler)
    }

    fn record_drops(&mut self, count: u32)
        ensures
            *final(self) == (VideoReassembler {
                consecutive_dropped_frames: counting::saturated32(
                    old(self).consecutive_dropped_frames,
                    count as nat,
                ),
                ..*old(self)
            }),
    {
        self.consecutive_dropped_frames = self.consecutive_dropped_frames.saturating_add(count);
    }

    fn should_request_keyframe(&mut self, now: Instant) -> (due: bool)
        ensures
            due == old(self)@.keyframe_due(now),
            *final(self) == (VideoReassembler {
                last_keyframe_request: if due {
                    Some(now)
                } else {
                    old(self).last_keyframe_request
                },
                ..*old(self)
            }),
            final(self)@ == old(self)@.keyframe_asked(now),
    {
        if self.consecutive_dropped_frames < self.config.keyframe_request_after_drops {
            return false;
        }
        match self.last_keyframe_request {
            Some(last) => {
                if now.saturating_duration_since(last).nanos
                    < self.config.keyframe_request_interval.nanos {
                    return false;
                }
            },
            None => {},
        }
        self.last_keyframe_request = Some(now);
        true
    }

    fn validate_fragment_header(&self, fragment_header: FragmentHeader) -> (result: Result<
        (),
        VideoDatagramError,
    >)
        ensures
            match self@.limit_error(fragment_header) {
                Some(error) => result == Err::<(), _>(error),
                None => result == Ok::<_, VideoDatagramError>(()),
            },
    {
        validate_frame_metadata(fragment_header.metadata)?;
        if fragment_header.fragment_count == 0 || fragment_header.fragment_count
            > MAX_VIDEO_FRAGMENTS {
            return Err(VideoDatagramError::InvalidFragmentCount(fragment_header.fragment_count));
        }
        if fragment_header.fragment_index >= fragment_header.fragment_count {
            return Err(
                VideoDatagramError::InvalidFragmentIndex {
                    index: fragment_header.fragment_index,
                    count: fragment_header.fragment_count,
                },
            );
        }
        if fragment_header.frame_size == 0 || fragment_header.frame_size
            > self.config.max_frame_bytes {
            return Err(VideoDatagramError::InvalidFrameSize(fragment_header.frame_size));
        }
        Ok(())
    }

    fn drop_frame(&mut self, frame_id: u64, record_drop: bool)
        requires
            old(self).wf_except_age(),
        ensures
            final(self).wf_except_age(),
            old(self).wf() ==> final(self).wf(),
            final(self).pending@ == old(self).pending@.remove(frame_id),
            final(self)@ == (ReassemblerView {
                pending: old(self)@.pending.remove(frame_id),
                consecutive_dropped_frames: if record_drop && old(self)@.pending.contains_key(
                    frame_id,
                ) {
                    counting::saturated32(old(self).consecutive_dropped_frames, 1)
                } else {
                    old(self).consecutive_dropped_frames
                },
                ..old(self)@
            }),
    {
        proof {
            assert(self@.pending.dom() =~= self.pending@.dom());
            if self.pending@.contains_key(frame_id) {
                lemma_total_remove(self@.pending, frame_id);
            }
            assert(models(self.pending@.remove(frame_id)) =~= self@.pending.remove(frame_id));
        }
        match self.pending.remove(&frame_id) {
            Some(frame) => {
                self.pending_bytes = self.pending_bytes.saturating_sub(frame.received_bytes);
                if record_drop {
                    self.record_drops(1);
                }
            },
            None => {
                assert(old(self)@.pending.remove(frame_id) =~= old(self)@.pending);
            },
        }
    }

    fn evict_oldest(&mut self) -> (evicted: bool)
        requires
            old(self).wf(),
        ensures
            final(self).wf(),
            evicted == (old(self)@.pending.len() > 0),
            evicted ==> final(self)@ == old(self)@.without_oldest(),
            !evicted ==> final(self)@ == old(self)@,
            final(self)@.pending.len() == old(self)@.pending.len() - if evicted {
                1int
            } else {
                0int
            },
    {
        let keys = counting::keys_in_order(&self.pending);
        assert(self@.pending.dom() =~= self.pending@.dom());
        if keys.len() == 0 {
            return false;
        }
        let frame_id: u64 = keys[0];
        proof {
            assert(keys@.contains(frame_id));
            assert forall|other: u64| #[trigger]
                self@.pending.contains_key(other) implies frame_id <= other by {
                assert(keys@.contains(other));
            }
            let oldest = self@.oldest();
            assert(counting::is_least(self@.pending.dom(), frame_id));
            assert(counting::is_least(self@.pending.dom(), oldest));
            assert(oldest == frame_id);
        }
        self.drop_frame(frame_id, false);
        self.stats.evicted_frames = self.stats.evicted_frames.saturating_add(1);
        self.record_drops(1);
        true
    }

    /// Gives up the frames whose fragments did not arrive in time.
    pub fn expire(&mut self, now: Instant) -> (outcome: VideoReassemblyOutcome)
        requires
            old(self).wf(),
        ensures
            final(self).wf(),
            final(self)@ == old(self)@.expired(now),
            outcome@ == old(self)@.expiry(now),
    {
        let keys = counting::keys_in_order(&self.pending);
        let ghost mut gone: Set<u64> = Set::empty();
        let ghost before = self@;
        let mut expired: usize = 0;
        let mut index: usize = 0;
        assert(before.pending.dom() =~= self.pending@.dom());
        assert(before.pending.remove_keys(gone) =~= before.pending);
        while index < keys.len()
            invariant
                self.wf(),
                counting::lists_in_order(keys@, before.pending.dom()),
                index <= keys@.len(),
                gone.finite(),
                expired == gone.len(),
                expired <= index,
                forall|id: u64| #[trigger]
                    gone.contains(id) <==> (before.overdue(now).contains(id) && exists|k: int|
                        0 <= k < index && keys@[k] == id),
                self@ == (ReassemblerView {
                    pending: before.pending.remove_keys(gone),
                    stats: VideoReassemblyStats {
                        expired_frames: counting::saturated64(
                            before.stats.expired_frames,
                            gone.len(),
                        ),
                        ..before.stats
                    },
                    ..before
                }),
            decreases keys@.len() - index,
        {
            let frame_id: u64 = keys[index];
            assert(keys@.contains(frame_id));
            assert(!gone.contains(frame_id)) by {
                if gone.contains(frame_id) {
                    let k = choose|k: int| 0 <= k < index && keys@[k] == frame_id;
                    assert(keys@[k] < keys@[index as int]);
                }
            }
            assert(self@.pending.contains_key(frame_id));
            let overdue = match self.pending.get(&frame_id) {
                Some(frame) => {
                    assert(self@.pending[frame_id] == frame.model());
                    now.saturating_duration_since(frame.created_at).nanos
                        >= self.config.fragment_deadline.nanos
                },
                None => false,
            };
            if overdue {
                self.drop_frame(frame_id, false);
                self.stats.expired_frames = self.stats.expired_frames.saturating_add(1);
                proof {
                    assert(before.pending.remove_keys(gone).remove(frame_id)
                        =~= before.pending.remove_keys(gone.insert(frame_id)));
                    gone = gone.insert(frame_id);
                }
                expired = expired + 1;
            }
            index = index + 1;
        }
        assert(gone =~= before.overdue(now)) by {
            assert forall|id: u64| before.overdue(now).contains(id) implies gone.contains(id) by {
                assert(keys@.contains(id));
                let k = choose|k: int| 0 <= k < keys@.len() && keys@[k] == id;
                assert(keys@[k] == id);
            }
        }
        let dropped_frames: u32 = if expired > 0xffff_ffff {
            u32::MAX
        } else {
            expired as u32
        };
        self.record_drops(dropped_frames);
        let request_keyframe = self.should_request_keyframe(now);
        VideoReassemblyOutcome { frame: None, dropped_frames, request_keyframe }
    }

    fn drop_obsolete_pending(&mut self)
        requires
            old(self).wf_except_age(),
        ensures
            final(self).wf(),
            final(self)@ == (ReassemblerView {
                pending: old(self)@.pending.remove_keys(old(self)@.obsolete()),
                stats: VideoReassemblyStats {
                    obsolete_fragments: counting::saturated64(
                        old(self).stats.obsolete_fragments,
                        old(self)@.obsolete().len(),
                    ),
                    ..old(self).stats
                },
                ..old(self)@
            }),
    {
        let keys = counting::keys_in_order(&self.pending);
        let ghost mut gone: Set<u64> = Set::empty();
        let ghost before = self@;
        let mut index: usize = 0;
        assert(before.pending.dom() =~= self.pending@.dom());
        assert(before.pending.remove_keys(gone) =~= before.pending);
        while index < keys.len() && keys[index] <= self.last_completed_frame_id
            invariant
                self.wf_except_age(),
                counting::lists_in_order(keys@, before.pending.dom()),
                index <= keys@.len(),
                gone.finite(),
                forall|k: int| 0 <= k < index ==> keys@[k] <= before.last_completed_frame_id,
                forall|id: u64| #[trigger]
                    gone.contains(id) <==> exists|k: int| 0 <= k < index && keys@[k] == id,
                self@ == (ReassemblerView {
                    pending: before.pending.remove_keys(gone),
                    stats: VideoReassemblyStats {
                        obsolete_fragments: counting::saturated64(
                            before.stats.obsolete_fragments,
                            gone.len(),
                        ),
                        ..before.stats
                    },
                    ..before
                }),
            decreases keys@.len() - index,
        {
            let frame_id: u64 = keys[index];
            assert(!gone.contains(frame_id)) by {
                if gone.contains(frame_id) {
                    let k = choose|k: int| 0 <= k < index && keys@[k] == frame_id;
                    assert(keys@[k] < keys@[index as int]);
                }
            }
            self.drop_frame(frame_id, false);
            self.stats.obsolete_fragments = self.stats.obsolete_fragments.saturating_add(1);
            proof {
                assert(before.pending.remove_keys(gone).remove(frame_id)
                    =~= before.pending.remove_keys(gone.insert(frame_id)));
                gone = gone.insert(frame_id);
            }
            index = index + 1;
        }
        assert(gone =~= before.obsolete()) by {
            assert forall|id: u64| before.obsolete().contains(id) implies gone.contains(id) by {
                assert(keys@.contains(id));
                let k = choose|k: int| 0 <= k < keys@.len() && keys@[k] == id;
                if k >= index {
                    assert(keys@[index as int] <= keys@[k]);
                }
            }
            assert forall|id: u64| gone.contains(id) implies before.obsolete().contains(id) by {
                let k = choose|k: int| 0 <= k < index && keys@[k] == id;
                assert(keys@.contains(keys@[k]));
            }
        }
        assert forall|id: u64| self.pending@.contains_key(id) implies id
            > self.last_completed_frame_id by {
            assert(self@.pending.contains_key(id));
            assert(before.pending.contains_key(id) && !before.obsolete().contains(id));
        }
    }
}

/// One fragment more: the count grows by one and the bytes by the fragment's length.
proof fn lemma_arrived_update(fragments: Seq<Option<Seq<u8>>>, index: int, bytes: Seq<u8>)
    requires
        0 <= index < fragments.len(),
        fragments[index] is None,
    ensures
        arrived_count(fragments.update(index, Some(bytes))) == arrived_count(fragments) + 1,
        arrived_bytes(fragments.update(index, Some(bytes))) == arrived_bytes(fragments)
            + bytes.len(),
    decreases fragments.len(),
{
    let after = fragments.update(index, Some(bytes));
    if index == fragments.len() - 1 {
        assert(after.drop_last() =~= fragments.drop_last());
    } else {
        assert(after.drop_last() =~= fragments.drop_last().update(index, Some(bytes)));
        lemma_arrived_update(fragments.drop_last(), index, bytes);
    }
}

/// The count never exceeds the number of fragments, and reaches it only when all are there.
proof fn lemma_arrived_bound(fragments: Seq<Option<Seq<u8>>>)
    ensures
        arrived_count(fragments) <= fragments.len(),
        arrived_count(fragments) == fragments.len() <==> (forall|i: int|
            0 <= i < fragments.len() ==> (#[trigger] fragments[i]) is Some),
    decreases fragments.len(),
{
    if fragments.len() > 0 {
        let rest = fragments.drop_last();
        lemma_arrived_bound(rest);
        assert(forall|i: int| 0 <= i < rest.len() ==> rest[i] == fragments[i]);
        if arrived_count(fragments) == fragments.len() {
            assert forall|i: int| 0 <= i < fragments.len() implies (#[trigger] fragments[i]) is Some by {
                if i < rest.len() {
                    assert(rest[i] is Some);
                }
            }
        } else if forall|i: int| 0 <= i < fragments.len() ==> (#[trigger] fragments[i]) is Some {
            assert forall|i: int| 0 <= i < rest.len() implies (#[trigger] rest[i]) is Some by {
                assert(fragments[i] is Some);
            }
            assert(fragments[fragments.len() - 1] is Some);
        }
    }
}

/// Nothing has arrived of a frame all of whose fragments are missing.
proof fn lemma_arrived_none(fragments: Seq<Option<Seq<u8>>>)
    requires
        forall|i: int| 0 <= i < fragments.len() ==> (#[trigger] fragments[i]) is None,
    ensures
        arrived_count(fragments) == 0,
        arrived_bytes(fragments) == 0,
    decreases fragments.len(),
{
    if fragments.len() > 0 {
        assert forall|i: int| 0 <= i < fragments.len() - 1 implies (
        #[trigger] fragments.drop_last()[i]) is None by {
            assert(fragments[i] is None);
        }
        lemma_arrived_none(fragments.drop_last());
        assert(fragments[fragments.len() - 1] is None);
    }
}

/// The bytes of all fragments, one after the other.
fn join_fragments(fragments: &Vec<Option<Vec<u8>>>) -> (payload: Vec<u8>)
    ensures
        payload@ == joined(fragment_views(fragments@)),
{
    let mut payload: Vec<u8> = Vec::new();
    let mut index: usize = 0;
    let ghost views = fragment_views(fragments@);
    assert(views.subrange(0, 0) =~= Seq::empty());
    while index < fragments.len()
        invariant
            index <= fragments@.len(),
            views == fragment_views(fragments@),
            payload@ == joined(views.subrange(0, index as int)),
        decreases fragments@.len() - index,
    {
        proof {
            let next = views.subrange(0, index + 1);
            assert(next.drop_last() =~= views.subrange(0, index as int));
            assert(next.last() == views[index as int]);
        }
        match &fragments[index] {
            Some(bytes) => {
                wire::put_bytes(&mut payload, bytes);
            },
            None => {
                assert(payload@ + Seq::<u8>::empty() =~= payload@);
            },
        }
        index = index + 1;
    }
    assert(views.subrange(0, index as int) =~= views);
    payload
}

fn empty_fragments(count: usize) -> (fragments: Vec<Option<Vec<u8>>>)
    ensures
        fragments@.len() == count,
        forall|i: int| 0 <= i < count ==> (#[trigger] fragments@[i]) is None,
{
    let mut fragments: Vec<Option<Vec<u8>>> = Vec::new();
    let mut index: usize = 0;
    while index < count
        invariant
            index <= count,
            fragments@.len() == index,
            forall|i: int| 0 <= i < index ==> (#[trigger] fragments@[i]) is None,
        decreases count - index,
    {
        fragments.push(None);
        index = index + 1;
    }
    fragments
}

impl VideoReassembler {
    /// What the fragment's place holds so far: nothing, the same bytes, or other bytes.
    fn held_fragment(&self, header: FragmentHeader, bytes: &[u8]) -> (held: Option<bool>)
        requires
            self.wf(),
            self@.pending.contains_key(header.metadata.frame_id),
            self@.pending[header.metadata.frame_id].matches(header),
            header.fragment_index < header.fragment_count,
        ensures
            match self@.pending[header.metadata.frame_id].fragments[header.fragment_index as int] {
                None => held is None,
                Some(existing) => held == Some(existing == bytes@),
            },
    {
        assert(self@.pending.dom() =~= self.pending@.dom());
        match self.pending.get(&header.metadata.frame_id) {
            Some(frame) => {
                assert(self@.pending[header.metadata.frame_id] == frame.model());
                match &frame.fragments[header.fragment_index] {
                    Some(existing) => Some(wire::bytes_equal(existing, bytes)),
                    None => None,
                }
            },
            None => None,
        }
    }

    /// Whether the frame that is being put together is the one of the fragment.
    fn pending_matches(&self, header: FragmentHeader) -> (same: bool)
        requires
            self.wf(),
            self@.pending.contains_key(header.metadata.frame_id),
        ensures
            same == self@.pending[header.metadata.frame_id].matches(header),
    {
        assert(self@.pending.dom() =~= self.pending@.dom());
        match self.pending.get(&header.metadata.frame_id) {
            Some(frame) => {
                assert(self@.pending[header.metadata.frame_id] == frame.model());
                frame.header.belongs_to_same_frame(header)
            },
            None => false,
        }
    }

    fn note_malformed(&mut self)
        ensures
            *final(self) == (VideoReassembler {
                stats: VideoReassemblyStats {
                    malformed_fragments: counting::saturated64(
                        old(self).stats.malformed_fragments,
                        1,
                    ),
                    ..old(self).stats
                },
                ..*old(self)
            }),
    {
        self.stats.malformed_fragments = self.stats.malformed_fragments.saturating_add(1);
    }
}

impl VideoReassembler {
    /// Adds a fragment to its frame, for which there is room.
    fn add_fragment(
        &mut self,
        outcome: VideoReassemblyOutcome,
        header: FragmentHeader,
        bytes: &[u8],
        now: Instant,
    ) -> (result: Result<VideoReassemblyOutcome, VideoDatagramError>)
        requires
            old(self).wf(),
            old(self)@.limit_error(header) is None,
            header.metadata.frame_id > old(self)@.last_completed_frame_id,
            !old(self)@.is_full_for(header.metadata.frame_id),
        ensures
            final(self).wf(),
            ({
                let expected = old(self)@.adding(outcome@, header, bytes@, now);
                &&& final(self)@ == expected.0
                &&& match expected.1 {
                    Ok(view) => result matches Ok(reported) && reported@ == view,
                    Err(error) => result == Err::<VideoReassemblyOutcome, _>(error),
                }
            }),
    {
        let id: u64 = header.metadata.frame_id;
        let ghost before = self@;
        let ghost frame = before.frame_for(header, now);
        assert(before.pending.dom() =~= self.pending@.dom());
        let known = self.pending.contains_key(&id);
        if known {
            if !self.pending_matches(header) {
                self.drop_frame(id, false);
                self.note_malformed();
                return Err(VideoDatagramError::InconsistentMetadata);
            }
            match self.held_fragment(header, bytes) {
                Some(equal) => {
                    if equal {
                        self.stats.duplicate_fragments =
                        self.stats.duplicate_fragments.saturating_add(1);
                        return Ok(outcome);
                    }
                    self.drop_frame(id, false);
                    self.note_malformed();
                    return Err(VideoDatagramError::ConflictingDuplicate);
                },
                None => {},
            }
        }
        assert(frame.matches(header));
        assert(frame.fragments[header.fragment_index as int] is None);
        let exceeded = match self.pending_bytes.checked_add(bytes.len()) {
            Some(total) => total > self.config.max_memory_bytes,
            None => true,
        };
        if exceeded {
            self.drop_frame(id, false);
            return Err(VideoDatagramError::MemoryLimit);
        }
        self.store_fragment(outcome, header, bytes, now)
    }

    /// Stores a fragment whose place is free and for which there is memory.
    fn store_fragment(
        &mut self,
        outcome: VideoReassemblyOutcome,
        header: FragmentHeader,
        bytes: &[u8],
        now: Instant,
    ) -> (result: Result<VideoReassemblyOutcome, VideoDatagramError>)
        requires
            old(self).wf(),
            old(self)@.limit_error(header) is None,
            header.metadata.frame_id > old(self)@.last_completed_frame_id,
            !old(self)@.is_full_for(header.metadata.frame_id),
            old(self)@.frame_for(header, now).matches(header),
            old(self)@.frame_for(header, now).fragments[header.fragment_index as int] is None,
            pending_total(old(self)@.pending) + bytes@.len() <= old(self)@.config.max_memory_bytes,
        ensures
            final(self).wf(),
            ({
                let expected = old(self)@.adding(outcome@, header, bytes@, now);
                &&& final(self)@ == expected.0
                &&& match expected.1 {
                    Ok(view) => result matches Ok(reported) && reported@ == view,
                    Err(error) => result == Err::<VideoReassemblyOutcome, _>(error),
                }
            }),
    {
        let mut outcome = outcome;
        let id: u64 = header.metadata.frame_id;
        let ghost before = self@;
        let ghost held = before.frame_for(header, now);
        let ghost filled = held.with_fragment(header.fragment_index as int, bytes@);
        proof {
            assert(before.pending.dom() =~= self.pending@.dom());
            if before.pending.contains_key(id) {
                lemma_total_remove(before.pending, id);
            } else {
                lemma_arrived_none(held.fragments);
                assert(before.pending.remove(id) =~= before.pending);
                assert(self.pending@.remove(id) =~= self.pending@);
            }
            lemma_total_insert(before.pending, id, filled);
            lemma_arrived_update(held.fragments, header.fragment_index as int, bytes@);
            lemma_arrived_bound(filled.fragments);
            assert(models(self.pending@.remove(id)) =~= before.pending.remove(id));
        }
        let mut frame = match self.pending.remove(&id) {
            Some(frame) => {
                assert(before.pending[id] == frame.model());
                frame
            },
            None => {
                let fragments = empty_fragments(header.fragment_count);
                assert(fragment_views(fragments@) =~= held.fragments);
                PendingFrame {
                    header,
                    fragments,
                    received_fragments: 0,
                    received_bytes: 0,
                    created_at: now,
                }
            },
        };
        assert(frame.model() == held);
        assert(frame.received_bytes == held.bytes());
        assert(frame.received_fragments == arrived_count(held.fragments));
        self.pending_bytes = self.pending_bytes - frame.received_bytes;
        let ghost old_fragments = frame.fragments@;
        let copy = wire::copy_range(bytes, 0, bytes.len());
        assert(copy@ =~= bytes@);
        frame.fragments.set(header.fragment_index, Some(copy));
        proof {
            assert(fragment_views(frame.fragments@) =~= fragment_views(old_fragments).update(
                header.fragment_index as int,
                Some(bytes@),
            ));
        }
        frame.received_fragments = frame.received_fragments + 1;
        frame.received_bytes = frame.received_bytes + bytes.len();
        assert(frame.model() == filled);
        if frame.received_bytes > header.frame_size {
            self.note_malformed();
            return Err(VideoDatagramError::InvalidFrameSize(frame.received_bytes));
        }
        if frame.received_fragments != header.fragment_count {
            self.pending_bytes = self.pending_bytes + frame.received_bytes;
            proof {
                assert(models(self.pending@.insert(id, frame)) =~= before.pending.insert(
                    id,
                    filled,
                ));
            }
            self.pending.insert(id, frame);
            outcome.request_keyframe = self.should_request_keyframe(now);
            return Ok(outcome);
        }
        if frame.received_bytes != header.frame_size {
            self.note_malformed();
            return Err(VideoDatagramError::InvalidFrameSize(frame.received_bytes));
        }
        let payload = join_fragments(&frame.fragments);
        self.last_completed_frame_id = id;
        proof {
            let older = before.pending.dom().filter(|other: u64| other < id);
            let not_newer = before.pending.dom().filter(|other: u64| other <= id);
            assert(self@.obsolete() =~= older);
            assert(before.pending.remove(id).remove_keys(older) =~= before.pending.remove_keys(
                not_newer,
            ));
        }
        self.drop_obsolete_pending();
        self.consecutive_dropped_frames = 0;
        self.stats.completed_frames = self.stats.completed_frames.saturating_add(1);
        outcome.frame = Some(CompleteVideoFrame { metadata: frame.header.metadata, payload });
        Ok(outcome)
    }

    /// Takes in one datagram, and reports the frame that it finished, if any.
    #[verifier::rlimit(60)]
    #[verifier::spinoff_prover]
    pub fn push(&mut self, datagram: &[u8], now: Instant) -> (result: Result<
        VideoReassemblyOutcome,
        VideoDatagramError,
    >)
        requires
            old(self).wf(),
        ensures
            final(self).wf(),
            final(self)@ == old(self)@.pushed(datagram@, now).0,
            match old(self)@.pushed(datagram@, now).1 {
                Ok(view) => result matches Ok(outcome) && outcome@ == view,
                Err(error) => result == Err::<VideoReassemblyOutcome, _>(error),
            },
    {
        let mut outcome = self.expire(now);
        let (header, bytes) = decode_fragment_datagram(datagram)?;
        self.validate_fragment_header(header)?;
        if header.metadata.frame_id <= self.last_completed_frame_id {
            self.stats.obsolete_fragments = self.stats.obsolete_fragments.saturating_add(1);
            return Ok(outcome);
        }
        assert(self@.pending.dom() =~= self.pending@.dom());
        if !self.pending.contains_key(&header.metadata.frame_id) && self.pending.len()
            >= self.config.max_pending_frames {
            let ghost full = self@;
            if self.evict_oldest() {
                outcome.dropped_frames = outcome.dropped_frames.saturating_add(1);
            }
            proof {
                assert(full.pending.len() > 0);
                assert(!self@.pending.contains_key(header.metadata.frame_id));
            }
        }
        self.add_fragment(outcome, header, bytes, now)
    }

    /// Forgets all frames, and what was asked for.
    pub fn reset(&mut self)
        requires
            old(self).wf(),
        ensures
            final(self).wf(),
            final(self)@ == (ReassemblerView {
                stats: old(self)@.stats,
                ..ReassemblerView::fresh(old(self)@.config)
            }),
    {
        self.pending.clear();
        self.pending_bytes = 0;
        self.last_completed_frame_id = 0;
        self.consecutive_dropped_frames = 0;
        self.last_keyframe_request = None;
        assert(self@.pending =~= Map::empty());
    }

    pub fn stats(&self) -> (stats: &VideoReassemblyStats)
        ensures
            *stats == self@.stats,
    {
        &self.stats
    }

    /// The bytes that unfinished frames hold.
    pub fn pending_memory_bytes(&self) -> (bytes: usize)
        requires
            self.wf(),
        ensures
            bytes == pending_total(self@.pending),
            bytes <= self@.config.max_memory_bytes,
    {
        self.pending_bytes
    }

    /// The number of unfinished frames.
    pub fn pending_frames(&self) -> (frames: usize)
        requires
            self.wf(),
        ensures
            frames == self@.pending.len(),
            frames <= self@.config.max_pending_frames,
    {
        assert(self@.pending.dom() =~= self.pending@.dom());
        self.pending.len()
    }
}

/// Where each field of a fragment's head stands in its bytes.
#[verifier::rlimit(60)]
#[verifier::spinoff_prover]
proof fn lemma_fragment_header_fields(header: FragmentHeader)
    requires
        header.fragment_index <= u16::MAX,
        header.fragment_count <= u16::MAX,
        header.frame_size <= u32::MAX,
    ensures
        fragment_header_bytes(header).len() == VIDEO_FRAGMENT_HEADER_LEN,
        wire::u64_at(fragment_header_bytes(header), 0) == header.metadata.frame_id,
        wire::u16_at(fragment_header_bytes(header), 8) == header.fragment_index,
        wire::u16_at(fragment_header_bytes(header), 10) == header.fragment_count,
        fragment_header_bytes(header)[12] == header.metadata.codec.code(),
        fragment_header_bytes(header)[13] == header.metadata.flags,
        wire::u16_at(fragment_header_bytes(header), 14) == 0,
        wire::u64_at(fragment_header_bytes(header), 16)
            == header.metadata.presentation_timestamp_us,
        wire::u32_at(fragment_header_bytes(header), 24) == header.frame_size,
{
    let bytes = fragment_header_bytes(header);
    assert(bytes.subrange(0, 8) =~= wire::be64(header.metadata.frame_id));
    assert(bytes.subrange(8, 10) =~= wire::be16(header.fragment_index as u16));
    assert(bytes.subrange(10, 12) =~= wire::be16(header.fragment_count as u16));
    assert(bytes.subrange(14, 16) =~= wire::be16(0));
    assert(bytes.subrange(16, 24) =~= wire::be64(header.metadata.presentation_timestamp_us));
    assert(bytes.subrange(24, 28) =~= wire::be32(header.frame_size as u32));
    wire::lemma_u64_round_trip(bytes, 0, header.metadata.frame_id);
    wire::lemma_u16_round_trip(bytes, 8, header.fragment_index as u16);
    wire::lemma_u16_round_trip(bytes, 10, header.fragment_count as u16);
    wire::lemma_u16_round_trip(bytes, 14, 0);
    wire::lemma_u64_round_trip(bytes, 16, header.metadata.presentation_timestamp_us);
    wire::lemma_u32_round_trip(bytes, 24, header.frame_size as u32);
}

/// Reading a fragment gives back the head and the bytes that it was made of.
pub proof fn lemma_fragment_round_trip(header: FragmentHeader, bytes: Seq<u8>)
    requires
        bytes.len() > 0,
        header.fragment_index <= u16::MAX,
        header.fragment_count <= u16::MAX,
        header.frame_size <= u32::MAX,
    ensures
        parse_fragment(fragment_header_bytes(header) + bytes) == Ok::<_, VideoDatagramError>(
            (header, bytes),
        ),
{
    let head = fragment_header_bytes(header);
    let payload = head + bytes;
    lemma_fragment_header_fields(header);
    assert(wire::u64_at(payload, 0) == wire::u64_at(head, 0));
    assert(wire::u16_at(payload, 8) == wire::u16_at(head, 8));
    assert(wire::u16_at(payload, 10) == wire::u16_at(head, 10));
    assert(wire::u16_at(payload, 14) == wire::u16_at(head, 14));
    assert(wire::u64_at(payload, 16) == wire::u64_at(head, 16));
    assert(wire::u32_at(payload, 24) == wire::u32_at(head, 24));
    assert(payload.subrange(VIDEO_FRAGMENT_HEADER_LEN as int, payload.len() as int) =~= bytes);
}

/// The frames that are reported have growing identifiers: a call either reports
/// a frame newer than all before it, or leaves the newest identifier as it was.
pub proof fn lemma_completed_frames_advance(state: ReassemblerView, datagram: Seq<u8>, now: Instant)
    ensures
        match state.pushed(datagram, now) {
            (after, Ok(OutcomeView { frame: Some((metadata, _)), .. })) =>
                after.last_completed_frame_id == metadata.frame_id && metadata.frame_id
                    > state.last_completed_frame_id,
            (after, _) => after.last_completed_frame_id == state.last_completed_frame_id,
        },
{
}

/// A frame on its way: what a sender cuts into datagrams.
pub struct SentFrame {
    pub session_id: SessionId,
    pub first_sequence_number: u64,
    pub monotonic_timestamp_us: u64,
    pub metadata: VideoFrameMetadata,
    pub frame: Seq<u8>,
    pub max_datagram_size: usize,
}

impl SentFrame {
    pub open spec fn size(self) -> int {
        fragment_room(self.max_datagram_size)
    }

    pub open spec fn count(self) -> int {
        fragment_count(self.frame.len() as int, self.size())
    }

    /// The datagram of the fragment with the given index.
    pub open spec fn datagram(self, index: int) -> Seq<u8> {
        fragment_datagram(
            self.session_id,
            self.first_sequence_number,
            self.monotonic_timestamp_us,
            self.metadata,
            self.frame,
            self.size(),
            index,
        )
    }

    /// The datagrams of the fragments with the given indices.
    pub open spec fn datagrams(self, order: Seq<int>) -> Seq<Seq<u8>> {
        order.map_values(|index: int| self.datagram(index))
    }

    /// Whether the frame can be cut into fragments.
    pub open spec fn valid(self) -> bool {
        &&& self.frame.len() <= usize::MAX
        &&& fragmenting_error(
            self.session_id@,
            self.first_sequence_number,
            self.metadata,
            self.frame.len() as usize,
            self.max_datagram_size,
        ) is None
    }

    pub open spec fn chunk(self, index: int) -> Seq<u8> {
        fragment_chunk(self.frame, self.size(), index)
    }

    pub open spec fn head(self, index: int) -> FragmentHeader {
        FragmentHeader {
            metadata: self.metadata,
            fragment_index: index as usize,
            fragment_count: self.count() as usize,
            frame_size: self.frame.len() as usize,
        }
    }

    /// The header of the message that carries a fragment.
    pub open spec fn header(self, index: int) -> MessageHeader {
        MessageHeader {
            message_type: MessageType::VideoFragment,
            flags: 0,
            channel: ChannelId::VideoDatagram,
            session_id: self.session_id,
            sequence_number: (self.first_sequence_number + index) as u64,
            payload_length: (VIDEO_FRAGMENT_HEADER_LEN + self.chunk(index).len()) as u32,
            monotonic_timestamp_us: self.monotonic_timestamp_us,
        }
    }

    /// The payload of the message that carries a fragment.
    pub open spec fn payload(self, index: int) -> Seq<u8> {
        fragment_header_bytes(self.head(index)) + self.chunk(index)
    }

    /// The frame with only some of its fragments.
    spec fn partial(self, received: Set<int>, now: Instant) -> PendingView {
        PendingView {
            metadata: self.metadata,
            frame_size: self.frame.len() as usize,
            fragments: Seq::new(
                self.count() as nat,
                |index: int|
                    if received.contains(index) {
                        Some(self.chunk(index))
                    } else {
                        None
                    },
            ),
            created_at: now,
        }
    }
}

/// The state after some datagrams were pushed one after the other, each at its time.
pub open spec fn pushed_each(
    state: ReassemblerView,
    datagrams: Seq<Seq<u8>>,
    times: Seq<Instant>,
) -> ReassemblerView
    decreases datagrams.len(),
{
    if datagrams.len() == 0 {
        state
    } else {
        pushed_each(state, datagrams.drop_last(), times).pushed(
            datagrams.last(),
            times[datagrams.len() - 1],
        ).0
    }
}

/// A fragment's datagram is a message that is not too long.
pub proof fn lemma_fragment_message(sent: SentFrame, index: int)
    requires
        sent.valid(),
        0 <= index < sent.count(),
    ensures
        sent.datagram(index) == protocol::header_bytes(sent.header(index)) + sent.payload(index),
        sent.header(index).error() is None,
        sent.header(index).payload_length == sent.payload(index).len(),
        HEADER_LEN + sent.payload(index).len() <= sent.max_datagram_size,
        sent.chunk(index).len() > 0,
{
    lemma_fragment_pieces(sent.frame.len() as int, sent.size(), index);
    lemma_fragment_header_fields(sent.head(index));
}

/// A fragment's datagram is read as the fragment.
proof fn lemma_datagram_parses(sent: SentFrame, index: int)
    requires
        sent.valid(),
        0 <= index < sent.count(),
    ensures
        parse_datagram(sent.datagram(index)) == Ok::<_, VideoDatagramError>(
            (sent.head(index), sent.chunk(index)),
        ),
        sent.chunk(index).len() > 0,
{
    let header = sent.header(index);
    let payload = sent.payload(index);
    lemma_fragment_message(sent, index);
    lemma_fragment_pieces(sent.frame.len() as int, sent.size(), index);
    lemma_fragment_round_trip(sent.head(index), sent.chunk(index));
    protocol::lemma_encoded_message_decodes(header, payload);
    protocol::lemma_packet_parts(sent.datagram(index), header, payload);
}

/// The first fragments of a partial frame: their bytes never pass the place where
/// the next fragment begins, and reach it when none of them is missing.
proof fn lemma_partial_prefix(sent: SentFrame, received: Set<int>, now: Instant, prefix: int)
    requires
        sent.valid(),
        0 <= prefix <= sent.count(),
    ensures
        arrived_bytes(sent.partial(received, now).fragments.take(prefix)) <= fragment_start(
            sent.frame.len() as int,
            sent.size(),
            prefix,
        ),
        (forall|i: int| 0 <= i < prefix ==> received.contains(i)) ==> {
            &&& arrived_bytes(sent.partial(received, now).fragments.take(prefix)) == fragment_start(
                sent.frame.len() as int,
                sent.size(),
                prefix,
            )
            &&& joined(sent.partial(received, now).fragments.take(prefix)) == sent.frame.take(
                fragment_start(sent.frame.len() as int, sent.size(), prefix),
            )
        },
    decreases prefix,
{
    let fragments = sent.partial(received, now).fragments;
    let length = sent.frame.len() as int;
    if prefix == 0 {
        lemma_fragment_pieces(length, sent.size(), 0);
        assert(sent.frame.take(0) =~= Seq::<u8>::empty());
    } else {
        lemma_fragment_pieces(length, sent.size(), prefix - 1);
        lemma_partial_prefix(sent, received, now, prefix - 1);
        assert(fragments.take(prefix).drop_last() =~= fragments.take(prefix - 1));
        assert(fragments.take(prefix).last() == fragments[prefix - 1]);
        let from = fragment_start(length, sent.size(), prefix - 1);
        let to = fragment_start(length, sent.size(), prefix);
        assert(sent.frame.take(to) =~= sent.frame.take(from) + sent.frame.subrange(from, to));
    }
}

impl ReassemblerView {
    /// The state that has room for the frame `id`: what is overdue is gone, and so is the
    /// oldest frame where there would be too many.
    pub open spec fn making_room(self, id: u64, now: Instant) -> ReassemblerView {
        let state = self.expired(now);
        if state.is_full_for(id) {
            state.without_oldest()
        } else {
            state
        }
    }
}

/// The frames of a part hold no more bytes than those of the whole.
proof fn lemma_total_of_part(part: Map<u64, PendingView>, whole: Map<u64, PendingView>)
    requires
        whole.dom().finite(),
        forall|id: u64| #[trigger]
            part.contains_key(id) ==> whole.contains_key(id) && part[id] == whole[id],
    ensures
        pending_total(part) <= pending_total(whole),
    decreases whole.len(),
{
    if exists|id: u64| whole.contains_key(id) && !part.contains_key(id) {
        let id = choose|id: u64| whole.contains_key(id) && !part.contains_key(id);
        lemma_total_remove(whole, id);
        lemma_total_of_part(part, whole.remove(id));
    } else {
        assert(part =~= whole);
    }
}

/// The head of a fragment keeps the limits of a state that takes frames so long.
proof fn lemma_head_is_accepted(state: ReassemblerView, sent: SentFrame, index: int)
    requires
        sent.valid(),
        0 <= index < sent.count(),
        sent.frame.len() <= state.config.max_frame_bytes,
    ensures
        state.limit_error(sent.head(index)) is None,
{
    lemma_fragment_pieces(sent.frame.len() as int, sent.size(), index);
}

/// Whether a set holds the indices of all fragments.
spec fn is_complete(received: Set<int>, count: int) -> bool {
    forall|index: int| 0 <= index < count ==> #[trigger] received.contains(index)
}

/// One more fragment of a frame of which some are there since `first`.
#[verifier::rlimit(60)]
#[verifier::spinoff_prover]
proof fn lemma_push_fragment(
    state: ReassemblerView,
    sent: SentFrame,
    received: Set<int>,
    index: int,
    first: Instant,
    now: Instant,
)
    requires
        sent.valid(),
        0 <= index < sent.count(),
        sent.frame.len() <= state.config.max_frame_bytes,
        sent.metadata.frame_id > state.last_completed_frame_id,
        state.pending.dom().finite(),
        if state.pending.contains_key(sent.metadata.frame_id) {
            &&& state.pending[sent.metadata.frame_id] == sent.partial(received, first)
            &&& now.since(first).nanos < state.config.fragment_deadline.nanos
        } else {
            received.is_empty() && first == now
        },
        pending_total(
            state.making_room(sent.metadata.frame_id, now).pending.remove(sent.metadata.frame_id),
        ) + sent.frame.len() <= state.config.max_memory_bytes,
    ensures
        ({
            let id = sent.metadata.frame_id;
            let with = received.insert(index);
            let finished = !received.contains(index) && is_complete(with, sent.count());
            let (after, result) = state.pushed(sent.datagram(index), now);
            &&& result matches Ok(outcome) && outcome.frame == if finished {
                Some((sent.metadata, sent.frame))
            } else {
                None
            }
            &&& after.config == state.config
            &&& finished ==> after.last_completed_frame_id == id
            &&& !finished ==> {
                &&& after.pending == state.making_room(id, now).pending.insert(
                    id,
                    sent.partial(with, first),
                )
                &&& after.last_completed_frame_id == state.last_completed_frame_id
            }
        }),
{
    let id = sent.metadata.frame_id;
    let count = sent.count();
    let length = sent.frame.len() as int;
    let head = sent.head(index);
    let chunk = sent.chunk(index);
    let with = received.insert(index);
    let room = state.making_room(id, now);
    lemma_datagram_parses(sent, index);
    lemma_head_is_accepted(state.expired(now), sent, index);
    lemma_fragment_pieces(length, sent.size(), index);
    lemma_room_is_finite(state, id, now);
    let frame = room.frame_for(head, now);
    if state.pending.contains_key(id) {
        assert(!state.overdue(now).contains(id));
        assert(room == state.expired(now));
    } else {
        assert(!room.pending.contains_key(id));
    }
    assert(frame.fragments =~= sent.partial(received, first).fragments);
    assert(frame == sent.partial(received, first));
    if received.contains(index) {
        assert(frame.fragments[index] == Some(chunk));
        assert(with =~= received);
        assert(room.pending =~= room.pending.insert(id, sent.partial(with, first)));
    } else {
        let filled = frame.with_fragment(index, chunk);
        assert(filled.fragments =~= sent.partial(with, first).fragments);
        assert(filled == sent.partial(with, first));
        assert(filled.fragments.take(count) =~= filled.fragments);
        assert(frame.fragments.take(count) =~= frame.fragments);
        lemma_partial_prefix(sent, with, first, count);
        lemma_partial_prefix(sent, received, first, count);
        lemma_arrived_update(frame.fragments, index, chunk);
        lemma_arrived_bound(filled.fragments);
        if room.pending.contains_key(id) {
            lemma_total_remove(room.pending, id);
        } else {
            lemma_arrived_none(frame.fragments);
            assert(room.pending.remove(id) =~= room.pending);
        }
        assert(pending_total(room.pending) + chunk.len() <= state.config.max_memory_bytes);
        assert(sent.frame.take(length) =~= sent.frame);
        if is_complete(with, count) {
            assert forall|i: int| 0 <= i < filled.fragments.len() implies (
            #[trigger] filled.fragments[i]) is Some by {
                assert(with.contains(i));
            }
        } else {
            let missing = choose|i: int| 0 <= i < count && !#[trigger] with.contains(i);
            assert(filled.fragments[missing] is None);
        }
    }
}

/// Making room leaves a part of the frames.
proof fn lemma_room_is_finite(state: ReassemblerView, id: u64, now: Instant)
    requires
        state.pending.dom().finite(),
    ensures
        state.making_room(id, now).pending.dom().finite(),
        forall|other: u64| #[trigger]
            state.making_room(id, now).pending.contains_key(other) ==> state.pending.contains_key(
                other,
            ) && state.making_room(id, now).pending[other] == state.pending[other],
{
    let ready = state.expired(now);
    assert(ready.pending.dom() =~= state.pending.dom().difference(state.overdue(now)));
}

/// Whether the fragments that arrived are all fragments of a frame, some perhaps more than
/// once.
pub open spec fn covers(arrivals: Seq<int>, count: int) -> bool {
    forall|index: int| 0 <= index < count ==> #[trigger] arrivals.contains(index)
}

/// Whether a state can take in a frame that it does not know yet, the first fragment of which
/// arrives at the given time.
pub open spec fn ready_for(state: ReassemblerView, sent: SentFrame, now: Instant) -> bool {
    &&& sent.frame.len() <= state.config.max_frame_bytes
    &&& sent.metadata.frame_id > state.last_completed_frame_id
    &&& state.pending.dom().finite()
    &&& !state.pending.contains_key(sent.metadata.frame_id)
    &&& pending_total(state.making_room(sent.metadata.frame_id, now).pending) + sent.frame.len()
        <= state.config.max_memory_bytes
}

/// Whether fragments of a frame arrive in time: none later than the deadline after the first.
pub open spec fn arrive_in_time(
    state: ReassemblerView,
    sent: SentFrame,
    arrivals: Seq<int>,
    times: Seq<Instant>,
) -> bool {
    &&& arrivals.len() == times.len()
    &&& forall|k: int|
        0 <= k < arrivals.len() ==> 0 <= #[trigger] arrivals[k] < sent.count() && times[k].since(
            times[0],
        ).nanos < state.config.fragment_deadline.nanos
}

/// What holds after the first `k` fragments arrived.
spec fn has_received(
    state: ReassemblerView,
    sent: SentFrame,
    arrivals: Seq<int>,
    times: Seq<Instant>,
    k: int,
    after: ReassemblerView,
) -> bool {
    let id = sent.metadata.frame_id;
    &&& after.config == state.config
    &&& k == 0 ==> after == state
    &&& k > 0 && covers(arrivals.take(k), sent.count()) ==> after.last_completed_frame_id == id
    &&& k > 0 && !covers(arrivals.take(k), sent.count()) ==> {
        &&& after.last_completed_frame_id == state.last_completed_frame_id
        &&& after.pending.dom().finite()
        &&& after.pending.contains_key(id)
        &&& after.pending[id] == sent.partial(arrivals.take(k).to_set(), times[0])
        &&& pending_total(after.pending.remove(id)) + sent.frame.len()
            <= state.config.max_memory_bytes
    }
}

/// What the fragment in place `k` does and reports.
#[verifier::rlimit(60)]
#[verifier::spinoff_prover]
proof fn lemma_next_arrival(
    state: ReassemblerView,
    sent: SentFrame,
    arrivals: Seq<int>,
    times: Seq<Instant>,
    k: int,
    before: ReassemblerView,
)
    requires
        sent.valid(),
        0 <= k < arrivals.len(),
        ready_for(state, sent, times[0]),
        arrive_in_time(state, sent, arrivals, times),
        has_received(state, sent, arrivals, times, k, before),
    ensures
        ({
            let (after, result) = before.pushed(sent.datagram(arrivals[k]), times[k]);
            &&& has_received(state, sent, arrivals, times, k + 1, after)
            &&& result matches Ok(outcome) && outcome.frame == if covers(
                arrivals.take(k + 1),
                sent.count(),
            ) && !covers(arrivals.take(k), sent.count()) {
                Some((sent.metadata, sent.frame))
            } else {
                None
            }
        }),
{
    let id = sent.metadata.frame_id;
    let count = sent.count();
    let index = arrivals[k];
    let received = arrivals.take(k).to_set();
    lemma_received_so_far(arrivals, k, count);
    lemma_datagram_parses(sent, index);
    if k > 0 && covers(arrivals.take(k), count) {
        lemma_head_is_accepted(before.expired(times[k]), sent, index);
    } else {
        lemma_room_is_finite(before, id, times[k]);
        let room = before.making_room(id, times[k]);
        if k == 0 {
            assert(room.pending.remove(id) =~= room.pending);
            assert(covers(arrivals.take(k), count) ==> arrivals.take(0).contains(0));
        } else {
            lemma_total_of_part(room.pending.remove(id), before.pending.remove(id));
        }
        lemma_push_fragment(before, sent, received, index, times[0], times[k]);
        let after = before.pushed(sent.datagram(index), times[k]).0;
        if !covers(arrivals.take(k + 1), count) {
            assert(after.pending.remove(id) =~= room.pending.remove(id));
        }
    }
}

/// The fragments that arrived, as a set.
proof fn lemma_received_so_far(arrivals: Seq<int>, k: int, count: int)
    requires
        0 <= k < arrivals.len(),
    ensures
        arrivals.take(k + 1).to_set() == arrivals.take(k).to_set().insert(arrivals[k]),
        k == 0 ==> arrivals.take(k).to_set().is_empty(),
        covers(arrivals.take(k), count) <==> is_complete(arrivals.take(k).to_set(), count),
        covers(arrivals.take(k + 1), count) <==> is_complete(
            arrivals.take(k + 1).to_set(),
            count,
        ),
        covers(arrivals.take(k), count) ==> covers(arrivals.take(k + 1), count),
        arrivals.take(k).to_set().contains(arrivals[k]) ==> (covers(arrivals.take(k + 1), count)
            <==> covers(arrivals.take(k), count)),
{
    let earlier = arrivals.take(k);
    let later = arrivals.take(k + 1);
    assert(later =~= earlier.push(arrivals[k]));
    assert forall|index: int| later.to_set().contains(index) <==> #[trigger] earlier.to_set().insert(
        arrivals[k],
    ).contains(index) by {
        if earlier.contains(index) {
            let place = choose|place: int| 0 <= place < earlier.len() && earlier[place] == index;
            assert(later[place] == index);
        }
        assert(later[k] == arrivals[k]);
        if later.contains(index) && index != arrivals[k] {
            let place = choose|place: int| 0 <= place < later.len() && later[place] == index;
            assert(earlier[place] == index);
        }
    }
    assert(later.to_set() =~= earlier.to_set().insert(arrivals[k]));
    if k == 0 {
        assert(earlier.to_set() =~= Set::<int>::empty());
    }
    assert(forall|index: int| earlier.contains(index) <==> earlier.to_set().contains(index));
    assert(forall|index: int| later.contains(index) <==> later.to_set().contains(index));
    if covers(earlier, count) {
        assert forall|index: int| 0 <= index < count implies #[trigger] later.contains(index) by {
            assert(earlier.contains(index));
            assert(later.to_set().contains(index));
        }
    }
    if earlier.to_set().contains(arrivals[k]) {
        assert(later.to_set() =~= earlier.to_set());
    }
}

proof fn lemma_received_prefix(
    state: ReassemblerView,
    sent: SentFrame,
    arrivals: Seq<int>,
    times: Seq<Instant>,
    k: int,
)
    requires
        sent.valid(),
        0 <= k < arrivals.len(),
        ready_for(state, sent, times[0]),
        arrive_in_time(state, sent, arrivals, times),
    ensures
        has_received(
            state,
            sent,
            arrivals,
            times,
            k,
            pushed_each(state, sent.datagrams(arrivals).take(k), times),
        ),
    decreases k,
{
    let datagrams = sent.datagrams(arrivals);
    if k > 0 {
        lemma_received_prefix(state, sent, arrivals, times, k - 1);
        let before = pushed_each(state, datagrams.take(k - 1), times);
        lemma_next_arrival(state, sent, arrivals, times, k - 1, before);
        assert(datagrams.take(k).drop_last() =~= datagrams.take(k - 1));
        assert(datagrams.take(k).last() == sent.datagram(arrivals[k - 1]));
    }
}

/// The datagrams of a frame, pushed in any order and any number of times each, give the frame
/// back with the first of them that leaves none missing, and nothing else before or after, as
/// long as they arrive in time and there is room for the frame.
pub proof fn lemma_frame_reassembles(
    state: ReassemblerView,
    sent: SentFrame,
    arrivals: Seq<int>,
    times: Seq<Instant>,
)
    requires
        sent.valid(),
        ready_for(state, sent, times[0]),
        arrive_in_time(state, sent, arrivals, times),
    ensures
        forall|k: int|
            0 <= k < arrivals.len() ==> {
                let before = pushed_each(state, #[trigger] sent.datagrams(arrivals).take(k), times);
                &&& before.pushed(sent.datagram(arrivals[k]), times[k]).1 matches Ok(outcome)
                &&& outcome.frame == if covers(arrivals.take(k + 1), sent.count()) && !covers(
                    arrivals.take(k),
                    sent.count(),
                ) {
                    Some((sent.metadata, sent.frame))
                } else {
                    None
                }
            },
{
    assert forall|k: int| 0 <= k < arrivals.len() implies {
        let before = pushed_each(state, #[trigger] sent.datagrams(arrivals).take(k), times);
        &&& before.pushed(sent.datagram(arrivals[k]), times[k]).1 matches Ok(outcome)
        &&& outcome.frame == if covers(arrivals.take(k + 1), sent.count()) && !covers(
            arrivals.take(k),
            sent.count(),
        ) {
            Some((sent.metadata, sent.frame))
        } else {
            None
        }
    } by {
        let before = pushed_each(state, sent.datagrams(arrivals).take(k), times);
        lemma_received_prefix(state, sent, arrivals, times, k);
        lemma_next_arrival(state, sent, arrivals, times, k, before);
    }
}

/// Between calls a reassembler keeps to its limits, and holds no frame that is not newer than
/// the last one that was finished.
pub proof fn lemma_reassembler_is_bounded(reassembler: VideoReassembler)
    requires
        reassembler.wf(),
    ensures
        reassembler@.pending.len() <= reassembler@.config.max_pending_frames,
        pending_total(reassembler@.pending) <= reassembler@.config.max_memory_bytes,
        forall|id: u64| #[trigger]
            reassembler@.pending.contains_key(id) ==> id > reassembler@.last_completed_frame_id,
{
    assert(reassembler@.pending.dom() =~= reassembler.pending@.dom());
}

impl ReassemblerView {
    /// Whether an unfinished frame is still waited for at the given time.
    pub open spec fn awaits(self, id: u64, now: Instant) -> bool {
        self.pending.contains_key(id) && now.since(self.pending[id].created_at).nanos
            < self.config.fragment_deadline.nanos
    }

    /// The unfinished frames that are still waited for.
    pub open spec fn awaited(self, now: Instant) -> Set<u64> {
        Set::new(|id: u64| self.awaits(id, now))
    }
}

proof fn lemma_awaited(state: ReassemblerView, now: Instant)
    requires
        state.pending.dom().finite(),
    ensures
        state.expired(now).pending.dom() == state.awaited(now),
        state.awaited(now).finite(),
        state.overdue(now).finite(),
        state.pending.dom().len() == state.awaited(now).len() + state.overdue(now).len(),
        forall|id: u64| #[trigger]
            state.expired(now).pending.contains_key(id) <==> state.awaits(id, now),
        forall|id: u64| #[trigger]
            state.awaits(id, now) ==> state.expired(now).pending[id] == state.pending[id],
{
    let rest = state.expired(now).pending;
    assert(rest.dom() =~= state.awaited(now));
    assert(state.awaited(now) =~= state.pending.dom().difference(state.overdue(now)));
    assert(state.overdue(now).subset_of(state.pending.dom()));
    vstd::set_lib::lemma_set_intersect_union_lens(state.awaited(now), state.overdue(now));
    assert(state.awaited(now).union(state.overdue(now)) =~= state.pending.dom());
    assert(state.awaited(now).intersect(state.overdue(now)) =~= Set::empty());
    assert forall|id: u64| #[trigger] state.expired(now).pending.contains_key(id)
        <==> state.awaits(id, now) by {
        assert(rest.dom().contains(id) <==> state.awaited(now).contains(id));
    }
}

/// Giving up frames: exactly those go whose first fragment came as long ago as the deadline or
/// longer, each counts as dropped and as expired, and all others stay as they are. A key frame
/// is asked for where enough frames were dropped in a row, and not again before the interval
/// between two requests is over.
pub proof fn lemma_only_overdue_frames_are_given_up(state: ReassemblerView, now: Instant)
    requires
        state.pending.dom().finite(),
    ensures
        ({
            let after = state.expired(now);
            let outcome = state.expiry(now);
            let gone = state.pending.dom().len() - state.awaited(now).len();
            let asks = after.consecutive_dropped_frames
                >= state.config.keyframe_request_after_drops && (state.last_keyframe_request
                matches Some(last) ==> now.since(last).nanos
                >= state.config.keyframe_request_interval.nanos);
            &&& forall|id: u64| #[trigger]
                after.pending.contains_key(id) <==> state.awaits(id, now)
            &&& forall|id: u64| #[trigger]
                after.pending.contains_key(id) ==> after.pending[id] == state.pending[id]
            &&& after.config == state.config
            &&& after.last_completed_frame_id == state.last_completed_frame_id
            &&& state.consecutive_dropped_frames + gone <= u32::MAX
                ==> after.consecutive_dropped_frames == state.consecutive_dropped_frames + gone
            &&& state.stats.expired_frames + gone <= u64::MAX ==> after.stats.expired_frames
                == state.stats.expired_frames + gone
            &&& after.stats == (VideoReassemblyStats {
                expired_frames: after.stats.expired_frames,
                ..state.stats
            })
            &&& outcome.frame is None
            &&& gone <= u32::MAX ==> outcome.dropped_frames == gone
            &&& outcome.request_keyframe <==> asks
            &&& after.last_keyframe_request == if asks {
                Some(now)
            } else {
                state.last_keyframe_request
            }
        }),
{
    lemma_awaited(state, now);
}

/// Whether the frame with the given identifier has to leave so that a fragment of another frame
/// can be taken in: it is the oldest one, all places are taken, and the other frame has none.
pub open spec fn has_to_leave(
    state: ReassemblerView,
    id: u64,
    incoming: u64,
    now: Instant,
) -> bool {
    &&& state.awaited(now).len() >= state.config.max_pending_frames
    &&& !state.awaits(incoming, now)
    &&& forall|other: u64| #[trigger] state.awaits(other, now) ==> id <= other
}

/// Fragments of one frame leave the other frames alone: an unfinished frame that is waited for
/// keeps what it has, unless the fragment belongs to it, or finishes a newer frame, or takes its
/// place as the oldest one.
pub proof fn lemma_other_frames_are_kept(
    state: ReassemblerView,
    datagram: Seq<u8>,
    now: Instant,
    id: u64,
)
    requires
        state.pending.dom().finite(),
        state.awaits(id, now),
        wire::u64_at(datagram, 48) != id,
        id > state.pushed(datagram, now).0.last_completed_frame_id,
        !has_to_leave(state, id, wire::u64_at(datagram, 48), now),
    ensures
        state.pushed(datagram, now).0.pending.contains_key(id),
        state.pushed(datagram, now).0.pending[id] == state.pending[id],
{
    lemma_awaited(state, now);
    let ready = state.expired(now);
    let (after, result) = state.pushed(datagram, now);
    if let Ok((header, bytes)) = parse_datagram(datagram) {
        lemma_frame_id_of(datagram);
        let incoming = header.metadata.frame_id;
        assert(incoming == wire::u64_at(datagram, 48));
        assert(ready.pending.contains_key(id));
        if ready.is_full_for(incoming) {
            counting::lemma_least(ready.pending.dom());
            let oldest = ready.oldest();
            assert(ready.pending.dom().contains(oldest));
            assert(!state.awaits(incoming, now));
            let other = choose|other: u64| #[trigger] state.awaits(other, now) && !(id <= other);
            assert(ready.pending.dom().contains(other));
            assert(oldest != id);
            assert(ready.without_oldest().pending.contains_key(id));
        }
    }
}

/// The identifier of a fragment's frame stands behind the header of its message.
proof fn lemma_frame_id_of(datagram: Seq<u8>)
    requires
        parse_datagram(datagram) is Ok,
    ensures
        parse_datagram(datagram)->Ok_0.0.metadata.frame_id == wire::u64_at(datagram, 48),
        datagram.len() > 76,
{
    let payload = protocol::packet_payload(datagram);
    assert(payload =~= datagram.subrange(48, datagram.len() as int));
    assert(wire::u64_at(payload, 0) == wire::u64_at(datagram, 48));
}

/// A finished frame takes only itself and older ones with it: what is newer and waited for
/// stays as it is, unless it had to make room.
pub proof fn lemma_finished_frame_leaves_newer_ones(
    state: ReassemblerView,
    datagram: Seq<u8>,
    now: Instant,
    id: u64,
)
    requires
        state.pending.dom().finite(),
        state.pushed(datagram, now).1 matches Ok(outcome) && outcome.frame is Some,
    ensures
        ({
            let (after, result) = state.pushed(datagram, now);
            let finished = result->Ok_0.frame->Some_0.0.frame_id;
            &&& after.last_completed_frame_id == finished
            &&& id > finished && state.awaits(id, now) && !has_to_leave(state, id, finished, now)
                ==> after.pending.contains_key(id) && after.pending[id] == state.pending[id]
            &&& id <= finished ==> !after.pending.contains_key(id)
            &&& after.consecutive_dropped_frames == 0
            &&& state.stats.completed_frames < u64::MAX ==> after.stats.completed_frames
                == state.stats.completed_frames + 1
        }),
{
    lemma_frame_id_of(datagram);
    let finished = state.pushed(datagram, now).1->Ok_0.frame->Some_0.0.frame_id;
    if id > finished && state.awaits(id, now) && !has_to_leave(state, id, finished, now) {
        lemma_other_frames_are_kept(state, datagram, now, id);
    }
}

/// A fragment that does not finish its frame is kept in its place, beside what has come of the
/// frame before, and does not put the frame's deadline off.
pub proof fn lemma_fragment_is_kept(state: ReassemblerView, datagram: Seq<u8>, now: Instant)
    requires
        state.pending.dom().finite(),
        parse_datagram(datagram) is Ok,
        state.pushed(datagram, now).1 matches Ok(outcome) && outcome.frame is None,
        wire::u64_at(datagram, 48) > state.last_completed_frame_id,
    ensures
        ({
            let after = state.pushed(datagram, now).0;
            let (header, bytes) = parse_datagram(datagram)->Ok_0;
            let id = wire::u64_at(datagram, 48);
            let index = header.fragment_index as int;
            &&& after.pending.contains_key(id)
            &&& after.pending[id].metadata == header.metadata
            &&& after.pending[id].frame_size == header.frame_size
            &&& after.pending[id].fragments.len() == header.fragment_count
            &&& index < header.fragment_count
            &&& after.pending[id].fragments[index] == Some(bytes)
            &&& state.awaits(id, now) ==> {
                &&& after.pending[id].created_at == state.pending[id].created_at
                &&& after.pending[id].metadata == state.pending[id].metadata
                &&& forall|other: int|
                    0 <= other < header.fragment_count && other != index ==> (
                    #[trigger] after.pending[id].fragments[other])
                        == state.pending[id].fragments[other]
            }
            &&& !state.awaits(id, now) ==> {
                &&& after.pending[id].created_at == now
                &&& forall|other: int|
                    0 <= other < header.fragment_count && other != index ==> (
                    #[trigger] after.pending[id].fragments[other]) is None
            }
        }),
{
    lemma_awaited(state, now);
    lemma_frame_id_of(datagram);
    let ready = state.expired(now);
    let id = wire::u64_at(datagram, 48);
    assert(ready.pending.contains_key(id) <==> state.awaits(id, now));
    if ready.is_full_for(id) {
        assert(!ready.without_oldest().pending.contains_key(id));
    }
}

/// Whether all fragments but one have come.
pub open spec fn only_missing(fragments: Seq<Option<Seq<u8>>>, index: int) -> bool {
    forall|other: int|
        0 <= other < fragments.len() && other != index ==> (#[trigger] fragments[other]) is Some
}

proof fn lemma_last_fragment(fragments: Seq<Option<Seq<u8>>>, index: int, bytes: Seq<u8>)
    requires
        0 <= index < fragments.len(),
        fragments[index] is None,
    ensures
        arrived_count(fragments.update(index, Some(bytes))) >= fragments.len() <==> only_missing(
            fragments,
            index,
        ),
        arrived_bytes(fragments.update(index, Some(bytes))) == arrived_bytes(fragments)
            + bytes.len(),
{
    let filled = fragments.update(index, Some(bytes));
    lemma_arrived_update(fragments, index, bytes);
    lemma_arrived_bound(filled);
    if only_missing(fragments, index) {
        assert forall|place: int| 0 <= place < filled.len() implies (
        #[trigger] filled[place]) is Some by {
            if place != index {
                assert(fragments[place] is Some);
            }
        }
    } else {
        let place = choose|place: int|
            0 <= place < fragments.len() && place != index && (#[trigger] fragments[place]) is None;
        assert(filled[place] is None);
    }
}

/// A fragment of a frame that is waited for is taken exactly where it says the same of the
/// frame, and where it is either what has come in its place before, or fits: in the memory, in
/// the frame, and with the last missing one to just the size of the frame. Otherwise the whole
/// frame is given up. What is taken again changes nothing but the count of duplicates.
#[verifier::rlimit(60)]
#[verifier::spinoff_prover]
pub proof fn lemma_fragments_must_fit_together(
    state: ReassemblerView,
    datagram: Seq<u8>,
    now: Instant,
)
    requires
        state.pending.dom().finite(),
        parse_datagram(datagram) is Ok,
        state.limit_error(parse_datagram(datagram)->Ok_0.0) is None,
        wire::u64_at(datagram, 48) > state.last_completed_frame_id,
        state.awaits(wire::u64_at(datagram, 48), now),
    ensures
        ({
            let (after, result) = state.pushed(datagram, now);
            let (header, bytes) = parse_datagram(datagram)->Ok_0;
            let id = wire::u64_at(datagram, 48);
            let frame = state.pending[id];
            let index = header.fragment_index as int;
            let same = frame.metadata == header.metadata && frame.fragments.len()
                == header.fragment_count && frame.frame_size == header.frame_size;
            let room = pending_total(state.expired(now).pending) + bytes.len()
                <= state.config.max_memory_bytes;
            let total = frame.bytes() + bytes.len();
            &&& result is Ok <==> same && (frame.fragments[index] == Some(bytes)
                || frame.fragments[index] is None && room && total <= header.frame_size && (
            only_missing(frame.fragments, index) ==> total == header.frame_size))
            &&& result is Err ==> !after.pending.contains_key(id)
            &&& result matches Err(error) ==> match error {
                VideoDatagramError::InconsistentMetadata => !same,
                VideoDatagramError::ConflictingDuplicate => same && frame.fragments[index] is Some
                    && frame.fragments[index] != Some(bytes),
                VideoDatagramError::MemoryLimit => same && frame.fragments[index] is None && !room,
                VideoDatagramError::InvalidFrameSize(size) => same && size == total as usize,
                _ => false,
            }
            &&& same && frame.fragments[index] == Some(bytes) ==> {
                &&& result->Ok_0.frame is None
                &&& after.pending == state.expired(now).pending
                &&& state.stats.duplicate_fragments < u64::MAX ==> after.stats.duplicate_fragments
                    == state.stats.duplicate_fragments + 1
            }
            &&& result is Ok && frame.fragments[index] is None ==> (result->Ok_0.frame is Some
                <==> only_missing(frame.fragments, index))
            &&& state.stats.malformed_fragments < u64::MAX ==> after.stats.malformed_fragments
                == state.stats.malformed_fragments + if result matches Err(error) && error
                != VideoDatagramError::MemoryLimit {
                1int
            } else {
                0int
            }
        }),
{
    lemma_awaited(state, now);
    lemma_frame_id_of(datagram);
    let ready = state.expired(now);
    let (header, bytes) = parse_datagram(datagram)->Ok_0;
    let id = wire::u64_at(datagram, 48);
    let frame = state.pending[id];
    let index = header.fragment_index as int;
    assert(ready.pending.contains_key(id));
    assert(ready.limit_error(header) is None);
    assert(ready.frame_for(header, now) == frame);
    if frame.matches(header) && frame.fragments[index] is None {
        lemma_last_fragment(frame.fragments, index, bytes);
    }
}

/// Fragments of a frame that is not newer than the last finished one are counted and forgotten.
pub proof fn lemma_old_fragments_are_forgotten(
    state: ReassemblerView,
    datagram: Seq<u8>,
    now: Instant,
)
    requires
        parse_datagram(datagram) is Ok,
        state.limit_error(parse_datagram(datagram)->Ok_0.0) is None,
        wire::u64_at(datagram, 48) <= state.last_completed_frame_id,
    ensures
        state.pushed(datagram, now).1 matches Ok(outcome) && outcome.frame is None,
        state.pushed(datagram, now).0.pending == state.expired(now).pending,
        state.stats.obsolete_fragments < u64::MAX ==> state.pushed(
            datagram,
            now,
        ).0.stats.obsolete_fragments == state.stats.obsolete_fragments + 1,
{
    lemma_frame_id_of(datagram);
}

/// The head of a fragment is in its limits exactly where it names a frame, knows its flags, and
/// has a place among at most 32768 fragments of a frame that is not too long. What is not is
/// refused, and changes no frame.
pub proof fn lemma_heads_keep_their_limits(
    state: ReassemblerView,
    datagram: Seq<u8>,
    now: Instant,
    header: FragmentHeader,
)
    ensures
        state.limit_error(header) is None <==> {
            &&& header.metadata.frame_id > 0
            &&& header.metadata.flags < 4
            &&& 1 <= header.fragment_count <= 32_768
            &&& header.fragment_index < header.fragment_count
            &&& 1 <= header.frame_size <= state.config.max_frame_bytes
        },
        parse_datagram(datagram) matches Ok((read, _)) ==> (state.limit_error(read) matches Some(
            error,
        ) ==> state.pushed(datagram, now) == (
            state.expired(now),
            Err::<OutcomeView, VideoDatagramError>(error),
        )),
        parse_datagram(datagram) matches Err(error) ==> state.pushed(datagram, now) == (
            state.expired(now),
            Err::<OutcomeView, VideoDatagramError>(error),
        ),
{
    let flags = header.metadata.flags;
    assert(flags & !3u8 != 0 <==> flags >= 4) by (bit_vector);
}

/// A datagram is read as a fragment exactly where it is a message of that type with a head of 28
/// bytes and at least one byte behind it, of a known codec, and with nothing in the reserved
/// field. Where each part of it stands.
pub proof fn lemma_fragments_that_can_be_read(payload: Seq<u8>)
    ensures
        parse_fragment(payload) is Ok <==> payload.len() >= 29 && wire::u16_at(payload, 14) == 0
            && 1 <= payload[12] <= 6,
        parse_fragment(payload) matches Ok((header, bytes)) ==> {
            &&& header.metadata.frame_id == wire::u64_at(payload, 0)
            &&& header.fragment_index == wire::u16_at(payload, 8)
            &&& header.fragment_count == wire::u16_at(payload, 10)
            &&& header.metadata.codec == match payload[12] {
                1 => VideoCodec::H264,
                2 => VideoCodec::H265,
                3 => VideoCodec::Vp8,
                4 => VideoCodec::Vp9,
                5 => VideoCodec::Av1,
                _ => VideoCodec::Raw,
            }
            &&& header.metadata.flags == payload[13]
            &&& header.metadata.presentation_timestamp_us == wire::u64_at(payload, 16)
            &&& header.frame_size == wire::u32_at(payload, 24)
            &&& bytes == payload.subrange(28, payload.len() as int)
        },
        parse_fragment(payload) matches Err(error) ==> match error {
            VideoDatagramError::HeaderTruncated => payload.len() < 28,
            VideoDatagramError::EmptyFragment => payload.len() == 28,
            VideoDatagramError::ReservedField => wire::u16_at(payload, 14) != 0,
            VideoDatagramError::UnknownCodec(code) => code == payload[12] && (code == 0 || code
                > 6),
            _ => false,
        },
{
}

/// A frame can be sent exactly where it has an identifier and known flags, one byte to 32 MiB,
/// datagrams with room for more than the 76 bytes of the heads, at most 32768 fragments, and
/// numbers for all of them.
pub proof fn lemma_frames_that_can_be_sent(
    session_id: Seq<u8>,
    first_sequence_number: u64,
    metadata: VideoFrameMetadata,
    length: usize,
    max_datagram_size: usize,
)
    requires
        max_datagram_size <= 65_584,
    ensures
        fragmenting_error(session_id, first_sequence_number, metadata, length, max_datagram_size)
            is None <==> {
            let room = max_datagram_size - 76;
            &&& metadata.frame_id > 0
            &&& metadata.flags < 4
            &&& 1 <= length <= 33_554_432
            &&& room > 0
            &&& length <= 32_768 * room
            &&& first_sequence_number > 0
            &&& first_sequence_number + fragment_count(length as int, room) - 1 <= u64::MAX
            &&& !wire::all_zero(session_id)
        },
{
    let flags = metadata.flags;
    assert(flags & !3u8 != 0 <==> flags >= 4) by (bit_vector);
    assert(0u16 & !3u16 == 0) by (bit_vector);
    let room = max_datagram_size - 76;
    if room > 0 && length > 0 {
        let quotient = (length - 1) / room;
        lemma_fragment_pieces(length as int, room, 0);
        vstd::arithmetic::div_mod::lemma_fundamental_div_mod(length - 1, room);
        vstd::arithmetic::div_mod::lemma_mod_bound(length - 1, room);
        assert(quotient + 1 <= 32_768 <==> length <= 32_768 * room) by (nonlinear_arith)
            requires
                length - 1 == room * quotient + (length - 1) % room,
                0 <= (length - 1) % room < room,
                room > 0,
        ;
    }
}

/// A frame is cut into as few pieces as possible: all but the last one fill their datagram, each
/// begins where the one before ends, and they are numbered one after the other.
pub proof fn lemma_frame_is_cut_evenly(sent: SentFrame, index: int)
    requires
        sent.valid(),
        0 <= index < sent.count(),
    ensures
        ({
            let room = sent.max_datagram_size - 76;
            let datagram = sent.datagram(index);
            &&& (sent.count() - 1) * room < sent.frame.len() <= sent.count() * room
            &&& datagram.len() == 76 + sent.chunk(index).len()
            &&& index < sent.count() - 1 ==> datagram.len() == sent.max_datagram_size
            &&& datagram.len() <= sent.max_datagram_size
            &&& forall|place: int|
                0 <= place < sent.chunk(index).len() ==> datagram[76 + place]
                    == #[trigger] sent.chunk(index)[place]
            &&& sent.chunk(index) == sent.frame.subrange(
                index * room,
                index * room + sent.chunk(index).len(),
            )
            &&& index == sent.count() - 1 ==> index * room + sent.chunk(index).len()
                == sent.frame.len()
            &&& wire::u64_at(datagram, 28) == sent.first_sequence_number + index
            &&& wire::u64_at(datagram, 40) == sent.monotonic_timestamp_us
            &&& datagram.subrange(12, 28) == sent.session_id@
            &&& wire::u64_at(datagram, 48) == sent.metadata.frame_id
            &&& wire::u16_at(datagram, 56) == index
            &&& wire::u16_at(datagram, 58) == sent.count()
            &&& datagram[60] == sent.metadata.codec.code()
            &&& datagram[61] == sent.metadata.flags
            &&& wire::u64_at(datagram, 64) == sent.metadata.presentation_timestamp_us
            &&& wire::u32_at(datagram, 72) == sent.frame.len()
        }),
{
    lemma_pieces_in_place(sent, index);
    lemma_fields_in_place(sent, index);
}

#[verifier::spinoff_prover]
proof fn lemma_pieces_in_place(sent: SentFrame, index: int)
    requires
        sent.valid(),
        0 <= index < sent.count(),
    ensures
        ({
            let room = sent.max_datagram_size - 76;
            let datagram = sent.datagram(index);
            &&& (sent.count() - 1) * room < sent.frame.len() <= sent.count() * room
            &&& datagram.len() == 76 + sent.chunk(index).len()
            &&& index < sent.count() - 1 ==> datagram.len() == sent.max_datagram_size
            &&& datagram.len() <= sent.max_datagram_size
            &&& forall|place: int|
                0 <= place < sent.chunk(index).len() ==> datagram[76 + place]
                    == #[trigger] sent.chunk(index)[place]
            &&& sent.chunk(index) == sent.frame.subrange(
                index * room,
                index * room + sent.chunk(index).len(),
            )
            &&& index == sent.count() - 1 ==> index * room + sent.chunk(index).len()
                == sent.frame.len()
        }),
{
    let room = sent.size();
    let length = sent.frame.len() as int;
    let head = protocol::header_bytes(sent.header(index));
    let fields = fragment_header_bytes(sent.head(index));
    lemma_even_pieces(length, room, index);
    lemma_heads_before_the_piece(sent, index);
    lemma_behind_two_heads(head, fields, sent.chunk(index));
    lemma_fragment_pieces(length, room, index);
}

/// The sizes of the pieces of a frame.
proof fn lemma_even_pieces(length: int, size: int, index: int)
    requires
        0 < length,
        0 < size,
        0 <= index < fragment_count(length, size),
    ensures
        ({
            let count = fragment_count(length, size);
            let piece = fragment_start(length, size, index + 1) - fragment_start(
                length,
                size,
                index,
            );
            &&& (count - 1) * size < length <= count * size
            &&& index < count - 1 ==> piece == size
            &&& piece <= size
            &&& index == count - 1 ==> index * size + piece == length
            &&& fragment_start(length, size, index) == index * size
        }),
{
    let last = fragment_count(length, size) - 1;
    lemma_fragment_pieces(length, size, index);
    lemma_fragment_pieces(length, size, last);
    assert((last + 1) * size == last * size + size) by (nonlinear_arith);
    assert((index + 1) * size == index * size + size) by (nonlinear_arith);
    if index < last {
        assert((index + 1) * size <= last * size) by (nonlinear_arith)
            requires
                index + 1 <= last,
                size > 0,
        ;
    }
}

proof fn lemma_heads_before_the_piece(sent: SentFrame, index: int)
    requires
        sent.valid(),
        0 <= index < sent.count(),
    ensures
        protocol::header_bytes(sent.header(index)).len() == 48,
        fragment_header_bytes(sent.head(index)).len() == 28,
        sent.datagram(index) == protocol::header_bytes(sent.header(index)) + (
        fragment_header_bytes(sent.head(index)) + sent.chunk(index)),
{
    lemma_fragment_pieces(sent.frame.len() as int, sent.size(), index);
    lemma_fragment_message(sent, index);
    lemma_fragment_header_fields(sent.head(index));
    protocol::lemma_header_layout(sent.header(index));
}

proof fn lemma_behind_two_heads(head: Seq<u8>, fields: Seq<u8>, piece: Seq<u8>)
    requires
        head.len() == 48,
        fields.len() == 28,
    ensures
        (head + (fields + piece)).len() == 76 + piece.len(),
        forall|place: int|
            0 <= place < piece.len() ==> (head + (fields + piece))[76 + place]
                == #[trigger] piece[place],
{
}

#[verifier::spinoff_prover]
#[verifier::rlimit(60)]
#[verifier::spinoff_prover]
proof fn lemma_fields_in_place(sent: SentFrame, index: int)
    requires
        sent.valid(),
        0 <= index < sent.count(),
    ensures
        ({
            let datagram = sent.datagram(index);
            &&& wire::u64_at(datagram, 28) == sent.first_sequence_number + index
            &&& wire::u64_at(datagram, 40) == sent.monotonic_timestamp_us
            &&& datagram.subrange(12, 28) == sent.session_id@
            &&& wire::u64_at(datagram, 48) == sent.metadata.frame_id
            &&& wire::u16_at(datagram, 56) == index
            &&& wire::u16_at(datagram, 58) == sent.count()
            &&& datagram[60] == sent.metadata.codec.code()
            &&& datagram[61] == sent.metadata.flags
            &&& wire::u64_at(datagram, 64) == sent.metadata.presentation_timestamp_us
            &&& wire::u32_at(datagram, 72) == sent.frame.len()
        }),
{
    let head = protocol::header_bytes(sent.header(index));
    let fields = fragment_header_bytes(sent.head(index));
    let chunk = sent.chunk(index);
    let payload = fields + chunk;
    lemma_fragment_pieces(sent.frame.len() as int, sent.size(), index);
    lemma_fragment_message(sent, index);
    lemma_fragment_header_fields(sent.head(index));
    protocol::lemma_header_layout(sent.header(index));
    protocol::lemma_packet_parts(sent.datagram(index), sent.header(index), payload);
    wire::lemma_reads_of_prefix(fields, chunk, 0);
    wire::lemma_reads_of_prefix(fields, chunk, 8);
    wire::lemma_reads_of_prefix(fields, chunk, 10);
    wire::lemma_reads_of_prefix(fields, chunk, 16);
    wire::lemma_reads_of_prefix(fields, chunk, 24);
    wire::lemma_reads_behind(head, payload, 0);
    wire::lemma_reads_behind(head, payload, 8);
    wire::lemma_reads_behind(head, payload, 10);
    wire::lemma_reads_behind(head, payload, 16);
    wire::lemma_reads_behind(head, payload, 24);
    assert((head + payload)[60] == payload[12] && payload[12] == fields[12]);
    assert((head + payload)[61] == payload[13] && payload[13] == fields[13]);
}

/// The limits of a reassembler make sense exactly where frames have a length up to 32 MiB, at
/// least one frame can wait, and one of the longest fits in the memory.
pub proof fn lemma_valid_reassembly_limits(config: VideoReassemblyConfig)
    ensures
        config_error(config) is None <==> 1 <= config.max_frame_bytes <= 33_554_432
            && config.max_pending_frames >= 1 && config.max_frame_bytes <= config.max_memory_bytes,
{
}

proof fn lemma_push_keeps_finite(state: ReassemblerView, datagram: Seq<u8>, now: Instant)
    requires
        state.pending.dom().finite(),
    ensures
        state.pushed(datagram, now).0.pending.dom().finite(),
        state.pushed(datagram, now).0.config == state.config,
{
    lemma_awaited(state, now);
    let ready = state.expired(now);
    if let Ok((header, bytes)) = parse_datagram(datagram) {
        let id = header.metadata.frame_id;
        let room = if ready.is_full_for(id) {
            ready.without_oldest()
        } else {
            ready
        };
        assert(room.pending.dom().finite());
        assert(room.completing(id).pending.dom().subset_of(room.pending.dom()));
    }
}

/// The fragments of a frame among the first `k` datagrams.
pub open spec fn own_fragments(own: Seq<Option<int>>, k: int) -> Set<int> {
    Set::new(|index: int| exists|place: int| 0 <= place < k && #[trigger] own[place] == Some(index))
}

/// Whether datagrams, among them those of a frame, come as the frame needs it: those that are
/// not its own name other frames, all come before the frame is overdue, none of the others
/// finishes a newer frame before the frame has all its fragments, and none needs its place or
/// the memory for it.
pub open spec fn come_in_between(
    state: ReassemblerView,
    sent: SentFrame,
    own: Seq<Option<int>>,
    datagrams: Seq<Seq<u8>>,
    times: Seq<Instant>,
) -> bool {
    let id = sent.metadata.frame_id;
    &&& own.len() == datagrams.len() == times.len()
    &&& forall|k: int|
        #![trigger datagrams.take(k)]
        0 <= k < datagrams.len() ==> {
            let before = pushed_each(state, datagrams.take(k), times);
            &&& times[k].since(times[0]).nanos < state.config.fragment_deadline.nanos
            &&& own[k] matches Some(index) ==> 0 <= index < sent.count() && datagrams[k]
                == sent.datagram(index) && pending_total(
                before.making_room(id, times[k]).pending.remove(id),
            ) + sent.frame.len() <= state.config.max_memory_bytes
            &&& own[k] is None ==> wire::u64_at(datagrams[k], 48) != id && !has_to_leave(
                before,
                id,
                wire::u64_at(datagrams[k], 48),
                times[k],
            )
            &&& is_complete_set(own_fragments(own, k), sent.count())
                || before.last_completed_frame_id < id
        }
}

/// Whether a set holds the indices of all fragments.
pub open spec fn is_complete_set(received: Set<int>, count: int) -> bool {
    forall|index: int| 0 <= index < count ==> #[trigger] received.contains(index)
}

proof fn lemma_own_fragments_grow(own: Seq<Option<int>>, k: int)
    requires
        0 <= k < own.len(),
    ensures
        own[k] matches Some(index) ==> own_fragments(own, k + 1) == own_fragments(own, k).insert(
            index,
        ),
        own[k] is None ==> own_fragments(own, k + 1) == own_fragments(own, k),
{
    let earlier = own_fragments(own, k);
    let later = own_fragments(own, k + 1);
    assert forall|index: int| #[trigger] later.contains(index) <==> earlier.contains(index)
        || own[k] == Some(index) by {
        if later.contains(index) {
            let place = choose|place: int| 0 <= place < k + 1 && #[trigger] own[place]
                == Some(index);
            assert(own[place] == Some(index));
        }
    }
    if let Some(index) = own[k] {
        assert(later =~= earlier.insert(index));
    } else {
        assert(later =~= earlier);
    }
}

proof fn lemma_kept_among_others(
    state: ReassemblerView,
    sent: SentFrame,
    own: Seq<Option<int>>,
    datagrams: Seq<Seq<u8>>,
    times: Seq<Instant>,
    k: int,
)
    requires
        sent.valid(),
        sent.frame.len() <= state.config.max_frame_bytes,
        state.pending.dom().finite(),
        !state.pending.contains_key(sent.metadata.frame_id),
        come_in_between(state, sent, own, datagrams, times),
        0 <= k < datagrams.len(),
        own[0] is Some,
        !is_complete_set(own_fragments(own, k), sent.count()),
    ensures
        ({
            let before = pushed_each(state, datagrams.take(k), times);
            &&& before.pending.dom().finite()
            &&& before.config == state.config
            &&& k == 0 ==> before == state
            &&& k > 0 ==> before.pending.contains_key(sent.metadata.frame_id)
                && before.pending[sent.metadata.frame_id] == sent.partial(
                own_fragments(own, k),
                times[0],
            )
        }),
    decreases k,
{
    let id = sent.metadata.frame_id;
    if k == 0 {
        assert(datagrams.take(0).len() == 0);
    } else {
        let before = pushed_each(state, datagrams.take(k - 1), times);
        let after = pushed_each(state, datagrams.take(k), times);
        let received = own_fragments(own, k - 1);
        lemma_own_fragments_grow(own, k - 1);
        if is_complete_set(received, sent.count()) {
            assert forall|index: int| 0 <= index < sent.count() implies #[trigger] own_fragments(
                own,
                k,
            ).contains(index) by {
                assert(received.contains(index));
            }
        }
        lemma_kept_among_others(state, sent, own, datagrams, times, k - 1);
        assert(datagrams.take(k).drop_last() =~= datagrams.take(k - 1));
        assert(datagrams.take(k).last() == datagrams[k - 1]);
        assert(after == before.pushed(datagrams[k - 1], times[k - 1]).0);
        lemma_push_keeps_finite(before, datagrams[k - 1], times[k - 1]);
        if k == 1 {
            assert(received =~= Set::<int>::empty());
        }
        match own[k - 1] {
            Some(index) => {
                assert(!is_complete(received.insert(index), sent.count())) by {
                    assert(own_fragments(own, k) == received.insert(index));
                }
                lemma_push_fragment(before, sent, received, index, times[0], times[k - 1]);
            },
            None => {
                assert(datagrams.take(k) == datagrams.take(k));
                assert(after.last_completed_frame_id < id);
                lemma_other_frames_are_kept(before, datagrams[k - 1], times[k - 1], id);
            },
        }
    }
}

/// Frames whose fragments arrive in between do not disturb each other: whatever comes besides, a
/// frame is given back with the first of its fragments that leaves none missing, and with none
/// before, as long as all of them arrive in time, before a newer frame is finished, and there is
/// room for it.
pub proof fn lemma_frame_reassembles_among_others(
    state: ReassemblerView,
    sent: SentFrame,
    own: Seq<Option<int>>,
    datagrams: Seq<Seq<u8>>,
    times: Seq<Instant>,
    k: int,
)
    requires
        sent.valid(),
        sent.frame.len() <= state.config.max_frame_bytes,
        state.pending.dom().finite(),
        !state.pending.contains_key(sent.metadata.frame_id),
        come_in_between(state, sent, own, datagrams, times),
        0 <= k < datagrams.len(),
        own[0] is Some,
        own[k] is Some,
        !is_complete_set(own_fragments(own, k), sent.count()),
    ensures
        ({
            let before = pushed_each(state, datagrams.take(k), times);
            &&& before.pushed(datagrams[k], times[k]).1 matches Ok(outcome)
            &&& outcome.frame == if is_complete_set(own_fragments(own, k + 1), sent.count()) {
                Some((sent.metadata, sent.frame))
            } else {
                None
            }
        }),
{
    let before = pushed_each(state, datagrams.take(k), times);
    let received = own_fragments(own, k);
    let index = own[k]->Some_0;
    lemma_kept_among_others(state, sent, own, datagrams, times, k);
    lemma_own_fragments_grow(own, k);
    if k == 0 {
        assert(received =~= Set::<int>::empty());
    }
    lemma_push_fragment(before, sent, received, index, times[0], times[k]);
    if received.contains(index) {
        assert(received.insert(index) =~= received);
    }
    assert(is_complete(received.insert(index), sent.count()) <==> is_complete_set(
        own_fragments(own, k + 1),
        sent.count(),
    ));
}


/// The bytes by which video codecs are told apart on the wire.
pub proof fn lemma_video_codec_bytes(value: u8, codec: VideoCodec)
    ensures
        video_codec_of(1) == Ok::<_, VideoDatagramError>(VideoCodec::H264),
        video_codec_of(2) == Ok::<_, VideoDatagramError>(VideoCodec::H265),
        video_codec_of(3) == Ok::<_, VideoDatagramError>(VideoCodec::Vp8),
        video_codec_of(4) == Ok::<_, VideoDatagramError>(VideoCodec::Vp9),
        video_codec_of(5) == Ok::<_, VideoDatagramError>(VideoCodec::Av1),
        video_codec_of(6) == Ok::<_, VideoDatagramError>(VideoCodec::Raw),
        video_codec_of(value) is Ok <==> 1 <= value <= 6,
        video_codec_of(value) is Err ==> video_codec_of(value)->Err_0
            == VideoDatagramError::UnknownCodec(value),
        video_codec_of(codec.code()) == Ok::<_, VideoDatagramError>(codec),
{
}


/// What a fragment that is taken reports as dropped: the frames that were given up at the same
/// time, and one more where the oldest frame had to make room. Each counts as dropped in a row
/// until a frame is finished, and what made room counts as evicted.
#[verifier::rlimit(60)]
#[verifier::spinoff_prover]
pub proof fn lemma_dropped_frames_are_reported(
    state: ReassemblerView,
    datagram: Seq<u8>,
    now: Instant,
)
    requires
        state.pending.dom().finite(),
        state.pushed(datagram, now).1 is Ok,
    ensures
        ({
            let (after, result) = state.pushed(datagram, now);
            let outcome = result->Ok_0;
            let id = wire::u64_at(datagram, 48);
            let gone = state.pending.dom().len() - state.awaited(now).len();
            let evicted = if id > state.last_completed_frame_id && !state.awaits(id, now)
                && state.awaited(now).len() >= state.config.max_pending_frames {
                1int
            } else {
                0
            };
            &&& gone + 1 <= u32::MAX ==> outcome.dropped_frames == gone + evicted
            &&& outcome.frame is None && state.consecutive_dropped_frames + gone + 1 <= u32::MAX
                ==> after.consecutive_dropped_frames == state.consecutive_dropped_frames + gone
                + evicted
            &&& state.stats.evicted_frames < u64::MAX ==> after.stats.evicted_frames
                == state.stats.evicted_frames + evicted
            &&& state.stats.expired_frames + gone <= u64::MAX ==> after.stats.expired_frames
                == state.stats.expired_frames + gone
            &&& after.config == state.config
        }),
{
    lemma_awaited(state, now);
    lemma_frame_id_of(datagram);
}

/// Where all places are taken, the first fragment of a further frame makes the oldest frame
/// leave.
pub proof fn lemma_oldest_frame_makes_room(
    state: ReassemblerView,
    datagram: Seq<u8>,
    now: Instant,
    id: u64,
)
    requires
        state.pending.dom().finite(),
        parse_datagram(datagram) is Ok,
        state.limit_error(parse_datagram(datagram)->Ok_0.0) is None,
        wire::u64_at(datagram, 48) > state.last_completed_frame_id,
        state.awaits(id, now),
        has_to_leave(state, id, wire::u64_at(datagram, 48), now),
    ensures
        !state.pushed(datagram, now).0.pending.contains_key(id),
{
    lemma_awaited(state, now);
    lemma_frame_id_of(datagram);
    let ready = state.expired(now);
    let incoming = wire::u64_at(datagram, 48);
    assert(ready.limit_error(parse_datagram(datagram)->Ok_0.0) is None);
    assert(!ready.pending.contains_key(incoming));
    assert(ready.is_full_for(incoming));
    assert(ready.pending.dom().contains(id));
    counting::lemma_least(ready.pending.dom());
    let oldest = ready.oldest();
    assert(ready.pending.contains_key(oldest));
    assert(state.awaits(oldest, now));
    assert(oldest == id);
    assert(incoming != id);
}

/// When a key frame is asked for: where a fragment was put in its place, exactly where enough
/// frames were dropped in a row and the last request is long enough ago, and otherwise where
/// giving frames up asked for one. The time of the last request is kept.
#[verifier::rlimit(60)]
#[verifier::spinoff_prover]
pub proof fn lemma_keyframe_is_asked_for(state: ReassemblerView, datagram: Seq<u8>, now: Instant)
    requires
        state.pending.dom().finite(),
        state.pushed(datagram, now).1 is Ok,
    ensures
        ({
            let (after, result) = state.pushed(datagram, now);
            let outcome = result->Ok_0;
            let (header, bytes) = parse_datagram(datagram)->Ok_0;
            let id = wire::u64_at(datagram, 48);
            let before = state.expired(now);
            let stored = outcome.frame is None && id > state.last_completed_frame_id && !(
            state.awaits(id, now) && state.pending[id].fragments[header.fragment_index as int]
                is Some);
            let due = after.consecutive_dropped_frames >= state.config.keyframe_request_after_drops
                && (before.last_keyframe_request matches Some(last) ==> now.since(last).nanos
                >= state.config.keyframe_request_interval.nanos);
            &&& stored ==> (outcome.request_keyframe <==> due)
            &&& stored && due ==> after.last_keyframe_request == Some(now)
            &&& !stored ==> outcome.request_keyframe == state.expiry(now).request_keyframe
            &&& !(stored && due) ==> after.last_keyframe_request == before.last_keyframe_request
        }),
{
    lemma_awaited(state, now);
    lemma_frame_id_of(datagram);
    let ready = state.expired(now);
    let (header, bytes) = parse_datagram(datagram)->Ok_0;
    let id = wire::u64_at(datagram, 48);
    if state.awaits(id, now) {
        assert(ready.pending.contains_key(id));
        assert(ready.frame_for(header, now) == state.pending[id]);
    } else {
        assert(!ready.pending.contains_key(id));
        if ready.is_full_for(id) {
            assert(!ready.without_oldest().pending.contains_key(id));
        }
    }
}

/// The first fragment of a frame is taken where there is a place for the frame, exactly where
/// it fits into the memory and into the frame, and a frame of one fragment is all in it.
#[verifier::rlimit(60)]
#[verifier::spinoff_prover]
pub proof fn lemma_first_fragment_opens_a_frame(
    state: ReassemblerView,
    datagram: Seq<u8>,
    now: Instant,
)
    requires
        state.pending.dom().finite(),
        parse_datagram(datagram) is Ok,
        state.limit_error(parse_datagram(datagram)->Ok_0.0) is None,
        wire::u64_at(datagram, 48) > state.last_completed_frame_id,
        !state.awaits(wire::u64_at(datagram, 48), now),
        state.awaited(now).len() < state.config.max_pending_frames,
    ensures
        ({
            let (after, result) = state.pushed(datagram, now);
            let (header, bytes) = parse_datagram(datagram)->Ok_0;
            let room = pending_total(state.expired(now).pending) + bytes.len()
                <= state.config.max_memory_bytes;
            &&& result is Ok <==> room && bytes.len() <= header.frame_size && (
            header.fragment_count == 1 ==> bytes.len() == header.frame_size)
            &&& !room ==> result == Err::<OutcomeView, _>(VideoDatagramError::MemoryLimit)
            &&& room && result is Err ==> result == Err::<OutcomeView, _>(
                VideoDatagramError::InvalidFrameSize(bytes.len() as usize),
            )
            &&& state.stats.malformed_fragments < u64::MAX ==> after.stats.malformed_fragments
                == state.stats.malformed_fragments + if room && result is Err {
                1int
            } else {
                0
            }
            &&& result is Ok ==> (result->Ok_0.frame is Some <==> header.fragment_count == 1)
            &&& result is Ok && header.fragment_count == 1 ==> result->Ok_0.frame == Some(
                (header.metadata, bytes),
            )
        }),
{
    lemma_awaited(state, now);
    lemma_frame_id_of(datagram);
    let ready = state.expired(now);
    let (header, bytes) = parse_datagram(datagram)->Ok_0;
    let id = wire::u64_at(datagram, 48);
    let index = header.fragment_index as int;
    let frame = PendingView::empty(header, now);
    assert(ready.limit_error(header) is None);
    assert(!ready.pending.contains_key(id));
    assert(ready.pending.len() == state.awaited(now).len());
    assert(ready.frame_for(header, now) == frame);
    lemma_arrived_none(frame.fragments);
    lemma_last_fragment(frame.fragments, index, bytes);
    if header.fragment_count > 1 {
        let other: int = if index == 0 {
            1
        } else {
            0
        };
        assert(frame.fragments[other] is None);
    } else {
        let filled = frame.fragments.update(0, Some(bytes));
        assert(filled.drop_last() =~= Seq::empty());
        assert(joined(filled.drop_last()) =~= Seq::<u8>::empty());
        assert(joined(filled) =~= bytes);
    }
}

/// A datagram holds a fragment exactly where it is a good message of that type with a fragment
/// in its payload.
pub proof fn lemma_datagrams_with_fragments(datagram: Seq<u8>)
    ensures
        parse_datagram(datagram) is Ok <==> protocol::message_error(datagram) is None
            && protocol::packet_type(datagram) is VideoFragment && parse_fragment(
            datagram.subrange(48, datagram.len() as int),
        ) is Ok,
        parse_datagram(datagram) is Ok ==> parse_datagram(datagram) == parse_fragment(
            datagram.subrange(48, datagram.len() as int),
        ),
{
    assert(protocol::packet_payload(datagram) =~= datagram.subrange(48, datagram.len() as int));
}

/// The datagrams of a frame are messages of fragments, without flags.
pub proof fn lemma_fragments_are_marked(sent: SentFrame, index: int)
    requires
        sent.valid(),
        0 <= index < sent.count(),
    ensures
        sent.header(index).message_type is VideoFragment,
        sent.header(index).flags == 0,
        sent.header(index).session_id == sent.session_id,
        sent.header(index).sequence_number == sent.first_sequence_number + index,
        sent.header(index).monotonic_timestamp_us == sent.monotonic_timestamp_us,
        protocol::packet_type(sent.datagram(index)) is VideoFragment,
{
    lemma_fragment_message(sent, index);
    protocol::lemma_encoded_message_decodes(sent.header(index), sent.payload(index));
    protocol::lemma_packet_parts(
        sent.datagram(index),
        sent.header(index),
        sent.payload(index),
    );
}

/// Unfinished frames hold as many bytes as have come of them.
pub proof fn lemma_every_byte_counts(
    pending: Map<u64, PendingView>,
    id: u64,
    frame: PendingView,
    index: int,
    bytes: Seq<u8>,
)
    requires
        pending.dom().finite(),
        !pending.contains_key(id),
        0 <= index < frame.fragments.len(),
        frame.fragments[index] is None,
    ensures
        pending_total(Map::empty()) == 0,
        pending_total(pending.insert(id, frame)) == pending_total(pending) + arrived_bytes(
            frame.fragments,
        ),
        pending_total(pending.insert(id, frame.with_fragment(index, bytes))) == pending_total(
            pending.insert(id, frame),
        ) + bytes.len(),
{
    lemma_arrived_update(frame.fragments, index, bytes);
    counting::lemma_sum_insert(pending, frame_weight(), id, frame);
    counting::lemma_sum_insert(pending, frame_weight(), id, frame.with_fragment(index, bytes));
    assert(pending.remove(id) =~= pending);
}

/// A new reassembler has seen nothing.
pub proof fn lemma_new_reassembler(config: VideoReassemblyConfig, id: u64)
    ensures
        ({
            let state = ReassemblerView::fresh(config);
            &&& state.config == config
            &&& !state.pending.contains_key(id)
            &&& state.last_completed_frame_id == 0
            &&& state.consecutive_dropped_frames == 0
            &&& state.last_keyframe_request is None
            &&& state.stats.completed_frames == 0
            &&& state.stats.expired_frames == 0
            &&& state.stats.evicted_frames == 0
            &&& state.stats.duplicate_fragments == 0
            &&& state.stats.obsolete_fragments == 0
            &&& state.stats.malformed_fragments == 0
        }),
{
}


/// A finished frame counts the older frames that it makes obsolete, each of which was waited
/// for until then.
pub proof fn lemma_older_frames_count_as_obsolete(
    state: ReassemblerView,
    datagram: Seq<u8>,
    now: Instant,
)
    requires
        state.pending.dom().finite(),
        state.pushed(datagram, now).1 matches Ok(outcome) && outcome.frame is Some,
        state.awaits(wire::u64_at(datagram, 48), now) || state.awaited(now).len()
            < state.config.max_pending_frames,
    ensures
        ({
            let after = state.pushed(datagram, now).0;
            let finished = wire::u64_at(datagram, 48);
            let older = Set::new(|id: u64| state.awaits(id, now) && id < finished);
            &&& state.stats.obsolete_fragments + older.len() <= u64::MAX
                ==> after.stats.obsolete_fragments == state.stats.obsolete_fragments + older.len()
            &&& after.stats.duplicate_fragments == state.stats.duplicate_fragments
            &&& after.stats.malformed_fragments == state.stats.malformed_fragments
            &&& after.stats.evicted_frames == state.stats.evicted_frames
        }),
{
    lemma_awaited(state, now);
    lemma_frame_id_of(datagram);
    let ready = state.expired(now);
    let finished = wire::u64_at(datagram, 48);
    let older = Set::new(|id: u64| state.awaits(id, now) && id < finished);
    assert(ready.pending.contains_key(finished) <==> state.awaits(finished, now));
    assert(ready.pending.len() == state.awaited(now).len());
    assert(ready.pending.dom().filter(|other: u64| other < finished) =~= older);
}

} // verus!
