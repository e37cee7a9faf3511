//! The application's messages: on which channel each travels, and in which order.
use super::audio_datagram::AudioCodec;
use super::configuration::NetworkTransportConfig;
use super::datagram::DatagramReceiveEvent;
use super::input::MouseMovementMode;
use super::protocol::{MessageType, PROTOCOL_VERSION};
use super::quic::{DatagramFailure, ProtocolStateFailure, QuicTransportError};
use super::reliable::ReliableChannelKind;
use super::session;
use super::session::{
    decode_session_acceptance, decode_session_offer, encode_session_acceptance,
    encode_session_offer, negotiate_session, validate_session_acceptance, LatencyMode, OfferView,
    SessionAgreement, SessionNegotiationError, SessionOffer,
};
use super::video_datagram::{VideoCodec, VideoFrameMetadata, FLAG_KEYFRAME};
use crate::wire;
use vstd::prelude::*;

verus! {

#[derive(Clone, Copy, Debug, Eq, PartialEq, Structural)]
pub enum ApplicationQuicRole {
    Client,
    Server,
}

/// The encoded pictures of a frame, each by whether it is a key picture, or an unencoded one.
#[derive(Clone, Debug, Eq, PartialEq)]
pub enum VideoPayload {
    Vp9s(Vec<bool>),
    H264s(Vec<bool>),
    H265s(Vec<bool>),
    Vp8s(Vec<bool>),
    Av1s(Vec<bool>),
    Rgb,
    Yuv,
}

/// What is read of a video frame's message.
#[derive(Clone, Debug, Eq, PartialEq)]
pub struct VideoFrame {
    pub frame_id: u64,
    pub capture_time_ms: u64,
    pub payload: Option<VideoPayload>,
}

#[derive(Clone, Copy, Debug, Eq, PartialEq, Structural)]
pub struct AudioFormat {
    pub sample_rate: u32,
    pub channels: u32,
}

#[derive(Clone, Copy, Debug, Eq, PartialEq, Structural)]
pub struct MouseEvent {
    pub mask: i32,
    pub x: i32,
    pub y: i32,
}

/// What is read of a miscellaneous message.
#[derive(Clone, Copy, Debug, Eq, PartialEq, Structural)]
pub enum Misc {
    VideoFeedback,
    SwitchDisplay,
    AudioFormat(AudioFormat),
    Other,
}

/// What is read of an application's message.
#[derive(Clone, Debug, Eq, PartialEq)]
pub enum Message {
    VideoFrame(VideoFrame),
    AudioFrame,
    MouseEvent(MouseEvent),
    KeyEvent,
    PointerDeviceEvent,
    Clipboard,
    MultiClipboards,
    Cliprdr,
    FileAction,
    FileResponse,
    TestDelay,
    Misc(Misc),
    Other,
}

/// The kinds of messages that travel in different ways.
#[derive(Clone, Copy, Debug, Eq, PartialEq, Structural)]
pub enum ApplicationClass {
    Control,
    Input,
    Clipboard,
    File,
    Diagnostics,
    Video(VideoFrameMetadata),
    Audio,
    Mouse { mode: MouseMovementMode, x: i32, y: i32, button_state_mask: u16 },
}

/// Whether one of the pictures is a key picture.
pub open spec fn any_key(frames: Seq<bool>) -> bool {
    exists|index: int| 0 <= index < frames.len() && #[trigger] frames[index]
}

/// The codec of a frame, and whether it can be shown without an earlier one.
pub open spec fn codec_and_key(payload: VideoPayload) -> (VideoCodec, bool) {
    match payload {
        VideoPayload::Vp9s(frames) => (VideoCodec::Vp9, any_key(frames@)),
        VideoPayload::H264s(frames) => (VideoCodec::H264, any_key(frames@)),
        VideoPayload::H265s(frames) => (VideoCodec::H265, any_key(frames@)),
        VideoPayload::Vp8s(frames) => (VideoCodec::Vp8, any_key(frames@)),
        VideoPayload::Av1s(frames) => (VideoCodec::Av1, any_key(frames@)),
        VideoPayload::Rgb | VideoPayload::Yuv => (VideoCodec::Raw, true),
    }
}

/// What a video frame's message says of the frame.
pub open spec fn metadata_of(frame: VideoFrame) -> Result<VideoFrameMetadata, QuicTransportError> {
    match frame.payload {
        None => Err(QuicTransportError::ProtocolState(ProtocolStateFailure::MissingCodecPayload)),
        Some(payload) => Ok(
            VideoFrameMetadata {
                frame_id: frame.frame_id,
                codec: codec_and_key(payload).0,
                flags: if codec_and_key(payload).1 {
                    FLAG_KEYFRAME
                } else {
                    0
                },
                presentation_timestamp_us: if frame.capture_time_ms * 1_000 > u64::MAX {
                    u64::MAX
                } else {
                    (frame.capture_time_ms * 1_000) as u64
                },
            },
        ),
    }
}

/// How a mouse event travels: a movement by its mode and buttons, all else as input. The
/// three lowest bits of the mask say what happened, the next five which buttons are down.
pub open spec fn mouse_class(event: MouseEvent) -> ApplicationClass {
    let bits = wire::bits_of_i32(event.mask);
    let button_state_mask = ((bits / 8) % 32) as u16;
    if bits % 8 == 0 {
        ApplicationClass::Mouse {
            mode: MouseMovementMode::Absolute,
            x: event.x,
            y: event.y,
            button_state_mask,
        }
    } else if bits % 8 == 5 {
        ApplicationClass::Mouse {
            mode: MouseMovementMode::Relative,
            x: event.x,
            y: event.y,
            button_state_mask,
        }
    } else {
        ApplicationClass::Input
    }
}

/// The class of a message.
pub open spec fn class_of(message: Message) -> Result<ApplicationClass, QuicTransportError> {
    match message {
        Message::VideoFrame(frame) => match metadata_of(frame) {
            Ok(metadata) => Ok(ApplicationClass::Video(metadata)),
            Err(error) => Err(error),
        },
        Message::AudioFrame => Ok(ApplicationClass::Audio),
        Message::MouseEvent(event) => Ok(mouse_class(event)),
        Message::KeyEvent | Message::PointerDeviceEvent => Ok(ApplicationClass::Input),
        Message::Clipboard | Message::MultiClipboards | Message::Cliprdr => Ok(
            ApplicationClass::Clipboard,
        ),
        Message::FileAction | Message::FileResponse => Ok(ApplicationClass::File),
        Message::TestDelay | Message::Misc(Misc::VideoFeedback) => Ok(
            ApplicationClass::Diagnostics,
        ),
        _ => Ok(ApplicationClass::Control),
    }
}

fn has_keyframe(frames: &Vec<bool>) -> (found: bool)
    ensures
        found == any_key(frames@),
{
    let mut index: usize = 0;
    while index < frames.len()
        invariant
            index <= frames@.len(),
            forall|before: int| 0 <= before < index ==> !frames@[before],
        decreases frames@.len() - index,
    {
        if frames[index] {
            return true;
        }
        index = index + 1;
    }
    false
}

/// What a video frame's message says of the frame.
pub fn video_metadata(frame: &VideoFrame) -> (result: Result<
    VideoFrameMetadata,
    QuicTransportError,
>)
    ensures
        result == metadata_of(*frame),
{
    let (codec, keyframe) = match &frame.payload {
        Some(VideoPayload::Vp9s(frames)) => (VideoCodec::Vp9, has_keyframe(frames)),
        Some(VideoPayload::H264s(frames)) => (VideoCodec::H264, has_keyframe(frames)),
        Some(VideoPayload::H265s(frames)) => (VideoCodec::H265, has_keyframe(frames)),
        Some(VideoPayload::Vp8s(frames)) => (VideoCodec::Vp8, has_keyframe(frames)),
        Some(VideoPayload::Av1s(frames)) => (VideoCodec::Av1, has_keyframe(frames)),
        Some(VideoPayload::Rgb) | Some(VideoPayload::Yuv) => (VideoCodec::Raw, true),
        None => return Err(
            QuicTransportError::ProtocolState(ProtocolStateFailure::MissingCodecPayload),
        ),
    };
    Ok(
        VideoFrameMetadata {
            frame_id: frame.frame_id,
            codec,
            flags: if keyframe {
                FLAG_KEYFRAME
            } else {
                0
            },
            presentation_timestamp_us: match frame.capture_time_ms.checked_mul(1_000) {
                Some(timestamp) => timestamp,
                None => u64::MAX,
            },
        },
    )
}

/// The class of a message.
pub fn classify_message(message: &Message) -> (result: Result<ApplicationClass, QuicTransportError>)
    ensures
        result == class_of(*message),
{
    match message {
        Message::VideoFrame(frame) => match video_metadata(frame) {
            Ok(metadata) => Ok(ApplicationClass::Video(metadata)),
            Err(error) => Err(error),
        },
        Message::AudioFrame => Ok(ApplicationClass::Audio),
        Message::MouseEvent(event) => {
            let bits: u32 = if event.mask >= 0 {
                event.mask as u32
            } else {
                (event.mask as i64 + 0x1_0000_0000) as u32
            };
            let button_state_mask: u16 = ((bits / 8) % 32) as u16;
            Ok(
                match bits % 8 {
                    0 => ApplicationClass::Mouse {
                        mode: MouseMovementMode::Absolute,
                        x: event.x,
                        y: event.y,
                        button_state_mask,
                    },
                    5 => ApplicationClass::Mouse {
                        mode: MouseMovementMode::Relative,
                        x: event.x,
                        y: event.y,
                        button_state_mask,
                    },
                    _ => ApplicationClass::Input,
                },
            )
        },
        Message::KeyEvent | Message::PointerDeviceEvent => Ok(ApplicationClass::Input),
        Message::Clipboard | Message::MultiClipboards | Message::Cliprdr => Ok(
            ApplicationClass::Clipboard,
        ),
        Message::FileAction | Message::FileResponse => Ok(ApplicationClass::File),
        Message::TestDelay | Message::Misc(Misc::VideoFeedback) => Ok(
            ApplicationClass::Diagnostics,
        ),
        _ => Ok(ApplicationClass::Control),
    }
}

/// Whether later video must wait until the message has arrived.
pub open spec fn orders_video(message: Message) -> bool {
    message == Message::Misc(Misc::SwitchDisplay)
}

/// Whether later video must wait until the message has arrived.
pub fn is_video_ordering_message(message: &Message) -> (orders: bool)
    ensures
        orders == orders_video(*message),
{
    matches!(message, Message::Misc(Misc::SwitchDisplay))
}

/// The format that a message announces for the audio after it.
pub open spec fn announced_format(message: Message) -> Option<AudioFormat> {
    match message {
        Message::Misc(Misc::AudioFormat(format)) => Some(format),
        _ => None,
    }
}

/// The format that a message announces for the audio after it.
pub fn audio_format(message: &Message) -> (format: Option<AudioFormat>)
    ensures
        format == announced_format(*message),
{
    match message {
        Message::Misc(Misc::AudioFormat(format)) => Some(*format),
        _ => None,
    }
}

/// A usable format in one number, with the channels above the sample rate; zero for any other.
pub open spec fn packed_format(format: AudioFormat) -> u64 {
    if format.channels == 0 || format.channels > 8 || format.sample_rate < 8_000 {
        0
    } else {
        (format.channels * 0x1_0000_0000 + format.sample_rate) as u64
    }
}

/// The sample rate and the channels in a number.
pub open spec fn unpacked_format(value: u64) -> Option<(u32, u8)> {
    if value == 0 {
        None
    } else {
        Some(((value % 0x1_0000_0000) as u32, ((value / 0x1_0000_0000) % 256) as u8))
    }
}

pub fn pack_audio_format(format: &AudioFormat) -> (value: u64)
    ensures
        value == packed_format(*format),
{
    if format.channels == 0 || format.channels > 8 || format.sample_rate < 8_000 {
        return 0;
    }
    format.channels as u64 * 0x1_0000_0000 + format.sample_rate as u64
}

pub fn unpack_audio_format(value: u64) -> (format: Option<(u32, u8)>)
    ensures
        format == unpacked_format(value),
{
    if value == 0 {
        return None;
    }
    Some(((value % 0x1_0000_0000) as u32, ((value / 0x1_0000_0000) % 256) as u8))
}

/// The epoch at the front of a payload, which is never zero.
pub open spec fn ordering_epoch(payload: Seq<u8>) -> Result<u64, QuicTransportError> {
    if payload.len() < 8 {
        Err(QuicTransportError::ProtocolState(ProtocolStateFailure::OrderingEpochTruncated))
    } else if wire::u64_at(payload, 0) == 0 {
        Err(QuicTransportError::ProtocolState(ProtocolStateFailure::OrderingEpochZero))
    } else {
        Ok(wire::u64_at(payload, 0))
    }
}

/// The epoch at the front of a payload.
pub fn read_ordering_epoch(payload: &[u8]) -> (result: Result<u64, QuicTransportError>)
    ensures
        result == ordering_epoch(payload@),
{
    if payload.len() < 8 {
        return Err(
            QuicTransportError::ProtocolState(ProtocolStateFailure::OrderingEpochTruncated),
        );
    }
    let epoch: u64 = wire::read_u64(payload, 0);
    if epoch == 0 {
        return Err(QuicTransportError::ProtocolState(ProtocolStateFailure::OrderingEpochZero));
    }
    Ok(epoch)
}

/// A message for a reliable stream.
#[derive(Debug, Eq, PartialEq)]
pub struct ReliableOutbound {
    pub message_type: MessageType,
    pub payload: Vec<u8>,
}

/// A frame that waits to be sent, with the epoch that must be acknowledged before.
#[derive(Debug, Eq, PartialEq)]
pub struct VideoOutbound {
    pub metadata: VideoFrameMetadata,
    pub payload: Vec<u8>,
    pub ordering_epoch: u64,
}

/// An audio packet that waits to be sent.
#[derive(Debug, Eq, PartialEq)]
pub struct AudioOutbound {
    pub channels: u8,
    pub sample_rate_hz: u32,
    pub payload: Vec<u8>,
}

/// A mouse movement that waits to be sent.
#[derive(Debug, Eq, PartialEq)]
pub struct MouseOutbound {
    pub mode: MouseMovementMode,
    pub x: i32,
    pub y: i32,
    pub button_state_mask: u16,
    pub payload: Vec<u8>,
}

/// A waiting frame as a value.
#[verifier::ext_equal]
pub struct VideoView {
    pub metadata: VideoFrameMetadata,
    pub payload: Seq<u8>,
    pub ordering_epoch: u64,
}

/// A waiting mouse movement as a value.
#[verifier::ext_equal]
pub struct MouseView {
    pub mode: MouseMovementMode,
    pub x: i32,
    pub y: i32,
    pub button_state_mask: u16,
    pub payload: Seq<u8>,
}

impl View for VideoOutbound {
    type V = VideoView;

    open spec fn view(&self) -> VideoView {
        VideoView {
            metadata: self.metadata,
            payload: self.payload@,
            ordering_epoch: self.ordering_epoch,
        }
    }
}

impl View for MouseOutbound {
    type V = MouseView;

    open spec fn view(&self) -> MouseView {
        MouseView {
            mode: self.mode,
            x: self.x,
            y: self.y,
            button_state_mask: self.button_state_mask,
            payload: self.payload@,
        }
    }
}

impl VideoView {
    pub open spec fn is_key(self) -> bool {
        self.metadata.flags & FLAG_KEYFRAME != 0
    }

    /// Whether `incoming` takes the place of this frame: of two epochs the later one stays,
    /// and within an epoch a key frame gives way to another key frame only.
    pub open spec fn gives_way_to(self, incoming: VideoView) -> bool {
        if incoming.ordering_epoch != self.ordering_epoch {
            incoming.ordering_epoch > self.ordering_epoch
        } else {
            !self.is_key() || incoming.is_key()
        }
    }
}

impl VideoOutbound {
    pub fn is_keyframe(&self) -> (key: bool)
        ensures
            key == self@.is_key(),
    {
        self.metadata.flags & FLAG_KEYFRAME != 0
    }
}

/// Whether `incoming` takes the place of a frame that waits.
pub fn should_replace_pending_video(pending: &VideoOutbound, incoming: &VideoOutbound) -> (replace:
    bool)
    ensures
        replace == pending@.gives_way_to(incoming@),
{
    if incoming.ordering_epoch != pending.ordering_epoch {
        return incoming.ordering_epoch > pending.ordering_epoch;
    }
    !pending.is_keyframe() || incoming.is_keyframe()
}

/// Holds the latest of several values, and counts those that were replaced unused.
pub struct LatestSlot<T> {
    value: Option<T>,
    replacements: u64,
}

impl<T> LatestSlot<T> {
    pub closed spec fn pending(&self) -> Option<T> {
        self.value
    }

    pub closed spec fn replaced(&self) -> u64 {
        self.replacements
    }

    pub fn new() -> (slot: LatestSlot<T>)
        ensures
            slot.pending() is None,
            slot.replaced() == 0,
    {
        LatestSlot { value: None, replacements: 0 }
    }

    /// Puts in a value, whatever is there.
    pub fn replace(&mut self, value: T)
        ensures
            final(self).pending() == Some(value),
            final(self).replaced() == if old(self).pending() is Some {
                counted(old(self).replaced())
            } else {
                old(self).replaced()
            },
    {
        if self.value.is_some() {
            self.replacements = self.replacements.wrapping_add(1);
        }
        self.value = Some(value);
    }

    /// Puts in a value, unless there is one that `should_replace` keeps.
    pub fn replace_when<F: FnOnce(&T, &T) -> bool>(&mut self, value: T, should_replace: F) -> (put:
        bool)
        requires
            old(self).pending() matches Some(pending) ==> call_requires(
                should_replace,
                (&pending, &value),
            ),
        ensures
            match old(self).pending() {
                Some(pending) => call_ensures(should_replace, (&pending, &value), put),
                None => put,
            },
            put ==> final(self).pending() == Some(value) && final(self).replaced() == if old(
                self,
            ).pending() is Some {
                counted(old(self).replaced())
            } else {
                old(self).replaced()
            },
            !put ==> final(self).pending() == old(self).pending() && final(self).replaced() == old(
                self,
            ).replaced(),
    {
        if let Some(pending) = &self.value {
            if !should_replace(pending, &value) {
                return false;
            }
            self.replacements = self.replacements.wrapping_add(1);
        }
        self.value = Some(value);
        true
    }

    /// Takes the value out, if there is one.
    pub fn take(&mut self) -> (value: Option<T>)
        ensures
            value == old(self).pending(),
            final(self).pending() is None,
            final(self).replaced() == old(self).replaced(),
    {
        self.value.take()
    }

    pub fn replacements(&self) -> (count: u64)
        ensures
            count == self.replaced(),
    {
        self.replacements
    }
}

/// A counter after one more event, which begins at zero again after the largest number.
pub open spec fn counted(count: u64) -> u64 {
    if count == u64::MAX {
        0
    } else {
        (count + 1) as u64
    }
}

/// Holds video back until the messages that it must follow have arrived: each such message
/// begins an epoch, and video of the epoch waits until it is acknowledged.
pub struct VideoOrderingGate {
    requested_epoch: u64,
    acknowledged_epoch: u64,
}

/// The last epoch that began, and the last one that is known to have arrived.
pub struct GateView {
    pub requested: u64,
    pub acknowledged: u64,
}

impl View for VideoOrderingGate {
    type V = GateView;

    closed spec fn view(&self) -> GateView {
        GateView { requested: self.requested_epoch, acknowledged: self.acknowledged_epoch }
    }
}

impl GateView {
    pub open spec fn acknowledging(self, epoch: u64) -> GateView {
        GateView {
            acknowledged: if epoch > self.acknowledged {
                epoch
            } else {
                self.acknowledged
            },
            ..self
        }
    }

    pub open spec fn is_open(self, epoch: u64) -> bool {
        self.acknowledged >= epoch
    }
}

impl VideoOrderingGate {
    pub fn new() -> (gate: VideoOrderingGate)
        ensures
            gate@ == (GateView { requested: 0, acknowledged: 0 }),
    {
        VideoOrderingGate { requested_epoch: 0, acknowledged_epoch: 0 }
    }

    /// Begins an epoch.
    pub fn next_epoch(&mut self) -> (result: Result<u64, QuicTransportError>)
        ensures
            if old(self)@.requested == u64::MAX {
                &&& result == Err::<u64, _>(
                    QuicTransportError::ProtocolState(ProtocolStateFailure::OrderingEpochExhausted),
                )
                &&& final(self)@ == old(self)@
            } else {
                &&& result == Ok::<_, QuicTransportError>((old(self)@.requested + 1) as u64)
                &&& final(self)@ == (GateView {
                    requested: (old(self)@.requested + 1) as u64,
                    ..old(self)@
                })
            },
    {
        if self.requested_epoch == u64::MAX {
            return Err(
                QuicTransportError::ProtocolState(ProtocolStateFailure::OrderingEpochExhausted),
            );
        }
        self.requested_epoch = self.requested_epoch + 1;
        Ok(self.requested_epoch)
    }

    pub fn current_epoch(&self) -> (epoch: u64)
        ensures
            epoch == self@.requested,
    {
        self.requested_epoch
    }

    /// Gives up an epoch whose message could not be sent.
    pub fn cancel_epoch(&mut self, epoch: u64)
        ensures
            final(self)@ == old(self)@.acknowledging(epoch),
    {
        self.acknowledge(epoch);
    }

    /// Notes that the message of an epoch has arrived.
    pub fn acknowledge(&mut self, epoch: u64)
        ensures
            final(self)@ == old(self)@.acknowledging(epoch),
    {
        if epoch > self.acknowledged_epoch {
            self.acknowledged_epoch = epoch;
        }
    }

    /// Whether video of an epoch may be sent.
    pub fn is_open(&self, epoch: u64) -> (open: bool)
        ensures
            open == self@.is_open(epoch),
    {
        self.acknowledged_epoch >= epoch
    }
}

/// The queues of the reliable streams.
#[derive(Clone, Copy, Debug, Eq, PartialEq, Structural)]
pub enum ReliableQueue {
    Control,
    Input,
    Clipboard,
    File,
    Diagnostics,
}

impl ReliableQueue {
    /// The kind of stream that the queue feeds.
    pub open spec fn kind_spec(self) -> ReliableChannelKind {
        match self {
            ReliableQueue::Control => ReliableChannelKind::Control,
            ReliableQueue::Input => ReliableChannelKind::Input,
            ReliableQueue::Clipboard => ReliableChannelKind::Clipboard,
            ReliableQueue::File => ReliableChannelKind::FileTransfer,
            ReliableQueue::Diagnostics => ReliableChannelKind::Diagnostics,
        }
    }

    /// The kind of stream that the queue feeds.
    #[verifier::when_used_as_spec(kind_spec)]
    pub fn kind(self) -> (kind: ReliableChannelKind)
        ensures
            kind == self.kind_spec(),
    {
        match self {
            ReliableQueue::Control => ReliableChannelKind::Control,
            ReliableQueue::Input => ReliableChannelKind::Input,
            ReliableQueue::Clipboard => ReliableChannelKind::Clipboard,
            ReliableQueue::File => ReliableChannelKind::FileTransfer,
            ReliableQueue::Diagnostics => ReliableChannelKind::Diagnostics,
        }
    }

    /// How many messages the queue holds at most.
    pub open spec fn capacity_spec(self) -> usize {
        match self {
            ReliableQueue::Control => 128,
            ReliableQueue::Input => 128,
            ReliableQueue::Clipboard => 16,
            ReliableQueue::File => 32,
            ReliableQueue::Diagnostics => 64,
        }
    }

    /// How many messages the queue holds at most.
    #[verifier::when_used_as_spec(capacity_spec)]
    pub fn capacity(self) -> (capacity: usize)
        ensures
            capacity == self.capacity_spec(),
    {
        match self {
            ReliableQueue::Control => 128,
            ReliableQueue::Input => 128,
            ReliableQueue::Clipboard => 16,
            ReliableQueue::File => 32,
            ReliableQueue::Diagnostics => 64,
        }
    }

    /// The bitrate that limits the queue's stream, if one does.
    pub open spec fn bandwidth_limit_spec(self, agreement: SessionAgreement) -> Option<u32> {
        match self {
            ReliableQueue::File => Some(agreement.max_file_bitrate_kbps),
            _ => None,
        }
    }

    /// The bitrate that limits the queue's stream, if one does.
    pub fn bandwidth_limit(self, agreement: &SessionAgreement) -> (limit: Option<u32>)
        ensures
            limit == self.bandwidth_limit_spec(*agreement),
    {
        match self {
            ReliableQueue::File => Some(agreement.max_file_bitrate_kbps),
            _ => None,
        }
    }
}

/// The queue and the message type for a message that travels on a reliable stream.
pub open spec fn reliable_route(class: ApplicationClass) -> (ReliableQueue, MessageType) {
    match class {
        ApplicationClass::Input => (ReliableQueue::Input, MessageType::ReliableInput),
        ApplicationClass::Clipboard => (ReliableQueue::Clipboard, MessageType::Clipboard),
        ApplicationClass::File => (ReliableQueue::File, MessageType::FileChunk),
        ApplicationClass::Diagnostics => (ReliableQueue::Diagnostics, MessageType::Diagnostics),
        _ => (ReliableQueue::Control, MessageType::ApplicationControl),
    }
}

/// The queue and the message type for a message that travels on a reliable stream.
pub fn reliable_sender(class: ApplicationClass) -> (route: (ReliableQueue, MessageType))
    ensures
        route == reliable_route(class),
{
    match class {
        ApplicationClass::Input => (ReliableQueue::Input, MessageType::ReliableInput),
        ApplicationClass::Clipboard => (ReliableQueue::Clipboard, MessageType::Clipboard),
        ApplicationClass::File => (ReliableQueue::File, MessageType::FileChunk),
        ApplicationClass::Diagnostics => (ReliableQueue::Diagnostics, MessageType::Diagnostics),
        _ => (ReliableQueue::Control, MessageType::ApplicationControl),
    }
}

/// Why a message is not accepted for sending.
#[derive(Clone, Debug, Eq, PartialEq)]
pub enum EnqueueError {
    /// The bytes are no message.
    InvalidMessage,
    Transport(QuicTransportError),
    /// The queue is full.
    WouldBlock,
    /// The queue is closed.
    BrokenPipe,
}

/// What is to be done with a message that was accepted.
#[derive(Debug, Eq, PartialEq)]
pub enum EnqueueAction {
    /// Put it in a queue. Where the message begins an epoch, the epoch has to be given up if
    /// the queue does not take it.
    Reliable { queue: ReliableQueue, outbound: ReliableOutbound, epoch: Option<u64> },
    /// Put it in the audio queue.
    Audio(AudioOutbound),
    /// The frame waits to be sent, or was passed over for one that waits.
    VideoPending(bool),
    /// The movement waits to be sent.
    MousePending,
    /// The audio packet is too long for a datagram and is dropped.
    AudioDropped,
}

/// What is to be done with a message, as a value.
#[verifier::ext_equal]
pub enum ActionView {
    Reliable {
        queue: ReliableQueue,
        message_type: MessageType,
        payload: Seq<u8>,
        epoch: Option<u64>,
    },
    Audio { channels: u8, sample_rate_hz: u32, payload: Seq<u8> },
    VideoPending(bool),
    MousePending,
    AudioDropped,
}

impl View for EnqueueAction {
    type V = ActionView;

    open spec fn view(&self) -> ActionView {
        match *self {
            EnqueueAction::Reliable { queue, outbound, epoch } => ActionView::Reliable {
                queue,
                message_type: outbound.message_type,
                payload: outbound.payload@,
                epoch,
            },
            EnqueueAction::Audio(outbound) => ActionView::Audio {
                channels: outbound.channels,
                sample_rate_hz: outbound.sample_rate_hz,
                payload: outbound.payload@,
            },
            EnqueueAction::VideoPending(put) => ActionView::VideoPending(put),
            EnqueueAction::MousePending => ActionView::MousePending,
            EnqueueAction::AudioDropped => ActionView::AudioDropped,
        }
    }
}

/// How a queue answered.
#[derive(Clone, Copy, Debug, Eq, PartialEq, Structural)]
pub enum QueueOutcome {
    Queued,
    Full,
    Closed,
}

/// The sending side of an application's connection.
pub struct QuicApplicationStream {
    raw_mode: bool,
    audio_format: u64,
    next_transport_frame_id: u64,
    video_ordering: VideoOrderingGate,
    latest_video: LatestSlot<VideoOutbound>,
    latest_mouse: LatestSlot<MouseOutbound>,
    agreement: SessionAgreement,
}

/// What the sending side holds.
#[verifier::ext_equal]
pub struct StreamView {
    pub raw_mode: bool,
    pub audio_format: u64,
    pub next_frame_id: u64,
    pub gate: GateView,
    pub video: Option<VideoView>,
    pub mouse: Option<MouseView>,
    pub agreement: SessionAgreement,
}

/// A waiting frame as a value, if there is one.
pub open spec fn video_view(pending: Option<VideoOutbound>) -> Option<VideoView> {
    match pending {
        Some(pending) => Some(pending@),
        None => None,
    }
}

/// A waiting movement as a value, if there is one.
pub open spec fn mouse_view(pending: Option<MouseOutbound>) -> Option<MouseView> {
    match pending {
        Some(pending) => Some(pending@),
        None => None,
    }
}

impl View for QuicApplicationStream {
    type V = StreamView;

    closed spec fn view(&self) -> StreamView {
        StreamView {
            raw_mode: self.raw_mode,
            audio_format: self.audio_format,
            next_frame_id: self.next_transport_frame_id,
            gate: self.video_ordering@,
            video: video_view(self.latest_video.pending()),
            mouse: mouse_view(self.latest_mouse.pending()),
            agreement: self.agreement,
        }
    }
}

impl StreamView {
    /// A stream on which nothing was sent yet.
    pub open spec fn fresh(agreement: SessionAgreement) -> StreamView {
        StreamView {
            raw_mode: false,
            audio_format: 0,
            next_frame_id: 1,
            gate: GateView { requested: 0, acknowledged: 0 },
            video: None,
            mouse: None,
            agreement,
        }
    }

    /// The largest datagram that may be sent on a connection that takes `connection_limit`.
    pub open spec fn datagram_limit(self, connection_limit: Option<usize>) -> int {
        let current = match connection_limit {
            Some(limit) => limit as int,
            None => 1200,
        };
        if current < self.agreement.max_datagram_payload {
            current
        } else {
            self.agreement.max_datagram_payload as int
        }
    }

    /// What is done with an audio packet: before a format is known it travels like a control
    /// message, and afterwards in a datagram, if it fits in one with all headers.
    pub open spec fn audio_action(
        self,
        payload: Seq<u8>,
        connection_limit: Option<usize>,
    ) -> ActionView {
        match unpacked_format(self.audio_format) {
            None => ActionView::Reliable {
                queue: ReliableQueue::Control,
                message_type: MessageType::ApplicationControl,
                payload,
                epoch: None,
            },
            Some((sample_rate_hz, channels)) => if payload.len() + 80 > self.datagram_limit(
                connection_limit,
            ) {
                ActionView::AudioDropped
            } else {
                ActionView::Audio { channels, sample_rate_hz, payload }
            },
        }
    }

    /// What is done with a frame: it is numbered, and waits unless the frame that waits stays.
    pub open spec fn with_video(self, metadata: VideoFrameMetadata, payload: Seq<u8>) -> (
        StreamView,
        Result<ActionView, EnqueueError>,
    ) {
        if self.next_frame_id == u64::MAX {
            (
                self,
                Err(
                    EnqueueError::Transport(
                        QuicTransportError::ProtocolState(
                            ProtocolStateFailure::FrameIdentifierExhausted,
                        ),
                    ),
                ),
            )
        } else {
            let incoming = VideoView {
                metadata: VideoFrameMetadata { frame_id: self.next_frame_id, ..metadata },
                payload,
                ordering_epoch: self.gate.requested,
            };
            let put = match self.video {
                Some(pending) => pending.gives_way_to(incoming),
                None => true,
            };
            (
                StreamView {
                    next_frame_id: (self.next_frame_id + 1) as u64,
                    video: if put {
                        Some(incoming)
                    } else {
                        self.video
                    },
                    ..self
                },
                Ok(ActionView::VideoPending(put)),
            )
        }
    }

    /// What is done with a message by its class.
    pub open spec fn with_class(
        self,
        class: ApplicationClass,
        payload: Seq<u8>,
        connection_limit: Option<usize>,
    ) -> (StreamView, Result<ActionView, EnqueueError>) {
        match class {
            ApplicationClass::Video(metadata) => self.with_video(metadata, payload),
            ApplicationClass::Audio => (self, Ok(self.audio_action(payload, connection_limit))),
            ApplicationClass::Mouse { mode, x, y, button_state_mask } => (
                StreamView {
                    mouse: Some(MouseView { mode, x, y, button_state_mask, payload }),
                    ..self
                },
                Ok(ActionView::MousePending),
            ),
            _ => (
                self,
                Ok(
                    ActionView::Reliable {
                        queue: reliable_route(class).0,
                        message_type: reliable_route(class).1,
                        payload,
                        epoch: None,
                    },
                ),
            ),
        }
    }

    /// What is done with a message that begins an epoch: it travels with the epoch before it.
    pub open spec fn with_ordering(self, payload: Seq<u8>) -> (
        StreamView,
        Result<ActionView, EnqueueError>,
    ) {
        if self.gate.requested == u64::MAX {
            (
                self,
                Err(
                    EnqueueError::Transport(
                        QuicTransportError::ProtocolState(
                            ProtocolStateFailure::OrderingEpochExhausted,
                        ),
                    ),
                ),
            )
        } else {
            let epoch = (self.gate.requested + 1) as u64;
            (
                StreamView { gate: GateView { requested: epoch, ..self.gate }, ..self },
                Ok(
                    ActionView::Reliable {
                        queue: ReliableQueue::Control,
                        message_type: MessageType::VideoOrdering,
                        payload: wire::be64(epoch) + payload,
                        epoch: Some(epoch),
                    },
                ),
            )
        }
    }

    /// The stream once it knows the audio format that a message announces, if it does.
    pub open spec fn knowing_format(self, message: Message) -> StreamView {
        match announced_format(message) {
            Some(format) => StreamView { audio_format: packed_format(format), ..self },
            None => self,
        }
    }

    /// What is done with a message that was read from its bytes.
    pub open spec fn with_message(
        self,
        message: Message,
        payload: Seq<u8>,
        connection_limit: Option<usize>,
    ) -> (StreamView, Result<ActionView, EnqueueError>) {
        if orders_video(message) {
            self.knowing_format(message).with_ordering(payload)
        } else {
            match class_of(message) {
                Err(error) => (self.knowing_format(message), Err(EnqueueError::Transport(error))),
                Ok(class) => self.knowing_format(message).with_class(
                    class,
                    payload,
                    connection_limit,
                ),
            }
        }
    }

    /// What `enqueue` does and returns.
    pub open spec fn enqueued(
        self,
        payload: Seq<u8>,
        parsed: Option<Message>,
        connection_limit: Option<usize>,
    ) -> (StreamView, Result<ActionView, EnqueueError>) {
        if self.raw_mode {
            (
                self,
                Ok(
                    ActionView::Reliable {
                        queue: ReliableQueue::Control,
                        message_type: MessageType::ApplicationRaw,
                        payload,
                        epoch: None,
                    },
                ),
            )
        } else {
            match parsed {
                None => (self, Err(EnqueueError::InvalidMessage)),
                Some(message) => self.with_message(message, payload, connection_limit),
            }
        }
    }
}

/// How a queue's answer is reported.
pub open spec fn queue_result(outcome: QueueOutcome) -> Result<(), EnqueueError> {
    match outcome {
        QueueOutcome::Queued => Ok(()),
        QueueOutcome::Full => Err(EnqueueError::WouldBlock),
        QueueOutcome::Closed => Err(EnqueueError::BrokenPipe),
    }
}

impl QuicApplicationStream {
    /// The sending side of a connection with the given agreement.
    pub fn establish(agreement: SessionAgreement) -> (stream: QuicApplicationStream)
        ensures
            stream@ == StreamView::fresh(agreement),
    {
        QuicApplicationStream {
            raw_mode: false,
            audio_format: 0,
            next_transport_frame_id: 1,
            video_ordering: VideoOrderingGate::new(),
            latest_video: LatestSlot::new(),
            latest_mouse: LatestSlot::new(),
            agreement,
        }
    }

    /// Accepts a message for sending. `parsed` is what the bytes were read as, none where
    /// they are no message, and `connection_limit` the largest datagram of the connection.
    pub fn enqueue(
        &mut self,
        payload: Vec<u8>,
        parsed: Option<&Message>,
        connection_limit: Option<usize>,
    ) -> (result: Result<EnqueueAction, EnqueueError>)
        ensures
            ({
                let message = match parsed {
                    Some(message) => Some(*message),
                    None => None,
                };
                let (stream, outcome) = old(self)@.enqueued(payload@, message, connection_limit);
                &&& final(self)@ == stream
                &&& match outcome {
                    Ok(view) => result matches Ok(action) && action@ == view,
                    Err(error) => result == Err::<EnqueueAction, _>(error),
                }
            }),
    {
        if self.raw_mode {
            return Ok(
                EnqueueAction::Reliable {
                    queue: ReliableQueue::Control,
                    outbound: ReliableOutbound {
                        message_type: MessageType::ApplicationRaw,
                        payload,
                    },
                    epoch: None,
                },
            );
        }
        let message = match parsed {
            Some(message) => message,
            None => return Err(EnqueueError::InvalidMessage),
        };
        if let Some(format) = audio_format(message) {
            self.audio_format = pack_audio_format(&format);
        }
        if is_video_ordering_message(message) {
            return self.enqueue_ordering(payload);
        }
        match classify_message(message) {
            Err(error) => Err(EnqueueError::Transport(error)),
            Ok(ApplicationClass::Video(metadata)) => self.enqueue_video(metadata, payload),
            Ok(ApplicationClass::Audio) => Ok(self.enqueue_audio(payload, connection_limit)),
            Ok(ApplicationClass::Mouse { mode, x, y, button_state_mask }) => {
                self.latest_mouse.replace(
                    MouseOutbound { mode, x, y, button_state_mask, payload },
                );
                Ok(EnqueueAction::MousePending)
            },
            Ok(class) => {
                let (queue, message_type) = reliable_sender(class);
                Ok(
                    EnqueueAction::Reliable {
                        queue,
                        outbound: ReliableOutbound { message_type, payload },
                        epoch: None,
                    },
                )
            },
        }
    }

    fn enqueue_ordering(&mut self, payload: Vec<u8>) -> (result: Result<
        EnqueueAction,
        EnqueueError,
    >)
        ensures
            final(self)@ == old(self)@.with_ordering(payload@).0,
            match old(self)@.with_ordering(payload@).1 {
                Ok(view) => result matches Ok(action) && action@ == view,
                Err(error) => result == Err::<EnqueueAction, _>(error),
            },
    {
        let epoch: u64 = match self.video_ordering.next_epoch() {
            Ok(epoch) => epoch,
            Err(error) => return Err(EnqueueError::Transport(error)),
        };
        let mut ordered_payload: Vec<u8> = Vec::new();
        wire::put_u64(&mut ordered_payload, epoch);
        wire::put_bytes(&mut ordered_payload, &payload);
        assert(ordered_payload@ =~= wire::be64(epoch) + payload@);
        Ok(
            EnqueueAction::Reliable {
                queue: ReliableQueue::Control,
                outbound: ReliableOutbound {
                    message_type: MessageType::VideoOrdering,
                    payload: ordered_payload,
                },
                epoch: Some(epoch),
            },
        )
    }

    fn enqueue_video(&mut self, metadata: VideoFrameMetadata, payload: Vec<u8>) -> (result: Result<
        EnqueueAction,
        EnqueueError,
    >)
        ensures
            final(self)@ == old(self)@.with_video(metadata, payload@).0,
            match old(self)@.with_video(metadata, payload@).1 {
                Ok(view) => result matches Ok(action) && action@ == view,
                Err(error) => result == Err::<EnqueueAction, _>(error),
            },
    {
        let frame_id: u64 = self.next_transport_frame_id;
        if frame_id == u64::MAX {
            return Err(
                EnqueueError::Transport(
                    QuicTransportError::ProtocolState(
                        ProtocolStateFailure::FrameIdentifierExhausted,
                    ),
                ),
            );
        }
        self.next_transport_frame_id = frame_id + 1;
        let incoming = VideoOutbound {
            metadata: VideoFrameMetadata {
                frame_id,
                codec: metadata.codec,
                flags: metadata.flags,
                presentation_timestamp_us: metadata.presentation_timestamp_us,
            },
            payload,
            ordering_epoch: self.video_ordering.current_epoch(),
        };
        let put = self.latest_video.replace_when(incoming, should_replace_pending_video);
        Ok(EnqueueAction::VideoPending(put))
    }

    fn enqueue_audio(&self, payload: Vec<u8>, connection_limit: Option<usize>) -> (action:
        EnqueueAction)
        ensures
            action@ == self@.audio_action(payload@, connection_limit),
    {
        let (sample_rate_hz, channels) = match unpack_audio_format(self.audio_format) {
            Some(format) => format,
            None => return EnqueueAction::Reliable {
                queue: ReliableQueue::Control,
                outbound: ReliableOutbound {
                    message_type: MessageType::ApplicationControl,
                    payload,
                },
                epoch: None,
            },
        };
        let current: usize = match connection_limit {
            Some(limit) => limit,
            None => 1200,
        };
        let negotiated: usize = self.agreement.max_datagram_payload as usize;
        let max_datagram: usize = if current < negotiated {
            current
        } else {
            negotiated
        };
        if max_datagram < 80 || payload.len() > max_datagram - 80 {
            return EnqueueAction::AudioDropped;
        }
        EnqueueAction::Audio(AudioOutbound { channels, sample_rate_hz, payload })
    }

    /// Reports how a queue answered to a reliable message, and gives up the epoch of one that
    /// the queue did not take.
    pub fn reliable_queued(&mut self, epoch: Option<u64>, outcome: QueueOutcome) -> (result: Result<
        (),
        EnqueueError,
    >)
        ensures
            result == queue_result(outcome),
            final(self)@ == match epoch {
                Some(epoch) => if outcome is Queued {
                    old(self)@
                } else {
                    (StreamView { gate: old(self)@.gate.acknowledging(epoch), ..old(self)@ })
                },
                None => old(self)@,
            },
    {
        match outcome {
            QueueOutcome::Queued => Ok(()),
            QueueOutcome::Full => {
                if let Some(epoch) = epoch {
                    self.video_ordering.cancel_epoch(epoch);
                }
                Err(EnqueueError::WouldBlock)
            },
            QueueOutcome::Closed => {
                if let Some(epoch) = epoch {
                    self.video_ordering.cancel_epoch(epoch);
                }
                Err(EnqueueError::BrokenPipe)
            },
        }
    }

    /// Reports how the audio queue answered: a packet that finds it full is dropped.
    pub fn audio_queued(outcome: QueueOutcome) -> (result: Result<(), EnqueueError>)
        ensures
            result == if outcome is Closed {
                Err::<(), _>(EnqueueError::BrokenPipe)
            } else {
                Ok::<_, EnqueueError>(())
            },
    {
        match outcome {
            QueueOutcome::Queued | QueueOutcome::Full => Ok(()),
            QueueOutcome::Closed => Err(EnqueueError::BrokenPipe),
        }
    }

    /// From now on all bytes are sent as they are.
    pub fn set_raw(&mut self)
        ensures
            final(self)@ == (StreamView { raw_mode: true, ..old(self)@ }),
    {
        self.raw_mode = true;
    }

    pub fn agreement(&self) -> (agreement: SessionAgreement)
        ensures
            agreement == self@.agreement,
    {
        self.agreement
    }

    /// Takes the frame that waits to be sent.
    pub fn take_video(&mut self) -> (video: Option<VideoOutbound>)
        ensures
            video_view(video) == old(self)@.video,
            final(self)@ == (StreamView { video: None, ..old(self)@ }),
    {
        self.latest_video.take()
    }

    /// Takes the movement that waits to be sent.
    pub fn take_mouse(&mut self) -> (mouse: Option<MouseOutbound>)
        ensures
            mouse_view(mouse) == old(self)@.mouse,
            final(self)@ == (StreamView { mouse: None, ..old(self)@ }),
    {
        self.latest_mouse.take()
    }

    /// Whether video of an epoch may be sent.
    pub fn may_send_video(&self, epoch: u64) -> (open: bool)
        ensures
            open == self@.gate.is_open(epoch),
    {
        self.video_ordering.is_open(epoch)
    }
}

/// Where in a payload of a reliable stream the application's message begins, none where the
/// payload holds no message.
pub open spec fn message_start(
    expected: ReliableChannelKind,
    message_type: MessageType,
    payload: Seq<u8>,
) -> Result<Option<usize>, QuicTransportError> {
    if expected == ReliableChannelKind::Control && message_type == MessageType::ApplicationRaw {
        Ok(None)
    } else if expected == ReliableChannelKind::Control && (message_type
        == MessageType::VideoOrdering || message_type == MessageType::VideoOrderingAck) {
        match ordering_epoch(payload) {
            Err(error) => Err(error),
            Ok(_) => if message_type == MessageType::VideoOrdering {
                Ok(Some(8))
            } else {
                Ok(None)
            },
        }
    } else {
        Ok(Some(0))
    }
}

/// Whether a message of a class may come with a message type on a stream of a kind.
pub open spec fn belongs_on(
    expected: ReliableChannelKind,
    message_type: MessageType,
    class: ApplicationClass,
) -> bool {
    match expected {
        ReliableChannelKind::Control => message_type == MessageType::ApplicationControl,
        ReliableChannelKind::Input => message_type == MessageType::ReliableInput && class
            == ApplicationClass::Input,
        ReliableChannelKind::Clipboard => message_type == MessageType::Clipboard && class
            == ApplicationClass::Clipboard,
        ReliableChannelKind::FileTransfer => message_type == MessageType::FileChunk && class
            == ApplicationClass::File,
        ReliableChannelKind::Diagnostics => message_type == MessageType::Diagnostics && class
            == ApplicationClass::Diagnostics,
        ReliableChannelKind::Video => false,
    }
}

/// Why a message is refused on a reliable stream, if it is. `parsed` is what the part of the
/// payload from `message_start` on was read as.
pub open spec fn reliable_message_error(
    expected: ReliableChannelKind,
    message_type: MessageType,
    payload: Seq<u8>,
    parsed: Option<Message>,
) -> Option<QuicTransportError> {
    match message_start(expected, message_type, payload) {
        Err(error) => Some(error),
        Ok(None) => None,
        Ok(Some(_)) => match parsed {
            None => Some(QuicTransportError::ProtocolState(ProtocolStateFailure::UnparsableMessage)),
            Some(message) => if expected == ReliableChannelKind::Control && message_type
                == MessageType::VideoOrdering {
                if orders_video(message) {
                    None
                } else {
                    Some(QuicTransportError::ProtocolState(ProtocolStateFailure::NoSwitchDisplay))
                }
            } else {
                match class_of(message) {
                    Err(error) => Some(error),
                    Ok(class) => if belongs_on(expected, message_type, class) {
                        None
                    } else {
                        Some(
                            QuicTransportError::ProtocolState(
                                ProtocolStateFailure::InvalidMessageOnChannel(expected),
                            ),
                        )
                    },
                }
            },
        },
    }
}

/// Where in a payload of a reliable stream the application's message begins.
pub fn find_message(expected: ReliableChannelKind, message_type: MessageType, payload: &[u8]) -> (result:
    Result<Option<usize>, QuicTransportError>)
    ensures
        result == message_start(expected, message_type, payload@),
{
    if expected == ReliableChannelKind::Control {
        match message_type {
            MessageType::ApplicationRaw => return Ok(None),
            MessageType::VideoOrdering => return match read_ordering_epoch(payload) {
                Ok(_) => Ok(Some(8)),
                Err(error) => Err(error),
            },
            MessageType::VideoOrderingAck => return match read_ordering_epoch(payload) {
                Ok(_) => Ok(None),
                Err(error) => Err(error),
            },
            _ => {},
        }
    }
    Ok(Some(0))
}

fn class_belongs_on(
    expected: ReliableChannelKind,
    message_type: MessageType,
    class: ApplicationClass,
) -> (belongs: bool)
    ensures
        belongs == belongs_on(expected, message_type, class),
{
    match expected {
        ReliableChannelKind::Control => message_type == MessageType::ApplicationControl,
        ReliableChannelKind::Input => message_type == MessageType::ReliableInput && matches!(
            class,
            ApplicationClass::Input
        ),
        ReliableChannelKind::Clipboard => message_type == MessageType::Clipboard && matches!(
            class,
            ApplicationClass::Clipboard
        ),
        ReliableChannelKind::FileTransfer => message_type == MessageType::FileChunk && matches!(
            class,
            ApplicationClass::File
        ),
        ReliableChannelKind::Diagnostics => message_type == MessageType::Diagnostics && matches!(
            class,
            ApplicationClass::Diagnostics
        ),
        ReliableChannelKind::Video => false,
    }
}

/// Checks a message that came on a reliable stream.
pub fn validate_reliable_application_message(
    expected: ReliableChannelKind,
    message_type: MessageType,
    payload: &[u8],
    parsed: Option<&Message>,
) -> (result: Result<(), QuicTransportError>)
    ensures
        match reliable_message_error(
            expected,
            message_type,
            payload@,
            match parsed {
                Some(message) => Some(*message),
                None => None,
            },
        ) {
            Some(error) => result == Err::<(), _>(error),
            None => result == Ok::<_, QuicTransportError>(()),
        },
{
    if find_message(expected, message_type, payload)?.is_none() {
        return Ok(());
    }
    let message = match parsed {
        Some(message) => message,
        None => return Err(
            QuicTransportError::ProtocolState(ProtocolStateFailure::UnparsableMessage),
        ),
    };
    if expected == ReliableChannelKind::Control && message_type == MessageType::VideoOrdering {
        if is_video_ordering_message(message) {
            return Ok(());
        }
        return Err(QuicTransportError::ProtocolState(ProtocolStateFailure::NoSwitchDisplay));
    }
    let class = classify_message(message)?;
    if class_belongs_on(expected, message_type, class) {
        Ok(())
    } else {
        Err(
            QuicTransportError::ProtocolState(
                ProtocolStateFailure::InvalidMessageOnChannel(expected),
            ),
        )
    }
}

/// What is to be done with a message that came on a reliable stream.
#[derive(Debug, Eq, PartialEq)]
pub enum ReaderAction {
    /// Hand the bytes to the application.
    Deliver(Vec<u8>),
    /// Hand the bytes to the application, then acknowledge the epoch to the other side.
    DeliverThenAcknowledge { payload: Vec<u8>, epoch: u64 },
    /// The epoch was acknowledged by the other side.
    Acknowledged,
}

/// What is to be done with a message, as a value.
#[verifier::ext_equal]
pub enum ReaderView {
    Deliver(Seq<u8>),
    DeliverThenAcknowledge { payload: Seq<u8>, epoch: u64 },
    Acknowledged,
}

impl View for ReaderAction {
    type V = ReaderView;

    open spec fn view(&self) -> ReaderView {
        match *self {
            ReaderAction::Deliver(payload) => ReaderView::Deliver(payload@),
            ReaderAction::DeliverThenAcknowledge { payload, epoch } => {
                ReaderView::DeliverThenAcknowledge { payload: payload@, epoch }
            },
            ReaderAction::Acknowledged => ReaderView::Acknowledged,
        }
    }
}

impl StreamView {
    /// What a message on a reliable stream leads to.
    pub open spec fn read(
        self,
        kind: ReliableChannelKind,
        message_type: MessageType,
        payload: Seq<u8>,
        parsed: Option<Message>,
    ) -> (StreamView, Result<ReaderView, QuicTransportError>) {
        match reliable_message_error(kind, message_type, payload, parsed) {
            Some(error) => (self, Err(error)),
            None => if kind == ReliableChannelKind::Control && message_type
                == MessageType::VideoOrdering {
                (
                    self,
                    Ok(
                        ReaderView::DeliverThenAcknowledge {
                            payload: payload.subrange(8, payload.len() as int),
                            epoch: wire::u64_at(payload, 0),
                        },
                    ),
                )
            } else if kind == ReliableChannelKind::Control && message_type
                == MessageType::VideoOrderingAck {
                let epoch = wire::u64_at(payload, 0);
                if epoch > self.gate.requested {
                    (
                        self,
                        Err(
                            QuicTransportError::ProtocolState(
                                ProtocolStateFailure::OrderingAcknowledgement(epoch),
                            ),
                        ),
                    )
                } else {
                    (
                        StreamView { gate: self.gate.acknowledging(epoch), ..self },
                        Ok(ReaderView::Acknowledged),
                    )
                }
            } else {
                (self, Ok(ReaderView::Deliver(payload)))
            },
        }
    }
}

impl QuicApplicationStream {
    /// Takes a message that came on a reliable stream. `parsed` is what the part of the
    /// payload that `find_message` points to was read as.
    pub fn read_reliable(
        &mut self,
        kind: ReliableChannelKind,
        message_type: MessageType,
        payload: Vec<u8>,
        parsed: Option<&Message>,
    ) -> (result: Result<ReaderAction, QuicTransportError>)
        ensures
            ({
                let message = match parsed {
                    Some(message) => Some(*message),
                    None => None,
                };
                let (stream, outcome) = old(self)@.read(kind, message_type, payload@, message);
                &&& final(self)@ == stream
                &&& match outcome {
                    Ok(view) => result matches Ok(action) && action@ == view,
                    Err(error) => result == Err::<ReaderAction, _>(error),
                }
            }),
    {
        validate_reliable_application_message(kind, message_type, &payload, parsed)?;
        if kind == ReliableChannelKind::Control {
            match message_type {
                MessageType::VideoOrdering => {
                    let epoch: u64 = read_ordering_epoch(&payload)?;
                    return Ok(
                        ReaderAction::DeliverThenAcknowledge {
                            payload: wire::copy_range(&payload, 8, payload.len()),
                            epoch,
                        },
                    );
                },
                MessageType::VideoOrderingAck => {
                    let epoch: u64 = read_ordering_epoch(&payload)?;
                    if epoch > self.video_ordering.current_epoch() {
                        return Err(
                            QuicTransportError::ProtocolState(
                                ProtocolStateFailure::OrderingAcknowledgement(epoch),
                            ),
                        );
                    }
                    self.video_ordering.acknowledge(epoch);
                    return Ok(ReaderAction::Acknowledged);
                },
                _ => {},
            }
        }
        Ok(ReaderAction::Deliver(payload))
    }
}

/// The message that acknowledges an epoch.
pub fn acknowledgement(epoch: u64) -> (outbound: ReliableOutbound)
    ensures
        outbound.message_type == MessageType::VideoOrderingAck,
        outbound.payload@ == wire::be64(epoch),
{
    let mut payload: Vec<u8> = Vec::new();
    wire::put_u64(&mut payload, epoch);
    assert(payload@ =~= wire::be64(epoch));
    ReliableOutbound { message_type: MessageType::VideoOrderingAck, payload }
}

/// The frame that a video writer holds back until its epoch is acknowledged.
pub struct VideoWriter {
    held: Option<VideoOutbound>,
}

impl VideoWriter {
    pub closed spec fn holds(&self) -> Option<VideoView> {
        video_view(self.held)
    }

    pub fn new() -> (writer: VideoWriter)
        ensures
            writer.holds() is None,
    {
        VideoWriter { held: None }
    }

    pub fn is_holding(&self) -> (holding: bool)
        ensures
            holding == self.holds() is Some,
    {
        self.held.is_some()
    }

    /// Takes over a frame, unless the one that is held stays.
    pub fn hold(&mut self, newer: VideoOutbound)
        ensures
            final(self).holds() == match old(self).holds() {
                Some(held) => if held.gives_way_to(newer@) {
                    Some(newer@)
                } else {
                    Some(held)
                },
                None => Some(newer@),
            },
    {
        if let Some(held) = &self.held {
            if !should_replace_pending_video(held, &newer) {
                return ;
            }
        }
        self.held = Some(newer);
    }

    /// Hands out the frame that is held, if its epoch is acknowledged.
    pub fn release(&mut self, stream: &QuicApplicationStream) -> (video: Option<VideoOutbound>)
        ensures
            match old(self).holds() {
                Some(held) => if stream@.gate.is_open(held.ordering_epoch) {
                    &&& video_view(video) == Some(held)
                    &&& final(self).holds() is None
                } else {
                    &&& video is None
                    &&& final(self).holds() == Some(held)
                },
                None => video is None && final(self).holds() is None,
            },
    {
        if let Some(held) = &self.held {
            if !stream.may_send_video(held.ordering_epoch) {
                return None;
            }
        }
        self.held.take()
    }
}

/// The kinds of messages that travel in datagrams.
#[derive(Clone, Copy, Debug, Eq, PartialEq, Structural)]
pub enum ApplicationClassTag {
    Video,
    Audio,
    Mouse,
}

/// Why a message is refused in a datagram, if it is.
pub open spec fn datagram_message_error(
    expected: ApplicationClassTag,
    parsed: Option<Message>,
) -> Option<QuicTransportError> {
    match parsed {
        None => Some(QuicTransportError::ProtocolState(ProtocolStateFailure::UnparsableMessage)),
        Some(message) => match class_of(message) {
            Err(error) => Some(error),
            Ok(class) => if (expected is Video && class is Video) || (expected is Audio
                && class is Audio) || (expected is Mouse && class is Mouse) {
                None
            } else {
                Some(
                    QuicTransportError::ProtocolState(
                        ProtocolStateFailure::InvalidMessageOnDatagram,
                    ),
                )
            },
        },
    }
}

/// Checks a message that came in a datagram.
pub fn validate_datagram_application_message(
    expected: ApplicationClassTag,
    parsed: Option<&Message>,
) -> (result: Result<(), QuicTransportError>)
    ensures
        match datagram_message_error(
            expected,
            match parsed {
                Some(message) => Some(*message),
                None => None,
            },
        ) {
            Some(error) => result == Err::<(), _>(error),
            None => result == Ok::<_, QuicTransportError>(()),
        },
{
    let message = match parsed {
        Some(message) => message,
        None => return Err(
            QuicTransportError::ProtocolState(ProtocolStateFailure::UnparsableMessage),
        ),
    };
    let class = classify_message(message)?;
    let valid = match expected {
        ApplicationClassTag::Video => matches!(class, ApplicationClass::Video(_)),
        ApplicationClassTag::Audio => matches!(class, ApplicationClass::Audio),
        ApplicationClassTag::Mouse => matches!(class, ApplicationClass::Mouse { .. }),
    };
    if valid {
        Ok(())
    } else {
        Err(QuicTransportError::ProtocolState(ProtocolStateFailure::InvalidMessageOnDatagram))
    }
}

/// Turns what arrives in datagrams into messages for the application, and announces an audio
/// format before the first packet that has it.
pub struct DatagramReader {
    received_audio_format: Option<(u32, u8)>,
}

/// What is to be handed to the application for an audio packet: first the format, if it is
/// new, then the message, if it is one.
#[derive(Debug, Eq, PartialEq)]
pub struct AudioDelivery {
    pub announced_format: Option<(u32, u8)>,
    pub payload: Option<Vec<u8>>,
}

/// What is to be done for what came in a datagram.
#[derive(Debug, Eq, PartialEq)]
pub struct DatagramAction {
    /// Whether the other side is asked for a key frame.
    pub request_keyframe: bool,
    /// Bytes for the application, with the kind of message that they have to be.
    pub candidate: Option<(ApplicationClassTag, Vec<u8>)>,
    /// Whether the audio that is due is played.
    pub play_audio: bool,
}

impl DatagramReader {
    pub closed spec fn format(&self) -> Option<(u32, u8)> {
        self.received_audio_format
    }

    pub fn new() -> (reader: DatagramReader)
        ensures
            reader.format() is None,
    {
        DatagramReader { received_audio_format: None }
    }

    /// What is to be done for what came in a datagram: a video frame may be missing others
    /// before it, a finished frame and the message with a movement go to the application, and
    /// audio is played when it is due. A movement without a message, or an old one, is passed
    /// over.
    pub fn action_for(event: DatagramReceiveEvent) -> (action: DatagramAction)
        ensures
            action.request_keyframe == (event matches DatagramReceiveEvent::Video(outcome)
                && outcome.request_keyframe),
            action.candidate == match event {
                DatagramReceiveEvent::Video(outcome) => match outcome.frame {
                    Some(frame) => Some((ApplicationClassTag::Video, frame.payload)),
                    None => None,
                },
                DatagramReceiveEvent::ApplicationMouse(Some((_, payload))) => Some(
                    (ApplicationClassTag::Mouse, payload),
                ),
                _ => None,
            },
            action.play_audio == (event is AudioAccepted),
    {
        match event {
            DatagramReceiveEvent::Video(outcome) => {
                let candidate = match outcome.frame {
                    Some(frame) => Some((ApplicationClassTag::Video, frame.payload)),
                    None => None,
                };
                DatagramAction {
                    request_keyframe: outcome.request_keyframe,
                    candidate,
                    play_audio: false,
                }
            },
            DatagramReceiveEvent::AudioAccepted => {
                DatagramAction { request_keyframe: false, candidate: None, play_audio: true }
            },
            DatagramReceiveEvent::ApplicationMouse(Some((_, payload))) => {
                DatagramAction {
                    request_keyframe: false,
                    candidate: Some((ApplicationClassTag::Mouse, payload)),
                    play_audio: false,
                }
            },
            DatagramReceiveEvent::ApplicationMouse(None) | DatagramReceiveEvent::Mouse(_) => {
                DatagramAction { request_keyframe: false, candidate: None, play_audio: false }
            },
        }
    }

    /// What is handed to the application for bytes that came in a datagram of a kind, none
    /// where they are no message of the kind. `parsed` is what they were read as.
    pub fn deliver(expected: ApplicationClassTag, payload: Vec<u8>, parsed: Option<&Message>) -> (delivered:
        Option<Vec<u8>>)
        ensures
            delivered == if datagram_message_error(
                expected,
                match parsed {
                    Some(message) => Some(*message),
                    None => None,
                },
            ) is None {
                Some(payload)
            } else {
                None
            },
    {
        match validate_datagram_application_message(expected, parsed) {
            Ok(()) => Some(payload),
            Err(_) => None,
        }
    }

    /// What is handed to the application for an audio packet.
    pub fn deliver_audio(
        &mut self,
        sample_rate_hz: u32,
        channels: u8,
        payload: Vec<u8>,
        parsed: Option<&Message>,
    ) -> (delivery: AudioDelivery)
        ensures
            final(self).format() == Some((sample_rate_hz, channels)),
            delivery.announced_format == if old(self).format() == Some((sample_rate_hz, channels)) {
                None
            } else {
                Some((sample_rate_hz, channels))
            },
            delivery.payload == if datagram_message_error(
                ApplicationClassTag::Audio,
                match parsed {
                    Some(message) => Some(*message),
                    None => None,
                },
            ) is None {
                Some(payload)
            } else {
                None
            },
    {
        let known = match self.received_audio_format {
            Some((rate, count)) => rate == sample_rate_hz && count == channels,
            None => false,
        };
        self.received_audio_format = Some((sample_rate_hz, channels));
        AudioDelivery {
            announced_format: if known {
                None
            } else {
                Some((sample_rate_hz, channels))
            },
            payload: DatagramReader::deliver(ApplicationClassTag::Audio, payload, parsed),
        }
    }
}

/// How many microseconds a message waits so that a bitrate is kept: the time that its bits
/// take, rounded up.
pub open spec fn pacing_micros(length: nat, bandwidth_limit_kbps: Option<u32>) -> u64 {
    match bandwidth_limit_kbps {
        Some(kbps) => if kbps == 0 {
            0
        } else {
            let micros = (length * 8_000 + kbps as nat - 1) / kbps as int;
            if micros > u64::MAX {
                u64::MAX
            } else {
                micros as u64
            }
        },
        None => 0,
    }
}

/// How many microseconds a message waits so that a bitrate is kept.
pub fn pacing_delay_us(length: usize, bandwidth_limit_kbps: Option<u32>) -> (micros: u64)
    ensures
        micros == pacing_micros(length as nat, bandwidth_limit_kbps),
{
    match bandwidth_limit_kbps {
        Some(kbps) => {
            if kbps == 0 {
                return 0;
            }
            let micros: u128 = (length as u128 * 8_000 + kbps as u128 - 1) / kbps as u128;
            if micros > u64::MAX as u128 {
                u64::MAX
            } else {
                micros as u64
            }
        },
        None => 0,
    }
}

/// The video codecs that are offered, the preferred ones first.
pub open spec fn offered_video_codecs() -> Seq<VideoCodec> {
    seq![
        VideoCodec::Av1,
        VideoCodec::H265,
        VideoCodec::H264,
        VideoCodec::Vp9,
        VideoCodec::Vp8,
        VideoCodec::Raw,
    ]
}

/// The offer of a peer with the given file bandwidth, on a connection with the given limit.
pub open spec fn application_offer(
    file_bandwidth_limit_mbps: u32,
    connection_limit: usize,
) -> OfferView {
    OfferView {
        minimum_protocol_version: PROTOCOL_VERSION,
        maximum_protocol_version: PROTOCOL_VERSION,
        capabilities: session::CAP_CLIPBOARD_SEND | session::CAP_CLIPBOARD_RECEIVE
            | session::CAP_FILE_TRANSFER | session::CAP_INPUT_SEND | session::CAP_INPUT_RECEIVE,
        latency_mode: LatencyMode::LowLatency,
        video_codecs: offered_video_codecs(),
        audio_codecs: seq![AudioCodec::Opus],
        color_formats: session::COLOR_I420 | session::COLOR_I444 | session::COLOR_NV12
            | session::COLOR_P010,
        max_width: 16_384,
        max_height: 16_384,
        max_fps: 240,
        max_datagram_payload: if connection_limit < 256 {
            256
        } else if connection_limit > 65_000 {
            65_000
        } else {
            connection_limit as u16
        },
        max_video_bitrate_kbps: 1_000_000,
        max_file_bitrate_kbps: if file_bandwidth_limit_mbps == 0 {
            1_000_000
        } else if file_bandwidth_limit_mbps * 1_000 > u32::MAX {
            u32::MAX
        } else {
            (file_bandwidth_limit_mbps * 1_000) as u32
        },
    }
}

/// The offer of a peer, if its connection has datagrams at all.
pub fn application_session_offer<P>(
    config: &NetworkTransportConfig<P>,
    connection_limit: Option<usize>,
) -> (result: Result<SessionOffer, QuicTransportError>)
    ensures
        match connection_limit {
            Some(limit) => result matches Ok(offer) && offer@ == application_offer(
                config.file_bandwidth_limit_mbps,
                limit,
            ),
            None => result == Err::<SessionOffer, _>(
                QuicTransportError::Datagram(DatagramFailure::NotNegotiated),
            ),
        },
{
    let limit: usize = match connection_limit {
        Some(limit) => limit,
        None => return Err(QuicTransportError::Datagram(DatagramFailure::NotNegotiated)),
    };
    let max_datagram_payload: u16 = if limit < 256 {
        256
    } else if limit > 65_000 {
        65_000
    } else {
        limit as u16
    };
    let file_kbps: u32 = if config.file_bandwidth_limit_mbps == 0 {
        1_000_000
    } else {
        match config.file_bandwidth_limit_mbps.checked_mul(1_000) {
            Some(kbps) => kbps,
            None => u32::MAX,
        }
    };
    let offer = SessionOffer {
        minimum_protocol_version: PROTOCOL_VERSION,
        maximum_protocol_version: PROTOCOL_VERSION,
        capabilities: session::CAP_CLIPBOARD_SEND | session::CAP_CLIPBOARD_RECEIVE
            | session::CAP_FILE_TRANSFER | session::CAP_INPUT_SEND | session::CAP_INPUT_RECEIVE,
        latency_mode: LatencyMode::LowLatency,
        video_codecs: vec![
            VideoCodec::Av1,
            VideoCodec::H265,
            VideoCodec::H264,
            VideoCodec::Vp9,
            VideoCodec::Vp8,
            VideoCodec::Raw,
        ],
        audio_codecs: vec![AudioCodec::Opus],
        color_formats: session::COLOR_I420 | session::COLOR_I444 | session::COLOR_NV12
            | session::COLOR_P010,
        max_width: 16_384,
        max_height: 16_384,
        max_fps: 240,
        max_datagram_payload,
        max_video_bitrate_kbps: 1_000_000,
        max_file_bitrate_kbps: file_kbps,
    };
    assert(offer@ =~= application_offer(config.file_bandwidth_limit_mbps, limit));
    Ok(offer)
}

/// A failed negotiation as an error of the transport.
pub open spec fn negotiation_failure(error: SessionNegotiationError) -> QuicTransportError {
    QuicTransportError::ProtocolState(ProtocolStateFailure::Negotiation(error))
}

fn session_negotiation_error(error: SessionNegotiationError) -> (wrapped: QuicTransportError)
    ensures
        wrapped == negotiation_failure(error),
{
    QuicTransportError::ProtocolState(ProtocolStateFailure::Negotiation(error))
}

/// The payload of the message by which a client offers a session.
pub fn client_offer_payload(offer: &SessionOffer) -> (result: Result<Vec<u8>, QuicTransportError>)
    ensures
        match session::offer_error(offer@) {
            Some(error) => result == Err::<Vec<u8>, _>(negotiation_failure(error)),
            None => result matches Ok(bytes) && bytes@ == session::offer_bytes(offer@),
        },
{
    match encode_session_offer(offer) {
        Ok(payload) => Ok(payload),
        Err(error) => Err(session_negotiation_error(error)),
    }
}

/// What a client makes of the answer to its offer.
pub open spec fn client_agreement(
    offer: OfferView,
    message_type: MessageType,
    payload: Seq<u8>,
) -> Result<SessionAgreement, QuicTransportError> {
    if message_type != MessageType::SessionAccept {
        Err(
            QuicTransportError::ProtocolState(
                ProtocolStateFailure::ExpectedSessionAcceptance(message_type),
            ),
        )
    } else {
        match session::parse_acceptance(payload) {
            Err(error) => Err(negotiation_failure(error)),
            Ok((server_offer, agreement)) => match session::negotiated(offer, server_offer) {
                Err(error) => Err(negotiation_failure(error)),
                Ok(expected) => if expected == agreement {
                    Ok(agreement)
                } else {
                    Err(negotiation_failure(SessionNegotiationError::InvalidAgreement))
                },
            },
        }
    }
}

/// What a server makes of a client's offer: the agreement, and the payload of its answer.
pub open spec fn server_agreement(
    offer: OfferView,
    message_type: MessageType,
    payload: Seq<u8>,
) -> Result<(SessionAgreement, Seq<u8>), QuicTransportError> {
    if message_type != MessageType::SessionOffer {
        Err(
            QuicTransportError::ProtocolState(
                ProtocolStateFailure::ExpectedSessionOffer(message_type),
            ),
        )
    } else {
        match session::parse_offer(payload) {
            Err(error) => Err(negotiation_failure(error)),
            Ok(client_offer) => match session::negotiated(client_offer, offer) {
                Err(error) => Err(negotiation_failure(error)),
                Ok(agreement) => Ok((agreement, session::acceptance_bytes(offer, agreement))),
            },
        }
    }
}

/// Accepts the answer to a client's offer, if it is what both offers lead to.
pub fn client_accepts_session(
    offer: &SessionOffer,
    message_type: MessageType,
    payload: &[u8],
) -> (result: Result<SessionAgreement, QuicTransportError>)
    ensures
        result == client_agreement(offer@, message_type, payload@),
{
    if message_type != MessageType::SessionAccept {
        return Err(
            QuicTransportError::ProtocolState(
                ProtocolStateFailure::ExpectedSessionAcceptance(message_type),
            ),
        );
    }
    let (server_offer, agreement) = match decode_session_acceptance(payload) {
        Ok(acceptance) => acceptance,
        Err(error) => return Err(session_negotiation_error(error)),
    };
    match validate_session_acceptance(offer, &server_offer, &agreement) {
        Ok(()) => Ok(agreement),
        Err(error) => Err(session_negotiation_error(error)),
    }
}

/// Agrees to a client's offer, and gives the payload of the answer.
pub fn server_accepts_session(
    offer: &SessionOffer,
    message_type: MessageType,
    payload: &[u8],
) -> (result: Result<(SessionAgreement, Vec<u8>), QuicTransportError>)
    ensures
        match server_agreement(offer@, message_type, payload@) {
            Ok((agreement, answer)) => result matches Ok((agreed, bytes)) && agreed == agreement
                && bytes@ == answer,
            Err(error) => result == Err::<(SessionAgreement, Vec<u8>), _>(error),
        },
{
    if message_type != MessageType::SessionOffer {
        return Err(
            QuicTransportError::ProtocolState(
                ProtocolStateFailure::ExpectedSessionOffer(message_type),
            ),
        );
    }
    let client_offer = match decode_session_offer(payload) {
        Ok(client_offer) => client_offer,
        Err(error) => return Err(session_negotiation_error(error)),
    };
    let agreement = match negotiate_session(&client_offer, offer) {
        Ok(agreement) => agreement,
        Err(error) => return Err(session_negotiation_error(error)),
    };
    proof {
        session::lemma_negotiated_within_offers(client_offer@, offer@);
    }
    match encode_session_acceptance(offer, &agreement) {
        Ok(answer) => Ok((agreement, answer)),
        Err(error) => Err(session_negotiation_error(error)),
    }
}

/// The kinds of streams of a connection, in the order in which a client opens them.
pub open spec fn channel_order() -> Seq<ReliableChannelKind> {
    seq![
        ReliableChannelKind::Control,
        ReliableChannelKind::Input,
        ReliableChannelKind::Clipboard,
        ReliableChannelKind::FileTransfer,
        ReliableChannelKind::Diagnostics,
    ]
}

/// The kinds of streams of a connection, in the order in which a client opens them.
pub fn application_channels() -> (kinds: Vec<ReliableChannelKind>)
    ensures
        kinds@ == channel_order(),
{
    let kinds = vec![
        ReliableChannelKind::Control,
        ReliableChannelKind::Input,
        ReliableChannelKind::Clipboard,
        ReliableChannelKind::FileTransfer,
        ReliableChannelKind::Diagnostics,
    ];
    assert(kinds@ =~= channel_order());
    kinds
}

/// The streams of a connection that are there so far, at most one of each kind. `C` is what
/// stands for a stream.
pub struct ApplicationChannels<C> {
    control: Option<C>,
    input: Option<C>,
    clipboard: Option<C>,
    file: Option<C>,
    diagnostics: Option<C>,
}

/// All streams of a connection.
pub struct EstablishedChannels<C> {
    pub control: C,
    pub input: C,
    pub clipboard: C,
    pub file: C,
    pub diagnostics: C,
}

/// The streams that are there by kind.
pub open spec fn first_missing<C>(channels: Map<ReliableChannelKind, C>) -> Option<
    ReliableChannelKind,
> {
    if !channels.contains_key(ReliableChannelKind::Control) {
        Some(ReliableChannelKind::Control)
    } else if !channels.contains_key(ReliableChannelKind::Input) {
        Some(ReliableChannelKind::Input)
    } else if !channels.contains_key(ReliableChannelKind::Clipboard) {
        Some(ReliableChannelKind::Clipboard)
    } else if !channels.contains_key(ReliableChannelKind::FileTransfer) {
        Some(ReliableChannelKind::FileTransfer)
    } else if !channels.contains_key(ReliableChannelKind::Diagnostics) {
        Some(ReliableChannelKind::Diagnostics)
    } else {
        None
    }
}

impl<C> ApplicationChannels<C> {
    spec fn slot(&self, kind: ReliableChannelKind) -> Option<C> {
        match kind {
            ReliableChannelKind::Control => self.control,
            ReliableChannelKind::Input => self.input,
            ReliableChannelKind::Clipboard => self.clipboard,
            ReliableChannelKind::FileTransfer => self.file,
            ReliableChannelKind::Diagnostics => self.diagnostics,
            ReliableChannelKind::Video => None,
        }
    }

    pub closed spec fn present(&self) -> Map<ReliableChannelKind, C> {
        Map::new(
            |kind: ReliableChannelKind| self.slot(kind) is Some,
            |kind: ReliableChannelKind| self.slot(kind)->Some_0,
        )
    }

    pub fn new() -> (channels: ApplicationChannels<C>)
        ensures
            channels.present() == Map::<ReliableChannelKind, C>::empty(),
    {
        let channels = ApplicationChannels {
            control: None,
            input: None,
            clipboard: None,
            file: None,
            diagnostics: None,
        };
        assert(channels.present() =~= Map::<ReliableChannelKind, C>::empty());
        channels
    }

    /// Adds a stream, unless there is one of its kind already or its kind is not used.
    pub fn add(&mut self, kind: ReliableChannelKind, channel: C) -> (result: Result<
        (),
        QuicTransportError,
    >)
        ensures
            if kind == ReliableChannelKind::Video {
                &&& result == Err::<(), _>(
                    QuicTransportError::ProtocolState(
                        ProtocolStateFailure::InvalidMessageOnChannel(kind),
                    ),
                )
                &&& final(self).present() == old(self).present()
            } else if old(self).present().contains_key(kind) {
                &&& result == Err::<(), _>(
                    QuicTransportError::ProtocolState(ProtocolStateFailure::DuplicateChannel),
                )
                &&& final(self).present() == old(self).present()
            } else {
                &&& result == Ok::<_, QuicTransportError>(())
                &&& final(self).present() == old(self).present().insert(kind, channel)
            },
    {
        let taken = match kind {
            ReliableChannelKind::Control => self.control.is_some(),
            ReliableChannelKind::Input => self.input.is_some(),
            ReliableChannelKind::Clipboard => self.clipboard.is_some(),
            ReliableChannelKind::FileTransfer => self.file.is_some(),
            ReliableChannelKind::Diagnostics => self.diagnostics.is_some(),
            ReliableChannelKind::Video => return Err(
                QuicTransportError::ProtocolState(
                    ProtocolStateFailure::InvalidMessageOnChannel(kind),
                ),
            ),
        };
        if taken {
            return Err(QuicTransportError::ProtocolState(ProtocolStateFailure::DuplicateChannel));
        }
        match kind {
            ReliableChannelKind::Control => self.control = Some(channel),
            ReliableChannelKind::Input => self.input = Some(channel),
            ReliableChannelKind::Clipboard => self.clipboard = Some(channel),
            ReliableChannelKind::FileTransfer => self.file = Some(channel),
            _ => self.diagnostics = Some(channel),
        }
        assert(self.present() =~= old(self).present().insert(kind, channel));
        Ok(())
    }

    /// All streams, if none is missing.
    pub fn finish(self) -> (result: Result<EstablishedChannels<C>, QuicTransportError>)
        ensures
            match first_missing(self.present()) {
                Some(kind) => result == Err::<EstablishedChannels<C>, _>(
                    QuicTransportError::ProtocolState(ProtocolStateFailure::MissingChannel(kind)),
                ),
                None => result matches Ok(channels) && channels.control
                    == self.present()[ReliableChannelKind::Control] && channels.input
                    == self.present()[ReliableChannelKind::Input] && channels.clipboard
                    == self.present()[ReliableChannelKind::Clipboard] && channels.file
                    == self.present()[ReliableChannelKind::FileTransfer] && channels.diagnostics
                    == self.present()[ReliableChannelKind::Diagnostics],
            },
    {
        let control = require_channel(self.control, ReliableChannelKind::Control)?;
        let input = require_channel(self.input, ReliableChannelKind::Input)?;
        let clipboard = require_channel(self.clipboard, ReliableChannelKind::Clipboard)?;
        let file = require_channel(self.file, ReliableChannelKind::FileTransfer)?;
        let diagnostics = require_channel(self.diagnostics, ReliableChannelKind::Diagnostics)?;
        Ok(EstablishedChannels { control, input, clipboard, file, diagnostics })
    }
}

fn require_channel<C>(channel: Option<C>, kind: ReliableChannelKind) -> (result: Result<
    C,
    QuicTransportError,
>)
    ensures
        result == match channel {
            Some(channel) => Ok::<_, QuicTransportError>(channel),
            None => Err::<C, _>(
                QuicTransportError::ProtocolState(ProtocolStateFailure::MissingChannel(kind)),
            ),
        },
{
    match channel {
        Some(channel) => Ok(channel),
        None => Err(QuicTransportError::ProtocolState(ProtocolStateFailure::MissingChannel(kind))),
    }
}

/// A usable audio format comes back from the number that it is kept in.
pub proof fn lemma_audio_format_round_trip(format: AudioFormat)
    requires
        1 <= format.channels <= 8,
        format.sample_rate >= 8_000,
    ensures
        unpacked_format(packed_format(format)) == Some((format.sample_rate, format.channels as u8)),
{
}

/// A key frame that waits is never lost to a frame of the same epoch that needs it.
pub proof fn lemma_pending_key_frame_is_kept(pending: VideoView, incoming: VideoView)
    requires
        pending.is_key(),
        !incoming.is_key(),
        incoming.ordering_epoch <= pending.ordering_epoch,
    ensures
        !pending.gives_way_to(incoming),
{
}

impl StreamView {
    /// What holds of every stream: no epoch is acknowledged before it began, and no frame
    /// waits for an epoch that did not begin.
    pub open spec fn is_ordered(self) -> bool {
        &&& self.gate.acknowledged <= self.gate.requested
        &&& self.video matches Some(video) ==> video.ordering_epoch <= self.gate.requested
            && video.metadata.frame_id < self.next_frame_id
    }
}

/// Nothing that is sent or received breaks the order of a stream.
pub proof fn lemma_stream_stays_ordered(
    stream: StreamView,
    payload: Seq<u8>,
    parsed: Option<Message>,
    connection_limit: Option<usize>,
    kind: ReliableChannelKind,
    message_type: MessageType,
)
    requires
        stream.is_ordered(),
    ensures
        stream.enqueued(payload, parsed, connection_limit).0.is_ordered(),
        stream.read(kind, message_type, payload, parsed).0.is_ordered(),
        stream.gate.requested <= stream.enqueued(
            payload,
            parsed,
            connection_limit,
        ).0.gate.requested,
        StreamView::fresh(stream.agreement).is_ordered(),
{
}

/// Video does not overtake a message that begins an epoch: the next frame after it waits
/// for an epoch that is not acknowledged yet.
pub proof fn lemma_video_waits_for_ordering(
    stream: StreamView,
    ordering: Seq<u8>,
    metadata: VideoFrameMetadata,
    frame: Seq<u8>,
)
    requires
        stream.is_ordered(),
        stream.with_ordering(ordering).1 is Ok,
        stream.next_frame_id < u64::MAX,
    ensures
        ({
            let ordered = stream.with_ordering(ordering).0;
            let sent = ordered.with_video(metadata, frame).0;
            &&& sent.video matches Some(video)
            &&& video.payload == frame
            &&& video.ordering_epoch == ordered.gate.requested
            &&& !sent.gate.is_open(video.ordering_epoch)
        }),
{
}

/// The parts of a payload that an epoch precedes.
proof fn lemma_epoch_prefix(epoch: u64, payload: Seq<u8>)
    ensures
        ({
            let bytes = wire::be64(epoch) + payload;
            &&& bytes.len() == payload.len() + 8
            &&& wire::u64_at(bytes, 0) == epoch
            &&& bytes.subrange(8, bytes.len() as int) == payload
        }),
{
    let bytes = wire::be64(epoch) + payload;
    assert(bytes.subrange(0, 8) =~= wire::be64(epoch));
    assert(bytes.subrange(8, bytes.len() as int) =~= payload);
    wire::lemma_u64_round_trip(bytes, 0, epoch);
}

/// A message that begins an epoch arrives as it was, and the acknowledgement that it leads
/// to lets the video of the epoch pass.
pub proof fn lemma_ordering_is_acknowledged(
    stream: StreamView,
    peer: StreamView,
    payload: Seq<u8>,
    message: Message,
)
    requires
        orders_video(message),
        stream.with_ordering(payload).1 is Ok,
    ensures
        ({
            let ordered = stream.with_ordering(payload).0;
            let epoch = ordered.gate.requested;
            &&& stream.with_ordering(payload).1 == Ok::<_, EnqueueError>(
                ActionView::Reliable {
                    queue: ReliableQueue::Control,
                    message_type: MessageType::VideoOrdering,
                    payload: wire::be64(epoch) + payload,
                    epoch: Some(epoch),
                },
            )
            &&& peer.read(
                ReliableChannelKind::Control,
                MessageType::VideoOrdering,
                wire::be64(epoch) + payload,
                Some(message),
            ) == (
                peer,
                Ok::<_, QuicTransportError>(ReaderView::DeliverThenAcknowledge { payload, epoch }),
            )
            &&& ordered.read(
                ReliableChannelKind::Control,
                MessageType::VideoOrderingAck,
                wire::be64(epoch),
                None,
            ).1 == Ok::<_, QuicTransportError>(ReaderView::Acknowledged)
            &&& ordered.read(
                ReliableChannelKind::Control,
                MessageType::VideoOrderingAck,
                wire::be64(epoch),
                None,
            ).0.gate.is_open(epoch)
        }),
{
    let epoch = stream.with_ordering(payload).0.gate.requested;
    lemma_epoch_prefix(epoch, payload);
    lemma_epoch_prefix(epoch, Seq::empty());
    assert(wire::be64(epoch) + Seq::<u8>::empty() =~= wire::be64(epoch));
}

/// A message that is put in a queue is accepted at the other end of the queue's stream, and
/// the application there gets the bytes that were sent.
pub proof fn lemma_queued_message_is_delivered(
    stream: StreamView,
    peer: StreamView,
    payload: Seq<u8>,
    message: Message,
    connection_limit: Option<usize>,
)
    requires
        !orders_video(message),
        stream.with_message(message, payload, connection_limit).1 matches Ok(action) && action
            is Reliable,
    ensures
        match stream.with_message(message, payload, connection_limit).1 {
            Ok(ActionView::Reliable { queue, message_type, payload: sent, epoch }) => {
                &&& message_type.channel() == queue.kind().channel_id()
                &&& peer.read(queue.kind(), message_type, sent, Some(message)) == (
                    peer,
                    Ok::<_, QuicTransportError>(ReaderView::Deliver(payload)),
                )
            },
            _ => false,
        },
{
}

/// Where a server agrees to a client's offer, the client accepts the answer, and both have
/// the same agreement.
pub proof fn lemma_both_sides_agree(client: OfferView, server: OfferView)
    requires
        session::offer_error(client) is None,
        server_agreement(
            server,
            MessageType::SessionOffer,
            session::offer_bytes(client),
        ) is Ok,
    ensures
        ({
            let (agreement, answer) = server_agreement(
                server,
                MessageType::SessionOffer,
                session::offer_bytes(client),
            )->Ok_0;
            client_agreement(client, MessageType::SessionAccept, answer) == Ok::<
                _,
                QuicTransportError,
            >(agreement)
        }),
{
    session::lemma_offer_round_trip(client);
    session::lemma_negotiated_within_offers(client, server);
    session::lemma_acceptance_round_trip(server, session::negotiated(client, server)->Ok_0);
}

/// Two peers of this application always come to an agreement.
pub proof fn lemma_application_offers_agree(
    client_mbps: u32,
    client_limit: usize,
    server_mbps: u32,
    server_limit: usize,
)
    ensures
        session::negotiated(
            application_offer(client_mbps, client_limit),
            application_offer(server_mbps, server_limit),
        ) is Ok,
{
    let client = application_offer(client_mbps, client_limit);
    let server = application_offer(server_mbps, server_limit);
    assert((2u16 | 4u16 | 8u16 | 16u16 | 32u16) & !127u16 == 0 && (1u16 | 2u16 | 4u16 | 8u16)
        & !15u16 == 0 && (1u16 | 2u16 | 4u16 | 8u16) != 0 && ((1u16 | 2u16 | 4u16 | 8u16) & (1u16
        | 2u16 | 4u16 | 8u16)) & 2u16 != 0) by (bit_vector);
    assert(client.video_codecs.no_duplicates());
    assert(client.audio_codecs.no_duplicates());
    assert(client.video_codecs[0] == VideoCodec::Av1);
    assert(client.audio_codecs[0] == AudioCodec::Opus);
    assert(session::offer_error(client) is None);
    assert(session::offer_error(server) is None);
}

/// Streams of all five kinds that are in use, none twice, are all streams of a connection.
pub proof fn lemma_five_channels_are_complete<C>(channels: Map<ReliableChannelKind, C>)
    requires
        channels.dom().finite(),
        channels.len() == 5,
        !channels.contains_key(ReliableChannelKind::Video),
    ensures
        first_missing(channels) is None,
{
    let kinds = channel_order().to_set();
    assert(channel_order().no_duplicates());
    channel_order().unique_seq_to_set();
    assert forall|kind: ReliableChannelKind| channels.contains_key(kind) implies kinds.contains(
        kind,
    ) by {
        let order = channel_order();
        match kind {
            ReliableChannelKind::Control => assert(order[0] == kind),
            ReliableChannelKind::Input => assert(order[1] == kind),
            ReliableChannelKind::Clipboard => assert(order[2] == kind),
            ReliableChannelKind::FileTransfer => assert(order[3] == kind),
            ReliableChannelKind::Diagnostics => assert(order[4] == kind),
            ReliableChannelKind::Video => {},
        }
    }
    assert(channels.dom().subset_of(kinds));
    vstd::set_lib::lemma_subset_equality(channels.dom(), kinds);
    assert(channel_order()[0] == ReliableChannelKind::Control);
    assert(channel_order()[1] == ReliableChannelKind::Input);
    assert(channel_order()[2] == ReliableChannelKind::Clipboard);
    assert(channel_order()[3] == ReliableChannelKind::FileTransfer);
    assert(channel_order()[4] == ReliableChannelKind::Diagnostics);
}

/// A message that waits as long as the pacing asks for keeps within the bitrate.
pub proof fn lemma_pacing_keeps_the_bitrate(length: nat, kbps: u32)
    requires
        kbps > 0,
        pacing_micros(length, Some(kbps)) < u64::MAX,
    ensures
        length * 8_000 <= kbps * pacing_micros(length, Some(kbps)) < length * 8_000 + kbps,
{
    let total = length * 8_000 + kbps as nat - 1;
    vstd::arithmetic::div_mod::lemma_fundamental_div_mod(total, kbps as int);
    vstd::arithmetic::mul::lemma_mul_is_commutative(kbps as int, total / kbps as int);
}

/// A mouse event may be replaced by a later one only where it is a plain movement: where the
/// three lowest bits of its mask are 0 for a movement to a place, or 5 for one by a distance.
/// Then it waits as the latest movement, with the buttons that the five bits above say are down.
/// Every other event, such as a button that goes down or up or a turn of the wheel, is queued
/// on the input stream with its bytes, and nothing that waits takes its place.
pub proof fn lemma_only_movements_are_replaced(
    stream: StreamView,
    event: MouseEvent,
    payload: Seq<u8>,
    connection_limit: Option<usize>,
)
    requires
        !stream.raw_mode,
    ensures
        ({
            let (after, result) = stream.enqueued(
                payload,
                Some(Message::MouseEvent(event)),
                connection_limit,
            );
            let kind = event.mask % 8;
            &&& kind != 0 && kind != 5 ==> after == stream && result == Ok::<_, EnqueueError>(
                ActionView::Reliable {
                    queue: ReliableQueue::Input,
                    message_type: MessageType::ReliableInput,
                    payload,
                    epoch: None,
                },
            )
            &&& kind == 0 || kind == 5 ==> {
                &&& result == Ok::<_, EnqueueError>(ActionView::MousePending)
                &&& after == (StreamView { mouse: after.mouse, ..stream })
                &&& after.mouse matches Some(movement)
                &&& movement.mode == if kind == 0 {
                    MouseMovementMode::Absolute
                } else {
                    MouseMovementMode::Relative
                }
                &&& movement.x == event.x
                &&& movement.y == event.y
                &&& movement.button_state_mask == (event.mask / 8) % 32
                &&& movement.payload == payload
            }
        }),
{
    let bits = wire::bits_of_i32(event.mask);
    assert(bits % 8 == event.mask % 8);
    assert((bits / 8) % 32 == (event.mask / 8) % 32);
}

/// Whether a message is queued on a reliable stream as it is, and changes nothing that waits.
pub open spec fn is_queued(
    stream: StreamView,
    message: Message,
    payload: Seq<u8>,
    connection_limit: Option<usize>,
    queue: ReliableQueue,
    message_type: MessageType,
) -> bool {
    stream.enqueued(payload, Some(message), connection_limit) == (
        stream,
        Ok::<_, EnqueueError>(ActionView::Reliable { queue, message_type, payload, epoch: None }),
    )
}

/// Messages that must not be lost travel on the stream that is theirs: keys and pointers on
/// that for input, the clipboard and files on theirs, measurements on that for diagnostics, and
/// all that has no stream of its own on the control stream.
pub proof fn lemma_messages_take_their_stream(
    stream: StreamView,
    message: Message,
    payload: Seq<u8>,
    connection_limit: Option<usize>,
)
    requires
        !stream.raw_mode,
    ensures
        message is KeyEvent || message is PointerDeviceEvent ==> is_queued(
            stream,
            message,
            payload,
            connection_limit,
            ReliableQueue::Input,
            MessageType::ReliableInput,
        ),
        message is Clipboard || message is MultiClipboards || message is Cliprdr ==> is_queued(
            stream,
            message,
            payload,
            connection_limit,
            ReliableQueue::Clipboard,
            MessageType::Clipboard,
        ),
        message is FileAction || message is FileResponse ==> is_queued(
            stream,
            message,
            payload,
            connection_limit,
            ReliableQueue::File,
            MessageType::FileChunk,
        ),
        message is TestDelay || message == Message::Misc(Misc::VideoFeedback) ==> is_queued(
            stream,
            message,
            payload,
            connection_limit,
            ReliableQueue::Diagnostics,
            MessageType::Diagnostics,
        ),
        message is Other || message == Message::Misc(Misc::Other) ==> is_queued(
            stream,
            message,
            payload,
            connection_limit,
            ReliableQueue::Control,
            MessageType::ApplicationControl,
        ),
{
}

/// A switch of the display begins the next epoch and travels on the control stream behind the
/// eight bytes of the epoch's number. It changes nothing else.
pub proof fn lemma_display_switch_begins_an_epoch(
    stream: StreamView,
    payload: Seq<u8>,
    connection_limit: Option<usize>,
)
    requires
        !stream.raw_mode,
    ensures
        ({
            let (after, result) = stream.enqueued(
                payload,
                Some(Message::Misc(Misc::SwitchDisplay)),
                connection_limit,
            );
            &&& stream.gate.requested < u64::MAX ==> {
                &&& after == (StreamView { gate: after.gate, ..stream })
                &&& after.gate.requested == stream.gate.requested + 1
                &&& after.gate.acknowledged == stream.gate.acknowledged
                &&& result matches Ok(ActionView::Reliable { queue, message_type, payload: sent, epoch })
                &&& queue == ReliableQueue::Control
                &&& message_type == MessageType::VideoOrdering
                &&& epoch == Some((stream.gate.requested + 1) as u64)
                &&& sent.len() == payload.len() + 8
                &&& wire::u64_at(sent, 0) == stream.gate.requested + 1
                &&& sent.subrange(8, sent.len() as int) == payload
            }
            &&& stream.gate.requested == u64::MAX ==> after == stream && result is Err
        }),
{
    if stream.gate.requested < u64::MAX {
        lemma_epoch_prefix((stream.gate.requested + 1) as u64, payload);
    }
}

/// An announced audio format with one to eight channels and at least 8 kHz holds for the audio
/// after it, and any other makes audio travel reliably again. The announcement itself travels
/// on the control stream.
pub proof fn lemma_announced_format_is_used(
    stream: StreamView,
    format: AudioFormat,
    announcement: Seq<u8>,
    audio: Seq<u8>,
    connection_limit: Option<usize>,
)
    requires
        !stream.raw_mode,
    ensures
        ({
            let (after, result) = stream.enqueued(
                announcement,
                Some(Message::Misc(Misc::AudioFormat(format))),
                connection_limit,
            );
            let sent = after.enqueued(audio, Some(Message::AudioFrame), connection_limit);
            let connection = match connection_limit {
                Some(limit) => limit,
                None => 1200,
            };
            let usable = 1 <= format.channels <= 8 && format.sample_rate >= 8_000;
            let fits = audio.len() + 80 <= connection && audio.len() + 80
                <= stream.agreement.max_datagram_payload;
            &&& after == (StreamView { audio_format: after.audio_format, ..stream })
            &&& result == Ok::<_, EnqueueError>(
                ActionView::Reliable {
                    queue: ReliableQueue::Control,
                    message_type: MessageType::ApplicationControl,
                    payload: announcement,
                    epoch: None,
                },
            )
            &&& sent.0 == after
            &&& sent.1 == Ok::<_, EnqueueError>(
                if !usable {
                    ActionView::Reliable {
                        queue: ReliableQueue::Control,
                        message_type: MessageType::ApplicationControl,
                        payload: audio,
                        epoch: None,
                    }
                } else if fits {
                    ActionView::Audio {
                        channels: format.channels as u8,
                        sample_rate_hz: format.sample_rate,
                        payload: audio,
                    }
                } else {
                    ActionView::AudioDropped
                },
            )
        }),
{
    if 1 <= format.channels <= 8 && format.sample_rate >= 8_000 {
        lemma_audio_format_round_trip(format);
    }
}

/// Before a format was announced audio travels on the control stream.
pub proof fn lemma_audio_without_a_format_is_reliable(
    agreement: SessionAgreement,
    audio: Seq<u8>,
    connection_limit: Option<usize>,
)
    ensures
        is_queued(
            StreamView::fresh(agreement),
            Message::AudioFrame,
            audio,
            connection_limit,
            ReliableQueue::Control,
            MessageType::ApplicationControl,
        ),
{
}

/// In raw mode all bytes travel on the control stream as they are, and otherwise bytes that are
/// no message are refused.
pub proof fn lemma_raw_bytes_and_no_message(
    stream: StreamView,
    payload: Seq<u8>,
    parsed: Option<Message>,
    connection_limit: Option<usize>,
)
    ensures
        stream.raw_mode ==> stream.enqueued(payload, parsed, connection_limit) == (
            stream,
            Ok::<_, EnqueueError>(
                ActionView::Reliable {
                    queue: ReliableQueue::Control,
                    message_type: MessageType::ApplicationRaw,
                    payload,
                    epoch: None,
                },
            ),
        ),
        !stream.raw_mode && parsed is None ==> stream.enqueued(payload, parsed, connection_limit)
            == (stream, Err::<ActionView, _>(EnqueueError::InvalidMessage)),
{
}

/// Whether one of the pictures in a message is a key picture.
pub open spec fn holds_key(payload: VideoPayload) -> bool {
    match payload {
        VideoPayload::Vp9s(frames) => frames@.contains(true),
        VideoPayload::H264s(frames) => frames@.contains(true),
        VideoPayload::H265s(frames) => frames@.contains(true),
        VideoPayload::Vp8s(frames) => frames@.contains(true),
        VideoPayload::Av1s(frames) => frames@.contains(true),
        _ => true,
    }
}

/// A video frame is described by its codec, whether it holds a key picture, and the time in
/// microseconds at which it was taken.
pub proof fn lemma_video_frames_are_described(frame: VideoFrame)
    ensures
        frame.payload is None ==> metadata_of(frame) is Err,
        frame.payload matches Some(payload) ==> {
            &&& metadata_of(frame) matches Ok(metadata)
            &&& metadata.frame_id == frame.frame_id
            &&& metadata.codec == match payload {
                VideoPayload::Vp9s(_) => VideoCodec::Vp9,
                VideoPayload::H264s(_) => VideoCodec::H264,
                VideoPayload::H265s(_) => VideoCodec::H265,
                VideoPayload::Vp8s(_) => VideoCodec::Vp8,
                VideoPayload::Av1s(_) => VideoCodec::Av1,
                VideoPayload::Rgb | VideoPayload::Yuv => VideoCodec::Raw,
            }
            &&& metadata.flags == 1 <==> holds_key(payload)
            &&& metadata.flags == 0 <==> !holds_key(payload)
            &&& frame.capture_time_ms * 1_000 <= u64::MAX ==> metadata.presentation_timestamp_us
                == frame.capture_time_ms * 1_000
            &&& frame.capture_time_ms * 1_000 > u64::MAX ==> metadata.presentation_timestamp_us
                == u64::MAX
        },
{
    if let Some(payload) = frame.payload {
        match payload {
            VideoPayload::Vp9s(frames) => lemma_any_key(frames@),
            VideoPayload::H264s(frames) => lemma_any_key(frames@),
            VideoPayload::H265s(frames) => lemma_any_key(frames@),
            VideoPayload::Vp8s(frames) => lemma_any_key(frames@),
            VideoPayload::Av1s(frames) => lemma_any_key(frames@),
            _ => {},
        }
    }
}

proof fn lemma_any_key(frames: Seq<bool>)
    ensures
        any_key(frames) <==> frames.contains(true),
{
    if frames.contains(true) {
        let index = choose|index: int| 0 <= index < frames.len() && frames[index] == true;
        assert(frames[index]);
    }
}

/// A video frame gets the next number and waits for the epoch that began last. It takes the
/// place of one that waits where that is of an earlier epoch, or is no key frame, or where it
/// is itself a key frame.
pub proof fn lemma_latest_video_waits(
    stream: StreamView,
    frame: VideoFrame,
    payload: Seq<u8>,
    connection_limit: Option<usize>,
)
    requires
        !stream.raw_mode,
        frame.payload is Some,
        stream.next_frame_id < u64::MAX,
        stream.is_ordered(),
    ensures
        ({
            let (after, result) = stream.enqueued(
                payload,
                Some(Message::VideoFrame(frame)),
                connection_limit,
            );
            let key = holds_key(frame.payload->Some_0);
            let stays = stream.video matches Some(waiting) && waiting.ordering_epoch
                == stream.gate.requested && waiting.metadata.flags % 2 == 1 && !key;
            &&& result == Ok::<_, EnqueueError>(ActionView::VideoPending(!stays))
            &&& after == (StreamView {
                video: after.video,
                next_frame_id: (stream.next_frame_id + 1) as u64,
                ..stream
            })
            &&& stays ==> after.video == stream.video
            &&& !stays ==> {
                &&& after.video matches Some(waiting)
                &&& waiting.payload == payload
                &&& waiting.ordering_epoch == stream.gate.requested
                &&& waiting.metadata.frame_id == stream.next_frame_id
                &&& waiting.metadata == (VideoFrameMetadata {
                    frame_id: stream.next_frame_id,
                    ..metadata_of(frame)->Ok_0
                })
            }
        }),
{
    lemma_video_frames_are_described(frame);
    if let Some(waiting) = stream.video {
        let flags = waiting.metadata.flags;
        assert(flags & 1 != 0 <==> flags % 2 == 1) by (bit_vector);
    }
    assert(1u8 & 1u8 != 0 && 0u8 & 1u8 == 0) by (bit_vector);
}

/// Which of two waiting frames stays: that of the later epoch, and within an epoch the later
/// one, unless only the earlier one is a key frame.
pub proof fn lemma_waiting_frame_gives_way(pending: VideoView, incoming: VideoView)
    ensures
        pending.ordering_epoch < incoming.ordering_epoch ==> pending.gives_way_to(incoming),
        pending.ordering_epoch > incoming.ordering_epoch ==> !pending.gives_way_to(incoming),
        pending.ordering_epoch == incoming.ordering_epoch ==> (pending.gives_way_to(incoming)
            <==> pending.metadata.flags % 2 == 0 || incoming.metadata.flags % 2 == 1),
{
    let flags = pending.metadata.flags;
    assert(flags & 1 != 0 <==> flags % 2 == 1) by (bit_vector);
    let flags = incoming.metadata.flags;
    assert(flags & 1 != 0 <==> flags % 2 == 1) by (bit_vector);
}

/// Video of an epoch may be sent exactly once that epoch or a later one is acknowledged; an
/// acknowledgement never takes an earlier one back, and begins no epoch.
pub proof fn lemma_acknowledgements_add_up(gate: GateView, epoch: u64, other: u64)
    ensures
        gate.acknowledging(epoch).is_open(other) <==> gate.is_open(other) || other <= epoch,
        gate.is_open(other) <==> other <= gate.acknowledged,
        gate.acknowledging(epoch).requested == gate.requested,
{
}

/// An acknowledgement from the other side counts where its epoch began here, and is refused
/// otherwise. It delivers nothing.
pub proof fn lemma_acknowledgements_are_read(
    stream: StreamView,
    payload: Seq<u8>,
    parsed: Option<Message>,
)
    ensures
        ({
            let (after, result) = stream.read(
                ReliableChannelKind::Control,
                MessageType::VideoOrderingAck,
                payload,
                parsed,
            );
            let epoch = wire::u64_at(payload, 0);
            &&& result is Ok <==> payload.len() >= 8 && 1 <= epoch <= stream.gate.requested
            &&& result is Ok ==> {
                &&& result == Ok::<_, QuicTransportError>(ReaderView::Acknowledged)
                &&& after == (StreamView { gate: after.gate, ..stream })
                &&& after.gate.requested == stream.gate.requested
                &&& after.gate.acknowledged == epoch || after.gate.acknowledged
                    == stream.gate.acknowledged
                &&& after.gate.acknowledged >= epoch && after.gate.acknowledged
                    >= stream.gate.acknowledged
            }
            &&& result is Err ==> after == stream
        }),
{
}

/// Whether a message is one that the stream of a kind is for.
pub open spec fn is_message_of(kind: ReliableChannelKind, message: Message) -> bool {
    match kind {
        ReliableChannelKind::Control => !(message matches Message::VideoFrame(frame)
            && frame.payload is None),
        ReliableChannelKind::Input => message is KeyEvent || message is PointerDeviceEvent || (
        message matches Message::MouseEvent(event) && event.mask % 8 != 0 && event.mask % 8 != 5),
        ReliableChannelKind::Clipboard => message is Clipboard || message is MultiClipboards
            || message is Cliprdr,
        ReliableChannelKind::FileTransfer => message is FileAction || message is FileResponse,
        ReliableChannelKind::Diagnostics => message is TestDelay || message == Message::Misc(
            Misc::VideoFeedback,
        ),
        ReliableChannelKind::Video => false,
    }
}

/// What comes on a stream is handed to the application exactly where it is a message that the
/// stream is for, with the message type that goes with the stream; raw bytes come on the
/// control stream only. A switch of the display is handed on without its epoch.
pub proof fn lemma_streams_carry_their_messages(
    stream: StreamView,
    kind: ReliableChannelKind,
    message_type: MessageType,
    payload: Seq<u8>,
    parsed: Option<Message>,
)
    requires
        !(kind == ReliableChannelKind::Control && message_type == MessageType::VideoOrderingAck),
    ensures
        ({
            let (after, result) = stream.read(kind, message_type, payload, parsed);
            let raw = kind == ReliableChannelKind::Control && message_type
                == MessageType::ApplicationRaw;
            let ordering = kind == ReliableChannelKind::Control && message_type
                == MessageType::VideoOrdering;
            let typed = match kind {
                ReliableChannelKind::Control => message_type == MessageType::ApplicationControl,
                ReliableChannelKind::Input => message_type == MessageType::ReliableInput,
                ReliableChannelKind::Clipboard => message_type == MessageType::Clipboard,
                ReliableChannelKind::FileTransfer => message_type == MessageType::FileChunk,
                ReliableChannelKind::Diagnostics => message_type == MessageType::Diagnostics,
                ReliableChannelKind::Video => false,
            };
            &&& after == stream
            &&& raw ==> result == Ok::<_, QuicTransportError>(ReaderView::Deliver(payload))
            &&& ordering ==> (result is Ok <==> payload.len() >= 8 && wire::u64_at(payload, 0) > 0
                && parsed == Some(Message::Misc(Misc::SwitchDisplay)))
            &&& ordering && result is Ok ==> result == Ok::<_, QuicTransportError>(
                ReaderView::DeliverThenAcknowledge {
                    payload: payload.subrange(8, payload.len() as int),
                    epoch: wire::u64_at(payload, 0),
                },
            )
            &&& !raw && !ordering ==> (result == Ok::<_, QuicTransportError>(
                ReaderView::Deliver(payload),
            ) <==> typed && (parsed matches Some(message) && is_message_of(kind, message)))
            &&& !raw && !ordering && result != Ok::<_, QuicTransportError>(
                ReaderView::Deliver(payload),
            ) ==> result is Err
        }),
{
    if let Some(Message::MouseEvent(event)) = parsed {
        let bits = wire::bits_of_i32(event.mask);
        assert(bits % 8 == event.mask % 8);
    }
}

/// A datagram hands its message on exactly where that is of the kind the datagram is for: a
/// video frame with a picture, audio, or a plain movement of the mouse.
pub proof fn lemma_datagrams_carry_their_messages(
    expected: ApplicationClassTag,
    parsed: Option<Message>,
)
    ensures
        datagram_message_error(expected, parsed) is None <==> (parsed matches Some(message)
            && match expected {
            ApplicationClassTag::Video => message matches Message::VideoFrame(frame)
                && frame.payload is Some,
            ApplicationClassTag::Audio => message is AudioFrame,
            ApplicationClassTag::Mouse => message matches Message::MouseEvent(event) && (event.mask
                % 8 == 0 || event.mask % 8 == 5),
        }),
{
    if let Some(Message::MouseEvent(event)) = parsed {
        let bits = wire::bits_of_i32(event.mask);
        assert(bits % 8 == event.mask % 8);
    }
}

/// How many messages wait in each queue at most, and that only files are held to a bitrate,
/// which is the one agreed on.
pub proof fn lemma_queue_limits(agreement: SessionAgreement)
    ensures
        ReliableQueue::Control.capacity() == 128,
        ReliableQueue::Input.capacity() == 128,
        ReliableQueue::Clipboard.capacity() == 16,
        ReliableQueue::File.capacity() == 32,
        ReliableQueue::Diagnostics.capacity() == 64,
        ReliableQueue::File.bandwidth_limit_spec(agreement) == Some(
            agreement.max_file_bitrate_kbps,
        ),
        forall|queue: ReliableQueue|
            queue != ReliableQueue::File ==> (#[trigger] queue.bandwidth_limit_spec(
                agreement,
            )) is None,
{
}

/// Without a bitrate, or with one of zero, no message waits; and where the wait is cut off at
/// the longest one that can be told, it would have been longer.
pub proof fn lemma_pacing_without_a_bitrate(length: nat, kbps: u32)
    ensures
        pacing_micros(length, None) == 0,
        pacing_micros(length, Some(0)) == 0,
        kbps > 0 && pacing_micros(length, Some(kbps)) == u64::MAX ==> kbps * (u64::MAX - 1) < length
            * 8_000,
{
    if kbps > 0 {
        let total = length * 8_000 + kbps as nat - 1;
        let quotient = total / kbps as int;
        vstd::arithmetic::div_mod::lemma_fundamental_div_mod(total, kbps as int);
        if pacing_micros(length, Some(kbps)) == u64::MAX {
            assert(kbps * (quotient - 1) == kbps * quotient - kbps) by (nonlinear_arith);
            assert(kbps * (u64::MAX - 1) <= kbps * (quotient - 1)) by (nonlinear_arith)
                requires
                    quotient >= u64::MAX,
                    kbps > 0,
            ;
        }
    }
}

/// What this application offers: both directions of the clipboard and of input, files, all
/// color formats and codecs, the largest picture, and datagrams as long as the connection takes.
pub proof fn lemma_application_offer_is_full(mbps: u32, limit: usize)
    ensures
        ({
            let offer = application_offer(mbps, limit);
            &&& offer.minimum_protocol_version == 1 && offer.maximum_protocol_version == 1
            &&& offer.capabilities == 62
            &&& offer.color_formats == 15
            &&& offer.latency_mode == LatencyMode::LowLatency
            &&& offer.video_codecs == seq![
                VideoCodec::Av1,
                VideoCodec::H265,
                VideoCodec::H264,
                VideoCodec::Vp9,
                VideoCodec::Vp8,
                VideoCodec::Raw,
            ]
            &&& offer.audio_codecs == seq![AudioCodec::Opus]
            &&& offer.max_width == 16_384 && offer.max_height == 16_384 && offer.max_fps == 240
            &&& 256 <= limit <= 65_000 ==> offer.max_datagram_payload == limit
            &&& limit < 256 ==> offer.max_datagram_payload == 256
            &&& limit > 65_000 ==> offer.max_datagram_payload == 65_000
            &&& offer.max_video_bitrate_kbps == 1_000_000
            &&& mbps == 0 ==> offer.max_file_bitrate_kbps == 1_000_000
            &&& 0 < mbps <= 4_294_967 ==> offer.max_file_bitrate_kbps == mbps * 1_000
            &&& mbps > 4_294_967 ==> offer.max_file_bitrate_kbps == 0xffff_ffff
        }),
{
    assert(2u16 | 4u16 | 8u16 | 16u16 | 32u16 == 62 && 1u16 | 2u16 | 4u16 | 8u16 == 15)
        by (bit_vector);
}

/// Two peers of this application may each send input and the clipboard, and exchange files.
pub proof fn lemma_application_peers_share_everything(
    client_mbps: u32,
    client_limit: usize,
    server_mbps: u32,
    server_limit: usize,
)
    ensures
        session::negotiated(
            application_offer(client_mbps, client_limit),
            application_offer(server_mbps, server_limit),
        ) matches Ok(agreement) && agreement.local_may_send_input
            && agreement.remote_may_send_input && agreement.local_may_send_clipboard
            && agreement.remote_may_send_clipboard && agreement.file_transfer_enabled
            && agreement.video_codec == VideoCodec::Av1 && agreement.color_format
            == session::ColorFormat::I444 && agreement.latency_mode == LatencyMode::LowLatency,
{
    lemma_application_offers_agree(client_mbps, client_limit, server_mbps, server_limit);
    lemma_application_offer_is_full(client_mbps, client_limit);
    lemma_application_offer_is_full(server_mbps, server_limit);
    let client = application_offer(client_mbps, client_limit);
    let server = application_offer(server_mbps, server_limit);
    session::lemma_permissions_follow_both_offers(client, server);
    session::lemma_best_codecs_are_chosen(client, server);
    assert(62u16 & 1 == 0 && 62u16 & 2 != 0 && 62u16 & 4 != 0 && 62u16 & 8 != 0 && 62u16 & 16 != 0
        && 62u16 & 32 != 0 && 15u16 & 2 != 0) by (bit_vector);
    assert(server.video_codecs[0] == VideoCodec::Av1);
    assert(client.video_codecs[0] == VideoCodec::Av1);
}

/// A server agrees exactly where it gets an offer that can be read and agreed on, and its answer
/// carries its own offer and the agreement. A client accepts an answer exactly where it is what
/// the two offers lead to.
pub proof fn lemma_only_the_true_agreement_is_accepted(
    offer: OfferView,
    message_type: MessageType,
    payload: Seq<u8>,
)
    ensures
        server_agreement(offer, message_type, payload) is Ok <==> message_type
            == MessageType::SessionOffer && (session::parse_offer(payload) matches Ok(client)
            && session::negotiated(client, offer) is Ok),
        server_agreement(offer, message_type, payload) matches Ok((agreement, answer)) ==> {
            &&& session::negotiated(session::parse_offer(payload)->Ok_0, offer) == Ok::<
                _,
                SessionNegotiationError,
            >(agreement)
            &&& session::parse_acceptance(answer) == Ok::<_, SessionNegotiationError>(
                (offer, agreement),
            )
        },
        client_agreement(offer, message_type, payload) is Ok <==> message_type
            == MessageType::SessionAccept && (session::parse_acceptance(payload) matches Ok(
            (server, agreement),
        ) && session::negotiated(offer, server) == Ok::<_, SessionNegotiationError>(agreement)),
        client_agreement(offer, message_type, payload) matches Ok(agreement) ==> agreement
            == session::parse_acceptance(payload)->Ok_0.1,
{
    if let Ok((agreement, answer)) = server_agreement(offer, message_type, payload) {
        session::lemma_negotiated_within_offers(session::parse_offer(payload)->Ok_0, offer);
        session::lemma_acceptance_round_trip(offer, agreement);
    }
}

/// A stream that is missing is found in the order in which streams are opened.
pub proof fn lemma_first_missing_stream<C>(channels: Map<ReliableChannelKind, C>)
    ensures
        channel_order() == seq![
            ReliableChannelKind::Control,
            ReliableChannelKind::Input,
            ReliableChannelKind::Clipboard,
            ReliableChannelKind::FileTransfer,
            ReliableChannelKind::Diagnostics,
        ],
        first_missing(channels) matches Some(kind) ==> exists|place: int|
            0 <= place < 5 && #[trigger] channel_order()[place] == kind && !channels.contains_key(
                kind,
            ) && forall|earlier: int|
                0 <= earlier < place ==> channels.contains_key(#[trigger] channel_order()[earlier]),
        first_missing(channels) is None <==> forall|place: int|
            0 <= place < 5 ==> channels.contains_key(#[trigger] channel_order()[place]),
{
    let order = channel_order();
    assert(order[0] == ReliableChannelKind::Control);
    assert(order[1] == ReliableChannelKind::Input);
    assert(order[2] == ReliableChannelKind::Clipboard);
    assert(order[3] == ReliableChannelKind::FileTransfer);
    assert(order[4] == ReliableChannelKind::Diagnostics);
}

/// A full queue and a closed one are told apart, and only what was queued is reported as sent.
pub proof fn lemma_queue_answers(outcome: QueueOutcome)
    ensures
        queue_result(outcome) is Ok <==> outcome == QueueOutcome::Queued,
        outcome == QueueOutcome::Full ==> queue_result(outcome) == Err::<(), _>(
            EnqueueError::WouldBlock,
        ),
        outcome == QueueOutcome::Closed ==> queue_result(outcome) == Err::<(), _>(
            EnqueueError::BrokenPipe,
        ),
{
}


/// Which class a message is of: frames of video by their description, mouse events by the low
/// three bits of their mask, and all others by their kind.
pub proof fn lemma_messages_have_their_class(message: Message)
    ensures
        class_of(message) is Err <==> (message matches Message::VideoFrame(frame) && frame.payload
            is None),
        message matches Message::VideoFrame(frame) ==> frame.payload is Some ==> class_of(message)
            == Ok::<_, QuicTransportError>(ApplicationClass::Video(metadata_of(frame)->Ok_0)),
        class_of(message) == Ok::<_, QuicTransportError>(ApplicationClass::Audio) <==> message
            is AudioFrame,
        message matches Message::MouseEvent(event) ==> {
            &&& event.mask % 8 == 0 ==> class_of(message) == Ok::<_, QuicTransportError>(
                ApplicationClass::Mouse {
                    mode: MouseMovementMode::Absolute,
                    x: event.x,
                    y: event.y,
                    button_state_mask: ((event.mask / 8) % 32) as u16,
                },
            )
            &&& event.mask % 8 == 5 ==> class_of(message) == Ok::<_, QuicTransportError>(
                ApplicationClass::Mouse {
                    mode: MouseMovementMode::Relative,
                    x: event.x,
                    y: event.y,
                    button_state_mask: ((event.mask / 8) % 32) as u16,
                },
            )
            &&& event.mask % 8 != 0 && event.mask % 8 != 5 ==> class_of(message) == Ok::<
                _,
                QuicTransportError,
            >(ApplicationClass::Input)
        },
        message is KeyEvent || message is PointerDeviceEvent ==> class_of(message) == Ok::<
            _,
            QuicTransportError,
        >(ApplicationClass::Input),
        class_of(message) == Ok::<_, QuicTransportError>(ApplicationClass::Clipboard) <==> message
            is Clipboard || message is MultiClipboards || message is Cliprdr,
        class_of(message) == Ok::<_, QuicTransportError>(ApplicationClass::File) <==> message
            is FileAction || message is FileResponse,
        class_of(message) == Ok::<_, QuicTransportError>(ApplicationClass::Diagnostics)
            <==> message is TestDelay || message == Message::Misc(Misc::VideoFeedback),
        message is Other || message is Misc && message != Message::Misc(Misc::VideoFeedback)
            ==> class_of(message) == Ok::<_, QuicTransportError>(ApplicationClass::Control),
        orders_video(message) <==> message == Message::Misc(Misc::SwitchDisplay),
{
    if let Message::MouseEvent(event) = message {
        let bits = wire::bits_of_i32(event.mask);
        wire::lemma_signed_fields(event.mask);
        assert(bits % 8 == event.mask % 8);
        assert((bits / 8) % 32 == (event.mask / 8) % 32);
    }
}

/// An epoch is read exactly where eight bytes hold a number that is not zero.
pub proof fn lemma_epochs_that_can_be_read(payload: Seq<u8>)
    ensures
        ordering_epoch(payload) is Ok <==> payload.len() >= 8 && wire::u64_at(payload, 0) > 0,
        ordering_epoch(payload) is Ok ==> ordering_epoch(payload)->Ok_0 == wire::u64_at(payload, 0),
        payload.len() < 8 ==> ordering_epoch(payload) == Err::<u64, _>(
            QuicTransportError::ProtocolState(ProtocolStateFailure::OrderingEpochTruncated),
        ),
        payload.len() >= 8 && wire::u64_at(payload, 0) == 0 ==> ordering_epoch(payload) == Err::<
            u64,
            _,
        >(QuicTransportError::ProtocolState(ProtocolStateFailure::OrderingEpochZero)),
{
}

/// A format is kept exactly where it has 1 to 8 channels and at least 8000 samples a second.
pub proof fn lemma_formats_that_are_kept(format: AudioFormat)
    ensures
        ({
            let kept = unpacked_format(packed_format(format));
            &&& kept is Some <==> 1 <= format.channels <= 8 && format.sample_rate >= 8_000
            &&& kept is Some ==> kept->Some_0.0 == format.sample_rate && kept->Some_0.1
                == format.channels
            &&& packed_format(format) == 0 <==> kept is None
        }),
{
    if 1 <= format.channels <= 8 && format.sample_rate >= 8_000 {
        lemma_audio_format_round_trip(format);
    }
}

/// A count goes up by one, and begins again behind the largest number.
pub proof fn lemma_counts_begin_again(count: u64)
    ensures
        count < 0xffff_ffff_ffff_ffff ==> counted(count) == count + 1,
        counted(0xffff_ffff_ffff_ffff) == 0,
{
}

/// A new stream sends messages, knows no format of audio, begins with frame 1 and waits for
/// nothing.
pub proof fn lemma_new_stream(agreement: SessionAgreement)
    ensures
        ({
            let stream = StreamView::fresh(agreement);
            &&& !stream.raw_mode
            &&& unpacked_format(stream.audio_format) is None
            &&& stream.next_frame_id == 1
            &&& stream.gate.requested == 0
            &&& stream.gate.acknowledged == 0
            &&& stream.gate.is_open(0)
            &&& stream.video is None
            &&& stream.mouse is None
            &&& stream.agreement == agreement
        }),
{
}

/// A frame without an encoded payload is refused, and so is every frame once the identifiers
/// have run out. Nothing changes then.
pub proof fn lemma_frames_that_are_refused(
    stream: StreamView,
    frame: VideoFrame,
    payload: Seq<u8>,
    connection_limit: Option<usize>,
)
    requires
        !stream.raw_mode,
    ensures
        ({
            let (after, result) = stream.enqueued(
                payload,
                Some(Message::VideoFrame(frame)),
                connection_limit,
            );
            &&& result is Err <==> frame.payload is None || stream.next_frame_id == u64::MAX
            &&& result is Err ==> after == stream
            &&& frame.payload is None ==> result->Err_0 == EnqueueError::Transport(
                QuicTransportError::ProtocolState(ProtocolStateFailure::MissingCodecPayload),
            )
            &&& frame.payload is Some && stream.next_frame_id == u64::MAX ==> result->Err_0
                == EnqueueError::Transport(
                QuicTransportError::ProtocolState(ProtocolStateFailure::FrameIdentifierExhausted),
            )
        }),
{
}

/// Each queue has its stream.
pub proof fn lemma_queues_have_their_stream(queue: ReliableQueue)
    ensures
        queue is Control <==> queue.kind() is Control,
        queue is Input <==> queue.kind() is Input,
        queue is Clipboard <==> queue.kind() is Clipboard,
        queue is File <==> queue.kind() is FileTransfer,
        queue is Diagnostics <==> queue.kind() is Diagnostics,
{
}

} // verus!
