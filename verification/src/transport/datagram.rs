//! What is sent and received in datagrams: video fragments, audio packets and mouse movements.
use super::audio_datagram;
use super::audio_datagram::{
    encode_audio_datagram, AudioCodec, AudioDatagramError, AudioJitterBuffer, AudioJitterConfig,
    AudioPacketMetadata, AudioPlayoutItem, JitterView, PacketView,
};
use super::input;
use super::input::{
    encode_application_mouse_movement, encode_mouse_movement, InputProtocolError, MouseMovement,
    MouseMovementMode, MouseMovementReceiver, MouseReceiverView, MOUSE_MOVEMENT_PAYLOAD_LEN,
};
use super::protocol;
use super::protocol::{decode_header, MessageHeader, MessageType, SessionId, HEADER_LEN};
use super::quic::{DatagramFailure, ProtocolStateFailure, QuicTransportError};
use super::video_datagram;
use super::video_datagram::{
    fragment_video_frame, OutcomeView, ReassemblerView, SentFrame, VideoDatagramError,
    VideoFrameMetadata, VideoReassembler, VideoReassemblyConfig, VideoReassemblyOutcome,
    VideoReassemblyStats,
};
use crate::time::Instant;
use crate::wire;
use vstd::prelude::*;

verus! {

impl vstd::std_specs::convert::FromSpecImpl<VideoDatagramError> for QuicTransportError {
    open spec fn obeys_from_spec() -> bool {
        true
    }

    open spec fn from_spec(error: VideoDatagramError) -> QuicTransportError {
        QuicTransportError::Datagram(DatagramFailure::Video(error))
    }
}

impl From<VideoDatagramError> for QuicTransportError {
    fn from(error: VideoDatagramError) -> (wrapped: QuicTransportError) {
        QuicTransportError::Datagram(DatagramFailure::Video(error))
    }
}

impl vstd::std_specs::convert::FromSpecImpl<AudioDatagramError> for QuicTransportError {
    open spec fn obeys_from_spec() -> bool {
        true
    }

    open spec fn from_spec(error: AudioDatagramError) -> QuicTransportError {
        QuicTransportError::Datagram(DatagramFailure::Audio(error))
    }
}

impl From<AudioDatagramError> for QuicTransportError {
    fn from(error: AudioDatagramError) -> (wrapped: QuicTransportError) {
        QuicTransportError::Datagram(DatagramFailure::Audio(error))
    }
}

impl vstd::std_specs::convert::FromSpecImpl<InputProtocolError> for QuicTransportError {
    open spec fn obeys_from_spec() -> bool {
        true
    }

    open spec fn from_spec(error: InputProtocolError) -> QuicTransportError {
        QuicTransportError::Datagram(DatagramFailure::Input(error))
    }
}

impl From<InputProtocolError> for QuicTransportError {
    fn from(error: InputProtocolError) -> (wrapped: QuicTransportError) {
        QuicTransportError::Datagram(DatagramFailure::Input(error))
    }
}

/// Numbers the datagrams of a session and keeps them within the negotiated size.
pub struct QuicDatagramSender {
    session_id: SessionId,
    next_video_sequence: u64,
    next_audio_sequence: u64,
    next_mouse_sequence: u64,
    negotiated_max_datagram_size: usize,
}

/// What a datagram sender holds.
pub struct DatagramSenderView {
    pub session_id: SessionId,
    pub next_video_sequence: u64,
    pub next_audio_sequence: u64,
    pub next_mouse_sequence: u64,
    pub limit: usize,
}

impl View for QuicDatagramSender {
    type V = DatagramSenderView;

    closed spec fn view(&self) -> DatagramSenderView {
        DatagramSenderView {
            session_id: self.session_id,
            next_video_sequence: self.next_video_sequence,
            next_audio_sequence: self.next_audio_sequence,
            next_mouse_sequence: self.next_mouse_sequence,
            limit: self.negotiated_max_datagram_size,
        }
    }
}

impl DatagramSenderView {
    /// The largest datagram that may be sent on a connection that takes `connection_limit`.
    pub open spec fn max_size(self, connection_limit: Option<usize>) -> Result<
        usize,
        QuicTransportError,
    > {
        match connection_limit {
            Some(current) => Ok(
                if current < self.limit {
                    current
                } else {
                    self.limit
                },
            ),
            None => Err(QuicTransportError::Datagram(DatagramFailure::Unsupported)),
        }
    }

    /// Why a frame of `length` bytes is not sent, if it is not.
    pub open spec fn video_error(
        self,
        connection_limit: Option<usize>,
        metadata: VideoFrameMetadata,
        length: usize,
    ) -> Option<QuicTransportError> {
        match self.max_size(connection_limit) {
            Err(error) => Some(error),
            Ok(size) => match video_datagram::fragmenting_error(
                self.session_id@,
                self.next_video_sequence,
                metadata,
                length,
                size,
            ) {
                Some(error) => Some(QuicTransportError::Datagram(DatagramFailure::Video(error))),
                None => if self.next_video_sequence + video_datagram::fragment_count(
                    length as int,
                    video_datagram::fragment_room(size),
                ) > u64::MAX {
                    Some(
                        QuicTransportError::ProtocolState(
                            ProtocolStateFailure::VideoSequenceExhausted,
                        ),
                    )
                } else {
                    None
                },
            },
        }
    }

    /// A frame as it is sent next.
    pub open spec fn sent_frame(
        self,
        connection_limit: Option<usize>,
        timestamp_us: u64,
        metadata: VideoFrameMetadata,
        frame: Seq<u8>,
    ) -> SentFrame {
        SentFrame {
            session_id: self.session_id,
            first_sequence_number: self.next_video_sequence,
            monotonic_timestamp_us: timestamp_us,
            metadata,
            frame,
            max_datagram_size: self.max_size(connection_limit)->Ok_0,
        }
    }

    /// The packet that the next audio datagram carries.
    pub open spec fn audio_packet(
        self,
        capture_timestamp_us: u64,
        codec: AudioCodec,
        channels: u8,
        sample_rate_hz: u32,
        encoded_audio: Seq<u8>,
    ) -> PacketView {
        PacketView {
            metadata: AudioPacketMetadata {
                sequence_number: self.next_audio_sequence,
                capture_timestamp_us,
                codec,
                channels,
                sample_rate_hz,
            },
            payload: encoded_audio,
        }
    }

    /// The datagram of an audio packet, or why it is not sent.
    pub open spec fn audio_datagram(
        self,
        connection_limit: Option<usize>,
        timestamp_us: u64,
        packet: PacketView,
    ) -> Result<Seq<u8>, QuicTransportError> {
        match self.max_size(connection_limit) {
            Err(error) => Err(error),
            Ok(size) => match audio_datagram::audio_sending_error(
                self.session_id@,
                packet.metadata,
                packet.payload.len() as usize,
                size,
            ) {
                Some(error) => Err(QuicTransportError::Datagram(DatagramFailure::Audio(error))),
                None => Ok(
                    audio_datagram::audio_datagram(self.session_id, timestamp_us, packet),
                ),
            },
        }
    }

    /// The datagram of a mouse movement with what the application adds to it, or why it is
    /// not sent.
    pub open spec fn mouse_datagram(
        self,
        connection_limit: Option<usize>,
        movement: MouseMovement,
        extra: Seq<u8>,
    ) -> Result<Seq<u8>, QuicTransportError> {
        match self.max_size(connection_limit) {
            Err(error) => Err(error),
            Ok(size) => match input::movement_sending_error(
                self.session_id@,
                movement,
                extra.len(),
                size,
            ) {
                Some(error) => Err(QuicTransportError::Datagram(DatagramFailure::Input(error))),
                None => Ok(input::movement_datagram(self.session_id, movement, extra)),
            },
        }
    }
}

impl QuicDatagramSender {
    pub fn new(session_id: SessionId) -> (sender: QuicDatagramSender)
        ensures
            sender@ == (DatagramSenderView {
                session_id,
                next_video_sequence: 1,
                next_audio_sequence: 1,
                next_mouse_sequence: 1,
                limit: usize::MAX,
            }),
    {
        QuicDatagramSender {
            session_id,
            next_video_sequence: 1,
            next_audio_sequence: 1,
            next_mouse_sequence: 1,
            negotiated_max_datagram_size: usize::MAX,
        }
    }

    pub fn with_max_datagram_size(self, max_datagram_size: usize) -> (sender: QuicDatagramSender)
        ensures
            sender@ == (DatagramSenderView { limit: max_datagram_size, ..self@ }),
    {
        QuicDatagramSender { negotiated_max_datagram_size: max_datagram_size, ..self }
    }

    /// The largest datagram that may be sent on a connection that takes `connection_limit`.
    pub fn max_datagram_size(&self, connection_limit: Option<usize>) -> (result: Result<
        usize,
        QuicTransportError,
    >)
        ensures
            result == self@.max_size(connection_limit),
    {
        match connection_limit {
            Some(current) => Ok(
                if current < self.negotiated_max_datagram_size {
                    current
                } else {
                    self.negotiated_max_datagram_size
                },
            ),
            None => Err(QuicTransportError::Datagram(DatagramFailure::Unsupported)),
        }
    }

    /// The datagrams of a frame, in the order in which they are to be sent.
    pub fn send_video_frame(
        &mut self,
        connection_limit: Option<usize>,
        timestamp_us: u64,
        metadata: VideoFrameMetadata,
        encoded_frame: &[u8],
    ) -> (result: Result<Vec<Vec<u8>>, QuicTransportError>)
        ensures
            match old(self)@.video_error(connection_limit, metadata, encoded_frame.len()) {
                Some(error) => result == Err::<Vec<Vec<u8>>, _>(error) && final(self)@ == old(
                    self,
                )@,
                None => {
                    let room = video_datagram::fragment_room(
                        old(self)@.max_size(connection_limit)->Ok_0,
                    );
                    let count = video_datagram::fragment_count(encoded_frame@.len() as int, room);
                    &&& result is Ok
                    &&& result->Ok_0@.len() == count
                    &&& forall|index: int|
                        0 <= index < count ==> {
                            &&& (#[trigger] result->Ok_0@[index])@
                                == video_datagram::fragment_datagram(
                                old(self)@.session_id,
                                old(self)@.next_video_sequence,
                                timestamp_us,
                                metadata,
                                encoded_frame@,
                                room,
                                index,
                            )
                            &&& result->Ok_0@[index]@.len() <= old(self)@.limit
                        }
                    &&& final(self)@ == (DatagramSenderView {
                        next_video_sequence: (old(self)@.next_video_sequence + count) as u64,
                        ..old(self)@
                    })
                },
            },
    {
        let max_datagram_size: usize = self.max_datagram_size(connection_limit)?;
        let fragments = match fragment_video_frame(
            self.session_id,
            self.next_video_sequence,
            timestamp_us,
            metadata,
            encoded_frame,
            max_datagram_size,
        ) {
            Ok(fragments) => fragments,
            Err(error) => return Err(QuicTransportError::from(error)),
        };
        match self.next_video_sequence.checked_add(fragments.len() as u64) {
            Some(next) => {
                self.next_video_sequence = next;
                Ok(fragments)
            },
            None => Err(
                QuicTransportError::ProtocolState(ProtocolStateFailure::VideoSequenceExhausted),
            ),
        }
    }

    /// The datagram of the next audio packet. The packet counts once it was handed to the
    /// connection, by `audio_packet_sent`.
    pub fn send_audio_packet(
        &self,
        connection_limit: Option<usize>,
        timestamp_us: u64,
        capture_timestamp_us: u64,
        codec: AudioCodec,
        channels: u8,
        sample_rate_hz: u32,
        encoded_audio: &[u8],
    ) -> (result: Result<Vec<u8>, QuicTransportError>)
        ensures
            match self@.audio_datagram(
                connection_limit,
                timestamp_us,
                self@.audio_packet(
                    capture_timestamp_us,
                    codec,
                    channels,
                    sample_rate_hz,
                    encoded_audio@,
                ),
            ) {
                Ok(datagram) => result matches Ok(bytes) && bytes@ == datagram && bytes@.len()
                    <= self@.limit,
                Err(error) => result == Err::<Vec<u8>, _>(error),
            },
    {
        let max_datagram_size: usize = self.max_datagram_size(connection_limit)?;
        match encode_audio_datagram(
            self.session_id,
            timestamp_us,
            AudioPacketMetadata {
                sequence_number: self.next_audio_sequence,
                capture_timestamp_us,
                codec,
                channels,
                sample_rate_hz,
            },
            encoded_audio,
            max_datagram_size,
        ) {
            Ok(datagram) => Ok(datagram),
            Err(error) => Err(QuicTransportError::from(error)),
        }
    }

    /// Counts the audio packet that was sent, and gives its sequence number.
    pub fn audio_packet_sent(&mut self) -> (result: Result<u64, QuicTransportError>)
        ensures
            if old(self)@.next_audio_sequence == u64::MAX {
                &&& result == Err::<u64, _>(
                    QuicTransportError::ProtocolState(ProtocolStateFailure::AudioSequenceExhausted),
                )
                &&& final(self)@ == old(self)@
            } else {
                &&& result == Ok::<_, QuicTransportError>(old(self)@.next_audio_sequence)
                &&& final(self)@ == (DatagramSenderView {
                    next_audio_sequence: (old(self)@.next_audio_sequence + 1) as u64,
                    ..old(self)@
                })
            },
    {
        let sequence: u64 = self.next_audio_sequence;
        if sequence == u64::MAX {
            return Err(
                QuicTransportError::ProtocolState(ProtocolStateFailure::AudioSequenceExhausted),
            );
        }
        self.next_audio_sequence = sequence + 1;
        Ok(sequence)
    }

    /// The datagram of the next mouse movement. The movement counts once it was handed to the
    /// connection, by `mouse_movement_sent`.
    pub fn send_mouse_movement(
        &self,
        connection_limit: Option<usize>,
        timestamp_us: u64,
        mode: MouseMovementMode,
        x: i32,
        y: i32,
        display_id: u32,
        button_state_mask: u16,
    ) -> (result: Result<Vec<u8>, QuicTransportError>)
        ensures
            match self@.mouse_datagram(
                connection_limit,
                (MouseMovement {
                    sequence_number: self@.next_mouse_sequence,
                    monotonic_timestamp_us: timestamp_us,
                    mode,
                    x,
                    y,
                    display_id,
                    button_state_mask,
                }),
                Seq::empty(),
            ) {
                Ok(datagram) => result matches Ok(bytes) && bytes@ == datagram && bytes@.len()
                    <= self@.limit,
                Err(error) => result == Err::<Vec<u8>, _>(error),
            },
    {
        let max_datagram_size: usize = self.max_datagram_size(connection_limit)?;
        match encode_mouse_movement(
            self.session_id,
            MouseMovement {
                sequence_number: self.next_mouse_sequence,
                monotonic_timestamp_us: timestamp_us,
                mode,
                x,
                y,
                display_id,
                button_state_mask,
            },
            max_datagram_size,
        ) {
            Ok(datagram) => Ok(datagram),
            Err(error) => Err(QuicTransportError::from(error)),
        }
    }

    /// The datagram of the next mouse movement, followed by bytes of the application, of which
    /// there must be some.
    pub fn send_application_mouse_movement(
        &self,
        connection_limit: Option<usize>,
        timestamp_us: u64,
        mode: MouseMovementMode,
        x: i32,
        y: i32,
        display_id: u32,
        button_state_mask: u16,
        application_payload: &[u8],
    ) -> (result: Result<Vec<u8>, QuicTransportError>)
        ensures
            match self@.max_size(connection_limit) {
                Err(error) => result == Err::<Vec<u8>, _>(error),
                Ok(_) => if application_payload@.len() == 0 {
                    result == Err::<Vec<u8>, _>(
                        QuicTransportError::Datagram(
                            DatagramFailure::Input(InputProtocolError::InvalidMousePayloadSize),
                        ),
                    )
                } else {
                    match self@.mouse_datagram(
                        connection_limit,
                        (MouseMovement {
                            sequence_number: self@.next_mouse_sequence,
                            monotonic_timestamp_us: timestamp_us,
                            mode,
                            x,
                            y,
                            display_id,
                            button_state_mask,
                        }),
                        application_payload@,
                    ) {
                        Ok(datagram) => result matches Ok(bytes) && bytes@ == datagram
                            && bytes@.len() <= self@.limit,
                        Err(error) => result == Err::<Vec<u8>, _>(error),
                    }
                },
            },
    {
        let max_datagram_size: usize = self.max_datagram_size(connection_limit)?;
        match encode_application_mouse_movement(
            self.session_id,
            MouseMovement {
                sequence_number: self.next_mouse_sequence,
                monotonic_timestamp_us: timestamp_us,
                mode,
                x,
                y,
                display_id,
                button_state_mask,
            },
            application_payload,
            max_datagram_size,
        ) {
            Ok(datagram) => Ok(datagram),
            Err(error) => Err(QuicTransportError::from(error)),
        }
    }

    /// Counts the mouse movement that was sent, and gives its sequence number.
    pub fn mouse_movement_sent(&mut self) -> (result: Result<u64, QuicTransportError>)
        ensures
            if old(self)@.next_mouse_sequence == u64::MAX {
                &&& result == Err::<u64, _>(
                    QuicTransportError::ProtocolState(ProtocolStateFailure::MouseSequenceExhausted),
                )
                &&& final(self)@ == old(self)@
            } else {
                &&& result == Ok::<_, QuicTransportError>(old(self)@.next_mouse_sequence)
                &&& final(self)@ == (DatagramSenderView {
                    next_mouse_sequence: (old(self)@.next_mouse_sequence + 1) as u64,
                    ..old(self)@
                })
            },
    {
        let sequence: u64 = self.next_mouse_sequence;
        if sequence == u64::MAX {
            return Err(
                QuicTransportError::ProtocolState(ProtocolStateFailure::MouseSequenceExhausted),
            );
        }
        self.next_mouse_sequence = sequence + 1;
        Ok(sequence)
    }
}

/// Sorts the datagrams of a session and hands each to the part that takes its kind.
pub struct QuicDatagramReceiver {
    session_id: SessionId,
    video: VideoReassembler,
    audio: AudioJitterBuffer,
    mouse: MouseMovementReceiver,
    negotiated_max_datagram_size: usize,
}

/// What a datagram receiver holds.
pub struct DatagramReceiverView {
    pub session_id: SessionId,
    pub video: ReassemblerView,
    pub audio: JitterView,
    pub mouse: MouseReceiverView,
    pub limit: usize,
}

#[derive(Debug, Eq, PartialEq)]
pub enum DatagramReceiveEvent {
    Video(VideoReassemblyOutcome),
    AudioAccepted,
    Mouse(Option<MouseMovement>),
    ApplicationMouse(Option<(MouseMovement, Vec<u8>)>),
}

/// What a datagram led to.
pub enum EventView {
    Video(OutcomeView),
    AudioAccepted,
    Mouse(Option<MouseMovement>),
    ApplicationMouse(Option<(MouseMovement, Seq<u8>)>),
}

impl View for DatagramReceiveEvent {
    type V = EventView;

    open spec fn view(&self) -> EventView {
        match *self {
            DatagramReceiveEvent::Video(outcome) => EventView::Video(outcome@),
            DatagramReceiveEvent::AudioAccepted => EventView::AudioAccepted,
            DatagramReceiveEvent::Mouse(movement) => EventView::Mouse(movement),
            DatagramReceiveEvent::ApplicationMouse(None) => EventView::ApplicationMouse(None),
            DatagramReceiveEvent::ApplicationMouse(Some((movement, extra))) => {
                EventView::ApplicationMouse(Some((movement, extra@)))
            },
        }
    }
}

impl View for QuicDatagramReceiver {
    type V = DatagramReceiverView;

    closed spec fn view(&self) -> DatagramReceiverView {
        DatagramReceiverView {
            session_id: self.session_id,
            video: self.video@,
            audio: self.audio@,
            mouse: self.mouse@,
            limit: self.negotiated_max_datagram_size,
        }
    }
}

impl DatagramReceiverView {
    /// A receiver that has seen nothing yet.
    pub open spec fn fresh(
        session_id: SessionId,
        video_config: VideoReassemblyConfig,
        audio_config: AudioJitterConfig,
    ) -> DatagramReceiverView {
        DatagramReceiverView {
            session_id,
            video: ReassemblerView::fresh(video_config),
            audio: JitterView::fresh(audio_config),
            mouse: MouseReceiverView { session_id: session_id@, last_sequence: 0 },
            limit: usize::MAX,
        }
    }

    /// The first reason, if any, why a datagram is not even sorted.
    pub open spec fn sorting_error(self, datagram: Seq<u8>) -> Option<QuicTransportError> {
        if datagram.len() > self.limit {
            Some(
                QuicTransportError::ProtocolState(
                    ProtocolStateFailure::DatagramTooLong {
                        length: datagram.len() as usize,
                        limit: self.limit,
                    },
                ),
            )
        } else if datagram.len() < HEADER_LEN {
            Some(QuicTransportError::ProtocolState(ProtocolStateFailure::DatagramTruncated))
        } else {
            match protocol::header_error(datagram.subrange(0, HEADER_LEN as int)) {
                Some(error) => Some(QuicTransportError::Protocol(error)),
                None => if datagram.subrange(12, 28) != self.session_id@ {
                    Some(QuicTransportError::ProtocolState(ProtocolStateFailure::DatagramSession))
                } else {
                    None
                },
            }
        }
    }

    /// What the part that takes a datagram's kind makes of it.
    pub open spec fn sorted(self, datagram: Seq<u8>, now: Instant) -> (
        DatagramReceiverView,
        Result<EventView, QuicTransportError>,
    ) {
        match protocol::packet_type(datagram) {
            MessageType::VideoFragment => {
                let (video, outcome) = self.video.pushed(datagram, now);
                (
                    DatagramReceiverView { video, ..self },
                    match outcome {
                        Ok(view) => Ok(EventView::Video(view)),
                        Err(error) => Err(
                            QuicTransportError::Datagram(DatagramFailure::Video(error)),
                        ),
                    },
                )
            },
            MessageType::AudioPacket => {
                let (audio, outcome) = self.audio.pushed_datagram(datagram, now);
                (
                    DatagramReceiverView { audio, ..self },
                    match outcome {
                        Ok(_) => Ok(EventView::AudioAccepted),
                        Err(error) => Err(
                            QuicTransportError::Datagram(DatagramFailure::Audio(error)),
                        ),
                    },
                )
            },
            MessageType::MouseMovement => if wire::u32_at(datagram, 36)
                == MOUSE_MOVEMENT_PAYLOAD_LEN {
                let (mouse, outcome) = self.mouse.applied(datagram);
                (
                    DatagramReceiverView { mouse, ..self },
                    match outcome {
                        Ok(movement) => Ok(EventView::Mouse(movement)),
                        Err(error) => Err(
                            QuicTransportError::Datagram(DatagramFailure::Input(error)),
                        ),
                    },
                )
            } else {
                let (mouse, outcome) = self.mouse.applied_application(datagram);
                (
                    DatagramReceiverView { mouse, ..self },
                    match outcome {
                        Ok(movement) => Ok(EventView::ApplicationMouse(movement)),
                        Err(error) => Err(
                            QuicTransportError::Datagram(DatagramFailure::Input(error)),
                        ),
                    },
                )
            },
            message_type => (
                self,
                Err(
                    QuicTransportError::ProtocolState(
                        ProtocolStateFailure::InvalidOnDatagram(message_type),
                    ),
                ),
            ),
        }
    }

    /// What `receive` does and returns.
    pub open spec fn received(self, datagram: Seq<u8>, now: Instant) -> (
        DatagramReceiverView,
        Result<EventView, QuicTransportError>,
    ) {
        match self.sorting_error(datagram) {
            Some(error) => (self, Err(error)),
            None => self.sorted(datagram, now),
        }
    }
}

impl QuicDatagramReceiver {
    pub closed spec fn wf(self) -> bool {
        self.video.wf() && self.audio.wf()
    }

    pub fn new(
        session_id: SessionId,
        video_config: VideoReassemblyConfig,
        audio_config: AudioJitterConfig,
    ) -> (result: Result<QuicDatagramReceiver, QuicTransportError>)
        ensures
            match video_datagram::config_error(video_config) {
                Some(error) => result == Err::<QuicDatagramReceiver, _>(
                    QuicTransportError::Datagram(DatagramFailure::Video(error)),
                ),
                None => if audio_datagram::config_ok(audio_config) {
                    result matches Ok(receiver) && receiver.wf() && receiver@
                        == DatagramReceiverView::fresh(session_id, video_config, audio_config)
                } else {
                    result == Err::<QuicDatagramReceiver, _>(
                        QuicTransportError::Datagram(
                            DatagramFailure::Audio(AudioDatagramError::InvalidJitterConfig),
                        ),
                    )
                },
            },
    {
        let video = match VideoReassembler::new(video_config) {
            Ok(video) => video,
            Err(error) => return Err(QuicTransportError::from(error)),
        };
        let audio = match AudioJitterBuffer::new(audio_config) {
            Ok(audio) => audio,
            Err(error) => return Err(QuicTransportError::from(error)),
        };
        Ok(
            QuicDatagramReceiver {
                session_id,
                video,
                audio,
                mouse: MouseMovementReceiver::new(session_id),
                negotiated_max_datagram_size: usize::MAX,
            },
        )
    }

    pub fn with_max_datagram_size(self, max_datagram_size: usize) -> (receiver:
        QuicDatagramReceiver)
        requires
            self.wf(),
        ensures
            receiver.wf(),
            receiver@ == (DatagramReceiverView { limit: max_datagram_size, ..self@ }),
    {
        QuicDatagramReceiver { negotiated_max_datagram_size: max_datagram_size, ..self }
    }

    /// The header of a datagram that may be sorted.
    fn check_datagram(&self, datagram: &[u8]) -> (result: Result<MessageHeader, QuicTransportError>)
        ensures
            match self@.sorting_error(datagram@) {
                Some(error) => result == Err::<MessageHeader, _>(error),
                None => result matches Ok(header) && header.message_type == protocol::packet_type(
                    datagram@,
                ) && header.payload_length == wire::u32_at(datagram@, 36),
            },
    {
        if datagram.len() > self.negotiated_max_datagram_size {
            return Err(
                QuicTransportError::ProtocolState(
                    ProtocolStateFailure::DatagramTooLong {
                        length: datagram.len(),
                        limit: self.negotiated_max_datagram_size,
                    },
                ),
            );
        }
        if datagram.len() < HEADER_LEN {
            return Err(QuicTransportError::ProtocolState(ProtocolStateFailure::DatagramTruncated));
        }
        let header = match decode_header(vstd::slice::slice_subrange(datagram, 0, HEADER_LEN)) {
            Ok(header) => header,
            Err(error) => return Err(QuicTransportError::Protocol(error)),
        };
        proof {
            let rest = datagram@.subrange(HEADER_LEN as int, datagram@.len() as int);
            assert(datagram@ =~= protocol::header_bytes(header) + rest);
            protocol::lemma_packet_parts(datagram@, header, rest);
        }
        if !wire::bytes_equal(&header.session_id, &self.session_id) {
            return Err(QuicTransportError::ProtocolState(ProtocolStateFailure::DatagramSession));
        }
        Ok(header)
    }

    /// Takes in one datagram.
    pub fn receive(&mut self, datagram: &[u8], now: Instant) -> (result: Result<
        DatagramReceiveEvent,
        QuicTransportError,
    >)
        requires
            old(self).wf(),
        ensures
            final(self).wf(),
            final(self)@ == old(self)@.received(datagram@, now).0,
            match old(self)@.received(datagram@, now).1 {
                Ok(view) => result matches Ok(event) && event@ == view,
                Err(error) => result == Err::<DatagramReceiveEvent, _>(error),
            },
    {
        let header = self.check_datagram(datagram)?;
        match header.message_type {
            MessageType::VideoFragment => match self.video.push(datagram, now) {
                Ok(outcome) => Ok(DatagramReceiveEvent::Video(outcome)),
                Err(error) => Err(QuicTransportError::from(error)),
            },
            MessageType::AudioPacket => match self.audio.push_datagram(datagram, now) {
                Ok(_) => Ok(DatagramReceiveEvent::AudioAccepted),
                Err(error) => Err(QuicTransportError::from(error)),
            },
            MessageType::MouseMovement => {
                if header.payload_length as usize == MOUSE_MOVEMENT_PAYLOAD_LEN {
                    match self.mouse.apply(datagram) {
                        Ok(movement) => Ok(DatagramReceiveEvent::Mouse(movement)),
                        Err(error) => Err(QuicTransportError::from(error)),
                    }
                } else {
                    match self.mouse.apply_application(datagram) {
                        Ok(movement) => Ok(DatagramReceiveEvent::ApplicationMouse(movement)),
                        Err(error) => Err(QuicTransportError::from(error)),
                    }
                }
            },
            message_type => Err(
                QuicTransportError::ProtocolState(
                    ProtocolStateFailure::InvalidOnDatagram(message_type),
                ),
            ),
        }
    }

    /// What is to be played now.
    pub fn pop_audio(&mut self, now: Instant) -> (item: Option<AudioPlayoutItem>)
        requires
            old(self).wf(),
        ensures
            final(self).wf(),
            final(self)@ == (DatagramReceiverView {
                audio: old(self)@.audio.popped(now).0,
                ..old(self)@
            }),
            match old(self)@.audio.popped(now).1 {
                Some(view) => item matches Some(played) && played@ == view,
                None => item is None,
            },
    {
        self.audio.pop_ready(now)
    }

    pub fn video_stats(&self) -> (stats: &VideoReassemblyStats)
        ensures
            *stats == self@.video.stats,
    {
        self.video.stats()
    }

    /// Forgets all that was received, but not what was counted.
    pub fn reset(&mut self)
        requires
            old(self).wf(),
        ensures
            final(self).wf(),
            final(self)@ == (DatagramReceiverView {
                video: (ReassemblerView {
                    stats: old(self)@.video.stats,
                    ..ReassemblerView::fresh(old(self)@.video.config)
                }),
                audio: (JitterView {
                    stats: old(self)@.audio.stats,
                    ..JitterView::fresh(old(self)@.audio.config)
                }),
                mouse: old(self)@.mouse.taking(0),
                ..old(self)@
            }),
    {
        self.video.reset();
        self.audio.reset();
        self.mouse.reset();
    }
}

/// A message of the session that is not too long reaches the part that takes its kind.
pub proof fn lemma_message_is_sorted(
    receiver: DatagramReceiverView,
    header: MessageHeader,
    payload: Seq<u8>,
    now: Instant,
)
    requires
        header.error() is None,
        header.payload_length == payload.len(),
        header.session_id == receiver.session_id,
        HEADER_LEN + payload.len() <= receiver.limit,
    ensures
        ({
            let datagram = protocol::header_bytes(header) + payload;
            &&& receiver.received(datagram, now) == receiver.sorted(datagram, now)
            &&& protocol::packet_type(datagram) == header.message_type
        }),
{
    let datagram = protocol::header_bytes(header) + payload;
    protocol::lemma_encoded_message_decodes(header, payload);
    protocol::lemma_packet_parts(datagram, header, payload);
}

/// A mouse movement that is sent arrives as it was sent, unless a newer one arrived before it.
#[verifier::rlimit(50)]
#[verifier::spinoff_prover]
pub proof fn lemma_sent_movement_arrives(
    sender: DatagramSenderView,
    receiver: DatagramReceiverView,
    connection_limit: Option<usize>,
    movement: MouseMovement,
    extra: Seq<u8>,
    now: Instant,
)
    requires
        sender.session_id == receiver.session_id,
        receiver.mouse.session_id == receiver.session_id@,
        sender.limit == receiver.limit,
        receiver.mouse.last_sequence < movement.sequence_number,
        sender.mouse_datagram(connection_limit, movement, extra) is Ok,
    ensures
        ({
            let datagram = sender.mouse_datagram(connection_limit, movement, extra)->Ok_0;
            receiver.received(datagram, now) == (
                DatagramReceiverView {
                    mouse: receiver.mouse.taking(movement.sequence_number),
                    ..receiver
                },
                Ok::<_, QuicTransportError>(
                    if extra.len() == 0 {
                        EventView::Mouse(Some(movement))
                    } else {
                        EventView::ApplicationMouse(Some((movement, extra)))
                    },
                ),
            )
        }),
{
    let size = sender.max_size(connection_limit)->Ok_0;
    let length = MOUSE_MOVEMENT_PAYLOAD_LEN as nat + extra.len();
    let header = input::movement_header(sender.session_id, movement, length);
    let payload = input::movement_bytes(movement) + extra;
    let datagram = sender.mouse_datagram(connection_limit, movement, extra)->Ok_0;
    input::lemma_movement_round_trip(sender.session_id, movement, extra, size);
    assert(payload.len() == length);
    lemma_message_is_sorted(receiver, header, payload, now);
    protocol::lemma_encoded_message_decodes(header, payload);
    protocol::lemma_packet_parts(datagram, header, payload);
}

/// An audio packet that is sent reaches the jitter buffer as it was sent.
pub proof fn lemma_sent_audio_arrives(
    sender: DatagramSenderView,
    receiver: DatagramReceiverView,
    connection_limit: Option<usize>,
    timestamp_us: u64,
    packet: PacketView,
    now: Instant,
)
    requires
        sender.session_id == receiver.session_id,
        sender.limit == receiver.limit,
        packet.payload.len() <= usize::MAX,
        sender.audio_datagram(connection_limit, timestamp_us, packet) is Ok,
    ensures
        ({
            let datagram = sender.audio_datagram(connection_limit, timestamp_us, packet)->Ok_0;
            let (audio, outcome) = receiver.audio.pushed(packet, now);
            receiver.received(datagram, now) == (
                DatagramReceiverView { audio, ..receiver },
                match outcome {
                    Ok(_) => Ok::<_, QuicTransportError>(EventView::AudioAccepted),
                    Err(error) => Err(QuicTransportError::Datagram(DatagramFailure::Audio(error))),
                },
            )
        }),
{
    let size = sender.max_size(connection_limit)->Ok_0;
    let header = audio_datagram::audio_header(sender.session_id, timestamp_us, packet);
    let payload = audio_datagram::audio_payload_bytes(packet);
    audio_datagram::lemma_audio_round_trip(sender.session_id, timestamp_us, packet, size);
    audio_datagram::lemma_audio_payload_round_trip(packet);
    lemma_message_is_sorted(receiver, header, payload, now);
}

/// What a receiver holds after some datagrams, each at its time.
pub open spec fn received_each(
    receiver: DatagramReceiverView,
    datagrams: Seq<Seq<u8>>,
    times: Seq<Instant>,
) -> DatagramReceiverView
    decreases datagrams.len(),
{
    if datagrams.len() == 0 {
        receiver
    } else {
        received_each(receiver, datagrams.drop_last(), times).received(
            datagrams.last(),
            times[datagrams.len() - 1],
        ).0
    }
}

/// The fragments of a frame go to the part that puts frames together.
proof fn lemma_fragments_are_sorted(
    receiver: DatagramReceiverView,
    sent: SentFrame,
    arrivals: Seq<int>,
    times: Seq<Instant>,
    k: int,
)
    requires
        sent.valid(),
        sent.session_id == receiver.session_id,
        sent.max_datagram_size <= receiver.limit,
        0 <= k <= arrivals.len(),
        forall|place: int|
            0 <= place < arrivals.len() ==> 0 <= #[trigger] arrivals[place] < sent.count(),
    ensures
        received_each(receiver, sent.datagrams(arrivals).take(k), times) == (DatagramReceiverView {
            video: video_datagram::pushed_each(
                receiver.video,
                sent.datagrams(arrivals).take(k),
                times,
            ),
            ..receiver
        }),
    decreases k,
{
    let datagrams = sent.datagrams(arrivals);
    if k > 0 {
        let index = arrivals[k - 1];
        lemma_fragments_are_sorted(receiver, sent, arrivals, times, k - 1);
        assert(datagrams.take(k).drop_last() =~= datagrams.take(k - 1));
        assert(datagrams.take(k).last() == sent.datagram(index));
        video_datagram::lemma_fragment_message(sent, index);
        lemma_message_is_sorted(
            received_each(receiver, datagrams.take(k - 1), times),
            sent.header(index),
            sent.payload(index),
            times[k - 1],
        );
    }
}

/// A frame that is sent arrives as it was sent, however its datagrams are ordered and repeated
/// on the way, with the first of them that leaves none missing: as long as they arrive in time
/// and there is room for the frame.
pub proof fn lemma_sent_frame_arrives(
    sender: DatagramSenderView,
    receiver: DatagramReceiverView,
    connection_limit: Option<usize>,
    timestamp_us: u64,
    metadata: VideoFrameMetadata,
    frame: Seq<u8>,
    arrivals: Seq<int>,
    times: Seq<Instant>,
)
    requires
        sender.session_id == receiver.session_id,
        sender.limit == receiver.limit,
        frame.len() <= usize::MAX,
        sender.video_error(connection_limit, metadata, frame.len() as usize) is None,
        ({
            let sent = sender.sent_frame(connection_limit, timestamp_us, metadata, frame);
            &&& video_datagram::ready_for(receiver.video, sent, times[0])
            &&& video_datagram::arrive_in_time(receiver.video, sent, arrivals, times)
        }),
    ensures
        ({
            let sent = sender.sent_frame(connection_limit, timestamp_us, metadata, frame);
            forall|k: int|
                0 <= k < arrivals.len() ==> {
                    let before = received_each(
                        receiver,
                        #[trigger] sent.datagrams(arrivals).take(k),
                        times,
                    );
                    &&& before.received(sent.datagram(arrivals[k]), times[k]).1 matches Ok(
                        EventView::Video(outcome),
                    )
                    &&& outcome.frame == if video_datagram::covers(
                        arrivals.take(k + 1),
                        sent.count(),
                    ) && !video_datagram::covers(arrivals.take(k), sent.count()) {
                        Some((metadata, frame))
                    } else {
                        None
                    }
                }
        }),
{
    let sent = sender.sent_frame(connection_limit, timestamp_us, metadata, frame);
    video_datagram::lemma_frame_reassembles(receiver.video, sent, arrivals, times);
    assert forall|k: int| 0 <= k < arrivals.len() implies {
        let before = received_each(receiver, #[trigger] sent.datagrams(arrivals).take(k), times);
        &&& before.received(sent.datagram(arrivals[k]), times[k]).1 matches Ok(
            EventView::Video(outcome),
        )
        &&& outcome.frame == if video_datagram::covers(arrivals.take(k + 1), sent.count())
            && !video_datagram::covers(arrivals.take(k), sent.count()) {
            Some((metadata, frame))
        } else {
            None
        }
    } by {
        lemma_fragments_are_sorted(receiver, sent, arrivals, times, k);
        video_datagram::lemma_fragment_message(sent, arrivals[k]);
        lemma_message_is_sorted(
            received_each(receiver, sent.datagrams(arrivals).take(k), times),
            sent.header(arrivals[k]),
            sent.payload(arrivals[k]),
            times[k],
        );
    }
}


/// A datagram may be as long as both the session and the connection allow, and none may be
/// sent where the connection takes none.
pub proof fn lemma_datagrams_keep_both_limits(
    sender: DatagramSenderView,
    connection_limit: Option<usize>,
)
    ensures
        ({
            let size = sender.max_size(connection_limit);
            &&& size is Ok <==> connection_limit is Some
            &&& size is Ok ==> size->Ok_0 <= connection_limit->Some_0 && size->Ok_0 <= sender.limit
            &&& size is Ok ==> size->Ok_0 == connection_limit->Some_0 || size->Ok_0 == sender.limit
            &&& size is Err ==> size->Err_0 == QuicTransportError::Datagram(
                DatagramFailure::Unsupported,
            )
        }),
{
}

/// A frame is sent exactly where the connection takes datagrams, the frame can be cut into
/// datagrams of both sides' size, and a number is left for each of them. It is sent as it was
/// handed over, from the next number on.
pub proof fn lemma_frames_are_sent_as_given(
    sender: DatagramSenderView,
    connection_limit: Option<usize>,
    timestamp_us: u64,
    metadata: VideoFrameMetadata,
    frame: Seq<u8>,
)
    requires
        frame.len() <= usize::MAX,
        connection_limit is Some,
    ensures
        ({
            let size = if connection_limit->Some_0 < sender.limit {
                connection_limit->Some_0
            } else {
                sender.limit
            };
            let fragmenting = video_datagram::fragmenting_error(
                sender.session_id@,
                sender.next_video_sequence,
                metadata,
                frame.len() as usize,
                size,
            );
            let count = video_datagram::fragment_count(
                frame.len() as int,
                video_datagram::fragment_room(size),
            );
            let error = sender.video_error(connection_limit, metadata, frame.len() as usize);
            let sent = sender.sent_frame(connection_limit, timestamp_us, metadata, frame);
            &&& error is None <==> fragmenting is None && sender.next_video_sequence + count
                <= 0xffff_ffff_ffff_ffff
            &&& fragmenting is Some ==> error == Some(
                QuicTransportError::Datagram(DatagramFailure::Video(fragmenting->Some_0)),
            )
            &&& sent.session_id == sender.session_id
            &&& sent.first_sequence_number == sender.next_video_sequence
            &&& sent.monotonic_timestamp_us == timestamp_us
            &&& sent.metadata == metadata
            &&& sent.frame == frame
            &&& sent.max_datagram_size == size
        }),
{
}

/// Audio is sent as it was handed over, under the next number, exactly where the connection
/// takes datagrams and the packet can be sent in one of both sides' size.
pub proof fn lemma_audio_is_sent_as_given(
    sender: DatagramSenderView,
    connection_limit: Option<usize>,
    timestamp_us: u64,
    capture_timestamp_us: u64,
    codec: AudioCodec,
    channels: u8,
    sample_rate_hz: u32,
    encoded_audio: Seq<u8>,
)
    requires
        connection_limit is Some,
    ensures
        ({
            let packet = sender.audio_packet(
                capture_timestamp_us,
                codec,
                channels,
                sample_rate_hz,
                encoded_audio,
            );
            let size = if connection_limit->Some_0 < sender.limit {
                connection_limit->Some_0
            } else {
                sender.limit
            };
            let error = audio_datagram::audio_sending_error(
                sender.session_id@,
                packet.metadata,
                encoded_audio.len() as usize,
                size,
            );
            let datagram = sender.audio_datagram(connection_limit, timestamp_us, packet);
            &&& packet.payload == encoded_audio
            &&& packet.metadata.sequence_number == sender.next_audio_sequence
            &&& packet.metadata.capture_timestamp_us == capture_timestamp_us
            &&& packet.metadata.codec == codec
            &&& packet.metadata.channels == channels
            &&& packet.metadata.sample_rate_hz == sample_rate_hz
            &&& datagram is Ok <==> error is None
            &&& datagram is Ok ==> datagram->Ok_0 == audio_datagram::audio_datagram(
                sender.session_id,
                timestamp_us,
                packet,
            )
            &&& datagram is Err ==> datagram->Err_0 == QuicTransportError::Datagram(
                DatagramFailure::Audio(error->Some_0),
            )
        }),
{
}

/// A movement is sent with what the application adds to it, exactly where the connection takes
/// datagrams and both fit into one of both sides' size.
pub proof fn lemma_movements_are_sent_as_given(
    sender: DatagramSenderView,
    connection_limit: Option<usize>,
    movement: MouseMovement,
    extra: Seq<u8>,
)
    requires
        connection_limit is Some,
    ensures
        ({
            let size = if connection_limit->Some_0 < sender.limit {
                connection_limit->Some_0
            } else {
                sender.limit
            };
            let error = input::movement_sending_error(
                sender.session_id@,
                movement,
                extra.len(),
                size,
            );
            let datagram = sender.mouse_datagram(connection_limit, movement, extra);
            &&& datagram is Ok <==> error is None
            &&& datagram is Ok ==> datagram->Ok_0 == input::movement_datagram(
                sender.session_id,
                movement,
                extra,
            )
            &&& datagram is Err ==> datagram->Err_0 == QuicTransportError::Datagram(
                DatagramFailure::Input(error->Some_0),
            )
        }),
{
}

/// Nothing is sent on a connection that takes no datagrams.
pub proof fn lemma_no_datagrams_without_a_connection(
    sender: DatagramSenderView,
    timestamp_us: u64,
    metadata: VideoFrameMetadata,
    length: usize,
    packet: PacketView,
    movement: MouseMovement,
    extra: Seq<u8>,
)
    ensures
        sender.video_error(None, metadata, length) == Some(
            QuicTransportError::Datagram(DatagramFailure::Unsupported),
        ),
        sender.audio_datagram(None, timestamp_us, packet) == Err::<Seq<u8>, _>(
            QuicTransportError::Datagram(DatagramFailure::Unsupported),
        ),
        sender.mouse_datagram(None, movement, extra) == Err::<Seq<u8>, _>(
            QuicTransportError::Datagram(DatagramFailure::Unsupported),
        ),
{
}

/// A datagram is sorted exactly where it is no longer than the session allows, holds a good
/// header and is the session's. Another one changes nothing.
pub proof fn lemma_datagrams_that_are_sorted(
    receiver: DatagramReceiverView,
    datagram: Seq<u8>,
    now: Instant,
)
    ensures
        receiver.sorting_error(datagram) is None <==> {
            &&& 48 <= datagram.len() <= receiver.limit
            &&& protocol::header_error(datagram.subrange(0, 48)) is None
            &&& datagram.subrange(12, 28) == receiver.session_id@
        },
        receiver.sorting_error(datagram) is Some ==> receiver.received(datagram, now) == (
            receiver,
            Err::<EventView, _>(receiver.sorting_error(datagram)->Some_0),
        ),
{
}

/// Each datagram that is sorted reaches the part that takes its kind, and no other part: video
/// the reassembler, audio the jitter buffer, and movements the mouse, where those longer than
/// 20 bytes hold what the application added. No other kind is taken.
pub proof fn lemma_each_kind_reaches_its_part(
    receiver: DatagramReceiverView,
    datagram: Seq<u8>,
    now: Instant,
)
    requires
        receiver.sorting_error(datagram) is None,
    ensures
        ({
            let (after, result) = receiver.received(datagram, now);
            let kind = protocol::packet_type(datagram);
            let video = receiver.video.pushed(datagram, now);
            let audio = receiver.audio.pushed_datagram(datagram, now);
            let plain = receiver.mouse.applied(datagram);
            let with_extra = receiver.mouse.applied_application(datagram);
            &&& after.session_id == receiver.session_id
            &&& after.limit == receiver.limit
            &&& !(kind is VideoFragment) ==> after.video == receiver.video
            &&& !(kind is AudioPacket) ==> after.audio == receiver.audio
            &&& !(kind is MouseMovement) ==> after.mouse == receiver.mouse
            &&& kind is VideoFragment ==> after.video == video.0 && (result is Ok <==> video.1
                is Ok) && (video.1 is Ok ==> result->Ok_0 == EventView::Video(video.1->Ok_0)) && (
            video.1 is Err ==> result->Err_0 == QuicTransportError::Datagram(
                DatagramFailure::Video(video.1->Err_0),
            ))
            &&& kind is AudioPacket ==> after.audio == audio.0 && (result is Ok <==> audio.1
                is Ok) && (audio.1 is Ok ==> result->Ok_0 == EventView::AudioAccepted) && (
            audio.1 is Err ==> result->Err_0 == QuicTransportError::Datagram(
                DatagramFailure::Audio(audio.1->Err_0),
            ))
            &&& kind is MouseMovement && wire::u32_at(datagram, 36) == 20 ==> after.mouse
                == plain.0 && (result is Ok <==> plain.1 is Ok) && (plain.1 is Ok ==> result->Ok_0
                == EventView::Mouse(plain.1->Ok_0)) && (plain.1 is Err ==> result->Err_0
                == QuicTransportError::Datagram(DatagramFailure::Input(plain.1->Err_0)))
            &&& kind is MouseMovement && wire::u32_at(datagram, 36) != 20 ==> after.mouse
                == with_extra.0 && (result is Ok <==> with_extra.1 is Ok) && (with_extra.1 is Ok
                ==> result->Ok_0 == EventView::ApplicationMouse(with_extra.1->Ok_0)) && (
            with_extra.1 is Err ==> result->Err_0 == QuicTransportError::Datagram(
                DatagramFailure::Input(with_extra.1->Err_0),
            ))
            &&& !(kind is VideoFragment) && !(kind is AudioPacket) && !(kind is MouseMovement)
                ==> result == Err::<EventView, _>(
                QuicTransportError::ProtocolState(ProtocolStateFailure::InvalidOnDatagram(kind)),
            )
        }),
{
}

/// A new receiver is the session's, has seen no movement, and takes datagrams of every length.
pub proof fn lemma_new_receiver(
    session_id: SessionId,
    video_config: VideoReassemblyConfig,
    audio_config: AudioJitterConfig,
)
    ensures
        ({
            let receiver = DatagramReceiverView::fresh(session_id, video_config, audio_config);
            &&& receiver.session_id == session_id
            &&& receiver.limit == usize::MAX
            &&& receiver.mouse.session_id == session_id@
            &&& receiver.mouse.last_sequence == 0
            &&& receiver.video == ReassemblerView::fresh(video_config)
            &&& receiver.audio == JitterView::fresh(audio_config)
        }),
{
}


/// Why a datagram is not sorted: first its length, then its header, then its session.
pub proof fn lemma_datagrams_that_are_not_sorted(receiver: DatagramReceiverView, datagram: Seq<u8>)
    ensures
        ({
            let error = receiver.sorting_error(datagram);
            let header = protocol::header_error(datagram.subrange(0, 48));
            &&& datagram.len() > receiver.limit ==> error == Some(
                QuicTransportError::ProtocolState(
                    ProtocolStateFailure::DatagramTooLong {
                        length: datagram.len() as usize,
                        limit: receiver.limit,
                    },
                ),
            )
            &&& datagram.len() <= receiver.limit && datagram.len() < 48 ==> error == Some(
                QuicTransportError::ProtocolState(ProtocolStateFailure::DatagramTruncated),
            )
            &&& 48 <= datagram.len() <= receiver.limit && header is Some ==> error == Some(
                QuicTransportError::Protocol(header->Some_0),
            )
            &&& 48 <= datagram.len() <= receiver.limit && header is None && datagram.subrange(
                12,
                28,
            ) != receiver.session_id@ ==> error == Some(
                QuicTransportError::ProtocolState(ProtocolStateFailure::DatagramSession),
            )
        }),
{
}

} // verus!
