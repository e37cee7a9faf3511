use rustadmin_transport::time::{Duration, Instant};
use rustadmin_transport::transport::audio_datagram::{
    decode_audio_datagram, encode_audio_datagram, AudioCodec, AudioDatagramError,
    AudioJitterBuffer, AudioJitterConfig, AudioPacket, AudioPacketMetadata,
};
use rustadmin_transport::transport::clipboard::{
    decode_clipboard_text, encode_clipboard_text, ClipboardError, ClipboardPermission,
    ClipboardState,
};
use rustadmin_transport::transport::file_transfer::{
    decode_file_cancel, decode_file_chunk, decode_file_metadata, encode_file_cancel,
    encode_file_chunk, encode_file_metadata, FileCancelReason, FileChunk, FileTransferError,
    FileTransferMetadata, FileTransferReceiver,
};
use rustadmin_transport::transport::input::{
    decode_mouse_movement, decode_reliable_input, encode_mouse_movement, encode_reliable_input,
    InputProtocolError, MouseButton, MouseMovement, MouseMovementMode, MouseMovementReceiver,
    ReliableInputEvent,
};
use rustadmin_transport::transport::protocol::{
    decode_message, frame_message, ChannelId, MessageType, ProtocolError,
};
use rustadmin_transport::transport::session::{
    decode_session_acceptance, decode_session_agreement, decode_session_offer,
    encode_session_acceptance, encode_session_agreement, encode_session_offer, negotiate_session,
    LatencyMode, SessionNegotiationError, SessionOffer, CAP_FILE_TRANSFER, COLOR_I420, COLOR_NV12,
    COLOR_P010,
};
use rustadmin_transport::transport::video_datagram::{
    fragment_video_frame, VideoCodec, VideoDatagramError, VideoFrameMetadata, VideoReassembler,
    VideoReassemblyConfig,
};

const SESSION: [u8; 16] = [7; 16];

fn changed(bytes: &[u8], position: usize, value: u8) -> Vec<u8> {
    let mut bytes = bytes.to_vec();
    bytes[position] = value;
    bytes
}

#[test]
fn header_errors_name_what_is_wrong() {
    let packet = frame_message(MessageType::Ping, 0, SESSION, 1, &[1, 2], 9).unwrap();
    assert!(decode_message(&packet).is_ok());
    assert_eq!(
        decode_message(&changed(&packet, 6, 0xff)).err(),
        Some(ProtocolError::UnknownMessageType(
            0xff00 | u16::from(packet[7])
        ))
    );
    assert_eq!(
        decode_message(&changed(&packet, 10, 0xee)).err(),
        Some(ProtocolError::UnknownChannel(0xee))
    );
}

fn fragment(payload: &[u8]) -> Vec<u8> {
    frame_message(MessageType::VideoFragment, 0, SESSION, 1, payload, 9).unwrap()
}

// Frame 5, piece 0 of 2, H.264, with no flags, of ten bytes, of which four are here.
fn fragment_payload() -> Vec<u8> {
    let mut payload = Vec::new();
    payload.extend_from_slice(&5u64.to_be_bytes());
    payload.extend_from_slice(&0u16.to_be_bytes());
    payload.extend_from_slice(&2u16.to_be_bytes());
    payload.push(VideoCodec::H264.code());
    payload.push(0);
    payload.extend_from_slice(&0u16.to_be_bytes());
    payload.extend_from_slice(&77u64.to_be_bytes());
    payload.extend_from_slice(&10u32.to_be_bytes());
    payload.extend_from_slice(&[1, 2, 3, 4]);
    payload
}

fn video_metadata(frame_id: u64, flags: u8) -> VideoFrameMetadata {
    VideoFrameMetadata {
        frame_id,
        codec: VideoCodec::H264,
        flags,
        presentation_timestamp_us: 77,
    }
}

#[test]
fn frames_that_cannot_be_sent_are_refused() {
    let send = |metadata, frame: &[u8], size| {
        fragment_video_frame(SESSION, 1, 9, metadata, frame, size).err()
    };
    assert_eq!(send(video_metadata(1, 3), &[1], 200), None);
    assert_eq!(
        send(video_metadata(0, 0), &[1], 200),
        Some(VideoDatagramError::ZeroFrameId)
    );
    assert_eq!(
        send(video_metadata(1, 4), &[1], 200),
        Some(VideoDatagramError::UnknownFlags(4))
    );
    assert_eq!(
        send(video_metadata(1, 0), &[], 200),
        Some(VideoDatagramError::InvalidFrameSize(0))
    );
    assert_eq!(
        send(video_metadata(1, 0), &vec![0; 32 * 1024 + 1], 77),
        Some(VideoDatagramError::InvalidFragmentCount(32 * 1024 + 1))
    );
    assert_eq!(
        fragment_video_frame([0; 16], 1, 9, video_metadata(1, 0), &[1], 200).err(),
        Some(VideoDatagramError::Protocol(ProtocolError::ZeroSessionId))
    );
}

#[test]
fn fragments_that_cannot_be_read_are_refused() {
    let now = Instant { nanos: 0 };
    let mut reassembler = VideoReassembler::new(VideoReassemblyConfig::default()).unwrap();
    let mut push = |datagram: Vec<u8>| reassembler.push(&datagram, now).err();
    let payload = fragment_payload();
    assert_eq!(
        push(vec![1, 2, 3]),
        Some(VideoDatagramError::Protocol(ProtocolError::HeaderTruncated))
    );
    let audio = frame_message(MessageType::AudioPacket, 0, SESSION, 1, &payload, 9).unwrap();
    assert_eq!(
        push(audio),
        Some(VideoDatagramError::Protocol(
            ProtocolError::ChannelMismatch {
                message_type: MessageType::AudioPacket,
                channel: ChannelId::AudioDatagram,
            }
        ))
    );
    assert_eq!(
        push(fragment(&payload[..27])),
        Some(VideoDatagramError::HeaderTruncated)
    );
    assert_eq!(
        push(fragment(&payload[..28])),
        Some(VideoDatagramError::EmptyFragment)
    );
    assert_eq!(
        push(fragment(&changed(&payload, 15, 1))),
        Some(VideoDatagramError::ReservedField)
    );
    assert_eq!(
        push(fragment(&changed(&payload, 12, 200))),
        Some(VideoDatagramError::UnknownCodec(200))
    );
    assert_eq!(
        push(fragment(&changed(&payload, 13, 4))),
        Some(VideoDatagramError::UnknownFlags(4))
    );
    assert_eq!(
        push(fragment(&changed(&payload, 7, 0))),
        Some(VideoDatagramError::ZeroFrameId)
    );
    assert_eq!(
        push(fragment(&changed(&payload, 11, 0))),
        Some(VideoDatagramError::InvalidFragmentCount(0))
    );
    assert_eq!(
        push(fragment(&changed(&payload, 9, 2))),
        Some(VideoDatagramError::InvalidFragmentIndex { index: 2, count: 2 })
    );
    assert_eq!(
        push(fragment(&changed(&payload, 27, 0))),
        Some(VideoDatagramError::InvalidFrameSize(0))
    );
    assert_eq!(
        push(fragment(&changed(&payload, 27, 3))),
        Some(VideoDatagramError::InvalidFrameSize(4))
    );
    assert_eq!(push(fragment(&payload)), None);
    assert_eq!(
        push(fragment(&changed(&changed(&payload, 9, 1), 27, 11))),
        Some(VideoDatagramError::InconsistentMetadata)
    );
    // The frame was dropped: both pieces are needed, and they are too short together.
    assert_eq!(push(fragment(&payload)), None);
    assert_eq!(
        push(fragment(&changed(&payload, 9, 1))),
        Some(VideoDatagramError::InvalidFrameSize(8))
    );
    assert_eq!(reassembler.pending_frames(), 0);
    assert_eq!(reassembler.stats().malformed_fragments, 3);
}

#[test]
fn reassembly_limits_are_checked() {
    let config = |max_frame_bytes, max_pending_frames, max_memory_bytes| VideoReassemblyConfig {
        max_frame_bytes,
        max_pending_frames,
        max_memory_bytes,
        ..VideoReassemblyConfig::default()
    };
    assert_eq!(
        VideoReassembler::new(config(0, 1, 10)).err(),
        Some(VideoDatagramError::InvalidFrameSize(0))
    );
    assert_eq!(
        VideoReassembler::new(config(10, 0, 10)).err(),
        Some(VideoDatagramError::MemoryLimit)
    );
    assert_eq!(
        VideoReassembler::new(config(10, 1, 9)).err(),
        Some(VideoDatagramError::MemoryLimit)
    );
    let now = Instant { nanos: 0 };
    let mut reassembler = VideoReassembler::new(config(10, 3, 10)).unwrap();
    let payload = fragment_payload();
    for frame_id in [5, 6] {
        reassembler
            .push(&fragment(&changed(&payload, 7, frame_id)), now)
            .unwrap();
    }
    assert_eq!(reassembler.pending_memory_bytes(), 8);
    assert_eq!(
        reassembler
            .push(&fragment(&changed(&payload, 7, 7)), now)
            .err(),
        Some(VideoDatagramError::MemoryLimit)
    );
    assert_eq!(reassembler.pending_memory_bytes(), 8);
    assert_eq!(reassembler.pending_frames(), 2);
}

fn audio_metadata(sequence_number: u64) -> AudioPacketMetadata {
    AudioPacketMetadata {
        sequence_number,
        capture_timestamp_us: 40,
        codec: AudioCodec::Opus,
        channels: 2,
        sample_rate_hz: 48_000,
    }
}

#[test]
fn packets_of_audio_that_cannot_be_sent_are_refused() {
    let send = |metadata, audio: &[u8]| {
        encode_audio_datagram(SESSION, 9, metadata, audio, 70_000).err()
    };
    assert_eq!(send(audio_metadata(1), &[1]), None);
    assert_eq!(
        send(audio_metadata(0), &[1]),
        Some(AudioDatagramError::ZeroSequence)
    );
    let mut metadata = audio_metadata(1);
    metadata.channels = 9;
    assert_eq!(
        send(metadata, &[1]),
        Some(AudioDatagramError::InvalidChannelCount(9))
    );
    metadata.channels = 8;
    metadata.sample_rate_hz = 7_999;
    assert_eq!(
        send(metadata, &[1]),
        Some(AudioDatagramError::InvalidSampleRate(7_999))
    );
    metadata.sample_rate_hz = 192_000;
    assert_eq!(send(metadata, &[1]), None);
    assert_eq!(
        send(metadata, &vec![0; 64 * 1024 + 1]),
        Some(AudioDatagramError::InvalidPayloadSize(64 * 1024 + 1))
    );
    assert_eq!(
        send(metadata, &[]),
        Some(AudioDatagramError::InvalidPayloadSize(0))
    );
}

#[test]
fn packets_of_audio_that_cannot_be_read_are_refused() {
    let sent = encode_audio_datagram(SESSION, 9, audio_metadata(1), &[1, 2, 3], 1200).unwrap();
    let payload = decode_message(&sent).unwrap().payload.to_vec();
    let read = |payload: &[u8]| {
        let packet = frame_message(MessageType::AudioPacket, 0, SESSION, 1, payload, 9).unwrap();
        decode_audio_datagram(&packet).err()
    };
    assert_eq!(read(&payload), None);
    assert_eq!(
        decode_audio_datagram(&changed(&sent, 0, 0)).err(),
        Some(AudioDatagramError::Protocol(ProtocolError::InvalidMagic(
            0x0041_5131
        )))
    );
    assert_eq!(
        read(&payload[..19]),
        Some(AudioDatagramError::HeaderTruncated)
    );
    assert_eq!(
        read(&changed(&payload, 11, 1)),
        Some(AudioDatagramError::ReservedField)
    );
    assert_eq!(
        read(&changed(&payload, 19, 2)),
        Some(AudioDatagramError::InvalidPayloadSize(2))
    );
    assert_eq!(
        read(&changed(&payload, 8, 99)),
        Some(AudioDatagramError::UnknownCodec(99))
    );
    assert_eq!(
        read(&changed(&payload, 9, 0)),
        Some(AudioDatagramError::InvalidChannelCount(0))
    );
    assert_eq!(
        read(&changed(&payload, 13, 0xff)),
        Some(AudioDatagramError::InvalidSampleRate(0x00ff_bb80))
    );
}

#[test]
fn limits_of_the_jitter_buffer_are_checked() {
    let mut config = AudioJitterConfig::default();
    config.playout_delay = Duration::from_millis(10);
    config.max_packet_age = Duration::from_millis(9);
    assert_eq!(
        AudioJitterBuffer::new(config).err(),
        Some(AudioDatagramError::InvalidJitterConfig)
    );
    let mut config = AudioJitterConfig::default();
    config.max_memory_bytes = 3;
    let mut buffer = AudioJitterBuffer::new(config).unwrap();
    let packet = |sequence_number, length| AudioPacket {
        metadata: audio_metadata(sequence_number),
        payload: vec![1; length],
    };
    let now = Instant { nanos: 0 };
    assert_eq!(
        buffer.push(packet(1, 4), now),
        Err(AudioDatagramError::MemoryLimit)
    );
    assert_eq!(buffer.push(packet(1, 3), now), Ok(true));
}

fn movement() -> MouseMovement {
    MouseMovement {
        sequence_number: 1,
        monotonic_timestamp_us: 9,
        mode: MouseMovementMode::Absolute,
        x: 10,
        y: 20,
        display_id: 0,
        button_state_mask: 1,
    }
}

#[test]
fn movements_that_cannot_be_sent_are_refused() {
    let send = |movement| encode_mouse_movement(SESSION, movement, 68).err();
    assert_eq!(send(movement()), None);
    assert_eq!(
        encode_mouse_movement(SESSION, movement(), 67).err(),
        Some(InputProtocolError::InvalidMousePayloadSize)
    );
    assert_eq!(
        encode_mouse_movement([0; 16], movement(), 68).err(),
        Some(InputProtocolError::Protocol(ProtocolError::ZeroSessionId))
    );
    assert_eq!(
        send(MouseMovement {
            display_id: 256,
            ..movement()
        }),
        Some(InputProtocolError::InvalidDisplayId(256))
    );
    assert_eq!(
        send(MouseMovement {
            button_state_mask: 0x20,
            ..movement()
        }),
        Some(InputProtocolError::InvalidButtonMask(0x20))
    );
    assert_eq!(
        send(MouseMovement {
            x: -1,
            ..movement()
        }),
        Some(InputProtocolError::InvalidCoordinates)
    );
    assert_eq!(
        send(MouseMovement {
            mode: MouseMovementMode::Relative,
            x: -1,
            y: 100_001,
            ..movement()
        }),
        Some(InputProtocolError::InvalidCoordinates)
    );
}

#[test]
fn movements_that_cannot_be_read_are_refused() {
    let sent = encode_mouse_movement(SESSION, movement(), 68).unwrap();
    let payload = decode_message(&sent).unwrap().payload.to_vec();
    let read = |payload: &[u8]| {
        let packet = frame_message(MessageType::MouseMovement, 0, SESSION, 1, payload, 9).unwrap();
        decode_mouse_movement(&packet).err()
    };
    assert_eq!(read(&payload), None);
    assert_eq!(
        read(&payload[..19]),
        Some(InputProtocolError::InvalidMousePayloadSize)
    );
    assert_eq!(
        read(&changed(&payload, 19, 1)),
        Some(InputProtocolError::ReservedField)
    );
    assert_eq!(
        read(&changed(&payload, 0, 9)),
        Some(InputProtocolError::UnknownMouseMode(9))
    );
    assert_eq!(
        MouseMovementReceiver::new([8; 16]).apply(&sent),
        Err(InputProtocolError::SessionMismatch)
    );
}

#[test]
fn events_that_cannot_be_read_are_refused() {
    let key = encode_reliable_input(ReliableInputEvent::Key {
        key_code: 42,
        pressed: true,
        modifiers: 3,
    });
    let button = encode_reliable_input(ReliableInputEvent::MouseButton {
        button: MouseButton::Left,
        pressed: true,
        x: 1,
        y: 2,
        display_id: 0,
    });
    let read = |payload: &[u8]| decode_reliable_input(payload).err();
    assert_eq!(read(&key), None);
    assert_eq!(read(&button), None);
    assert_eq!(
        read(&key[..23]),
        Some(InputProtocolError::InvalidReliablePayloadSize)
    );
    assert_eq!(
        read(&changed(&key, 3, 1)),
        Some(InputProtocolError::ReservedField)
    );
    assert_eq!(
        read(&changed(&key, 1, 2)),
        Some(InputProtocolError::UnknownFlags(2))
    );
    assert_eq!(
        read(&changed(&key, 7, 0)),
        Some(InputProtocolError::InvalidKeyCode)
    );
    assert_eq!(
        read(&changed(&key, 0, 4)),
        Some(InputProtocolError::UnknownInputEvent(4))
    );
    assert_eq!(
        read(&changed(&button, 4, 77)),
        Some(InputProtocolError::UnknownMouseButton(77))
    );
    assert_eq!(
        read(&changed(&button, 18, 1)),
        Some(InputProtocolError::InvalidDisplayId(256))
    );
    assert_eq!(
        read(&changed(&button, 8, 0x80)),
        Some(InputProtocolError::InvalidCoordinates)
    );
}

#[test]
fn clipboard_changes_that_cannot_be_taken_are_refused() {
    let sent = encode_clipboard_text([1; 16], 7, "hello", 1024).unwrap();
    let read = |payload: &[u8]| decode_clipboard_text(payload, 1024).err();
    assert_eq!(read(&sent), None);
    assert_eq!(
        encode_clipboard_text([0; 16], 7, "hello", 1024).err(),
        Some(ClipboardError::ZeroOrigin)
    );
    assert_eq!(
        encode_clipboard_text([1; 16], 0, "hello", 1024).err(),
        Some(ClipboardError::ZeroSequence)
    );
    assert_eq!(read(&sent[..31]), Some(ClipboardError::HeaderTruncated));
    assert_eq!(
        read(&changed(&sent, 24, 2)),
        Some(ClipboardError::UnsupportedFormat(2))
    );
    assert_eq!(
        read(&changed(&sent, 27, 1)),
        Some(ClipboardError::InvalidReservedField)
    );
    assert_eq!(
        read(&changed(&sent, 31, 4)),
        Some(ClipboardError::InvalidSize(4))
    );
    assert_eq!(
        read(&changed(&sent, 32, 0xff)),
        Some(ClipboardError::InvalidUtf8)
    );
    let mut state =
        ClipboardState::new(ClipboardPermission::Bidirectional, [200; 16], 1024).unwrap();
    for origin in 1..=8u8 {
        let change = encode_clipboard_text([origin; 16], 1, "text", 1024).unwrap();
        assert!(state.receive(&change).unwrap().is_some());
    }
    let ninth = encode_clipboard_text([9; 16], 1, "text", 1024).unwrap();
    assert_eq!(state.receive(&ninth), Err(ClipboardError::TooManyOrigins));
}

fn file_metadata() -> FileTransferMetadata {
    FileTransferMetadata {
        transfer_id: [1; 16],
        file_name: "a.txt".to_owned(),
        file_size: 5,
        resume_offset: 0,
        sha256: [3; 32],
    }
}

#[test]
fn metadata_of_files_that_cannot_be_taken_are_refused() {
    let send = |metadata| encode_file_metadata(&metadata, 100).err();
    assert_eq!(send(file_metadata()), None);
    assert_eq!(
        send(FileTransferMetadata {
            resume_offset: 6,
            ..file_metadata()
        }),
        Some(FileTransferError::InvalidResumeOffset { offset: 6, size: 5 })
    );
    assert_eq!(
        send(FileTransferMetadata {
            sha256: [0; 32],
            ..file_metadata()
        }),
        Some(FileTransferError::MissingHash)
    );
    let sent = encode_file_metadata(&file_metadata(), 100).unwrap();
    let read = |payload: &[u8]| decode_file_metadata(payload, 100).err();
    assert_eq!(read(&sent), None);
    assert_eq!(
        read(&sent[..67]),
        Some(FileTransferError::MetadataTruncated)
    );
    assert_eq!(
        read(&changed(&sent, 67, 1)),
        Some(FileTransferError::InvalidReservedField)
    );
    assert_eq!(
        read(&changed(&sent, 65, 4)),
        Some(FileTransferError::InvalidNameLength)
    );
    assert_eq!(
        read(&changed(&sent, 68, 0xff)),
        Some(FileTransferError::InvalidUtf8)
    );
}

#[test]
fn pieces_of_files_that_cannot_be_taken_are_refused() {
    let chunk = FileChunk {
        transfer_id: [1; 16],
        offset: 0,
        data: b"hello".to_vec(),
    };
    let sent = encode_file_chunk(&chunk).unwrap();
    assert_eq!(
        decode_file_chunk(&sent[..27]).err(),
        Some(FileTransferError::ChunkTruncated)
    );
    assert_eq!(
        decode_file_chunk(&changed(&sent, 27, 4)).err(),
        Some(FileTransferError::InvalidChunkSize(4))
    );
    let cancel = encode_file_cancel([1; 16], FileCancelReason::User).unwrap();
    assert_eq!(
        decode_file_cancel(&cancel[..19]).err(),
        Some(FileTransferError::ChunkTruncated)
    );
    assert_eq!(
        decode_file_cancel(&changed(&cancel, 19, 1)).err(),
        Some(FileTransferError::InvalidReservedField)
    );
    let mut receiver = FileTransferReceiver::start(file_metadata(), 100, true, None).unwrap();
    receiver.accept_chunk(&chunk).unwrap();
    assert_eq!(receiver.finish(), Err(FileTransferError::HashMismatch));
}

fn offer() -> SessionOffer {
    SessionOffer {
        minimum_protocol_version: 1,
        maximum_protocol_version: 2,
        capabilities: 0,
        latency_mode: LatencyMode::LowLatency,
        video_codecs: vec![VideoCodec::H265, VideoCodec::H264],
        audio_codecs: vec![AudioCodec::Opus],
        color_formats: COLOR_NV12 | COLOR_I420,
        max_width: 3840,
        max_height: 2160,
        max_fps: 60,
        max_datagram_payload: 1200,
        max_video_bitrate_kbps: 50_000,
        max_file_bitrate_kbps: 0,
    }
}

#[test]
fn offers_that_make_no_sense_are_refused() {
    let send = |offer: SessionOffer| encode_session_offer(&offer).err();
    assert_eq!(send(offer()), None);
    let mut changed_offer = offer();
    changed_offer.minimum_protocol_version = 3;
    assert_eq!(
        send(changed_offer),
        Some(SessionNegotiationError::InvalidProtocolRange)
    );
    let mut changed_offer = offer();
    changed_offer.capabilities = 0x80;
    assert_eq!(
        send(changed_offer),
        Some(SessionNegotiationError::InvalidCapabilities(0x80))
    );
    let mut changed_offer = offer();
    changed_offer.color_formats = 0x11;
    assert_eq!(
        send(changed_offer),
        Some(SessionNegotiationError::InvalidColorFormats(0x11))
    );
    let mut changed_offer = offer();
    changed_offer.audio_codecs.clear();
    assert_eq!(
        send(changed_offer),
        Some(SessionNegotiationError::InvalidAudioCodecs)
    );
    let mut changed_offer = offer();
    changed_offer.max_height = 199;
    assert_eq!(
        send(changed_offer),
        Some(SessionNegotiationError::InvalidGeometry)
    );
    let mut changed_offer = offer();
    changed_offer.capabilities = CAP_FILE_TRANSFER;
    assert_eq!(
        send(changed_offer),
        Some(SessionNegotiationError::InvalidBitrate)
    );
}

#[test]
fn offers_that_cannot_be_read_are_refused() {
    let sent = encode_session_offer(&offer()).unwrap();
    let read = |payload: &[u8]| decode_session_offer(payload).err();
    assert_eq!(read(&sent), None);
    assert_eq!(sent.len(), 35);
    assert_eq!(
        read(&sent[..31]),
        Some(SessionNegotiationError::HeaderTruncated)
    );
    assert_eq!(
        read(&sent[..34]),
        Some(SessionNegotiationError::LengthMismatch)
    );
    assert_eq!(
        read(&changed(&sent, 9, 1)),
        Some(SessionNegotiationError::InvalidReservedField)
    );
    assert_eq!(
        read(&changed(&sent, 33, 90)),
        Some(SessionNegotiationError::UnknownVideoCodec(90))
    );
    assert_eq!(
        read(&changed(&sent, 34, 91)),
        Some(SessionNegotiationError::UnknownAudioCodec(91))
    );
    assert_eq!(
        read(&changed(&sent, 6, 92)),
        Some(SessionNegotiationError::InvalidLatencyMode(92))
    );
}

#[test]
fn agreements_that_cannot_be_read_are_refused() {
    let agreement = negotiate_session(&offer(), &offer()).unwrap();
    let sent = encode_session_agreement(&agreement).unwrap();
    let read = |payload: &[u8]| decode_session_agreement(payload).err();
    assert_eq!(read(&sent), None);
    assert_eq!(
        read(&sent[..27]),
        Some(SessionNegotiationError::LengthMismatch)
    );
    assert_eq!(
        read(&changed(&sent, 27, 1)),
        Some(SessionNegotiationError::InvalidReservedField)
    );
    assert_eq!(
        read(&changed(&sent, 4, 90)),
        Some(SessionNegotiationError::UnknownColorFormat(90))
    );
    assert_eq!(
        read(&changed(&sent, 5, 91)),
        Some(SessionNegotiationError::InvalidLatencyMode(91))
    );
    let accepted = encode_session_acceptance(&offer(), &agreement).unwrap();
    assert_eq!(
        decode_session_acceptance(&accepted[..31]).err(),
        Some(SessionNegotiationError::HeaderTruncated)
    );
    assert_eq!(
        decode_session_acceptance(&changed(&accepted, 3, 1)).err(),
        Some(SessionNegotiationError::InvalidReservedField)
    );
}

#[test]
fn offers_without_a_common_color_format_are_not_agreed_on() {
    let mut other = offer();
    other.color_formats = COLOR_P010;
    assert_eq!(
        negotiate_session(&offer(), &other).err(),
        Some(SessionNegotiationError::IncompatibleColorFormat)
    );
}
