use rustadmin_transport::transport::application::{
    acknowledgement, application_channels, audio_format, classify_message, find_message,
    is_video_ordering_message, pacing_delay_us, pack_audio_format, read_ordering_epoch,
    should_replace_pending_video, unpack_audio_format, validate_datagram_application_message,
    ApplicationChannels, ApplicationClass, ApplicationClassTag, AudioFormat, DatagramAction,
    DatagramReader, EnqueueAction,
    EnqueueError, LatestSlot, Message, Misc, MouseEvent, QueueOutcome, QuicApplicationStream,
    ReaderAction, ReliableQueue, VideoFrame, VideoOrderingGate, VideoOutbound, VideoPayload,
    VideoWriter,
};
use rustadmin_transport::transport::audio_datagram::AudioCodec;
use rustadmin_transport::transport::datagram::DatagramReceiveEvent;
use rustadmin_transport::transport::input::MouseMovementMode;
use rustadmin_transport::transport::protocol::MessageType;
use rustadmin_transport::transport::reliable::ReliableChannelKind;
use rustadmin_transport::transport::session::{ColorFormat, LatencyMode, SessionAgreement};
use rustadmin_transport::transport::video_datagram::{
    CompleteVideoFrame, VideoCodec, VideoFrameMetadata, VideoReassemblyOutcome, FLAG_KEYFRAME,
};

#[test]
fn protobuf_messages_are_classified_without_native_struct_deserialization() {
    let message = Message::MouseEvent(MouseEvent {
        mask: 5,
        x: -3,
        y: 4,
    });
    assert!(matches!(
        classify_message(&message).unwrap(),
        ApplicationClass::Mouse {
            mode: MouseMovementMode::Relative,
            ..
        }
    ));

    assert_eq!(
        classify_message(&Message::Clipboard).unwrap(),
        ApplicationClass::Clipboard
    );

    assert_eq!(
        classify_message(&Message::AudioFrame).unwrap(),
        ApplicationClass::Audio
    );
}

fn h264_frame(frame_id: u64, capture_time_ms: u64, key: bool) -> Message {
    Message::VideoFrame(VideoFrame {
        frame_id,
        capture_time_ms,
        payload: Some(VideoPayload::H264s(vec![key])),
    })
}

#[test]
fn video_metadata_preserves_codec_keyframe_and_timestamp() {
    assert_eq!(
        classify_message(&h264_frame(42, 17, true)).unwrap(),
        ApplicationClass::Video(VideoFrameMetadata {
            frame_id: 42,
            codec: VideoCodec::H264,
            flags: FLAG_KEYFRAME,
            presentation_timestamp_us: 17_000,
        })
    );
}

fn outbound_video(frame_id: u64, keyframe: bool, ordering_epoch: u64) -> VideoOutbound {
    VideoOutbound {
        metadata: VideoFrameMetadata {
            frame_id,
            codec: VideoCodec::H264,
            flags: if keyframe { FLAG_KEYFRAME } else { 0 },
            presentation_timestamp_us: frame_id * 1_000,
        },
        payload: vec![frame_id as u8],
        ordering_epoch,
    }
}

#[test]
fn latest_video_slot_preserves_pending_keyframe_from_same_epoch_delta() {
    let mut slot = LatestSlot::new();
    assert!(slot.replace_when(outbound_video(1, true, 4), should_replace_pending_video));
    assert!(!slot.replace_when(outbound_video(2, false, 4), should_replace_pending_video));

    let pending = slot.take().unwrap();
    assert_eq!(pending.metadata.frame_id, 1);
    assert!(pending.is_keyframe());
    assert!(slot.take().is_none());
}

#[test]
fn pending_video_selection_keeps_latency_and_ordering_semantics() {
    assert!(should_replace_pending_video(
        &outbound_video(2, false, 4),
        &outbound_video(3, false, 4)
    ));
    assert!(should_replace_pending_video(
        &outbound_video(1, true, 4),
        &outbound_video(4, true, 4)
    ));
    assert!(should_replace_pending_video(
        &outbound_video(1, true, 4),
        &outbound_video(5, false, 5)
    ));
    assert!(!should_replace_pending_video(
        &outbound_video(5, false, 5),
        &outbound_video(1, true, 4)
    ));
}

#[test]
fn audio_format_pack_is_bounded() {
    let format = AudioFormat {
        sample_rate: 48_000,
        channels: 2,
    };
    assert_eq!(
        unpack_audio_format(pack_audio_format(&format)),
        Some((48_000, 2))
    );
    assert_eq!(
        pack_audio_format(&AudioFormat {
            sample_rate: 0,
            channels: 0
        }),
        0
    );
}

#[test]
fn classes_follow_the_message() {
    assert_eq!(classify_message(&Message::KeyEvent), Ok(ApplicationClass::Input));
    assert_eq!(classify_message(&Message::Cliprdr), Ok(ApplicationClass::Clipboard));
    assert_eq!(classify_message(&Message::FileAction), Ok(ApplicationClass::File));
    assert_eq!(
        classify_message(&Message::TestDelay),
        Ok(ApplicationClass::Diagnostics)
    );
    assert_eq!(classify_message(&Message::Other), Ok(ApplicationClass::Control));
    assert!(classify_message(&Message::VideoFrame(VideoFrame {
        frame_id: 1,
        capture_time_ms: 1,
        payload: None,
    }))
    .is_err());
    assert!(is_video_ordering_message(&Message::Misc(Misc::SwitchDisplay)));
    assert!(!is_video_ordering_message(&Message::KeyEvent));
    let format = AudioFormat {
        sample_rate: 48_000,
        channels: 2,
    };
    assert_eq!(
        audio_format(&Message::Misc(Misc::AudioFormat(format))),
        Some(format)
    );
    assert_eq!(audio_format(&Message::Other), None);
}

fn agreement() -> SessionAgreement {
    SessionAgreement {
        protocol_version: 1,
        video_codec: VideoCodec::H264,
        audio_codec: AudioCodec::Opus,
        color_format: ColorFormat::I420,
        hdr: false,
        max_width: 1920,
        max_height: 1080,
        max_fps: 60,
        max_datagram_payload: 1200,
        max_video_bitrate_kbps: 20_000,
        max_file_bitrate_kbps: 8_000,
        latency_mode: LatencyMode::Balanced,
        local_may_send_clipboard: true,
        remote_may_send_clipboard: true,
        file_transfer_enabled: true,
        local_may_send_input: true,
        remote_may_send_input: true,
        reliable_keyframes: true,
    }
}

#[test]
fn video_waits_for_the_epoch_before_it() {
    let mut stream = QuicApplicationStream::establish(agreement());
    let action = stream
        .enqueue(
            b"switch".to_vec(),
            Some(&Message::Misc(Misc::SwitchDisplay)),
            Some(1200),
        )
        .unwrap();
    let (outbound, epoch) = match action {
        EnqueueAction::Reliable {
            queue,
            outbound,
            epoch: Some(epoch),
        } => {
            assert_eq!(queue, ReliableQueue::Control);
            (outbound, epoch)
        }
        other => panic!("{:?}", other),
    };
    assert_eq!(epoch, 1);
    assert_eq!(outbound.message_type, MessageType::VideoOrdering);
    assert_eq!(&outbound.payload[..8], &1u64.to_be_bytes());
    assert_eq!(&outbound.payload[8..], b"switch");
    assert_eq!(stream.reliable_queued(Some(epoch), QueueOutcome::Queued), Ok(()));

    assert_eq!(
        stream.enqueue(b"frame".to_vec(), Some(&h264_frame(9, 1, true)), Some(1200)),
        Ok(EnqueueAction::VideoPending(true))
    );
    let frame = stream.take_video().unwrap();
    assert_eq!(frame.metadata.frame_id, 1);
    assert_eq!(frame.ordering_epoch, 1);
    let mut writer = VideoWriter::new();
    writer.hold(frame);
    assert!(writer.release(&stream).is_none());
    assert!(writer.is_holding());

    let answer = acknowledgement(epoch);
    assert_eq!(
        stream.read_reliable(
            ReliableChannelKind::Control,
            answer.message_type,
            answer.payload,
            None
        ),
        Ok(ReaderAction::Acknowledged)
    );
    assert_eq!(writer.release(&stream).unwrap().payload, b"frame".to_vec());
    assert!(!writer.is_holding());
}

#[test]
fn ordering_message_is_delivered_then_acknowledged() {
    let mut stream = QuicApplicationStream::establish(agreement());
    let mut payload = 3u64.to_be_bytes().to_vec();
    payload.extend_from_slice(b"switch");
    assert_eq!(
        find_message(
            ReliableChannelKind::Control,
            MessageType::VideoOrdering,
            &payload
        ),
        Ok(Some(8))
    );
    assert_eq!(
        stream.read_reliable(
            ReliableChannelKind::Control,
            MessageType::VideoOrdering,
            payload,
            Some(&Message::Misc(Misc::SwitchDisplay))
        ),
        Ok(ReaderAction::DeliverThenAcknowledge {
            payload: b"switch".to_vec(),
            epoch: 3
        })
    );
    assert_eq!(read_ordering_epoch(&3u64.to_be_bytes()), Ok(3));
    assert!(read_ordering_epoch(&0u64.to_be_bytes()).is_err());
    assert!(read_ordering_epoch(&[1, 2]).is_err());
}

#[test]
fn bytes_that_are_no_message_and_full_queues_are_refused() {
    let mut stream = QuicApplicationStream::establish(agreement());
    assert_eq!(
        stream.enqueue(b"?".to_vec(), None, Some(1200)),
        Err(EnqueueError::InvalidMessage)
    );
    assert_eq!(
        stream.reliable_queued(None, QueueOutcome::Full),
        Err(EnqueueError::WouldBlock)
    );
    assert_eq!(
        stream.reliable_queued(None, QueueOutcome::Closed),
        Err(EnqueueError::BrokenPipe)
    );
    assert!(stream
        .read_reliable(
            ReliableChannelKind::Video,
            MessageType::VideoOrdering,
            b"x".to_vec(),
            None
        )
        .is_err());
}

#[test]
fn audio_without_a_format_is_sent_reliably() {
    let mut stream = QuicApplicationStream::establish(agreement());
    match stream.enqueue(b"opus".to_vec(), Some(&Message::AudioFrame), Some(1200)) {
        Ok(EnqueueAction::Reliable {
            queue, outbound, ..
        }) => {
            assert_eq!(queue, ReliableQueue::Control);
            assert_eq!(outbound.message_type, MessageType::ApplicationControl);
            assert_eq!(outbound.payload, b"opus".to_vec());
        }
        other => panic!("{:?}", other),
    }
    let format = Message::Misc(Misc::AudioFormat(AudioFormat {
        sample_rate: 48_000,
        channels: 2,
    }));
    stream
        .enqueue(b"format".to_vec(), Some(&format), Some(1200))
        .unwrap();
    match stream.enqueue(b"opus".to_vec(), Some(&Message::AudioFrame), Some(1200)) {
        Ok(EnqueueAction::Audio(audio)) => {
            assert_eq!(audio.channels, 2);
            assert_eq!(audio.sample_rate_hz, 48_000);
            assert_eq!(audio.payload, b"opus".to_vec());
        }
        other => panic!("{:?}", other),
    }
    assert_eq!(
        stream.enqueue(vec![0; 1300], Some(&Message::AudioFrame), Some(1200)),
        Ok(EnqueueAction::AudioDropped)
    );
}

#[test]
fn newest_mouse_movement_is_taken() {
    let mut stream = QuicApplicationStream::establish(agreement());
    for x in [1, 2] {
        let event = Message::MouseEvent(MouseEvent { mask: 0, x, y: 5 });
        assert_eq!(
            stream.enqueue(vec![x as u8], Some(&event), Some(1200)),
            Ok(EnqueueAction::MousePending)
        );
    }
    let movement = stream.take_mouse().unwrap();
    assert_eq!((movement.x, movement.y), (2, 5));
    assert_eq!(movement.mode, MouseMovementMode::Absolute);
    assert!(stream.take_mouse().is_none());
}

#[test]
fn gate_opens_with_the_acknowledged_epoch() {
    let mut gate = VideoOrderingGate::new();
    assert!(gate.is_open(0));
    let first = gate.next_epoch().unwrap();
    let second = gate.next_epoch().unwrap();
    assert_eq!((first, second), (1, 2));
    assert!(!gate.is_open(first));
    gate.acknowledge(first);
    assert!(gate.is_open(first));
    assert!(!gate.is_open(second));
    gate.acknowledge(second);
    gate.acknowledge(first);
    assert!(gate.is_open(second));
}

#[test]
fn datagram_class_must_match_its_message() {
    assert!(validate_datagram_application_message(
        ApplicationClassTag::Audio,
        Some(&Message::AudioFrame)
    )
    .is_ok());
    assert!(validate_datagram_application_message(
        ApplicationClassTag::Video,
        Some(&Message::AudioFrame)
    )
    .is_err());
    assert!(validate_datagram_application_message(ApplicationClassTag::Audio, None).is_err());
}

#[test]
fn pacing_follows_the_bandwidth() {
    assert_eq!(pacing_delay_us(1_000, Some(8_000)), 1_000);
    assert_eq!(pacing_delay_us(1_000, None), 0);
}

#[test]
fn five_distinct_channels_complete_a_connection() {
    let mut channels = ApplicationChannels::new();
    for kind in application_channels() {
        channels.add(kind, kind.channel_id().code()).unwrap();
    }
    assert!(channels.add(ReliableChannelKind::Control, 9).is_err());
    let established = channels.finish().unwrap();
    assert_eq!(
        established.control,
        ReliableChannelKind::Control.channel_id().code()
    );
    let missing: ApplicationChannels<u8> = ApplicationChannels::new();
    assert!(missing.finish().is_err());
}

#[test]
fn datagrams_are_routed_by_what_they_hold() {
    let outcome = VideoReassemblyOutcome {
        frame: Some(CompleteVideoFrame {
            metadata: outbound_video(1, true, 0).metadata,
            payload: vec![4],
        }),
        dropped_frames: 1,
        request_keyframe: true,
    };
    assert_eq!(
        DatagramReader::action_for(DatagramReceiveEvent::Video(outcome)),
        DatagramAction {
            request_keyframe: true,
            candidate: Some((ApplicationClassTag::Video, vec![4])),
            play_audio: false,
        }
    );
    assert_eq!(
        DatagramReader::action_for(DatagramReceiveEvent::AudioAccepted),
        DatagramAction {
            request_keyframe: false,
            candidate: None,
            play_audio: true,
        }
    );
    assert_eq!(
        DatagramReader::action_for(DatagramReceiveEvent::Mouse(None)).candidate,
        None
    );
    assert_eq!(
        DatagramReader::deliver(
            ApplicationClassTag::Video,
            vec![4],
            Some(&h264_frame(1, 1, true))
        ),
        Some(vec![4])
    );
    assert_eq!(
        DatagramReader::deliver(ApplicationClassTag::Video, vec![4], Some(&Message::Other)),
        None
    );
}

#[test]
fn audio_format_is_announced_before_its_first_packet() {
    let mut reader = DatagramReader::new();
    let audio = Some(&Message::AudioFrame);
    let first = reader.deliver_audio(48_000, 2, vec![1], audio);
    assert_eq!(first.announced_format, Some((48_000, 2)));
    assert_eq!(first.payload, Some(vec![1]));
    let second = reader.deliver_audio(48_000, 2, vec![2], audio);
    assert_eq!(second.announced_format, None);
    let third = reader.deliver_audio(48_000, 1, vec![3], None);
    assert_eq!(third.announced_format, Some((48_000, 1)));
    assert_eq!(third.payload, None);
}
