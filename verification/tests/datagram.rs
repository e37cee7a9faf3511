use rustadmin_transport::time::{Duration, Instant};
use rustadmin_transport::transport::audio_datagram::{
    AudioCodec, AudioJitterConfig, AudioPlayoutItem,
};
use rustadmin_transport::transport::datagram::{
    DatagramReceiveEvent, QuicDatagramReceiver, QuicDatagramSender,
};
use rustadmin_transport::transport::input::MouseMovementMode;
use rustadmin_transport::transport::protocol::SessionId;
use rustadmin_transport::transport::quic::{
    DatagramFailure, ProtocolStateFailure, QuicTransportError,
};
use rustadmin_transport::transport::video_datagram::{
    VideoCodec, VideoFrameMetadata, VideoReassemblyConfig,
};

fn session() -> SessionId {
    [4; 16]
}

fn receiver() -> QuicDatagramReceiver {
    QuicDatagramReceiver::new(
        session(),
        VideoReassemblyConfig::default(),
        AudioJitterConfig::default(),
    )
    .unwrap()
}

const START: Instant = Instant { nanos: 0 };

#[test]
fn video_frame_travels_in_datagrams() {
    let mut sender = QuicDatagramSender::new(session()).with_max_datagram_size(1200);
    let mut receiver = receiver();
    let metadata = VideoFrameMetadata {
        frame_id: 7,
        codec: VideoCodec::H264,
        flags: 0,
        presentation_timestamp_us: 11,
    };
    let frame = vec![5; 5_000];
    let datagrams = sender
        .send_video_frame(Some(1500), 1, metadata, &frame)
        .unwrap();
    assert!(datagrams.len() > 1);
    assert!(datagrams.iter().all(|datagram| datagram.len() <= 1200));
    let mut completed = None;
    for datagram in &datagrams {
        match receiver.receive(datagram, START).unwrap() {
            DatagramReceiveEvent::Video(outcome) => {
                if outcome.frame.is_some() {
                    completed = outcome.frame;
                }
            }
            _ => panic!("no video"),
        }
    }
    let completed = completed.unwrap();
    assert_eq!(completed.payload, frame);
    assert_eq!(completed.metadata, metadata);
    assert_eq!(receiver.video_stats().completed_frames, 1);
    receiver.reset();
}

#[test]
fn audio_packet_travels_to_the_playout() {
    let mut sender = QuicDatagramSender::new(session());
    let mut receiver = receiver();
    for sequence in 1..=3 {
        let datagram = sender
            .send_audio_packet(Some(1200), 1, 2, AudioCodec::Opus, 2, 48_000, b"opus")
            .unwrap();
        assert_eq!(sender.audio_packet_sent(), Ok(sequence));
        assert!(matches!(
            receiver.receive(&datagram, START),
            Ok(DatagramReceiveEvent::AudioAccepted)
        ));
    }
    match receiver.pop_audio(START.plus(Duration::from_millis(30))) {
        Some(AudioPlayoutItem::Packet(packet)) => assert_eq!(packet.payload, b"opus".to_vec()),
        _ => panic!("no audio"),
    }
}

#[test]
fn newest_movement_travels_with_its_message() {
    let mut sender = QuicDatagramSender::new(session());
    let mut receiver = receiver();
    let old = sender
        .send_mouse_movement(Some(1200), 1, MouseMovementMode::Absolute, 3, 4, 0, 0)
        .unwrap();
    assert_eq!(sender.mouse_movement_sent(), Ok(1));
    let new = sender
        .send_application_mouse_movement(
            Some(1200),
            2,
            MouseMovementMode::Relative,
            -3,
            4,
            0,
            0,
            b"event",
        )
        .unwrap();
    match receiver.receive(&new, START).unwrap() {
        DatagramReceiveEvent::ApplicationMouse(Some((movement, payload))) => {
            assert_eq!((movement.x, movement.y), (-3, 4));
            assert_eq!(payload, b"event".to_vec());
        }
        _ => panic!("no movement"),
    }
    assert!(matches!(
        receiver.receive(&old, START),
        Ok(DatagramReceiveEvent::Mouse(None))
    ));
}

#[test]
fn datagrams_keep_to_their_limits_and_session() {
    let sender = QuicDatagramSender::new(session()).with_max_datagram_size(1000);
    assert_eq!(sender.max_datagram_size(Some(900)), Ok(900));
    assert_eq!(sender.max_datagram_size(Some(1200)), Ok(1000));
    assert_eq!(
        sender.max_datagram_size(None),
        Err(QuicTransportError::Datagram(DatagramFailure::Unsupported))
    );
    let foreign = QuicDatagramSender::new([5; 16])
        .send_mouse_movement(Some(1200), 1, MouseMovementMode::Absolute, 3, 4, 0, 0)
        .unwrap();
    assert_eq!(
        receiver().receive(&foreign, START).err(),
        Some(QuicTransportError::ProtocolState(
            ProtocolStateFailure::DatagramSession
        ))
    );
    let mut small = receiver().with_max_datagram_size(10);
    assert_eq!(
        small.receive(&foreign, START).err(),
        Some(QuicTransportError::ProtocolState(
            ProtocolStateFailure::DatagramTooLong {
                length: foreign.len(),
                limit: 10
            }
        ))
    );
}
