use rustadmin_transport::stream::{OutboundMessage, OutboundQueue};
use rustadmin_transport::tcp::{get_nonce, plan_write, Encrypt};
use rustadmin_transport::time::{Duration, Instant};
use rustadmin_transport::transport::adaptation::{
    AdaptationError, AdaptationLimits, AdaptationMetrics, BandwidthAdapter, Single,
};
use rustadmin_transport::transport::application::{
    application_session_offer, client_accepts_session, client_offer_payload,
    server_accepts_session,
};
use rustadmin_transport::transport::audio_datagram::{
    AudioCodec, AudioJitterBuffer, AudioJitterConfig, AudioPacket, AudioPacketMetadata,
    AudioPlayoutItem,
};
use rustadmin_transport::transport::clipboard::{ClipboardPermission, ClipboardState};
use rustadmin_transport::transport::configuration::{NetworkOptions, NetworkTransportConfig};
use rustadmin_transport::transport::file_transfer::{
    decode_file_cancel, encode_file_cancel, FileCancelReason, FileChunk, FileTransferError,
    FileTransferMetadata, FileTransferReceiver,
};
use rustadmin_transport::transport::input::{
    encode_reliable_input, MouseButton, ReliableInputEvent, ReliableInputReceiver,
};
use rustadmin_transport::transport::pairing::{
    check_listing, decode_record, key_of_bytes, list_record, load_record, record_file_name,
    MemoryTrustedPeerStore, PairingCandidate, PairingError, PersistedTrustedPeer,
    TrustedPeerRecord, TrustedPeerStore,
};
use rustadmin_transport::transport::protocol::{
    decode_message, encode_message, frame_message, MessageHeader, MessageType, ProtocolError,
};
use rustadmin_transport::transport::quic::{
    DatagramFailure, ProtocolStateFailure, QuicTransportError,
};
use rustadmin_transport::transport::recovery::{ReconnectPolicy, ReconnectState, RecoveryError};
use rustadmin_transport::transport::session::{
    decode_session_offer, encode_session_offer, negotiate_session,
};
use rustadmin_transport::transport::video_datagram::{
    fragment_video_frame, VideoCodec, VideoFrameMetadata, VideoReassembler, VideoReassemblyConfig,
};
use sha2::{Digest, Sha256};

fn digest(data: &[u8]) -> [u8; 32] {
    let mut bytes = [0; 32];
    bytes.copy_from_slice(&Sha256::digest(data));
    bytes
}

#[test]
fn different_messages_have_different_bytes() {
    let packet = |sequence: u64, payload: &[u8]| {
        frame_message(MessageType::Ping, 0, [7; 16], sequence, payload, 3).unwrap()
    };
    let one = packet(1, &[0; 8]);
    assert_ne!(one, packet(2, &[0; 8]));
    assert_ne!(one, packet(1, &[1; 8]));
    let parsed = decode_message(&one).unwrap();
    assert_eq!(encode_message(&parsed.header, parsed.payload).unwrap(), one);
}

#[test]
fn headers_that_would_not_be_read_are_not_made() {
    let header = |message_type, flags, session, sequence, length| {
        MessageHeader::new(message_type, flags, session, sequence, length, 1).err()
    };
    assert_eq!(
        header(MessageType::Ping, 4, [7; 16], 1, 8),
        Some(ProtocolError::UnknownFlags(4))
    );
    assert_eq!(
        header(MessageType::Ping, 0, [0; 16], 1, 8),
        Some(ProtocolError::ZeroSessionId)
    );
    assert_eq!(
        header(MessageType::Ping, 0, [7; 16], 0, 8),
        Some(ProtocolError::ZeroSequence)
    );
    assert!(matches!(
        header(MessageType::Ping, 0, [7; 16], 1, usize::MAX),
        Some(ProtocolError::PayloadTooLarge(_))
    ));
    assert_eq!(
        decode_message(&[0; 10]).err(),
        Some(ProtocolError::HeaderTruncated)
    );
    assert_eq!(
        decode_message(&[0; 48]).err(),
        Some(ProtocolError::InvalidMagic(0))
    );
}

#[test]
fn read_offers_are_written_alike() {
    let options = NetworkOptions::default();
    let config = NetworkTransportConfig::from_values(&options, None, ()).unwrap();
    let offer = application_session_offer(&config, Some(1200)).unwrap();
    let bytes = encode_session_offer(&offer).unwrap();
    let read = decode_session_offer(&bytes).unwrap();
    assert_eq!(encode_session_offer(&read).unwrap(), bytes);
}

#[test]
fn client_and_server_come_to_the_same_agreement() {
    let config = |mbps: &str| {
        let options = NetworkOptions {
            file_bandwidth_mbps: mbps.to_owned(),
            ..NetworkOptions::default()
        };
        NetworkTransportConfig::from_values(&options, None, ()).unwrap()
    };
    let client = application_session_offer(&config("5"), Some(1400)).unwrap();
    let server = application_session_offer(&config("0"), Some(1200)).unwrap();
    assert_eq!(client.max_file_bitrate_kbps, 5_000);
    assert_eq!(server.max_file_bitrate_kbps, 1_000_000);
    let request = client_offer_payload(&client).unwrap();
    let (agreed, answer) =
        server_accepts_session(&server, MessageType::SessionOffer, &request).unwrap();
    assert_eq!(
        client_accepts_session(&client, MessageType::SessionAccept, &answer),
        Ok(agreed)
    );
    assert_eq!(agreed.max_datagram_payload, 1200);
    assert_eq!(agreed.max_file_bitrate_kbps, 5_000);
    assert_eq!(negotiate_session(&client, &server), Ok(agreed));
    assert_eq!(
        client_accepts_session(&client, MessageType::Ping, &answer),
        Err(QuicTransportError::ProtocolState(
            ProtocolStateFailure::ExpectedSessionAcceptance(MessageType::Ping)
        ))
    );
    assert_eq!(
        server_accepts_session(&server, MessageType::Pong, &request).err(),
        Some(QuicTransportError::ProtocolState(
            ProtocolStateFailure::ExpectedSessionOffer(MessageType::Pong)
        ))
    );
    assert_eq!(
        application_session_offer(&config("5"), None).err(),
        Some(QuicTransportError::Datagram(DatagramFailure::NotNegotiated))
    );
}

#[test]
fn playout_never_goes_back() {
    let now = Instant { nanos: 0 };
    let packet = |sequence_number: u64| AudioPacket {
        metadata: AudioPacketMetadata {
            sequence_number,
            capture_timestamp_us: 0,
            codec: AudioCodec::Opus,
            channels: 1,
            sample_rate_hz: 48_000,
        },
        payload: vec![1],
    };
    let mut buffer = AudioJitterBuffer::new(AudioJitterConfig::default()).unwrap();
    for sequence in [12, 10, 11] {
        buffer.push(packet(sequence), now).unwrap();
    }
    let mut played = Vec::new();
    while let Some(item) = buffer.pop_ready(now.plus(Duration::from_millis(30))) {
        match item {
            AudioPlayoutItem::Packet(packet) => played.push(packet.metadata.sequence_number),
            AudioPlayoutItem::PacketLoss { sequence_number } => played.push(sequence_number),
        }
    }
    assert_eq!(played, vec![10, 11, 12]);
    assert!(!buffer.push(packet(11), now).unwrap());
}

#[test]
fn playout_has_no_gaps_while_nothing_is_evicted() {
    let now = Instant { nanos: 0 };
    let packet = |sequence_number: u64| AudioPacket {
        metadata: AudioPacketMetadata {
            sequence_number,
            capture_timestamp_us: 0,
            codec: AudioCodec::Opus,
            channels: 1,
            sample_rate_hz: 48_000,
        },
        payload: vec![1],
    };
    let mut buffer = AudioJitterBuffer::new(AudioJitterConfig::default()).unwrap();
    for sequence in [10, 12, 13] {
        buffer.push(packet(sequence), now).unwrap();
    }
    assert_eq!(
        buffer.pop_ready(now),
        Some(AudioPlayoutItem::Packet(packet(10)))
    );
    assert_eq!(buffer.pop_ready(now), None);
    assert!(!buffer.push(packet(9), now).unwrap());
    assert!(buffer.push(packet(14), now).unwrap());
    assert!(!buffer.push(packet(14), now).unwrap());
    assert_eq!(
        buffer.pop_ready(now),
        Some(AudioPlayoutItem::PacketLoss {
            sequence_number: 11
        })
    );
    assert!(!buffer.push(packet(11), now).unwrap());
    assert_eq!(
        buffer.pop_ready(now),
        Some(AudioPlayoutItem::Packet(packet(12)))
    );
    assert_eq!(buffer.stats().evicted_packets, 0);
}

#[test]
fn own_changes_and_changes_already_taken_are_no_news() {
    let state = |origin: u8| {
        ClipboardState::new(ClipboardPermission::Bidirectional, [origin; 16], 1024).unwrap()
    };
    let (mut here, mut there) = (state(1), state(2));
    let change = here.prepare_local_text("text").unwrap();
    assert_eq!(here.receive(&change), Ok(None));
    let taken = there.receive(&change).unwrap().unwrap();
    assert_eq!(taken.text, "text");
    assert_eq!(taken.change_sequence, 1);
    assert_eq!(there.receive(&change), Ok(None));
    let mut other = state(3);
    let other_change = other.prepare_local_text("text").unwrap();
    assert!(there.receive(&other_change).unwrap().is_some());
    there.reset_remote_state();
    assert!(there.receive(&change).unwrap().is_some());
}

#[test]
fn repeated_state_changes_are_suppressed_but_wheel_steps_are_not() {
    let mut receiver = ReliableInputReceiver::new();
    let press = encode_reliable_input(ReliableInputEvent::Key {
        key_code: 9,
        pressed: true,
        modifiers: 0,
    });
    let wheel = encode_reliable_input(ReliableInputEvent::Wheel {
        delta_x: 0,
        delta_y: 1,
        display_id: 0,
    });
    assert!(receiver.apply(1, &press).unwrap().is_some());
    assert!(receiver.apply(2, &press).unwrap().is_none());
    assert!(receiver.apply(3, &wheel).unwrap().is_some());
    assert!(receiver.apply(4, &wheel).unwrap().is_some());
    assert_eq!(receiver.release_all().len(), 1);
    assert!(receiver.release_all().is_empty());
}

#[test]
fn cancellations_round_trip() {
    for reason in [
        FileCancelReason::User,
        FileCancelReason::PermissionDenied,
        FileCancelReason::InvalidData,
        FileCancelReason::IntegrityFailure,
        FileCancelReason::SessionClosed,
    ] {
        let payload = encode_file_cancel([4; 16], reason).unwrap();
        assert_eq!(decode_file_cancel(&payload), Ok(([4; 16], reason)));
        assert_eq!(FileCancelReason::try_from(reason.code()), Ok(reason));
    }
    assert_eq!(
        encode_file_cancel([0; 16], FileCancelReason::User),
        Err(FileTransferError::ZeroTransferId)
    );
    assert_eq!(
        FileCancelReason::try_from(99),
        Err(FileTransferError::UnknownCancelReason(99))
    );
}

#[test]
fn transfer_errors_name_what_went_wrong() {
    let metadata = FileTransferMetadata {
        transfer_id: [1; 16],
        file_name: "file".to_owned(),
        file_size: 4,
        resume_offset: 0,
        sha256: digest(b"data"),
    };
    let start = || FileTransferReceiver::start(metadata.clone(), 100, true, None).unwrap();
    let chunk = |offset: u64, data: &[u8]| FileChunk {
        transfer_id: [1; 16],
        offset,
        data: data.to_vec(),
    };
    assert_eq!(
        FileTransferReceiver::start(metadata.clone(), 3, true, None).err(),
        Some(FileTransferError::FileTooLarge(4))
    );
    assert_eq!(
        FileTransferReceiver::start(metadata.clone(), 100, false, None).err(),
        Some(FileTransferError::PermissionDenied)
    );
    let mut receiver = start();
    assert_eq!(
        receiver.accept_chunk(&chunk(1, b"d")).err(),
        Some(FileTransferError::UnexpectedOffset {
            expected: 0,
            received: 1
        })
    );
    assert_eq!(
        receiver.accept_chunk(&chunk(0, b"data!")).err(),
        Some(FileTransferError::ChunkExceedsFileSize)
    );
    let foreign = FileChunk {
        transfer_id: [2; 16],
        offset: 0,
        data: vec![1],
    };
    assert_eq!(
        receiver.accept_chunk(&foreign).err(),
        Some(FileTransferError::TransferIdMismatch)
    );
    receiver.accept_chunk(&chunk(0, b"da")).unwrap();
    assert_eq!(receiver.progress().completed_bytes, 2);
    assert_eq!(receiver.finish().err(), Some(FileTransferError::Incomplete));
    let mut receiver = start();
    receiver.accept_chunk(&chunk(0, b"da")).unwrap();
    receiver.accept_chunk(&chunk(2, b"ta")).unwrap();
    assert_eq!(receiver.finish().unwrap(), metadata);
    let mut receiver = start();
    receiver.cancel();
    assert_eq!(
        receiver.accept_chunk(&chunk(0, b"da")).err(),
        Some(FileTransferError::Cancelled)
    );
    assert_eq!(receiver.finish().err(), Some(FileTransferError::Cancelled));
}

fn record(peer_id: &str) -> TrustedPeerRecord {
    let candidate = PairingCandidate::new(peer_id.to_owned(), [7; 32], vec![1, 2, 3]).unwrap();
    let fingerprint = candidate.fingerprint();
    candidate.confirm(&fingerprint, 5).unwrap()
}

#[test]
fn fingerprint_covers_the_key_and_the_certificate() {
    let candidate = PairingCandidate::new("peer".to_owned(), [7; 32], vec![1, 2, 3]).unwrap();
    let mut covered = b"rustadmin-peer-pairing-v1".to_vec();
    covered.extend_from_slice(&[7; 32]);
    covered.extend_from_slice(&digest(&[1, 2, 3]));
    let expected: Vec<String> = digest(&covered)
        .iter()
        .map(|byte| format!("{:02X}", byte))
        .collect();
    assert_eq!(candidate.fingerprint(), expected.join(":"));
    assert_eq!(record("peer").certificate_pin, digest(&[1, 2, 3]));
}

#[test]
fn written_records_are_read_back() {
    let record = record("peer-1");
    let persisted = PersistedTrustedPeer::from_record(&record);
    assert_eq!(persisted.version, 1);
    assert_eq!(persisted.certificate_der_base64, "AQID");
    assert_eq!(
        load_record("peer-1", 400, Some(PersistedTrustedPeer::from_record(&record))),
        Ok(record.duplicate())
    );
    assert_eq!(
        load_record("peer-2", 400, Some(PersistedTrustedPeer::from_record(&record))),
        Err(PairingError::InvalidRecord)
    );
    assert_eq!(decode_record(400, None), Err(PairingError::InvalidRecord));
    assert_eq!(
        decode_record(65_537, Some(PersistedTrustedPeer::from_record(&record))),
        Err(PairingError::InvalidRecord)
    );
    let damaged = PersistedTrustedPeer {
        identity_key_base64: "?".to_owned(),
        ..PersistedTrustedPeer::from_record(&record)
    };
    assert_eq!(damaged.into_record(), Err(PairingError::InvalidRecord));
    assert_eq!(persisted.into_record(), Ok(record));
    assert_eq!(key_of_bytes(&[1; 31]), Err(PairingError::InvalidRecord));
    assert_eq!(key_of_bytes(&[1; 32]), Ok([1; 32]));
}

#[test]
fn records_are_listed_by_peer() {
    let mut records = Vec::new();
    for peer_id in ["b", "a", "aa"] {
        list_record(&mut records, record(peer_id));
    }
    let listed: Vec<&str> = records
        .iter()
        .map(|record| record.peer_id.as_str())
        .collect();
    assert_eq!(listed, vec!["a", "aa", "b"]);
    assert!(check_listing(4_095).is_ok());
    assert_eq!(check_listing(4_096), Err(PairingError::InvalidRecord));
    assert_eq!(
        record_file_name("abc").unwrap(),
        "ba7816bf8f01cfea414140de5dae2223b00361a396177a9cb410ff61f20015ad.json"
    );
    assert_eq!(record_file_name("a\n"), Err(PairingError::InvalidPeerId));
}

#[test]
fn pairing_errors_name_what_went_wrong() {
    let candidate = |peer_id: &str, key: u8, certificate: Vec<u8>| {
        PairingCandidate::new(peer_id.to_owned(), [key; 32], certificate).err()
    };
    assert_eq!(candidate("", 7, vec![1]), Some(PairingError::InvalidPeerId));
    assert_eq!(
        candidate("peer", 0, vec![1]),
        Some(PairingError::InvalidIdentityKey)
    );
    assert_eq!(
        candidate("peer", 7, vec![]),
        Some(PairingError::InvalidCertificate)
    );
    let other = PairingCandidate::new("peer".to_owned(), [7; 32], vec![1]).unwrap();
    assert_eq!(
        other.confirm("00", 1).err(),
        Some(PairingError::FingerprintMismatch)
    );
    let mut store = MemoryTrustedPeerStore::default();
    store.insert(record("a")).unwrap();
    store.insert(record("b")).unwrap();
    assert_eq!(store.load("a").unwrap(), Some(record("a")));
    assert_eq!(store.load("c").unwrap(), None);
}

#[test]
fn accepted_configurations_are_bounded() {
    let config = |port: &str, connect: &str, keepalive: &str, mbps: &str| {
        let options = NetworkOptions {
            listen_port: port.to_owned(),
            connect_timeout_ms: connect.to_owned(),
            keepalive_interval_ms: keepalive.to_owned(),
            file_bandwidth_mbps: mbps.to_owned(),
            ..NetworkOptions::default()
        };
        NetworkTransportConfig::from_values(&options, None, ())
    };
    assert!(config("1", "250", "1000", "10000").is_ok());
    assert!(config("65535", "60000", "60000", "0").is_ok());
    assert!(config("0", "250", "1000", "1").is_err());
    assert!(config("1", "249", "1000", "1").is_err());
    assert!(config("1", "60001", "1000", "1").is_err());
    assert!(config("1", "250", "60001", "1").is_err());
    assert!(config("1", "250", "1000", "10001").is_err());
}

#[test]
fn targets_stay_within_their_limits() {
    let limits = AdaptationLimits {
        minimum_video_bitrate_kbps: 500,
        maximum_video_bitrate_kbps: 5_000,
        maximum_fps: 60,
        maximum_audio_bitrate_kbps: 96,
        maximum_file_bitrate_kbps: 20_000,
    };
    let mut adapter = BandwidthAdapter::new(limits).unwrap();
    for loss in [0.0f32, 50.0, 0.0, 7.0, f32::NAN] {
        for _ in 0..20 {
            let target = adapter.update(AdaptationMetrics {
                packet_loss_percent: Single {
                    bits: loss.to_bits(),
                },
                frame_completion_percent: Single {
                    bits: 100.0f32.to_bits(),
                },
                estimated_bandwidth_kbps: 90_000,
                ..AdaptationMetrics::default()
            });
            assert!((500..=5_000).contains(&target.video_bitrate_kbps));
            assert!(target.max_fps <= 60);
            assert_eq!(target, adapter.target());
        }
    }
    assert_eq!(
        BandwidthAdapter::new(AdaptationLimits {
            minimum_video_bitrate_kbps: 0,
            ..limits
        })
        .err(),
        Some(AdaptationError::InvalidLimits)
    );
    for (left, right) in [(1.0f32, 2.0f32), (-1.0, 1.0), (0.0, -0.0), (f32::NAN, 1.0)] {
        let (one, other) = (
            Single {
                bits: left.to_bits(),
            },
            Single {
                bits: right.to_bits(),
            },
        );
        assert_eq!(one.at_least(other), left >= right);
        assert_eq!(one.less_than(other), left < right);
        assert_eq!(other.at_least(one), right >= left);
        assert_eq!(other.less_than(one), right < left);
    }
}

#[test]
fn delays_grow_up_to_their_maximum() {
    let policy = ReconnectPolicy {
        initial_delay: Duration::from_millis(100),
        maximum_delay: Duration::from_millis(1_000),
        maximum_attempts: 10,
        jitter_percent: 0,
    };
    let mut state = ReconnectState::new(policy).unwrap();
    let mut last = 0;
    for _ in 0..10 {
        let delay = state.next_delay(7).unwrap().as_millis();
        assert!(last <= delay && delay <= 1_000);
        last = delay;
    }
    assert_eq!(last, 1_000);
    state.on_connected();
    assert_eq!(state.next_delay(7).unwrap(), Duration::from_millis(100));
    assert_eq!(state.manual_delay(), Duration::from_millis(0));
    assert_eq!(state.generation(), 1);
    assert_eq!(
        ReconnectState::new(ReconnectPolicy {
            jitter_percent: 101,
            ..policy
        })
        .err(),
        Some(RecoveryError::InvalidPolicy)
    );
}

#[test]
fn pieces_cover_the_frame_and_pauses_come_between() {
    let steps = plan_write(12_345, true, true);
    assert_eq!(steps[0].start, 0);
    assert_eq!(steps[steps.len() - 1].end, 12_345);
    for pair in steps.windows(2) {
        assert_eq!(pair[0].end, pair[1].start);
    }
    let pauses: Vec<usize> = (0..steps.len())
        .filter(|index| steps[*index].delay_after)
        .collect();
    assert_eq!(pauses, vec![3, 7]);
}

#[test]
fn encrypted_messages_come_back_in_order() {
    let (mut sender, mut receiver) = (Encrypt::new([9; 32]), Encrypt::new([9; 32]));
    for message in [&b"one"[..], b"", b"three"] {
        let mut bytes = sender.enc(message);
        assert_eq!(bytes.len(), message.len() + 16);
        receiver.dec(&mut bytes).unwrap();
        assert_eq!(bytes, message);
    }
    let first = sender.enc(b"first");
    let mut second = sender.enc(b"second");
    assert!(receiver.dec(&mut second).is_err());
    assert_ne!(first, second);
    assert_ne!(get_nonce(1), get_nonce(2));
    let copy = sender.duplicate();
    assert_eq!((copy.0, copy.1, copy.2), (sender.0, sender.1, sender.2));
}

#[test]
fn outbox_never_holds_more_than_its_capacity() {
    let mut queue: OutboundQueue<()> = OutboundQueue::new(3);
    for number in 0..10u8 {
        let message = OutboundMessage {
            bytes: vec![number],
            kind: "message",
            encrypt: true,
            completion: None,
        };
        let _ = queue.enqueue_latest(u64::from(number % 4), message);
        assert!(queue.len() <= 3);
    }
    assert_eq!(queue.len(), 3);
}

#[test]
fn frame_comes_together_within_the_deadline() {
    let config = VideoReassemblyConfig::default();
    let deadline = config.fragment_deadline;
    let metadata = VideoFrameMetadata {
        frame_id: 3,
        codec: VideoCodec::H264,
        flags: 0,
        presentation_timestamp_us: 1,
    };
    let frame: Vec<u8> = (0..3_000).map(|index| index as u8).collect();
    let packets = fragment_video_frame([7; 16], 1, 42, metadata, &frame, 800).unwrap();
    assert!(packets.len() > 3);
    let start = Instant { nanos: 5 };
    let mut reassembler = VideoReassembler::new(config).unwrap();
    let mut arrivals = vec![2, 0, 2, 1];
    arrivals.extend(3..packets.len());
    arrivals.push(0);
    let last = arrivals.len() - 1;
    for (place, index) in arrivals.into_iter().enumerate() {
        let now = if place == 0 {
            start
        } else {
            start.plus(Duration {
                nanos: deadline.nanos - 1,
            })
        };
        let outcome = reassembler.push(&packets[index], now).unwrap();
        assert_eq!(outcome.frame.is_some(), place == last - 1);
        if let Some(complete) = outcome.frame {
            assert_eq!(complete.payload, frame);
        }
        assert!(reassembler.pending_frames() <= 1);
        assert!(reassembler.pending_memory_bytes() <= frame.len());
    }
}

#[test]
fn releases_leave_nothing_pressed() {
    let mut receiver = ReliableInputReceiver::new();
    let down = [
        ReliableInputEvent::Key {
            key_code: 9,
            pressed: true,
            modifiers: 0,
        },
        ReliableInputEvent::Key {
            key_code: 4,
            pressed: true,
            modifiers: 0,
        },
        ReliableInputEvent::MouseButton {
            button: MouseButton::Back,
            pressed: true,
            x: 1,
            y: 2,
            display_id: 0,
        },
    ];
    let mut sequence = 0;
    for event in down {
        sequence += 1;
        receiver
            .apply(sequence, &encode_reliable_input(event))
            .unwrap();
    }
    let mut other = ReliableInputReceiver::new();
    sequence = 0;
    for event in down {
        sequence += 1;
        other.apply(sequence, &encode_reliable_input(event)).unwrap();
    }
    let releases = receiver.release_all();
    assert_eq!(releases.len(), 3);
    for event in releases {
        sequence += 1;
        assert_eq!(
            other.apply(sequence, &encode_reliable_input(event)),
            Ok(Some(event))
        );
    }
    assert!(other.release_all().is_empty());
}
