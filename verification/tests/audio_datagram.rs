use rustadmin_transport::time::{Duration, Instant};
use rustadmin_transport::transport::audio_datagram::{
    decode_audio_datagram, encode_audio_datagram, AudioCodec, AudioDatagramError,
    AudioJitterBuffer, AudioJitterConfig, AudioPacket, AudioPacketMetadata, AudioPlayoutItem,
    MAX_AUDIO_SEQUENCE_AHEAD,
};

fn metadata(sequence_number: u64) -> AudioPacketMetadata {
    AudioPacketMetadata {
        sequence_number,
        capture_timestamp_us: sequence_number * 20_000,
        codec: AudioCodec::Opus,
        channels: 2,
        sample_rate_hz: 48_000,
    }
}

fn packet(sequence_number: u64) -> AudioPacket {
    AudioPacket {
        metadata: metadata(sequence_number),
        payload: vec![sequence_number as u8; 20],
    }
}

#[test]
fn audio_datagram_round_trip() {
    let datagram = encode_audio_datagram([3; 16], 7, metadata(5), &[1, 2, 3], 1200).unwrap();
    assert_eq!(
        decode_audio_datagram(&datagram).unwrap(),
        AudioPacket {
            metadata: metadata(5),
            payload: vec![1, 2, 3],
        }
    );
}

#[test]
fn jitter_buffer_orders_packets_and_detects_duplicate() {
    let now = Instant { nanos: 0 };
    let mut buffer = AudioJitterBuffer::new(AudioJitterConfig::default()).unwrap();
    assert!(buffer.push(packet(2), now).unwrap());
    assert!(buffer.push(packet(1), now).unwrap());
    assert!(!buffer.push(packet(1), now).unwrap());
    assert!(buffer.push(packet(3), now).unwrap());
    assert_eq!(
        buffer.pop_ready(now),
        Some(AudioPlayoutItem::Packet(packet(1)))
    );
    assert_eq!(buffer.stats().duplicate_packets, 1);
}

#[test]
fn missing_packet_produces_loss_concealment_event() {
    let now = Instant { nanos: 0 };
    let mut buffer = AudioJitterBuffer::new(AudioJitterConfig {
        start_packets: 2,
        ..AudioJitterConfig::default()
    })
    .unwrap();
    buffer.push(packet(1), now).unwrap();
    buffer.push(packet(3), now).unwrap();
    assert_eq!(
        buffer.pop_ready(now),
        Some(AudioPlayoutItem::Packet(packet(1)))
    );
    assert_eq!(buffer.pop_ready(now), None);
    assert_eq!(
        buffer.pop_ready(now.plus(Duration::from_millis(31))),
        Some(AudioPlayoutItem::PacketLoss { sequence_number: 2 })
    );
}

#[test]
fn late_packet_is_discarded() {
    let now = Instant { nanos: 0 };
    let mut buffer = AudioJitterBuffer::new(AudioJitterConfig {
        start_packets: 1,
        ..AudioJitterConfig::default()
    })
    .unwrap();
    buffer.push(packet(1), now).unwrap();
    buffer.pop_ready(now);
    assert!(!buffer.push(packet(1), now).unwrap());
    assert_eq!(buffer.stats().late_packets, 1);
}

#[test]
fn queue_is_bounded_and_exposes_drift_state() {
    let now = Instant { nanos: 0 };
    let mut buffer = AudioJitterBuffer::new(AudioJitterConfig {
        max_packets: 2,
        start_packets: 2,
        ..AudioJitterConfig::default()
    })
    .unwrap();
    buffer.push(packet(1), now).unwrap();
    buffer.push(packet(2), now).unwrap();
    buffer.push(packet(3), now).unwrap();
    assert_eq!(buffer.state().queue_depth, 2);
    assert_eq!(buffer.state().buffered_capture_span_us, 20_000);
    assert_eq!(buffer.stats().evicted_packets, 1);
}

#[test]
fn oversized_audio_packet_is_rejected() {
    assert_eq!(
        encode_audio_datagram([3; 16], 7, metadata(1), &[1; 2000], 1200),
        Err(AudioDatagramError::DatagramTooSmall(1200))
    );
}

#[test]
fn malicious_sequence_jump_is_rejected() {
    let now = Instant { nanos: 0 };
    let mut buffer = AudioJitterBuffer::new(AudioJitterConfig::default()).unwrap();
    buffer.push(packet(1), now).unwrap();
    assert_eq!(
        buffer.push(packet(MAX_AUDIO_SEQUENCE_AHEAD + 2), now),
        Err(AudioDatagramError::SequenceGap)
    );
}
