use rustadmin_transport::time::{Duration, Instant};
use rustadmin_transport::transport::video_datagram::{
    fragment_video_frame, VideoCodec, VideoDatagramError, VideoFrameMetadata, VideoReassembler,
    VideoReassemblyConfig,
};

fn metadata(frame_id: u64) -> VideoFrameMetadata {
    VideoFrameMetadata {
        frame_id,
        codec: VideoCodec::H264,
        flags: 0,
        presentation_timestamp_us: 99,
    }
}

fn datagrams(frame_id: u64, bytes: &[u8], max_size: usize) -> Vec<Vec<u8>> {
    fragment_video_frame([7; 16], 1, 42, metadata(frame_id), bytes, max_size).unwrap()
}

#[test]
fn fragments_respect_negotiated_datagram_size() {
    let frame = vec![9; 4096];
    let packets = datagrams(1, &frame, 1200);
    assert!(packets.len() > 1);
    assert!(packets.iter().all(|packet| packet.len() <= 1200));
}

#[test]
fn reassembles_out_of_order_and_ignores_duplicate() {
    let frame: Vec<u8> = (0..5000).map(|index| index as u8).collect();
    let mut packets = datagrams(1, &frame, 800);
    packets.reverse();
    packets.insert(1, packets[0].clone());
    let now = Instant { nanos: 0 };
    let mut reassembler = VideoReassembler::new(VideoReassemblyConfig::default()).unwrap();
    let mut completed = None;
    for packet in packets {
        if let Some(frame) = reassembler.push(&packet, now).unwrap().frame {
            completed = Some(frame);
        }
    }
    assert_eq!(completed.unwrap().payload, frame);
    assert_eq!(reassembler.stats().duplicate_fragments, 1);
}

#[test]
fn incomplete_frame_expires_without_blocking_newer_frame() {
    let now = Instant { nanos: 0 };
    let mut reassembler = VideoReassembler::new(VideoReassemblyConfig {
        fragment_deadline: Duration::from_millis(10),
        keyframe_request_after_drops: 1,
        ..VideoReassemblyConfig::default()
    })
    .unwrap();
    let old = datagrams(1, &[1; 3000], 700);
    reassembler.push(&old[0], now).unwrap();
    let expired = reassembler.expire(now.plus(Duration::from_millis(11)));
    assert_eq!(expired.dropped_frames, 1);
    assert!(expired.request_keyframe);

    let mut complete = None;
    for packet in datagrams(2, &[2; 1000], 700) {
        complete = reassembler
            .push(&packet, now.plus(Duration::from_millis(12)))
            .unwrap()
            .frame
            .or(complete);
    }
    assert_eq!(complete.unwrap().metadata.frame_id, 2);
}

#[test]
fn completing_new_frame_discards_old_partial_frame() {
    let now = Instant { nanos: 0 };
    let mut reassembler = VideoReassembler::new(VideoReassemblyConfig::default()).unwrap();
    let old = datagrams(1, &[1; 3000], 700);
    reassembler.push(&old[0], now).unwrap();
    for packet in datagrams(2, &[2; 100], 700) {
        reassembler.push(&packet, now).unwrap();
    }
    assert_eq!(reassembler.pending_memory_bytes(), 0);
    assert_eq!(reassembler.push(&old[1], now).unwrap().frame, None);
    assert_eq!(reassembler.stats().obsolete_fragments, 2);
}

#[test]
fn bounded_pending_frames_evict_oldest() {
    let now = Instant { nanos: 0 };
    let mut reassembler = VideoReassembler::new(VideoReassemblyConfig {
        max_pending_frames: 2,
        ..VideoReassemblyConfig::default()
    })
    .unwrap();
    for frame_id in 1..=3 {
        let packets = datagrams(frame_id, &[frame_id as u8; 3000], 700);
        reassembler.push(&packets[0], now).unwrap();
    }
    assert_eq!(reassembler.pending_frames(), 2);
    assert_eq!(reassembler.stats().evicted_frames, 1);
}

#[test]
fn rejects_conflicting_duplicate_and_releases_memory() {
    let now = Instant { nanos: 0 };
    let mut packets = datagrams(1, &[1; 3000], 700);
    let mut reassembler = VideoReassembler::new(VideoReassemblyConfig::default()).unwrap();
    reassembler.push(&packets[0], now).unwrap();
    *packets[0].last_mut().unwrap() ^= 1;
    assert_eq!(
        reassembler.push(&packets[0], now),
        Err(VideoDatagramError::ConflictingDuplicate)
    );
    assert_eq!(reassembler.pending_memory_bytes(), 0);
}

#[test]
fn rejects_datagram_too_small_and_sequence_overflow() {
    let frame = [1; 100];
    assert_eq!(
        fragment_video_frame([1; 16], 1, 1, metadata(1), &frame, 76),
        Err(VideoDatagramError::DatagramTooSmall(76))
    );
    assert_eq!(
        fragment_video_frame([1; 16], u64::MAX, 1, metadata(1), &frame, 100),
        Err(VideoDatagramError::SequenceOverflow)
    );
}
