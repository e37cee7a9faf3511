//! The figures that a running connection reports.
use vstd::prelude::*;

verus! {

#[derive(Clone, Debug, Eq, PartialEq)]
pub struct RuntimeTransportStats {
    pub transport: String,
    pub direct: bool,
    pub peer_address: String,
    pub connection_uptime_ms: u64,
    pub rtt_us: u64,
    pub input_latency_us: u64,
    pub video_capture_to_display_us: u64,
    pub audio_capture_to_playback_us: u64,
    pub encoder_latency_us: u64,
    pub decoder_latency_us: u64,
    pub frame_reassembly_latency_us: u64,
    pub audio_jitter_buffer_ms: u32,
    pub video_bitrate_kbps: u32,
    pub audio_bitrate_kbps: u32,
    pub fps: u16,
    pub dropped_frames: u64,
    pub packet_loss_ppm: u32,
    pub datagram_drops: u64,
    pub decoder_queue_depth: u32,
    pub resolution_width: u16,
    pub resolution_height: u16,
    pub current_mtu: u16,
    pub max_datagram_payload: u16,
    pub reconnect_attempts: u32,
}

impl Default for RuntimeTransportStats {
    fn default() -> (stats: RuntimeTransportStats)
        ensures
            stats.transport@.len() == 0,
            stats.peer_address@.len() == 0,
            stats == (RuntimeTransportStats {
                transport: stats.transport,
                direct: false,
                peer_address: stats.peer_address,
                connection_uptime_ms: 0,
                rtt_us: 0,
                input_latency_us: 0,
                video_capture_to_display_us: 0,
                audio_capture_to_playback_us: 0,
                encoder_latency_us: 0,
                decoder_latency_us: 0,
                frame_reassembly_latency_us: 0,
                audio_jitter_buffer_ms: 0,
                video_bitrate_kbps: 0,
                audio_bitrate_kbps: 0,
                fps: 0,
                dropped_frames: 0,
                packet_loss_ppm: 0,
                datagram_drops: 0,
                decoder_queue_depth: 0,
                resolution_width: 0,
                resolution_height: 0,
                current_mtu: 0,
                max_datagram_payload: 0,
                reconnect_attempts: 0,
            }),
            stats.is_possible(),
    {
        RuntimeTransportStats {
            transport: String::new(),
            direct: false,
            peer_address: String::new(),
            connection_uptime_ms: 0,
            rtt_us: 0,
            input_latency_us: 0,
            video_capture_to_display_us: 0,
            audio_capture_to_playback_us: 0,
            encoder_latency_us: 0,
            decoder_latency_us: 0,
            frame_reassembly_latency_us: 0,
            audio_jitter_buffer_ms: 0,
            video_bitrate_kbps: 0,
            audio_bitrate_kbps: 0,
            fps: 0,
            dropped_frames: 0,
            packet_loss_ppm: 0,
            datagram_drops: 0,
            decoder_queue_depth: 0,
            resolution_width: 0,
            resolution_height: 0,
            current_mtu: 0,
            max_datagram_payload: 0,
            reconnect_attempts: 0,
        }
    }
}

impl RuntimeTransportStats {
    /// Whether the figures can come from a connection.
    pub open spec fn is_possible(self) -> bool {
        vstd::utf8::encode_utf8(self.transport@).len() <= 32 && vstd::utf8::encode_utf8(
            self.peer_address@,
        ).len() <= 128 && self.packet_loss_ppm <= 1_000_000 && self.resolution_width <= 16_384
            && self.resolution_height <= 16_384 && self.fps <= 240
    }

    /// Whether the figures can come from a connection.
    pub fn validate(&self) -> (possible: bool)
        ensures
            possible == self.is_possible(),
    {
        self.transport.as_str().as_bytes().len() <= 32
            && self.peer_address.as_str().as_bytes().len() <= 128 && self.packet_loss_ppm
            <= 1_000_000 && self.resolution_width <= 16_384 && self.resolution_height <= 16_384
            && self.fps <= 240
    }
}

/// Figures can come from a connection exactly where its name has at most 32 bytes and the peer's
/// address 128, not more than all packets are lost, and the picture is at most 16384 by 16384 with
/// 240 frames a second.
pub proof fn lemma_possible_figures(stats: RuntimeTransportStats)
    ensures
        stats.is_possible() <==> {
            &&& vstd::utf8::encode_utf8(stats.transport@).len() <= 32
            &&& vstd::utf8::encode_utf8(stats.peer_address@).len() <= 128
            &&& stats.packet_loss_ppm <= 1_000_000
            &&& stats.resolution_width <= 16_384
            &&& stats.resolution_height <= 16_384
            &&& stats.fps <= 240
        },
{
}

} // verus!
