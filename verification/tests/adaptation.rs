use rustadmin_transport::transport::adaptation::{
    AdaptationLimits, AdaptationMetrics, BandwidthAdapter, Single,
};

fn single(value: f32) -> Single {
    Single {
        bits: value.to_bits(),
    }
}

fn adapter() -> BandwidthAdapter {
    BandwidthAdapter::new(AdaptationLimits {
        minimum_video_bitrate_kbps: 500,
        maximum_video_bitrate_kbps: 50_000,
        maximum_fps: 60,
        maximum_audio_bitrate_kbps: 96,
        maximum_file_bitrate_kbps: 20_000,
    })
    .unwrap()
}

#[test]
fn severe_loss_reduces_disposable_media_before_interactive_channels() {
    let mut adapter = adapter();
    let target = adapter.update(AdaptationMetrics {
        packet_loss_percent: single(10.0),
        datagram_drop_percent: single(12.0),
        frame_completion_percent: single(70.0),
        estimated_bandwidth_kbps: 10_000,
        ..Default::default()
    });
    assert!(target.video_bitrate_kbps <= 6_500);
    assert_eq!(target.max_fps, 20);
    assert_eq!(target.resolution_scale_percent, 50);
    assert_eq!(target.file_bitrate_kbps, 500);
}

#[test]
fn healthy_path_recovers_gradually_with_headroom() {
    let mut adapter = adapter();
    adapter.update(AdaptationMetrics {
        packet_loss_percent: single(10.0),
        frame_completion_percent: single(70.0),
        estimated_bandwidth_kbps: 10_000,
        ..Default::default()
    });
    let degraded = adapter.target().video_bitrate_kbps;
    let recovered = adapter.update(AdaptationMetrics {
        frame_completion_percent: single(100.0),
        estimated_bandwidth_kbps: 50_000,
        ..Default::default()
    });
    assert!(recovered.video_bitrate_kbps > degraded);
    assert!(recovered.video_bitrate_kbps < 50_000);
}
