use rustadmin_transport::transport::statistics::RuntimeTransportStats;

#[test]
fn runtime_statistics_reject_impossible_values() {
    let mut stats = RuntimeTransportStats::default();
    assert!(stats.validate());
    stats.packet_loss_ppm = 1_000_001;
    assert!(!stats.validate());
}
