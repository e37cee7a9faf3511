use rustadmin_transport::time::Duration;
use rustadmin_transport::transport::configuration::{
    ListenAddress, NetworkConfigError, NetworkOptions, NetworkTransportConfig, ParsedAddress,
    RemoteTransportMode,
};
use rustadmin_transport::transport::quic::DEFAULT_QUIC_PORT;
use std::path::PathBuf;

#[test]
fn defaults_enable_quic_with_automatic_tcp_fallback() {
    let config = NetworkTransportConfig::from_values(
        &NetworkOptions::default(),
        None,
        PathBuf::from("trusted"),
    )
    .unwrap();
    assert_eq!(config.mode, RemoteTransportMode::QuicPreferred);
    assert_eq!(config.listen_port, DEFAULT_QUIC_PORT);
    assert_eq!(config.connect_timeout, Duration::from_secs(5));
    assert_eq!(config.trusted_peer_store, PathBuf::from("trusted"));
}

#[test]
fn disable_udp_is_an_emergency_kill_switch() {
    let options = NetworkOptions {
        remote_transport: "quic-only".to_owned(),
        disable_udp: "Y".to_owned(),
        ..NetworkOptions::default()
    };
    let config =
        NetworkTransportConfig::from_values(&options, None, PathBuf::from("trusted")).unwrap();
    assert_eq!(config.mode, RemoteTransportMode::Tcp);
}

#[test]
fn quic_options_are_strictly_validated() {
    let options = NetworkOptions {
        remote_transport: "quic-preferred".to_owned(),
        listen_address: "10.20.30.2".to_owned(),
        listen_port: "48101".to_owned(),
        ..NetworkOptions::default()
    };
    let parsed = ParsedAddress {
        address: ListenAddress::V4([10, 20, 30, 2]),
        text: "10.20.30.2".to_owned(),
    };
    let config =
        NetworkTransportConfig::from_values(&options, Some(parsed), PathBuf::from("trusted"))
            .unwrap();
    assert_eq!(config.mode, RemoteTransportMode::QuicPreferred);
    assert_eq!(config.listen_address, ListenAddress::V4([10, 20, 30, 2]));
    assert_eq!(config.listen_port, 48101);
}

#[test]
fn ipv6_disabled_rejects_ipv6_listener() {
    let options = NetworkOptions {
        listen_address: "::".to_owned(),
        enable_ipv6: "N".to_owned(),
        ..NetworkOptions::default()
    };
    let parsed = ParsedAddress {
        address: ListenAddress::V6([0; 8]),
        text: "::".to_owned(),
    };
    assert!(matches!(
        NetworkTransportConfig::from_values(&options, Some(parsed), PathBuf::from("trusted")),
        Err(NetworkConfigError::InvalidListenAddress(_))
    ));
}

fn with(change: fn(&mut NetworkOptions)) -> Result<NetworkTransportConfig<()>, NetworkConfigError> {
    let mut options = NetworkOptions::default();
    change(&mut options);
    NetworkTransportConfig::from_values(&options, None, ())
}

#[test]
fn each_option_has_its_own_error() {
    assert_eq!(
        with(|options| options.remote_transport = "udp".to_owned()),
        Err(NetworkConfigError::InvalidMode("udp".to_owned()))
    );
    assert_eq!(
        with(|options| options.listen_address = "host".to_owned()),
        Err(NetworkConfigError::InvalidListenAddress("host".to_owned()))
    );
    assert_eq!(
        with(|options| options.listen_port = "65536".to_owned()),
        Err(NetworkConfigError::InvalidPort("65536".to_owned()))
    );
    assert_eq!(
        with(|options| options.connect_timeout_ms = "soon".to_owned()),
        Err(NetworkConfigError::InvalidConnectTimeout("soon".to_owned()))
    );
    assert_eq!(
        with(|options| options.connect_timeout_ms = "0249".to_owned()),
        Err(NetworkConfigError::InvalidConnectTimeout("249".to_owned()))
    );
    assert_eq!(
        with(|options| options.keepalive_interval_ms = "999".to_owned()),
        Err(NetworkConfigError::InvalidKeepalive("999".to_owned()))
    );
    assert_eq!(
        with(|options| options.file_bandwidth_mbps = "-1".to_owned()),
        Err(NetworkConfigError::InvalidFileBandwidth("-1".to_owned()))
    );
    assert_eq!(
        with(|options| options.keepalive_interval_ms = "0".to_owned())
            .unwrap()
            .keepalive_interval,
        Duration::from_secs(0)
    );
}
