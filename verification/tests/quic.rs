use rustadmin_transport::time::Duration;
use rustadmin_transport::transport::identity::{
    check_file_size, plan_identity, IdentityAction, LocalTlsIdentity,
};
use rustadmin_transport::transport::protocol::{MessageType, SessionId, FLAG_ACK_REQUIRED};
use rustadmin_transport::transport::quic::{
    build_transport_config, elapsed_us, ensure_udp_enabled, verify_peer_certificate,
    AuthenticatedControlChannel, AuthenticationFailure, CertificatePin, ConfigurationFailure,
    DeviceIdentity, ProtocolStateFailure, QuicTransportError, QuicTransportOptions, TlsCredentials,
    DEFAULT_INITIAL_MTU,
};
use sha2::{Digest, Sha256};
use sodiumoxide::crypto::sign;

#[test]
fn identity_binding_rejects_mismatched_keypair() {
    sodiumoxide::init().unwrap();
    let (public_key, secret_key) = sign::gen_keypair();
    let (other_public_key, _) = sign::gen_keypair();
    assert!(DeviceIdentity::from_bytes(&secret_key.0, &public_key.0).is_ok());
    assert!(DeviceIdentity::from_bytes(&secret_key.0, &other_public_key.0).is_err());
}

#[test]
fn transport_rejects_mtu_below_quic_minimum() {
    let options = QuicTransportOptions {
        initial_mtu: DEFAULT_INITIAL_MTU - 1,
        ..Default::default()
    };
    assert!(build_transport_config(&options).is_err());
}

#[test]
fn default_transport_options_are_accepted() {
    let settings = build_transport_config(&QuicTransportOptions::default()).unwrap();
    assert_eq!(settings.initial_mtu, DEFAULT_INITIAL_MTU);
}

#[test]
fn udp_can_be_switched_off() {
    assert_eq!(ensure_udp_enabled("Y"), Err(QuicTransportError::UdpDisabled));
    assert_eq!(ensure_udp_enabled(""), Ok(()));
    assert_eq!(ensure_udp_enabled("YY"), Ok(()));
}

#[test]
fn keys_of_the_wrong_length_are_refused() {
    let (public_key, secret_key) = sign::gen_keypair();
    assert_eq!(
        DeviceIdentity::from_keys(&secret_key.0[..63], &public_key.0).err(),
        Some(QuicTransportError::Configuration(
            ConfigurationFailure::InvalidSecretKey
        ))
    );
    assert_eq!(
        DeviceIdentity::from_keys(&secret_key.0, &public_key.0[..31]).err(),
        Some(QuicTransportError::Configuration(
            ConfigurationFailure::InvalidPublicKey
        ))
    );
    assert!(TlsCredentials::new(Vec::new(), vec![1]).is_err());
}

#[test]
fn certificate_is_recognised_by_its_digest() {
    let certificate = b"certificate".to_vec();
    let pin = CertificatePin::from_certificate(&certificate);
    assert_eq!(pin.0[..], Sha256::digest(&certificate)[..]);
    assert_eq!(
        verify_peer_certificate(Some(&vec![certificate.clone(), vec![1]]), pin),
        Ok(())
    );
    assert_eq!(
        verify_peer_certificate(Some(&vec![vec![1], certificate]), pin),
        Err(QuicTransportError::CertificatePinMismatch)
    );
    assert_eq!(
        verify_peer_certificate(Some(&Vec::new()), pin),
        Err(QuicTransportError::MissingPeerCertificate)
    );
    assert_eq!(
        verify_peer_certificate(None, pin),
        Err(QuicTransportError::MissingPeerCertificate)
    );
}

fn device() -> DeviceIdentity {
    sodiumoxide::init().unwrap();
    let (public_key, secret_key) = sign::gen_keypair();
    DeviceIdentity::from_bytes(&secret_key.0, &public_key.0).unwrap()
}

const EXPORTER: [u8; 32] = [8; 32];

fn session() -> SessionId {
    [3; 16]
}

fn authenticated(
    client: &DeviceIdentity,
    server: &DeviceIdentity,
) -> (AuthenticatedControlChannel, AuthenticatedControlChannel) {
    let nonce = [1; 32];
    let request =
        AuthenticatedControlChannel::client_hello(client, session(), &EXPORTER, &nonce, 5).unwrap();
    let (server_channel, response) = AuthenticatedControlChannel::authenticate_server(
        server,
        &client.public_key_bytes(),
        session(),
        &EXPORTER,
        &[2; 32],
        6,
        &request,
    )
    .unwrap();
    let client_channel = AuthenticatedControlChannel::authenticate_client(
        client,
        &server.public_key_bytes(),
        session(),
        &EXPORTER,
        &nonce,
        &response,
    )
    .unwrap();
    (client_channel, server_channel)
}

#[test]
fn both_sides_authenticate_and_a_ping_is_answered() {
    let (client, server) = (device(), device());
    let (mut client_channel, mut server_channel) = authenticated(&client, &server);
    assert_eq!(
        client_channel.peer_identity_key(),
        server.public_key_bytes()
    );
    assert_eq!(
        server_channel.peer_identity_key(),
        client.public_key_bytes()
    );
    assert_eq!(client_channel.session_id(), session());

    let nonce = [9; 8];
    let ping = client_channel.ping(&nonce, 7).unwrap();
    let pong = server_channel.respond_to_ping(&ping, 8).unwrap();
    assert_eq!(client_channel.receive_pong(&pong, &nonce), Ok(()));
    assert_eq!(
        server_channel.respond_to_ping(&ping, 9),
        Err(QuicTransportError::ProtocolState(
            ProtocolStateFailure::ControlSequence
        ))
    );
    let ping = client_channel.ping(&nonce, 10).unwrap();
    let pong = server_channel.respond_to_ping(&ping, 11).unwrap();
    assert_eq!(
        client_channel.receive_pong(&pong, &[0; 8]),
        Err(QuicTransportError::Authentication(
            AuthenticationFailure::InvalidPingResponse
        ))
    );
}

#[test]
fn control_messages_are_numbered_and_bound_to_their_session() {
    let (client, server) = (device(), device());
    let (mut client_channel, mut server_channel) = authenticated(&client, &server);
    let (first, packet) = client_channel
        .send_control(MessageType::KeyframeRequest, FLAG_ACK_REQUIRED, b"", 1)
        .unwrap();
    let (second, _) = client_channel
        .send_control(MessageType::KeyframeRequest, FLAG_ACK_REQUIRED, b"", 2)
        .unwrap();
    assert_eq!(second, first + 1);
    let message = server_channel.receive_control(&packet).unwrap();
    assert_eq!(message.header.message_type, MessageType::KeyframeRequest);
    assert_eq!(message.header.sequence_number, first);
    assert!(server_channel.receive_control(&packet).is_err());
    assert!(matches!(
        client_channel.send_control(MessageType::VideoFragment, 0, b"", 3),
        Err(QuicTransportError::ProtocolState(
            ProtocolStateFailure::InvalidAfterAuthentication(MessageType::VideoFragment)
        ))
    ));
}

#[test]
fn unknown_peers_and_foreign_connections_are_refused() {
    let (client, server, other) = (device(), device(), device());
    let nonce = [1; 32];
    let request =
        AuthenticatedControlChannel::client_hello(&client, session(), &EXPORTER, &nonce, 5)
            .unwrap();
    let refused = |expected: &[u8; 32], exporter: &[u8; 32], request: &[u8]| {
        AuthenticatedControlChannel::authenticate_server(
            &server,
            expected,
            session(),
            exporter,
            &[2; 32],
            6,
            request,
        )
        .err()
        .unwrap()
    };
    assert_eq!(
        refused(&other.public_key_bytes(), &EXPORTER, &request),
        QuicTransportError::Authentication(AuthenticationFailure::ClientNotTrusted)
    );
    assert_eq!(
        refused(&client.public_key_bytes(), &[7; 32], &request),
        QuicTransportError::Authentication(AuthenticationFailure::ClientSignature)
    );
    let mut changed = request.clone();
    let last = changed.len() - 1;
    changed[last] ^= 0x20;
    assert!(matches!(
        refused(&client.public_key_bytes(), &EXPORTER, &changed),
        QuicTransportError::Authentication(
            AuthenticationFailure::ClientSignature
                | AuthenticationFailure::ClientSignatureEncoding
        )
    ));

    let (_, response) = AuthenticatedControlChannel::authenticate_server(
        &server,
        &client.public_key_bytes(),
        session(),
        &EXPORTER,
        &[2; 32],
        6,
        &request,
    )
    .unwrap();
    let client_refuses = |expected: &[u8; 32], nonce: &[u8; 32]| {
        AuthenticatedControlChannel::authenticate_client(
            &client,
            expected,
            session(),
            &EXPORTER,
            nonce,
            &response,
        )
        .err()
        .unwrap()
    };
    assert_eq!(
        client_refuses(&other.public_key_bytes(), &nonce),
        QuicTransportError::Authentication(AuthenticationFailure::ServerNotTrusted)
    );
    assert_eq!(
        client_refuses(&server.public_key_bytes(), &[4; 32]),
        QuicTransportError::Authentication(AuthenticationFailure::ClientNonceMismatch)
    );
}

#[test]
fn close_reason_is_cut_off() {
    assert_eq!(
        AuthenticatedControlChannel::close_reason(&[5; 300]),
        vec![5; 256]
    );
    assert_eq!(
        AuthenticatedControlChannel::close_reason(b"done"),
        b"done".to_vec()
    );
}

#[test]
fn elapsed_time_is_counted_in_microseconds() {
    assert_eq!(elapsed_us(Duration::from_millis(3)), 3_000);
    assert_eq!(elapsed_us(Duration { nanos: u128::MAX }), u64::MAX);
}

#[test]
fn identity_is_loaded_or_made_but_never_completed() {
    assert_eq!(plan_identity(true, true), Ok(IdentityAction::Load));
    assert_eq!(plan_identity(false, false), Ok(IdentityAction::Generate));
    for (certificate, key) in [(true, false), (false, true)] {
        assert_eq!(
            plan_identity(certificate, key),
            Err(QuicTransportError::Configuration(
                ConfigurationFailure::IncompleteIdentity
            ))
        );
    }
    assert!(check_file_size(0, 10).is_err());
    assert!(check_file_size(11, 10).is_err());
    assert!(check_file_size(10, 10).is_ok());
    assert!(LocalTlsIdentity::load(Vec::new(), vec![1]).is_err());
    let identity = LocalTlsIdentity::load(vec![1, 2], vec![3]).unwrap();
    let credentials = identity.credentials().unwrap();
    assert_eq!(credentials.certificate_chain, vec![vec![1, 2]]);
    assert_eq!(credentials.private_key, vec![3]);
    assert_eq!(identity.certificate_bytes(), &[1, 2]);
}
