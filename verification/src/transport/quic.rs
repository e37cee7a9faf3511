//! Peer authentication over a QUIC connection, and the control channel that follows it.
use super::audio_datagram::AudioDatagramError;
use super::input::InputProtocolError;
use super::protocol;
use super::protocol::{ChannelId, MessageHeader, MessageType, ProtocolError, SessionId};
use super::reliable::ReliableChannelKind;
use super::session::SessionNegotiationError;
use super::video_datagram::VideoDatagramError;
use crate::outside;
use crate::time::Duration;
use crate::wire;
use vstd::prelude::*;

verus! {

pub const DEFAULT_QUIC_PORT: u16 = 48100;

pub const DEFAULT_INITIAL_MTU: u16 = 1200;

pub const DEFAULT_DATAGRAM_BUFFER_BYTES: usize = 0x20_0000;

pub const PEER_SERVER_NAME: &'static str = "rustadmin-peer";

/// The protocol name, whose bytes both peers offer in the TLS handshake.
pub const ALPN: &'static str = "rustadmin-quic-v1";

/// Why a configuration is refused.
#[derive(Clone, Debug, Eq, PartialEq)]
pub enum ConfigurationFailure {
    EmptyCertificateChain,
    SodiumUnavailable,
    InvalidSecretKey,
    InvalidPublicKey,
    KeypairMismatch,
    InitialMtuTooSmall(u16),
    IdleTimeoutTooLong,
    IncompleteIdentity,
    IdentityFileSize,
    EmptyIdentityFile,
    /// What another library says of it.
    Other(String),
}

/// Why a peer is not authenticated.
#[derive(Clone, Copy, Debug, Eq, PartialEq, Structural)]
pub enum AuthenticationFailure {
    InvalidClientHelloHeader,
    InvalidServerHelloHeader,
    MalformedClientHello,
    MalformedServerHello,
    ClientSignatureEncoding,
    ServerSignatureEncoding,
    ClientSignature,
    ServerSignature,
    ClientNonceMismatch,
    ClientNotTrusted,
    ServerNotTrusted,
    InvalidPingResponse,
    UnboundedPingRequest,
    KeyingMaterialUnavailable,
}

/// Why a message does not fit the state of the protocol.
#[derive(Clone, Copy, Debug, Eq, PartialEq, Structural)]
pub enum ProtocolStateFailure {
    InvalidAfterAuthentication(MessageType),
    SequenceExhausted,
    ReliableSequenceExhausted,
    VideoSequenceExhausted,
    AudioSequenceExhausted,
    MouseSequenceExhausted,
    SessionChanged,
    ControlSequence,
    NotReliable(ChannelId),
    InvalidOnChannel { message_type: MessageType, kind: ReliableChannelKind },
    MessageTooLong(ReliableChannelKind),
    MessageLength { kind: ReliableChannelKind, length: usize },
    ChannelOrSessionChanged,
    ReliableSequence,
    InvalidPreface,
    DatagramTooLong { length: usize, limit: usize },
    DatagramTruncated,
    DatagramSession,
    InvalidOnDatagram(MessageType),
    OrderingEpochExhausted,
    OrderingEpochTruncated,
    OrderingEpochZero,
    OrderingAcknowledgement(u64),
    FrameIdentifierExhausted,
    MissingCodecPayload,
    NoSwitchDisplay,
    UnparsableMessage,
    InvalidMessageOnChannel(ReliableChannelKind),
    InvalidMessageOnDatagram,
    ExpectedSessionAcceptance(MessageType),
    ExpectedSessionOffer(MessageType),
    Negotiation(SessionNegotiationError),
    DuplicateChannel,
    MissingChannel(ReliableChannelKind),
}

/// Why a datagram is not sent or not taken.
#[derive(Clone, Debug, Eq, PartialEq)]
pub enum DatagramFailure {
    Unsupported,
    NotNegotiated,
    Video(VideoDatagramError),
    Audio(AudioDatagramError),
    Input(InputProtocolError),
    /// What the connection says of it.
    Connection(String),
}

#[derive(Clone, Debug, Eq, PartialEq)]
pub enum QuicTransportError {
    UdpDisabled,
    Configuration(ConfigurationFailure),
    UdpBind(String),
    EndpointClosed,
    Timeout(&'static str),
    Handshake(String),
    CertificatePinMismatch,
    MissingPeerCertificate,
    Authentication(AuthenticationFailure),
    Stream(String),
    Datagram(DatagramFailure),
    ProtocolState(ProtocolStateFailure),
    Protocol(ProtocolError),
}

#[derive(Clone, Copy, Debug, Eq, PartialEq, Structural)]
pub struct QuicTransportOptions {
    pub connect_timeout: Duration,
    pub authentication_timeout: Duration,
    pub idle_timeout: Duration,
    pub keepalive_interval: Duration,
    pub initial_mtu: u16,
    pub datagram_receive_buffer_size: usize,
    pub datagram_send_buffer_size: usize,
}

impl Default for QuicTransportOptions {
    fn default() -> (options: QuicTransportOptions)
        ensures
            options == (QuicTransportOptions {
                connect_timeout: Duration::of_secs(5),
                authentication_timeout: Duration::of_secs(5),
                idle_timeout: Duration::of_secs(15),
                keepalive_interval: Duration::of_secs(5),
                initial_mtu: DEFAULT_INITIAL_MTU,
                datagram_receive_buffer_size: DEFAULT_DATAGRAM_BUFFER_BYTES,
                datagram_send_buffer_size: DEFAULT_DATAGRAM_BUFFER_BYTES,
            }),
    {
        QuicTransportOptions {
            connect_timeout: Duration::from_secs(5),
            authentication_timeout: Duration::from_secs(5),
            idle_timeout: Duration::from_secs(15),
            keepalive_interval: Duration::from_secs(5),
            initial_mtu: DEFAULT_INITIAL_MTU,
            datagram_receive_buffer_size: DEFAULT_DATAGRAM_BUFFER_BYTES,
            datagram_send_buffer_size: DEFAULT_DATAGRAM_BUFFER_BYTES,
        }
    }
}

/// The values that a connection is set up with.
#[derive(Clone, Copy, Debug, Eq, PartialEq, Structural)]
pub struct TransportSettings {
    pub max_idle_timeout_ms: u64,
    pub keep_alive_interval: Option<Duration>,
    pub max_concurrent_bidi_streams: u32,
    pub max_concurrent_uni_streams: u32,
    pub initial_mtu: u16,
    pub min_mtu: u16,
    pub datagram_receive_buffer_size: usize,
    pub datagram_send_buffer_size: usize,
}

/// The largest number that a QUIC variable-length integer can hold.
pub const MAX_VARINT: u64 = 0x3fff_ffff_ffff_ffff;

/// The values that options set a connection up with.
pub open spec fn transport_settings(options: QuicTransportOptions) -> Result<
    TransportSettings,
    QuicTransportError,
> {
    if options.initial_mtu < DEFAULT_INITIAL_MTU {
        Err(
            QuicTransportError::Configuration(
                ConfigurationFailure::InitialMtuTooSmall(options.initial_mtu),
            ),
        )
    } else if options.idle_timeout.nanos / 1_000_000 > MAX_VARINT {
        Err(QuicTransportError::Configuration(ConfigurationFailure::IdleTimeoutTooLong))
    } else {
        Ok(
            TransportSettings {
                max_idle_timeout_ms: (options.idle_timeout.nanos / 1_000_000) as u64,
                keep_alive_interval: if options.keepalive_interval.nanos == 0 {
                    None
                } else {
                    Some(options.keepalive_interval)
                },
                max_concurrent_bidi_streams: 32,
                max_concurrent_uni_streams: 32,
                initial_mtu: options.initial_mtu,
                min_mtu: DEFAULT_INITIAL_MTU,
                datagram_receive_buffer_size: options.datagram_receive_buffer_size,
                datagram_send_buffer_size: options.datagram_send_buffer_size,
            },
        )
    }
}

/// Checks the options and gives the values to set a connection up with.
pub fn build_transport_config(options: &QuicTransportOptions) -> (result: Result<
    TransportSettings,
    QuicTransportError,
>)
    ensures
        result == transport_settings(*options),
{
    if options.initial_mtu < DEFAULT_INITIAL_MTU {
        return Err(
            QuicTransportError::Configuration(
                ConfigurationFailure::InitialMtuTooSmall(options.initial_mtu),
            ),
        );
    }
    let idle_timeout_ms: u128 = options.idle_timeout.as_millis();
    if idle_timeout_ms > MAX_VARINT as u128 {
        return Err(QuicTransportError::Configuration(ConfigurationFailure::IdleTimeoutTooLong));
    }
    Ok(
        TransportSettings {
            max_idle_timeout_ms: idle_timeout_ms as u64,
            keep_alive_interval: if options.keepalive_interval.nanos == 0 {
                None
            } else {
                Some(options.keepalive_interval)
            },
            max_concurrent_bidi_streams: 32,
            max_concurrent_uni_streams: 32,
            initial_mtu: options.initial_mtu,
            min_mtu: DEFAULT_INITIAL_MTU,
            datagram_receive_buffer_size: options.datagram_receive_buffer_size,
            datagram_send_buffer_size: options.datagram_send_buffer_size,
        },
    )
}

/// Refuses to use UDP where the setting that disables it is "Y".
pub fn ensure_udp_enabled(disable_udp: &str) -> (result: Result<(), QuicTransportError>)
    ensures
        result == if disable_udp@ == seq!['Y'] {
            Err::<(), _>(QuicTransportError::UdpDisabled)
        } else {
            Ok::<_, QuicTransportError>(())
        },
{
    if disable_udp.unicode_len() == 1 && disable_udp.get_char(0) == 'Y' {
        assert(disable_udp@ =~= seq!['Y']);
        return Err(QuicTransportError::UdpDisabled);
    }
    Ok(())
}

/// A certificate chain with its private key, both DER-encoded.
pub struct TlsCredentials {
    pub certificate_chain: Vec<Vec<u8>>,
    pub private_key: Vec<u8>,
}

impl TlsCredentials {
    pub fn new(certificate_chain: Vec<Vec<u8>>, private_key: Vec<u8>) -> (result: Result<
        TlsCredentials,
        QuicTransportError,
    >)
        ensures
            result == if certificate_chain@.len() == 0 {
                Err::<TlsCredentials, _>(
                    QuicTransportError::Configuration(ConfigurationFailure::EmptyCertificateChain),
                )
            } else {
                Ok::<_, QuicTransportError>((TlsCredentials { certificate_chain, private_key }))
            },
    {
        if certificate_chain.len() == 0 {
            return Err(
                QuicTransportError::Configuration(ConfigurationFailure::EmptyCertificateChain),
            );
        }
        Ok(TlsCredentials { certificate_chain, private_key })
    }
}

/// A device's signing key, with the public key that it carries.
pub struct DeviceIdentity {
    secret_key: [u8; 64],
    public_key: [u8; 32],
}

/// Why two byte strings are no signing key with its public key, if they are none.
pub open spec fn keypair_error(secret_key: Seq<u8>, public_key: Seq<u8>) -> Option<
    ConfigurationFailure,
> {
    if secret_key.len() != 64 {
        Some(ConfigurationFailure::InvalidSecretKey)
    } else if public_key.len() != 32 {
        Some(ConfigurationFailure::InvalidPublicKey)
    } else if secret_key.subrange(32, 64) != public_key {
        Some(ConfigurationFailure::KeypairMismatch)
    } else {
        None
    }
}

impl DeviceIdentity {
    #[verifier::type_invariant]
    spec fn bound(self) -> bool {
        self.secret_key@.subrange(32, 64) == self.public_key@
    }

    pub closed spec fn secret(&self) -> Seq<u8> {
        self.secret_key@
    }

    pub closed spec fn public(&self) -> Seq<u8> {
        self.public_key@
    }

    /// Makes an identity of a signing key and its public key, once libsodium is ready.
    /// Whether it can be made ready rests on the machine.
    pub fn from_bytes(secret_key: &[u8], public_key: &[u8]) -> (result: Result<
        DeviceIdentity,
        QuicTransportError,
    >)
        ensures
            match result {
                Ok(identity) => keypair_error(secret_key@, public_key@) is None && identity.secret()
                    == secret_key@ && identity.public() == public_key@,
                Err(error) => error == QuicTransportError::Configuration(
                    ConfigurationFailure::SodiumUnavailable,
                ) || (keypair_error(secret_key@, public_key@) matches Some(failure) && error
                    == QuicTransportError::Configuration(failure)),
            },
    {
        if !outside::init_sodium() {
            return Err(QuicTransportError::Configuration(ConfigurationFailure::SodiumUnavailable));
        }
        DeviceIdentity::from_keys(secret_key, public_key)
    }

    /// Makes an identity of a signing key and its public key.
    pub fn from_keys(secret_key: &[u8], public_key: &[u8]) -> (result: Result<
        DeviceIdentity,
        QuicTransportError,
    >)
        ensures
            match keypair_error(secret_key@, public_key@) {
                Some(failure) => result == Err::<DeviceIdentity, _>(
                    QuicTransportError::Configuration(failure),
                ),
                None => result matches Ok(identity) && identity.secret() == secret_key@
                    && identity.public() == public_key@,
            },
    {
        if secret_key.len() != 64 {
            return Err(QuicTransportError::Configuration(ConfigurationFailure::InvalidSecretKey));
        }
        if public_key.len() != 32 {
            return Err(QuicTransportError::Configuration(ConfigurationFailure::InvalidPublicKey));
        }
        let secret: [u8; 64] = wire::read_array(secret_key, 0);
        assert(secret@ =~= secret_key@);
        let own_public_key = outside::signing_public_key(&secret);
        if !wire::bytes_equal(&own_public_key, public_key) {
            return Err(QuicTransportError::Configuration(ConfigurationFailure::KeypairMismatch));
        }
        Ok(DeviceIdentity { secret_key: secret, public_key: own_public_key })
    }

    pub fn public_key_bytes(&self) -> (key: [u8; 32])
        ensures
            key@ == self.public(),
    {
        self.public_key
    }
}

/// The digest by which a certificate is recognised.
#[derive(Clone, Copy, Debug, Eq, PartialEq)]
pub struct CertificatePin(pub [u8; 32]);

impl CertificatePin {
    /// The pin of a DER-encoded certificate.
    pub fn from_certificate(certificate: &[u8]) -> (pin: CertificatePin)
        ensures
            pin.0@ == outside::sha256(certificate@),
    {
        CertificatePin(outside::sha256_of(certificate))
    }
}

/// Accepts a peer whose first certificate has the expected pin.
pub fn verify_peer_certificate(
    certificates: Option<&Vec<Vec<u8>>>,
    expected: CertificatePin,
) -> (result: Result<(), QuicTransportError>)
    ensures
        result == match certificates {
            Some(chain) => if chain@.len() == 0 {
                Err::<(), _>(QuicTransportError::MissingPeerCertificate)
            } else if outside::sha256(chain@[0]@) != expected.0@ {
                Err::<(), _>(QuicTransportError::CertificatePinMismatch)
            } else {
                Ok::<_, QuicTransportError>(())
            },
            None => Err::<(), _>(QuicTransportError::MissingPeerCertificate),
        },
{
    match certificates {
        None => Err(QuicTransportError::MissingPeerCertificate),
        Some(chain) => {
            if chain.len() == 0 {
                return Err(QuicTransportError::MissingPeerCertificate);
            }
            let pin = CertificatePin::from_certificate(&chain[0]);
            if !wire::bytes_equal(&pin.0, &expected.0) {
                return Err(QuicTransportError::CertificatePinMismatch);
            }
            Ok(())
        },
    }
}

#[derive(Clone, Copy, Debug, Eq, PartialEq, Structural)]
pub struct QuicConnectionStats {
    pub rtt_us: u64,
    pub congestion_window_bytes: u64,
    pub lost_packets: u64,
    pub lost_bytes: u64,
    pub sent_packets: u64,
    pub current_mtu: u16,
    pub max_datagram_size: Option<usize>,
    pub black_holes_detected: u64,
}

/// The whole microseconds of a span, at most the largest 64-bit number.
pub open spec fn micros_of(elapsed: Duration) -> u64 {
    if elapsed.nanos / 1_000 > u64::MAX {
        u64::MAX
    } else {
        (elapsed.nanos / 1_000) as u64
    }
}

/// The whole microseconds of a span, at most the largest 64-bit number.
pub fn elapsed_us(elapsed: Duration) -> (micros: u64)
    ensures
        micros == micros_of(elapsed),
{
    let micros: u128 = elapsed.nanos / 1_000;
    if micros > u64::MAX as u128 {
        u64::MAX
    } else {
        micros as u64
    }
}

/// What a client signs: the connection's exported secret, the session, and its own key and nonce.
pub open spec fn client_transcript_bytes(
    session_id: Seq<u8>,
    exporter: Seq<u8>,
    public_key: Seq<u8>,
    nonce: Seq<u8>,
) -> Seq<u8> {
    vstd::utf8::encode_utf8("rustadmin-quic-client-auth-v1"@) + exporter + session_id + public_key + nonce
}

/// What a server signs: the connection's exported secret, the session, and both sides' keys
/// and nonces.
pub open spec fn server_transcript_bytes(
    session_id: Seq<u8>,
    exporter: Seq<u8>,
    client_key: Seq<u8>,
    client_nonce: Seq<u8>,
    server_key: Seq<u8>,
    server_nonce: Seq<u8>,
) -> Seq<u8> {
    vstd::utf8::encode_utf8("rustadmin-quic-server-auth-v1"@) + exporter + session_id + client_key
        + client_nonce + server_key + server_nonce
}

fn client_transcript(
    session_id: &SessionId,
    exporter: &[u8; 32],
    public_key: &[u8; 32],
    nonce: &[u8; 32],
) -> (transcript: Vec<u8>)
    ensures
        transcript@ == client_transcript_bytes(session_id@, exporter@, public_key@, nonce@),
{
    let mut transcript: Vec<u8> = Vec::new();
    wire::put_bytes(&mut transcript, "rustadmin-quic-client-auth-v1".as_bytes());
    wire::put_bytes(&mut transcript, exporter);
    wire::put_bytes(&mut transcript, session_id);
    wire::put_bytes(&mut transcript, public_key);
    wire::put_bytes(&mut transcript, nonce);
    assert(transcript@ =~= client_transcript_bytes(session_id@, exporter@, public_key@, nonce@));
    transcript
}

fn server_transcript(
    session_id: &SessionId,
    exporter: &[u8; 32],
    client_key: &[u8; 32],
    client_nonce: &[u8; 32],
    server_key: &[u8; 32],
    server_nonce: &[u8; 32],
) -> (transcript: Vec<u8>)
    ensures
        transcript@ == server_transcript_bytes(
            session_id@,
            exporter@,
            client_key@,
            client_nonce@,
            server_key@,
            server_nonce@,
        ),
{
    let mut transcript: Vec<u8> = Vec::new();
    wire::put_bytes(&mut transcript, "rustadmin-quic-server-auth-v1".as_bytes());
    wire::put_bytes(&mut transcript, exporter);
    wire::put_bytes(&mut transcript, session_id);
    wire::put_bytes(&mut transcript, client_key);
    wire::put_bytes(&mut transcript, client_nonce);
    wire::put_bytes(&mut transcript, server_key);
    wire::put_bytes(&mut transcript, server_nonce);
    assert(transcript@ =~= server_transcript_bytes(
        session_id@,
        exporter@,
        client_key@,
        client_nonce@,
        server_key@,
        server_nonce@,
    ));
    transcript
}

pub const CLIENT_HELLO_LEN: usize = 132;

pub const SERVER_HELLO_LEN: usize = 164;

/// The payload of a client's hello.
pub open spec fn client_hello_bytes(
    public_key: Seq<u8>,
    nonce: Seq<u8>,
    signature: Seq<u8>,
) -> Seq<u8> {
    seq![1u8, 0u8, 0u8, 0u8] + public_key + nonce + signature
}

/// The payload of a server's hello.
pub open spec fn server_hello_bytes(
    public_key: Seq<u8>,
    server_nonce: Seq<u8>,
    client_nonce: Seq<u8>,
    signature: Seq<u8>,
) -> Seq<u8> {
    seq![2u8, 0u8, 0u8, 0u8] + public_key + server_nonce + client_nonce + signature
}

/// The key and the nonce in a client's hello, if its signature is good.
pub open spec fn parse_client_hello_spec(
    payload: Seq<u8>,
    session_id: Seq<u8>,
    exporter: Seq<u8>,
) -> Result<(Seq<u8>, Seq<u8>), AuthenticationFailure> {
    if payload.len() != CLIENT_HELLO_LEN || payload.subrange(0, 4) != seq![1u8, 0u8, 0u8, 0u8] {
        Err(AuthenticationFailure::MalformedClientHello)
    } else if payload[131] >= 32 {
        Err(AuthenticationFailure::ClientSignatureEncoding)
    } else if !outside::signature_valid(
        payload.subrange(68, 132),
        client_transcript_bytes(
            session_id,
            exporter,
            payload.subrange(4, 36),
            payload.subrange(36, 68),
        ),
        payload.subrange(4, 36),
    ) {
        Err(AuthenticationFailure::ClientSignature)
    } else {
        Ok((payload.subrange(4, 36), payload.subrange(36, 68)))
    }
}

/// The key and the nonce in a server's hello, if it answers the client's and its signature
/// is good.
pub open spec fn parse_server_hello_spec(
    payload: Seq<u8>,
    session_id: Seq<u8>,
    exporter: Seq<u8>,
    client_nonce: Seq<u8>,
    client_key: Seq<u8>,
) -> Result<(Seq<u8>, Seq<u8>), AuthenticationFailure> {
    if payload.len() != SERVER_HELLO_LEN || payload.subrange(0, 4) != seq![2u8, 0u8, 0u8, 0u8] {
        Err(AuthenticationFailure::MalformedServerHello)
    } else if payload.subrange(68, 100) != client_nonce {
        Err(AuthenticationFailure::ClientNonceMismatch)
    } else if payload[163] >= 32 {
        Err(AuthenticationFailure::ServerSignatureEncoding)
    } else if !outside::signature_valid(
        payload.subrange(100, 164),
        server_transcript_bytes(
            session_id,
            exporter,
            client_key,
            client_nonce,
            payload.subrange(4, 36),
            payload.subrange(36, 68),
        ),
        payload.subrange(4, 36),
    ) {
        Err(AuthenticationFailure::ServerSignature)
    } else {
        Ok((payload.subrange(4, 36), payload.subrange(36, 68)))
    }
}

/// Whether a hello opens with the bytes of its role.
fn opens_with_role(payload: &[u8], role: u8) -> (opens: bool)
    requires
        payload@.len() >= 4,
    ensures
        opens == (payload@.subrange(0, 4) == seq![role, 0u8, 0u8, 0u8]),
{
    let opens = payload[0] == role && payload[1] == 0 && payload[2] == 0 && payload[3] == 0;
    proof {
        let head = payload@.subrange(0, 4);
        if opens {
            assert(head =~= seq![role, 0u8, 0u8, 0u8]);
        } else if head == seq![role, 0u8, 0u8, 0u8] {
            assert(head[0] == role && head[1] == 0 && head[2] == 0 && head[3] == 0);
        }
    }
    opens
}

/// The payload of a client's hello, signed with its key.
pub fn encode_client_hello(
    identity: &DeviceIdentity,
    session_id: &SessionId,
    exporter: &[u8; 32],
    nonce: &[u8; 32],
) -> (payload: Vec<u8>)
    ensures
        payload@ == client_hello_bytes(
            identity.public(),
            nonce@,
            outside::signature_of(
                client_transcript_bytes(session_id@, exporter@, identity.public(), nonce@),
                identity.secret(),
            ),
        ),
        payload@.len() == CLIENT_HELLO_LEN,
        payload@[131] < 32,
{
    let public_key = identity.public_key_bytes();
    let transcript = client_transcript(session_id, exporter, &public_key, nonce);
    let signature = outside::sign(&transcript, &identity.secret_key);
    let mut payload: Vec<u8> = Vec::with_capacity(CLIENT_HELLO_LEN);
    wire::put_bytes(&mut payload, &[1u8, 0u8, 0u8, 0u8]);
    wire::put_bytes(&mut payload, &public_key);
    wire::put_bytes(&mut payload, nonce);
    wire::put_bytes(&mut payload, &signature);
    assert(payload@ =~= client_hello_bytes(public_key@, nonce@, signature@));
    assert(payload@[131] == signature@[63]);
    payload
}

/// Reads a client's hello: its key and its nonce.
pub fn parse_client_hello(payload: &[u8], session_id: &SessionId, exporter: &[u8; 32]) -> (result:
    Result<([u8; 32], [u8; 32]), QuicTransportError>)
    ensures
        match parse_client_hello_spec(payload@, session_id@, exporter@) {
            Ok((key, nonce)) => result matches Ok((client_key, client_nonce)) && client_key@ == key
                && client_nonce@ == nonce,
            Err(failure) => result == Err::<([u8; 32], [u8; 32]), _>(
                QuicTransportError::Authentication(failure),
            ),
        },
{
    if payload.len() != CLIENT_HELLO_LEN || !opens_with_role(payload, 1) {
        return Err(QuicTransportError::Authentication(AuthenticationFailure::MalformedClientHello));
    }
    let public_key: [u8; 32] = wire::read_array(payload, 4);
    let nonce: [u8; 32] = wire::read_array(payload, 36);
    let signature: [u8; 64] = wire::read_array(payload, 68);
    assert(signature@[63] == payload@[131]);
    let transcript = client_transcript(session_id, exporter, &public_key, &nonce);
    match outside::verify(&signature, &transcript, &public_key) {
        None => Err(
            QuicTransportError::Authentication(AuthenticationFailure::ClientSignatureEncoding),
        ),
        Some(false) => Err(
            QuicTransportError::Authentication(AuthenticationFailure::ClientSignature),
        ),
        Some(true) => Ok((public_key, nonce)),
    }
}

/// The payload of a server's hello, signed with its key.
pub fn encode_server_hello(
    identity: &DeviceIdentity,
    session_id: &SessionId,
    exporter: &[u8; 32],
    client_key: &[u8; 32],
    client_nonce: &[u8; 32],
    server_nonce: &[u8; 32],
) -> (payload: Vec<u8>)
    ensures
        payload@ == server_hello_bytes(
            identity.public(),
            server_nonce@,
            client_nonce@,
            outside::signature_of(
                server_transcript_bytes(
                    session_id@,
                    exporter@,
                    client_key@,
                    client_nonce@,
                    identity.public(),
                    server_nonce@,
                ),
                identity.secret(),
            ),
        ),
        payload@.len() == SERVER_HELLO_LEN,
        payload@[163] < 32,
{
    let public_key = identity.public_key_bytes();
    let transcript = server_transcript(
        session_id,
        exporter,
        client_key,
        client_nonce,
        &public_key,
        server_nonce,
    );
    let signature = outside::sign(&transcript, &identity.secret_key);
    let mut payload: Vec<u8> = Vec::with_capacity(SERVER_HELLO_LEN);
    wire::put_bytes(&mut payload, &[2u8, 0u8, 0u8, 0u8]);
    wire::put_bytes(&mut payload, &public_key);
    wire::put_bytes(&mut payload, server_nonce);
    wire::put_bytes(&mut payload, client_nonce);
    wire::put_bytes(&mut payload, &signature);
    assert(payload@ =~= server_hello_bytes(
        public_key@,
        server_nonce@,
        client_nonce@,
        signature@,
    ));
    assert(payload@[163] == signature@[63]);
    payload
}

/// Reads a server's hello: its key and its nonce.
pub fn parse_server_hello(
    payload: &[u8],
    session_id: &SessionId,
    exporter: &[u8; 32],
    client_nonce: &[u8; 32],
    client_key: &[u8; 32],
) -> (result: Result<([u8; 32], [u8; 32]), QuicTransportError>)
    ensures
        match parse_server_hello_spec(
            payload@,
            session_id@,
            exporter@,
            client_nonce@,
            client_key@,
        ) {
            Ok((key, nonce)) => result matches Ok((server_key, server_nonce)) && server_key@ == key
                && server_nonce@ == nonce,
            Err(failure) => result == Err::<([u8; 32], [u8; 32]), _>(
                QuicTransportError::Authentication(failure),
            ),
        },
{
    if payload.len() != SERVER_HELLO_LEN || !opens_with_role(payload, 2) {
        return Err(QuicTransportError::Authentication(AuthenticationFailure::MalformedServerHello));
    }
    let public_key: [u8; 32] = wire::read_array(payload, 4);
    let server_nonce: [u8; 32] = wire::read_array(payload, 36);
    let echoed_client_nonce: [u8; 32] = wire::read_array(payload, 68);
    if !wire::bytes_equal(&echoed_client_nonce, client_nonce) {
        return Err(QuicTransportError::Authentication(AuthenticationFailure::ClientNonceMismatch));
    }
    let signature: [u8; 64] = wire::read_array(payload, 100);
    assert(signature@[63] == payload@[163]);
    let transcript = server_transcript(
        session_id,
        exporter,
        client_key,
        client_nonce,
        &public_key,
        &server_nonce,
    );
    match outside::verify(&signature, &transcript, &public_key) {
        None => Err(
            QuicTransportError::Authentication(AuthenticationFailure::ServerSignatureEncoding),
        ),
        Some(false) => Err(
            QuicTransportError::Authentication(AuthenticationFailure::ServerSignature),
        ),
        Some(true) => Ok((public_key, server_nonce)),
    }
}

#[derive(Debug, Eq, PartialEq)]
pub struct ControlMessage {
    pub header: MessageHeader,
    pub payload: Vec<u8>,
}

/// The control channel of a connection whose peer is authenticated.
pub struct AuthenticatedControlChannel {
    session_id: SessionId,
    next_outgoing_sequence: u64,
    last_incoming_sequence: u64,
    peer_identity_key: [u8; 32],
}

/// What a control channel holds.
#[verifier::ext_equal]
pub struct ControlView {
    pub session_id: SessionId,
    pub next_outgoing_sequence: u64,
    pub last_incoming_sequence: u64,
    pub peer_identity_key: Seq<u8>,
}

impl View for AuthenticatedControlChannel {
    type V = ControlView;

    closed spec fn view(&self) -> ControlView {
        ControlView {
            session_id: self.session_id,
            next_outgoing_sequence: self.next_outgoing_sequence,
            last_incoming_sequence: self.last_incoming_sequence,
            peer_identity_key: self.peer_identity_key@,
        }
    }
}

/// Whether a control message of this type may be sent once the peers are authenticated.
pub open spec fn is_control_message(message_type: MessageType) -> bool {
    message_type.channel() == ChannelId::Control && message_type != MessageType::ClientHello
        && message_type != MessageType::ServerHello
}

/// Whether a valid packet is the first message of a session, of the given type and with the
/// given flag.
pub open spec fn opens_session(
    packet: Seq<u8>,
    message_type: MessageType,
    session_id: Seq<u8>,
    flag: u16,
) -> bool {
    protocol::packet_type(packet) == message_type && packet.subrange(12, 28) == session_id
        && wire::u64_at(packet, 28) == 1 && wire::u16_at(packet, 8) & flag != 0
}

/// The packet of a client's hello.
pub open spec fn client_greeting(
    public_key: Seq<u8>,
    secret_key: Seq<u8>,
    session_id: SessionId,
    exporter: Seq<u8>,
    nonce: Seq<u8>,
    timestamp_us: u64,
) -> Result<Seq<u8>, ProtocolError> {
    protocol::framed(
        MessageType::ClientHello,
        protocol::FLAG_ACK_REQUIRED,
        session_id,
        1,
        client_hello_bytes(
            public_key,
            nonce,
            outside::signature_of(
                client_transcript_bytes(session_id@, exporter, public_key, nonce),
                secret_key,
            ),
        ),
        timestamp_us,
    )
}

/// The packet of a server's hello.
pub open spec fn server_greeting(
    public_key: Seq<u8>,
    secret_key: Seq<u8>,
    session_id: SessionId,
    exporter: Seq<u8>,
    client_key: Seq<u8>,
    client_nonce: Seq<u8>,
    server_nonce: Seq<u8>,
    timestamp_us: u64,
) -> Result<Seq<u8>, ProtocolError> {
    protocol::framed(
        MessageType::ServerHello,
        protocol::FLAG_RESPONSE,
        session_id,
        1,
        server_hello_bytes(
            public_key,
            server_nonce,
            client_nonce,
            outside::signature_of(
                server_transcript_bytes(
                    session_id@,
                    exporter,
                    client_key,
                    client_nonce,
                    public_key,
                    server_nonce,
                ),
                secret_key,
            ),
        ),
        timestamp_us,
    )
}

/// What a client makes of the server's answer to its hello.
pub open spec fn client_outcome(
    public_key: Seq<u8>,
    expected_server_key: Seq<u8>,
    session_id: SessionId,
    exporter: Seq<u8>,
    client_nonce: Seq<u8>,
    response: Seq<u8>,
) -> Result<ControlView, QuicTransportError> {
    match protocol::message_error(response) {
        Some(error) => Err(QuicTransportError::Protocol(error)),
        None => if !opens_session(
            response,
            MessageType::ServerHello,
            session_id@,
            protocol::FLAG_RESPONSE,
        ) {
            Err(QuicTransportError::Authentication(AuthenticationFailure::InvalidServerHelloHeader))
        } else {
            match parse_server_hello_spec(
                protocol::packet_payload(response),
                session_id@,
                exporter,
                client_nonce,
                public_key,
            ) {
                Err(failure) => Err(QuicTransportError::Authentication(failure)),
                Ok((server_key, _)) => if server_key != expected_server_key {
                    Err(QuicTransportError::Authentication(AuthenticationFailure::ServerNotTrusted))
                } else {
                    Ok(ControlView::fresh(session_id, server_key))
                },
            }
        },
    }
}

/// What a server makes of a client's hello: the key and the nonce of the client.
pub open spec fn client_accepted(
    expected_client_key: Seq<u8>,
    session_id: SessionId,
    exporter: Seq<u8>,
    request: Seq<u8>,
) -> Result<(Seq<u8>, Seq<u8>), QuicTransportError> {
    match protocol::message_error(request) {
        Some(error) => Err(QuicTransportError::Protocol(error)),
        None => if !opens_session(
            request,
            MessageType::ClientHello,
            session_id@,
            protocol::FLAG_ACK_REQUIRED,
        ) {
            Err(QuicTransportError::Authentication(AuthenticationFailure::InvalidClientHelloHeader))
        } else {
            match parse_client_hello_spec(
                protocol::packet_payload(request),
                session_id@,
                exporter,
            ) {
                Err(failure) => Err(QuicTransportError::Authentication(failure)),
                Ok((client_key, client_nonce)) => if client_key != expected_client_key {
                    Err(QuicTransportError::Authentication(AuthenticationFailure::ClientNotTrusted))
                } else {
                    Ok((client_key, client_nonce))
                },
            }
        },
    }
}

/// What a server makes of a client's hello: its channel, and the packet to answer with.
pub open spec fn server_outcome(
    public_key: Seq<u8>,
    secret_key: Seq<u8>,
    expected_client_key: Seq<u8>,
    session_id: SessionId,
    exporter: Seq<u8>,
    server_nonce: Seq<u8>,
    timestamp_us: u64,
    request: Seq<u8>,
) -> Result<(ControlView, Seq<u8>), QuicTransportError> {
    match client_accepted(expected_client_key, session_id, exporter, request) {
        Err(error) => Err(error),
        Ok((client_key, client_nonce)) => match server_greeting(
            public_key,
            secret_key,
            session_id,
            exporter,
            client_key,
            client_nonce,
            server_nonce,
            timestamp_us,
        ) {
            Err(error) => Err(QuicTransportError::Protocol(error)),
            Ok(reply) => Ok((ControlView::fresh(session_id, client_key), reply)),
        },
    }
}

impl ControlView {
    /// A channel on which each side has sent its hello.
    pub open spec fn fresh(session_id: SessionId, peer_identity_key: Seq<u8>) -> ControlView {
        ControlView {
            session_id,
            next_outgoing_sequence: 2,
            last_incoming_sequence: 1,
            peer_identity_key,
        }
    }

    /// The channel after one message was counted.
    pub open spec fn counted(self) -> ControlView {
        ControlView {
            next_outgoing_sequence: if self.next_outgoing_sequence == u64::MAX {
                u64::MAX
            } else {
                (self.next_outgoing_sequence + 1) as u64
            },
            ..self
        }
    }

    /// The packet of the next message, or why it cannot be sent.
    pub open spec fn packet(
        self,
        message_type: MessageType,
        flags: u16,
        payload: Seq<u8>,
        timestamp_us: u64,
    ) -> Result<Seq<u8>, QuicTransportError> {
        if self.next_outgoing_sequence == u64::MAX {
            Err(QuicTransportError::ProtocolState(ProtocolStateFailure::SequenceExhausted))
        } else {
            match protocol::framed(
                message_type,
                flags,
                self.session_id,
                self.next_outgoing_sequence,
                payload,
                timestamp_us,
            ) {
                Ok(packet) => Ok(packet),
                Err(error) => Err(QuicTransportError::Protocol(error)),
            }
        }
    }

    /// The first reason, if any, why the channel refuses a packet.
    pub open spec fn receive_error(self, packet: Seq<u8>) -> Option<QuicTransportError> {
        match protocol::message_error(packet) {
            Some(error) => Some(QuicTransportError::Protocol(error)),
            None => if packet.subrange(12, 28) != self.session_id@ {
                Some(QuicTransportError::ProtocolState(ProtocolStateFailure::SessionChanged))
            } else if wire::u64_at(packet, 28) <= self.last_incoming_sequence {
                Some(QuicTransportError::ProtocolState(ProtocolStateFailure::ControlSequence))
            } else {
                None
            },
        }
    }

    /// The channel after a packet that it took.
    pub open spec fn after(self, packet: Seq<u8>) -> ControlView {
        ControlView { last_incoming_sequence: wire::u64_at(packet, 28), ..self }
    }
}

impl AuthenticatedControlChannel {
    /// The packet by which a client presents itself.
    pub fn client_hello(
        identity: &DeviceIdentity,
        session_id: SessionId,
        exporter: &[u8; 32],
        nonce: &[u8; 32],
        timestamp_us: u64,
    ) -> (result: Result<Vec<u8>, QuicTransportError>)
        ensures
            match client_greeting(
                identity.public(),
                identity.secret(),
                session_id,
                exporter@,
                nonce@,
                timestamp_us,
            ) {
                Ok(packet) => result matches Ok(bytes) && bytes@ == packet,
                Err(error) => result == Err::<Vec<u8>, _>(QuicTransportError::Protocol(error)),
            },
    {
        let payload = encode_client_hello(identity, &session_id, exporter, nonce);
        match protocol::frame_message(
            MessageType::ClientHello,
            protocol::FLAG_ACK_REQUIRED,
            session_id,
            1,
            &payload,
            timestamp_us,
        ) {
            Ok(packet) => Ok(packet),
            Err(error) => Err(QuicTransportError::Protocol(error)),
        }
    }

    /// Authenticates the server by its answer to the client's hello.
    pub fn authenticate_client(
        identity: &DeviceIdentity,
        expected_server_identity_key: &[u8; 32],
        session_id: SessionId,
        exporter: &[u8; 32],
        client_nonce: &[u8; 32],
        response: &[u8],
    ) -> (result: Result<AuthenticatedControlChannel, QuicTransportError>)
        ensures
            match client_outcome(
                identity.public(),
                expected_server_identity_key@,
                session_id,
                exporter@,
                client_nonce@,
                response@,
            ) {
                Ok(channel) => result matches Ok(opened) && opened@ == channel,
                Err(error) => result == Err::<AuthenticatedControlChannel, _>(error),
            },
    {
        let message = match protocol::decode_message(response) {
            Ok(message) => message,
            Err(error) => return Err(QuicTransportError::Protocol(error)),
        };
        proof {
            protocol::lemma_packet_parts(response@, message.header, message.payload@);
        }
        if message.header.message_type != MessageType::ServerHello || !wire::bytes_equal(
            &message.header.session_id,
            &session_id,
        ) || message.header.sequence_number != 1 || message.header.flags & protocol::FLAG_RESPONSE
            == 0 {
            return Err(
                QuicTransportError::Authentication(AuthenticationFailure::InvalidServerHelloHeader),
            );
        }
        let (server_key, _server_nonce) = parse_server_hello(
            message.payload,
            &session_id,
            exporter,
            client_nonce,
            &identity.public_key_bytes(),
        )?;
        if !wire::bytes_equal(&server_key, expected_server_identity_key) {
            return Err(QuicTransportError::Authentication(AuthenticationFailure::ServerNotTrusted));
        }
        Ok(
            AuthenticatedControlChannel {
                session_id,
                next_outgoing_sequence: 2,
                last_incoming_sequence: 1,
                peer_identity_key: server_key,
            },
        )
    }

    /// Authenticates the client by its hello, and gives the packet to answer with.
    pub fn authenticate_server(
        identity: &DeviceIdentity,
        expected_client_identity_key: &[u8; 32],
        session_id: SessionId,
        exporter: &[u8; 32],
        server_nonce: &[u8; 32],
        timestamp_us: u64,
        request: &[u8],
    ) -> (result: Result<(AuthenticatedControlChannel, Vec<u8>), QuicTransportError>)
        ensures
            match server_outcome(
                identity.public(),
                identity.secret(),
                expected_client_identity_key@,
                session_id,
                exporter@,
                server_nonce@,
                timestamp_us,
                request@,
            ) {
                Ok((channel, reply)) => result matches Ok((opened, packet)) && opened@ == channel
                    && packet@ == reply,
                Err(error) => result == Err::<(AuthenticatedControlChannel, Vec<u8>), _>(error),
            },
    {
        let message = match protocol::decode_message(request) {
            Ok(message) => message,
            Err(error) => return Err(QuicTransportError::Protocol(error)),
        };
        proof {
            protocol::lemma_packet_parts(request@, message.header, message.payload@);
        }
        if message.header.message_type != MessageType::ClientHello || !wire::bytes_equal(
            &message.header.session_id,
            &session_id,
        ) || message.header.sequence_number != 1 || message.header.flags
            & protocol::FLAG_ACK_REQUIRED == 0 {
            return Err(
                QuicTransportError::Authentication(AuthenticationFailure::InvalidClientHelloHeader),
            );
        }
        let (client_key, client_nonce) = parse_client_hello(
            message.payload,
            &session_id,
            exporter,
        )?;
        if !wire::bytes_equal(&client_key, expected_client_identity_key) {
            return Err(QuicTransportError::Authentication(AuthenticationFailure::ClientNotTrusted));
        }
        let payload = encode_server_hello(
            identity,
            &session_id,
            exporter,
            &client_key,
            &client_nonce,
            server_nonce,
        );
        match protocol::frame_message(
            MessageType::ServerHello,
            protocol::FLAG_RESPONSE,
            session_id,
            1,
            &payload,
            timestamp_us,
        ) {
            Ok(packet) => Ok(
                (
                    AuthenticatedControlChannel {
                        session_id,
                        next_outgoing_sequence: 2,
                        last_incoming_sequence: 1,
                        peer_identity_key: client_key,
                    },
                    packet,
                ),
            ),
            Err(error) => Err(QuicTransportError::Protocol(error)),
        }
    }

    pub fn peer_identity_key(&self) -> (key: [u8; 32])
        ensures
            key@ == self@.peer_identity_key,
    {
        self.peer_identity_key
    }

    pub fn session_id(&self) -> (session_id: SessionId)
        ensures
            session_id == self@.session_id,
    {
        self.session_id
    }

    fn next_packet(&mut self, message_type: MessageType, flags: u16, payload: &[u8], timestamp_us: u64) -> (result:
        Result<Vec<u8>, QuicTransportError>)
        ensures
            final(self)@ == old(self)@.counted(),
            match old(self)@.packet(message_type, flags, payload@, timestamp_us) {
                Ok(packet) => result matches Ok(bytes) && bytes@ == packet,
                Err(error) => result == Err::<Vec<u8>, _>(error),
            },
    {
        let sequence: u64 = self.next_outgoing_sequence;
        if sequence == u64::MAX {
            return Err(QuicTransportError::ProtocolState(ProtocolStateFailure::SequenceExhausted));
        }
        self.next_outgoing_sequence = sequence + 1;
        match protocol::frame_message(
            message_type,
            flags,
            self.session_id,
            sequence,
            payload,
            timestamp_us,
        ) {
            Ok(packet) => Ok(packet),
            Err(error) => Err(QuicTransportError::Protocol(error)),
        }
    }

    /// The sequence number and the packet of a control message.
    pub fn send_control(
        &mut self,
        message_type: MessageType,
        flags: u16,
        payload: &[u8],
        timestamp_us: u64,
    ) -> (result: Result<(u64, Vec<u8>), QuicTransportError>)
        ensures
            if !is_control_message(message_type) {
                &&& final(self)@ == old(self)@
                &&& result == Err::<(u64, Vec<u8>), _>(
                    QuicTransportError::ProtocolState(
                        ProtocolStateFailure::InvalidAfterAuthentication(message_type),
                    ),
                )
            } else {
                &&& final(self)@ == old(self)@.counted()
                &&& match old(self)@.packet(message_type, flags, payload@, timestamp_us) {
                    Ok(packet) => result matches Ok((sequence, bytes)) && sequence == old(
                        self,
                    )@.next_outgoing_sequence && bytes@ == packet,
                    Err(error) => result == Err::<(u64, Vec<u8>), _>(error),
                }
            },
    {
        if message_type.channel() != ChannelId::Control || message_type == MessageType::ClientHello
            || message_type == MessageType::ServerHello {
            return Err(
                QuicTransportError::ProtocolState(
                    ProtocolStateFailure::InvalidAfterAuthentication(message_type),
                ),
            );
        }
        let sequence: u64 = self.next_outgoing_sequence;
        let packet = self.next_packet(message_type, flags, payload, timestamp_us)?;
        Ok((sequence, packet))
    }

    /// Takes the next control message, which must come after all that were taken before.
    pub fn receive_control(&mut self, packet: &[u8]) -> (result: Result<
        ControlMessage,
        QuicTransportError,
    >)
        ensures
            match old(self)@.receive_error(packet@) {
                Some(error) => result == Err::<ControlMessage, _>(error) && final(self)@ == old(
                    self,
                )@,
                None => result matches Ok(message) && packet@ == protocol::header_bytes(
                    message.header,
                ) + message.payload@ && final(self)@ == old(self)@.after(packet@),
            },
    {
        let message = match protocol::decode_message(packet) {
            Ok(message) => message,
            Err(error) => return Err(QuicTransportError::Protocol(error)),
        };
        proof {
            protocol::lemma_packet_parts(packet@, message.header, message.payload@);
        }
        if !wire::bytes_equal(&message.header.session_id, &self.session_id) {
            return Err(QuicTransportError::ProtocolState(ProtocolStateFailure::SessionChanged));
        }
        if message.header.sequence_number <= self.last_incoming_sequence {
            return Err(QuicTransportError::ProtocolState(ProtocolStateFailure::ControlSequence));
        }
        self.last_incoming_sequence = message.header.sequence_number;
        Ok(
            ControlMessage {
                header: message.header,
                payload: wire::copy_range(message.payload, 0, message.payload.len()),
            },
        )
    }

    /// The packet of a ping with the given nonce.
    pub fn ping(&mut self, nonce: &[u8; 8], timestamp_us: u64) -> (result: Result<
        Vec<u8>,
        QuicTransportError,
    >)
        ensures
            final(self)@ == old(self)@.counted(),
            match old(self)@.packet(
                MessageType::Ping,
                protocol::FLAG_ACK_REQUIRED,
                nonce@,
                timestamp_us,
            ) {
                Ok(packet) => result matches Ok(bytes) && bytes@ == packet,
                Err(error) => result == Err::<Vec<u8>, _>(error),
            },
    {
        self.next_packet(MessageType::Ping, protocol::FLAG_ACK_REQUIRED, nonce, timestamp_us)
    }

    /// Takes the answer to a ping, which must repeat its nonce.
    pub fn receive_pong(&mut self, packet: &[u8], nonce: &[u8; 8]) -> (result: Result<
        (),
        QuicTransportError,
    >)
        ensures
            match old(self)@.receive_error(packet@) {
                Some(error) => result == Err::<(), _>(error) && final(self)@ == old(self)@,
                None => final(self)@ == old(self)@.after(packet@) && result == if (
                protocol::packet_type(packet@) == MessageType::Pong && wire::u16_at(packet@, 8)
                    & protocol::FLAG_RESPONSE != 0 && protocol::packet_payload(packet@) == nonce@) {
                    Ok::<_, QuicTransportError>(())
                } else {
                    Err::<(), _>(
                        QuicTransportError::Authentication(
                            AuthenticationFailure::InvalidPingResponse,
                        ),
                    )
                },
            },
    {
        let response = self.receive_control(packet)?;
        proof {
            protocol::lemma_packet_parts(packet@, response.header, response.payload@);
        }
        if response.header.message_type != MessageType::Pong || response.header.flags
            & protocol::FLAG_RESPONSE == 0 || !wire::bytes_equal(&response.payload, nonce) {
            return Err(
                QuicTransportError::Authentication(AuthenticationFailure::InvalidPingResponse),
            );
        }
        Ok(())
    }

    /// Takes a ping and gives the packet that answers it.
    pub fn respond_to_ping(&mut self, packet: &[u8], timestamp_us: u64) -> (result: Result<
        Vec<u8>,
        QuicTransportError,
    >)
        ensures
            match old(self)@.receive_error(packet@) {
                Some(error) => result == Err::<Vec<u8>, _>(error) && final(self)@ == old(self)@,
                None => if protocol::packet_type(packet@) != MessageType::Ping
                    || protocol::packet_payload(packet@).len() != 8 {
                    &&& final(self)@ == old(self)@.after(packet@)
                    &&& result == Err::<Vec<u8>, _>(
                        QuicTransportError::Authentication(
                            AuthenticationFailure::UnboundedPingRequest,
                        ),
                    )
                } else {
                    &&& final(self)@ == old(self)@.after(packet@).counted()
                    &&& match old(self)@.packet(
                        MessageType::Pong,
                        protocol::FLAG_RESPONSE,
                        protocol::packet_payload(packet@),
                        timestamp_us,
                    ) {
                        Ok(reply) => result matches Ok(bytes) && bytes@ == reply,
                        Err(error) => result == Err::<Vec<u8>, _>(error),
                    }
                },
            },
    {
        let request = self.receive_control(packet)?;
        proof {
            protocol::lemma_packet_parts(packet@, request.header, request.payload@);
        }
        if request.header.message_type != MessageType::Ping || request.payload.len() != 8 {
            return Err(
                QuicTransportError::Authentication(AuthenticationFailure::UnboundedPingRequest),
            );
        }
        self.next_packet(
            MessageType::Pong,
            protocol::FLAG_RESPONSE,
            &request.payload,
            timestamp_us,
        )
    }

    /// The part of a reason that a connection is closed with.
    pub fn close_reason(reason: &[u8]) -> (bytes: Vec<u8>)
        ensures
            bytes@ == if reason@.len() > 256 {
                reason@.subrange(0, 256)
            } else {
                reason@
            },
    {
        let bytes = wire::copy_range(
            reason,
            0,
            if reason.len() > 256 {
                256
            } else {
                reason.len()
            },
        );
        assert(reason@.subrange(0, reason@.len() as int) =~= reason@);
        bytes
    }
}

/// Whether a signature is encoded as one and is valid.
pub open spec fn is_good_signature(
    signature: Seq<u8>,
    message: Seq<u8>,
    public_key: Seq<u8>,
) -> bool {
    signature.len() == 64 && signature[63] < 32 && outside::signature_valid(
        signature,
        message,
        public_key,
    )
}

/// A client's hello reads back, if its signature is good.
pub proof fn lemma_client_hello_round_trip(
    session_id: Seq<u8>,
    exporter: Seq<u8>,
    public_key: Seq<u8>,
    nonce: Seq<u8>,
    signature: Seq<u8>,
)
    requires
        public_key.len() == 32,
        nonce.len() == 32,
        is_good_signature(
            signature,
            client_transcript_bytes(session_id, exporter, public_key, nonce),
            public_key,
        ),
    ensures
        parse_client_hello_spec(
            client_hello_bytes(public_key, nonce, signature),
            session_id,
            exporter,
        ) == Ok::<_, AuthenticationFailure>((public_key, nonce)),
{
    let payload = client_hello_bytes(public_key, nonce, signature);
    assert(payload.subrange(0, 4) =~= seq![1u8, 0u8, 0u8, 0u8]);
    assert(payload.subrange(4, 36) =~= public_key);
    assert(payload.subrange(36, 68) =~= nonce);
    assert(payload.subrange(68, 132) =~= signature);
    assert(payload[131] == signature[63]);
}

/// A server's hello reads back at the client that it answers, if its signature is good.
pub proof fn lemma_server_hello_round_trip(
    session_id: Seq<u8>,
    exporter: Seq<u8>,
    client_key: Seq<u8>,
    client_nonce: Seq<u8>,
    public_key: Seq<u8>,
    server_nonce: Seq<u8>,
    signature: Seq<u8>,
)
    requires
        public_key.len() == 32,
        client_nonce.len() == 32,
        server_nonce.len() == 32,
        is_good_signature(
            signature,
            server_transcript_bytes(
                session_id,
                exporter,
                client_key,
                client_nonce,
                public_key,
                server_nonce,
            ),
            public_key,
        ),
    ensures
        parse_server_hello_spec(
            server_hello_bytes(public_key, server_nonce, client_nonce, signature),
            session_id,
            exporter,
            client_nonce,
            client_key,
        ) == Ok::<_, AuthenticationFailure>((public_key, server_nonce)),
{
    let payload = server_hello_bytes(public_key, server_nonce, client_nonce, signature);
    assert(payload.subrange(0, 4) =~= seq![2u8, 0u8, 0u8, 0u8]);
    assert(payload.subrange(4, 36) =~= public_key);
    assert(payload.subrange(36, 68) =~= server_nonce);
    assert(payload.subrange(68, 100) =~= client_nonce);
    assert(payload.subrange(100, 164) =~= signature);
    assert(payload[163] == signature[63]);
}

/// The flags of hellos and pings are known, and each is set in itself.
proof fn lemma_flags()
    ensures
        protocol::FLAG_ACK_REQUIRED & !protocol::KNOWN_FLAGS == 0,
        protocol::FLAG_RESPONSE & !protocol::KNOWN_FLAGS == 0,
        protocol::FLAG_ACK_REQUIRED & protocol::FLAG_ACK_REQUIRED != 0,
        protocol::FLAG_RESPONSE & protocol::FLAG_RESPONSE != 0,
{
    assert(1u16 & !3u16 == 0 && 2u16 & !3u16 == 0 && 1u16 & 1u16 != 0 && 2u16 & 2u16 != 0)
        by (bit_vector);
}

/// Two devices that expect each other's keys, and whose signatures verify under those keys,
/// authenticate each other in one exchange of hellos.
pub proof fn lemma_mutual_authentication(
    client_public: Seq<u8>,
    client_secret: Seq<u8>,
    server_public: Seq<u8>,
    server_secret: Seq<u8>,
    session_id: SessionId,
    exporter: Seq<u8>,
    client_nonce: Seq<u8>,
    server_nonce: Seq<u8>,
    client_timestamp_us: u64,
    server_timestamp_us: u64,
)
    requires
        client_public.len() == 32,
        server_public.len() == 32,
        client_nonce.len() == 32,
        server_nonce.len() == 32,
        !wire::all_zero(session_id@),
        ({
            let transcript = client_transcript_bytes(
                session_id@,
                exporter,
                client_public,
                client_nonce,
            );
            is_good_signature(
                outside::signature_of(transcript, client_secret),
                transcript,
                client_public,
            )
        }),
        ({
            let transcript = server_transcript_bytes(
                session_id@,
                exporter,
                client_public,
                client_nonce,
                server_public,
                server_nonce,
            );
            is_good_signature(
                outside::signature_of(transcript, server_secret),
                transcript,
                server_public,
            )
        }),
    ensures
        ({
            let greeting = client_greeting(
                client_public,
                client_secret,
                session_id,
                exporter,
                client_nonce,
                client_timestamp_us,
            );
            let reply = server_greeting(
                server_public,
                server_secret,
                session_id,
                exporter,
                client_public,
                client_nonce,
                server_nonce,
                server_timestamp_us,
            );
            &&& greeting is Ok
            &&& reply is Ok
            &&& server_outcome(
                server_public,
                server_secret,
                client_public,
                session_id,
                exporter,
                server_nonce,
                server_timestamp_us,
                greeting->Ok_0,
            ) == Ok::<_, QuicTransportError>(
                (ControlView::fresh(session_id, client_public), reply->Ok_0),
            )
            &&& client_outcome(
                client_public,
                server_public,
                session_id,
                exporter,
                client_nonce,
                reply->Ok_0,
            ) == Ok::<_, QuicTransportError>(ControlView::fresh(session_id, server_public))
        }),
{
    lemma_flags();
    let client_signature = outside::signature_of(
        client_transcript_bytes(session_id@, exporter, client_public, client_nonce),
        client_secret,
    );
    let server_signature = outside::signature_of(
        server_transcript_bytes(
            session_id@,
            exporter,
            client_public,
            client_nonce,
            server_public,
            server_nonce,
        ),
        server_secret,
    );
    lemma_client_hello_round_trip(
        session_id@,
        exporter,
        client_public,
        client_nonce,
        client_signature,
    );
    lemma_server_hello_round_trip(
        session_id@,
        exporter,
        client_public,
        client_nonce,
        server_public,
        server_nonce,
        server_signature,
    );
    let hello = client_hello_bytes(client_public, client_nonce, client_signature);
    let answer = server_hello_bytes(server_public, server_nonce, client_nonce, server_signature);
    assert(hello.len() == CLIENT_HELLO_LEN);
    assert(answer.len() == SERVER_HELLO_LEN);
    protocol::lemma_framed_parts(
        MessageType::ClientHello,
        protocol::FLAG_ACK_REQUIRED,
        session_id,
        1,
        hello,
        client_timestamp_us,
    );
    protocol::lemma_framed_parts(
        MessageType::ServerHello,
        protocol::FLAG_RESPONSE,
        session_id,
        1,
        answer,
        server_timestamp_us,
    );
}

/// A client that accepts an answer has a signature of the expected server over this very
/// connection, session and pair of keys and nonces.
pub proof fn lemma_accepted_server_signed(
    public_key: Seq<u8>,
    expected_server_key: Seq<u8>,
    session_id: SessionId,
    exporter: Seq<u8>,
    client_nonce: Seq<u8>,
    response: Seq<u8>,
)
    requires
        client_outcome(
            public_key,
            expected_server_key,
            session_id,
            exporter,
            client_nonce,
            response,
        ) is Ok,
    ensures
        ({
            let payload = protocol::packet_payload(response);
            outside::signature_valid(
                payload.subrange(100, 164),
                server_transcript_bytes(
                    session_id@,
                    exporter,
                    public_key,
                    client_nonce,
                    expected_server_key,
                    payload.subrange(36, 68),
                ),
                expected_server_key,
            )
        }),
{
}

/// A server that accepts a hello has a signature of the expected client over this very
/// connection and session.
pub proof fn lemma_accepted_client_signed(
    expected_client_key: Seq<u8>,
    session_id: SessionId,
    exporter: Seq<u8>,
    request: Seq<u8>,
)
    requires
        client_accepted(expected_client_key, session_id, exporter, request) is Ok,
    ensures
        ({
            let payload = protocol::packet_payload(request);
            outside::signature_valid(
                payload.subrange(68, 132),
                client_transcript_bytes(
                    session_id@,
                    exporter,
                    expected_client_key,
                    payload.subrange(36, 68),
                ),
                expected_client_key,
            )
        }),
{
}

/// A ping is answered, and the answer is the one that the pinging side waits for.
pub proof fn lemma_ping_is_answered(
    pinging: ControlView,
    answering: ControlView,
    nonce: Seq<u8>,
    ping_timestamp_us: u64,
    pong_timestamp_us: u64,
)
    requires
        pinging.session_id == answering.session_id,
        !wire::all_zero(pinging.session_id@),
        answering.last_incoming_sequence < pinging.next_outgoing_sequence < u64::MAX,
        pinging.last_incoming_sequence < answering.next_outgoing_sequence < u64::MAX,
        nonce.len() == 8,
    ensures
        ({
            let ping = pinging.packet(
                MessageType::Ping,
                protocol::FLAG_ACK_REQUIRED,
                nonce,
                ping_timestamp_us,
            );
            let pong = answering.packet(
                MessageType::Pong,
                protocol::FLAG_RESPONSE,
                nonce,
                pong_timestamp_us,
            );
            &&& ping is Ok
            &&& pong is Ok
            &&& answering.receive_error(ping->Ok_0) is None
            &&& protocol::packet_type(ping->Ok_0) == MessageType::Ping
            &&& protocol::packet_payload(ping->Ok_0) == nonce
            &&& pinging.counted().receive_error(pong->Ok_0) is None
            &&& protocol::packet_type(pong->Ok_0) == MessageType::Pong
            &&& wire::u16_at(pong->Ok_0, 8) & protocol::FLAG_RESPONSE != 0
            &&& protocol::packet_payload(pong->Ok_0) == nonce
        }),
{
    lemma_flags();
    protocol::lemma_framed_parts(
        MessageType::Ping,
        protocol::FLAG_ACK_REQUIRED,
        pinging.session_id,
        pinging.next_outgoing_sequence,
        nonce,
        ping_timestamp_us,
    );
    protocol::lemma_framed_parts(
        MessageType::Pong,
        protocol::FLAG_RESPONSE,
        answering.session_id,
        answering.next_outgoing_sequence,
        nonce,
        pong_timestamp_us,
    );
}

/// A control message that was taken is not taken a second time, nor is an earlier one.
pub proof fn lemma_no_control_message_twice(channel: ControlView, taken: Seq<u8>, other: Seq<u8>)
    requires
        channel.receive_error(taken) is None,
        wire::u64_at(other, 28) <= wire::u64_at(taken, 28),
    ensures
        channel.after(taken).receive_error(other) is Some,
{
}


/// A connection is set up exactly where the first datagrams have at least 1200 bytes and the
/// idle timeout fits into the protocol's integers. It takes 32 streams of each kind, and keeps
/// itself alive unless the interval is zero.
pub proof fn lemma_connection_settings(options: QuicTransportOptions)
    ensures
        ({
            let result = transport_settings(options);
            let settings = result->Ok_0;
            &&& result is Ok <==> options.initial_mtu >= 1_200 && options.idle_timeout.nanos
                / 1_000_000 <= 0x3fff_ffff_ffff_ffff
            &&& options.initial_mtu < 1_200 ==> result->Err_0 == QuicTransportError::Configuration(
                ConfigurationFailure::InitialMtuTooSmall(options.initial_mtu),
            )
            &&& result is Err && options.initial_mtu >= 1_200 ==> result->Err_0
                == QuicTransportError::Configuration(ConfigurationFailure::IdleTimeoutTooLong)
            &&& result is Ok ==> {
                &&& settings.max_idle_timeout_ms == options.idle_timeout.nanos / 1_000_000
                &&& settings.keep_alive_interval is None <==> options.keepalive_interval.nanos == 0
                &&& settings.keep_alive_interval is Some ==> settings.keep_alive_interval->Some_0
                    == options.keepalive_interval
                &&& settings.max_concurrent_bidi_streams == 32
                &&& settings.max_concurrent_uni_streams == 32
                &&& settings.initial_mtu == options.initial_mtu
                &&& settings.min_mtu == 1_200
                &&& settings.datagram_receive_buffer_size == options.datagram_receive_buffer_size
                &&& settings.datagram_send_buffer_size == options.datagram_send_buffer_size
            }
        }),
{
}

/// Keys make an identity exactly where the signing key has 64 bytes, the public key 32, and
/// the public key is the second half of the signing key.
pub proof fn lemma_keys_that_belong_together(secret_key: Seq<u8>, public_key: Seq<u8>)
    ensures
        keypair_error(secret_key, public_key) is None <==> {
            &&& secret_key.len() == 64
            &&& public_key.len() == 32
            &&& forall|index: int|
                0 <= index < 32 ==> #[trigger] public_key[index] == secret_key[index + 32]
        },
        secret_key.len() != 64 <==> keypair_error(secret_key, public_key) == Some(
            ConfigurationFailure::InvalidSecretKey,
        ),
        secret_key.len() == 64 && public_key.len() != 32 <==> keypair_error(secret_key, public_key)
            == Some(ConfigurationFailure::InvalidPublicKey),
{
    if secret_key.len() == 64 && public_key.len() == 32 {
        let half = secret_key.subrange(32, 64);
        if half == public_key {
            assert forall|index: int| 0 <= index < 32 implies #[trigger] public_key[index]
                == secret_key[index + 32] by {
                assert(half[index] == secret_key[index + 32]);
            }
        } else if forall|index: int|
            0 <= index < 32 ==> #[trigger] public_key[index] == secret_key[index + 32] {
            assert(half =~= public_key);
        }
    }
}

/// A span is counted in whole microseconds, and one that is too long in as many as can be
/// counted.
pub proof fn lemma_whole_microseconds(elapsed: Duration)
    ensures
        micros_of(elapsed) * 1_000 <= elapsed.nanos,
        micros_of(elapsed) == 0xffff_ffff_ffff_ffff || elapsed.nanos < (micros_of(elapsed) + 1)
            * 1_000,
{
}

/// A client signs a fixed text, the connection's exported secret, the session, its own key and
/// its nonce, in this order and all of each.
pub proof fn lemma_client_transcript_layout(
    session_id: Seq<u8>,
    exporter: Seq<u8>,
    public_key: Seq<u8>,
    nonce: Seq<u8>,
)
    requires
        session_id.len() == 16,
        exporter.len() == 32,
        public_key.len() == 32,
        nonce.len() == 32,
    ensures
        ({
            let transcript = client_transcript_bytes(session_id, exporter, public_key, nonce);
            let fixed = vstd::utf8::encode_utf8("rustadmin-quic-client-auth-v1"@);
            let start = fixed.len() as int;
            &&& transcript.len() == start + 112
            &&& transcript.subrange(0, start) == fixed
            &&& transcript.subrange(start, start + 32) == exporter
            &&& transcript.subrange(start + 32, start + 48) == session_id
            &&& transcript.subrange(start + 48, start + 80) == public_key
            &&& transcript.subrange(start + 80, start + 112) == nonce
        }),
{
    let transcript = client_transcript_bytes(session_id, exporter, public_key, nonce);
    let fixed = vstd::utf8::encode_utf8("rustadmin-quic-client-auth-v1"@);
    let start = fixed.len() as int;
    assert(transcript.subrange(0, start) =~= fixed);
    assert(transcript.subrange(start, start + 32) =~= exporter);
    assert(transcript.subrange(start + 32, start + 48) =~= session_id);
    assert(transcript.subrange(start + 48, start + 80) =~= public_key);
    assert(transcript.subrange(start + 80, start + 112) =~= nonce);
}

/// A server signs a fixed text of its own, the connection's exported secret, the session, the
/// client's key and nonce and its own key and nonce, in this order and all of each.
pub proof fn lemma_server_transcript_layout(
    session_id: Seq<u8>,
    exporter: Seq<u8>,
    client_key: Seq<u8>,
    client_nonce: Seq<u8>,
    server_key: Seq<u8>,
    server_nonce: Seq<u8>,
)
    requires
        session_id.len() == 16,
        exporter.len() == 32,
        client_key.len() == 32,
        client_nonce.len() == 32,
        server_key.len() == 32,
        server_nonce.len() == 32,
    ensures
        ({
            let transcript = server_transcript_bytes(
                session_id,
                exporter,
                client_key,
                client_nonce,
                server_key,
                server_nonce,
            );
            let fixed = vstd::utf8::encode_utf8("rustadmin-quic-server-auth-v1"@);
            let start = fixed.len() as int;
            &&& transcript.len() == start + 176
            &&& transcript.subrange(0, start) == fixed
            &&& transcript.subrange(start, start + 32) == exporter
            &&& transcript.subrange(start + 32, start + 48) == session_id
            &&& transcript.subrange(start + 48, start + 80) == client_key
            &&& transcript.subrange(start + 80, start + 112) == client_nonce
            &&& transcript.subrange(start + 112, start + 144) == server_key
            &&& transcript.subrange(start + 144, start + 176) == server_nonce
        }),
{
    let transcript = server_transcript_bytes(
        session_id,
        exporter,
        client_key,
        client_nonce,
        server_key,
        server_nonce,
    );
    let fixed = vstd::utf8::encode_utf8("rustadmin-quic-server-auth-v1"@);
    let start = fixed.len() as int;
    assert(transcript.subrange(0, start) =~= fixed);
    assert(transcript.subrange(start, start + 32) =~= exporter);
    assert(transcript.subrange(start + 32, start + 48) =~= session_id);
    assert(transcript.subrange(start + 48, start + 80) =~= client_key);
    assert(transcript.subrange(start + 80, start + 112) =~= client_nonce);
    assert(transcript.subrange(start + 112, start + 144) =~= server_key);
    assert(transcript.subrange(start + 144, start + 176) =~= server_nonce);
}

/// Where the parts of the hellos stand: each begins with its number and three zeros, and holds
/// the key, the nonce, with a server the client's nonce too, and the signature.
pub proof fn lemma_hello_layouts(
    public_key: Seq<u8>,
    nonce: Seq<u8>,
    client_nonce: Seq<u8>,
    signature: Seq<u8>,
)
    requires
        public_key.len() == 32,
        nonce.len() == 32,
        client_nonce.len() == 32,
        signature.len() == 64,
    ensures
        ({
            let client = client_hello_bytes(public_key, nonce, signature);
            let server = server_hello_bytes(public_key, nonce, client_nonce, signature);
            &&& client.len() == 132
            &&& client[0] == 1 && client[1] == 0 && client[2] == 0 && client[3] == 0
            &&& client.subrange(4, 36) == public_key
            &&& client.subrange(36, 68) == nonce
            &&& client.subrange(68, 132) == signature
            &&& server.len() == 164
            &&& server[0] == 2 && server[1] == 0 && server[2] == 0 && server[3] == 0
            &&& server.subrange(4, 36) == public_key
            &&& server.subrange(36, 68) == nonce
            &&& server.subrange(68, 100) == client_nonce
            &&& server.subrange(100, 164) == signature
        }),
{
    let client = client_hello_bytes(public_key, nonce, signature);
    let server = server_hello_bytes(public_key, nonce, client_nonce, signature);
    assert(client.subrange(4, 36) =~= public_key);
    assert(client.subrange(36, 68) =~= nonce);
    assert(client.subrange(68, 132) =~= signature);
    assert(server.subrange(4, 36) =~= public_key);
    assert(server.subrange(36, 68) =~= nonce);
    assert(server.subrange(68, 100) =~= client_nonce);
    assert(server.subrange(100, 164) =~= signature);
}

/// Whether four bytes hold a number and three zeros.
pub open spec fn begins_with(payload: Seq<u8>, number: u8) -> bool {
    payload[0] == number && payload[1] == 0 && payload[2] == 0 && payload[3] == 0
}

/// A server accepts a hello exactly where the packet is good, is the first of the session, asks
/// for an answer, and holds the expected key, a nonce and that key's signature over this very
/// connection and session.
pub proof fn lemma_client_hellos_that_are_accepted(
    expected_client_key: Seq<u8>,
    session_id: SessionId,
    exporter: Seq<u8>,
    request: Seq<u8>,
)
    ensures
        ({
            let result = client_accepted(expected_client_key, session_id, exporter, request);
            let payload = protocol::packet_payload(request);
            let flags = wire::u16_at(request, 8);
            &&& result is Ok <==> {
                &&& protocol::message_error(request) is None
                &&& protocol::packet_type(request) is ClientHello
                &&& request.subrange(12, 28) == session_id@
                &&& wire::u64_at(request, 28) == 1
                &&& flags & 1 != 0
                &&& payload.len() == 132
                &&& begins_with(payload, 1)
                &&& payload[131] < 32
                &&& payload.subrange(4, 36) == expected_client_key
                &&& outside::signature_valid(
                    payload.subrange(68, 132),
                    client_transcript_bytes(
                        session_id@,
                        exporter,
                        expected_client_key,
                        payload.subrange(36, 68),
                    ),
                    expected_client_key,
                )
            }
            &&& result is Ok ==> result->Ok_0 == (expected_client_key, payload.subrange(36, 68))
        }),
{
    let payload = protocol::packet_payload(request);
    if payload.len() == 132 {
        lemma_first_bytes(payload, 1);
    }
}

/// Four bytes, one by one.
proof fn lemma_first_bytes(payload: Seq<u8>, number: u8)
    requires
        payload.len() >= 4,
    ensures
        begins_with(payload, number) <==> payload.subrange(0, 4) == seq![number, 0u8, 0u8, 0u8],
{
    let first = payload.subrange(0, 4);
    assert(first[0] == payload[0] && first[1] == payload[1] && first[2] == payload[2] && first[3]
        == payload[3]);
    if begins_with(payload, number) {
        assert(first =~= seq![number, 0u8, 0u8, 0u8]);
    }
}

/// A client accepts an answer exactly where the packet is good, is the first of the session, is
/// an answer, repeats the client's nonce, and holds the expected key, a nonce and that key's
/// signature over this very connection, session and pair of keys and nonces.
pub proof fn lemma_server_hellos_that_are_accepted(
    public_key: Seq<u8>,
    expected_server_key: Seq<u8>,
    session_id: SessionId,
    exporter: Seq<u8>,
    client_nonce: Seq<u8>,
    response: Seq<u8>,
)
    ensures
        ({
            let result = client_outcome(
                public_key,
                expected_server_key,
                session_id,
                exporter,
                client_nonce,
                response,
            );
            let payload = protocol::packet_payload(response);
            let flags = wire::u16_at(response, 8);
            &&& result is Ok <==> {
                &&& protocol::message_error(response) is None
                &&& protocol::packet_type(response) is ServerHello
                &&& response.subrange(12, 28) == session_id@
                &&& wire::u64_at(response, 28) == 1
                &&& flags & 2 != 0
                &&& payload.len() == 164
                &&& begins_with(payload, 2)
                &&& payload.subrange(68, 100) == client_nonce
                &&& payload[163] < 32
                &&& payload.subrange(4, 36) == expected_server_key
                &&& outside::signature_valid(
                    payload.subrange(100, 164),
                    server_transcript_bytes(
                        session_id@,
                        exporter,
                        public_key,
                        client_nonce,
                        expected_server_key,
                        payload.subrange(36, 68),
                    ),
                    expected_server_key,
                )
            }
            &&& result is Ok ==> {
                &&& result->Ok_0.session_id == session_id
                &&& result->Ok_0.peer_identity_key == expected_server_key
                &&& result->Ok_0.next_outgoing_sequence == 2
                &&& result->Ok_0.last_incoming_sequence == 1
            }
        }),
{
    let payload = protocol::packet_payload(response);
    if payload.len() == 164 {
        lemma_first_bytes(payload, 2);
    }
}

/// A server that accepts a hello answers it with its own greeting, to that client's key and
/// nonce, and opens a channel to that key. It opens none where it refuses the hello.
pub proof fn lemma_accepted_client_is_answered(
    public_key: Seq<u8>,
    secret_key: Seq<u8>,
    expected_client_key: Seq<u8>,
    session_id: SessionId,
    exporter: Seq<u8>,
    server_nonce: Seq<u8>,
    timestamp_us: u64,
    request: Seq<u8>,
)
    ensures
        ({
            let accepted = client_accepted(expected_client_key, session_id, exporter, request);
            let reply = server_greeting(
                public_key,
                secret_key,
                session_id,
                exporter,
                expected_client_key,
                protocol::packet_payload(request).subrange(36, 68),
                server_nonce,
                timestamp_us,
            );
            let result = server_outcome(
                public_key,
                secret_key,
                expected_client_key,
                session_id,
                exporter,
                server_nonce,
                timestamp_us,
                request,
            );
            &&& result is Ok <==> accepted is Ok && reply is Ok
            &&& accepted is Err ==> result->Err_0 == accepted->Err_0
            &&& result is Ok ==> {
                &&& result->Ok_0.1 == reply->Ok_0
                &&& result->Ok_0.0.session_id == session_id
                &&& result->Ok_0.0.peer_identity_key == expected_client_key
                &&& result->Ok_0.0.next_outgoing_sequence == 2
                &&& result->Ok_0.0.last_incoming_sequence == 1
            }
        }),
{
}

/// What the greetings carry: each is the first message of the session, the client's asks for an
/// answer and the server's is one, and each holds the signature of its sender over what that
/// side signs.
pub proof fn lemma_greetings_are_signed(
    public_key: Seq<u8>,
    secret_key: Seq<u8>,
    session_id: SessionId,
    exporter: Seq<u8>,
    client_key: Seq<u8>,
    client_nonce: Seq<u8>,
    nonce: Seq<u8>,
    timestamp_us: u64,
)
    requires
        public_key.len() == 32,
        client_nonce.len() == 32,
        nonce.len() == 32,
        outside::signature_of(
            client_transcript_bytes(session_id@, exporter, public_key, nonce),
            secret_key,
        ).len() == 64,
        outside::signature_of(
            server_transcript_bytes(
                session_id@,
                exporter,
                client_key,
                client_nonce,
                public_key,
                nonce,
            ),
            secret_key,
        ).len() == 64,
    ensures
        ({
            let client = client_greeting(
                public_key,
                secret_key,
                session_id,
                exporter,
                nonce,
                timestamp_us,
            );
            let server = server_greeting(
                public_key,
                secret_key,
                session_id,
                exporter,
                client_key,
                client_nonce,
                nonce,
                timestamp_us,
            );
            let asked = protocol::packet_payload(client->Ok_0);
            let answered = protocol::packet_payload(server->Ok_0);
            &&& client is Ok ==> {
                &&& protocol::packet_type(client->Ok_0) is ClientHello
                &&& wire::u16_at(client->Ok_0, 8) == 1
                &&& client->Ok_0.subrange(12, 28) == session_id@
                &&& wire::u64_at(client->Ok_0, 28) == 1
                &&& wire::u64_at(client->Ok_0, 40) == timestamp_us
                &&& asked.subrange(4, 36) == public_key
                &&& asked.subrange(36, 68) == nonce
                &&& asked.subrange(68, 132) == outside::signature_of(
                    client_transcript_bytes(session_id@, exporter, public_key, nonce),
                    secret_key,
                )
            }
            &&& server is Ok ==> {
                &&& protocol::packet_type(server->Ok_0) is ServerHello
                &&& wire::u16_at(server->Ok_0, 8) == 2
                &&& server->Ok_0.subrange(12, 28) == session_id@
                &&& wire::u64_at(server->Ok_0, 28) == 1
                &&& wire::u64_at(server->Ok_0, 40) == timestamp_us
                &&& answered.subrange(4, 36) == public_key
                &&& answered.subrange(36, 68) == nonce
                &&& answered.subrange(68, 100) == client_nonce
                &&& answered.subrange(100, 164) == outside::signature_of(
                    server_transcript_bytes(
                        session_id@,
                        exporter,
                        client_key,
                        client_nonce,
                        public_key,
                        nonce,
                    ),
                    secret_key,
                )
            }
        }),
{
    let client_signature = outside::signature_of(
        client_transcript_bytes(session_id@, exporter, public_key, nonce),
        secret_key,
    );
    let server_signature = outside::signature_of(
        server_transcript_bytes(session_id@, exporter, client_key, client_nonce, public_key, nonce),
        secret_key,
    );
    lemma_hello_layouts(public_key, nonce, client_nonce, client_signature);
    lemma_hello_layouts(public_key, nonce, client_nonce, server_signature);
    if client_greeting(public_key, secret_key, session_id, exporter, nonce, timestamp_us) is Ok {
        protocol::lemma_framed_parts(
            MessageType::ClientHello,
            protocol::FLAG_ACK_REQUIRED,
            session_id,
            1,
            client_hello_bytes(public_key, nonce, client_signature),
            timestamp_us,
        );
    }
    if server_greeting(
        public_key,
        secret_key,
        session_id,
        exporter,
        client_key,
        client_nonce,
        nonce,
        timestamp_us,
    ) is Ok {
        protocol::lemma_framed_parts(
            MessageType::ServerHello,
            protocol::FLAG_RESPONSE,
            session_id,
            1,
            server_hello_bytes(public_key, nonce, client_nonce, server_signature),
            timestamp_us,
        );
    }
}

/// Once the peers are authenticated, the control channel carries every control message but the
/// hellos, and no other message.
pub proof fn lemma_control_messages(message_type: MessageType)
    ensures
        is_control_message(message_type) <==> {
            ||| message_type is Ping
            ||| message_type is Pong
            ||| message_type is Error
            ||| message_type is KeyframeRequest
            ||| message_type is SessionClose
            ||| message_type is SessionOffer
            ||| message_type is SessionAccept
            ||| message_type is ApplicationControl
            ||| message_type is ApplicationRaw
            ||| message_type is VideoOrdering
            ||| message_type is VideoOrderingAck
        },
{
}

/// A control message goes out under the next number of the session, as long as one is left and
/// the message can be framed. Each message uses one number up.
pub proof fn lemma_control_messages_are_numbered(
    channel: ControlView,
    message_type: MessageType,
    flags: u16,
    payload: Seq<u8>,
    timestamp_us: u64,
)
    requires
        payload.len() <= u32::MAX,
    ensures
        ({
            let result = channel.packet(message_type, flags, payload, timestamp_us);
            let framed = protocol::framed(
                message_type,
                flags,
                channel.session_id,
                channel.next_outgoing_sequence,
                payload,
                timestamp_us,
            );
            let packet = result->Ok_0;
            let left = channel.next_outgoing_sequence < 0xffff_ffff_ffff_ffff;
            &&& result is Ok <==> left && framed is Ok
            &&& !left ==> result->Err_0 == QuicTransportError::ProtocolState(
                ProtocolStateFailure::SequenceExhausted,
            )
            &&& result is Ok ==> {
                &&& protocol::packet_type(packet) == message_type
                &&& protocol::packet_payload(packet) == payload
                &&& wire::u16_at(packet, 8) == flags
                &&& packet.subrange(12, 28) == channel.session_id@
                &&& wire::u64_at(packet, 28) == channel.next_outgoing_sequence
                &&& wire::u64_at(packet, 40) == timestamp_us
            }
            &&& left ==> channel.counted().next_outgoing_sequence
                == channel.next_outgoing_sequence + 1
            &&& !left ==> channel.counted() == channel
            &&& channel.counted().last_incoming_sequence == channel.last_incoming_sequence
            &&& channel.counted().session_id == channel.session_id
            &&& channel.counted().peer_identity_key == channel.peer_identity_key
        }),
{
    if channel.packet(message_type, flags, payload, timestamp_us) is Ok {
        protocol::lemma_framed_parts(
            message_type,
            flags,
            channel.session_id,
            channel.next_outgoing_sequence,
            payload,
            timestamp_us,
        );
    }
}

/// The control channel takes a packet exactly where it is good, belongs to the session and has
/// a number above all that were taken before. It then keeps only that number.
pub proof fn lemma_control_messages_that_are_taken(channel: ControlView, packet: Seq<u8>)
    ensures
        channel.receive_error(packet) is None <==> {
            &&& protocol::message_error(packet) is None
            &&& packet.subrange(12, 28) == channel.session_id@
            &&& channel.last_incoming_sequence < wire::u64_at(packet, 28)
        },
        channel.after(packet).last_incoming_sequence == wire::u64_at(packet, 28),
        channel.after(packet).next_outgoing_sequence == channel.next_outgoing_sequence,
        channel.after(packet).session_id == channel.session_id,
        channel.after(packet).peer_identity_key == channel.peer_identity_key,
{
}


/// Why a control packet is refused: first the packet itself, then its session, then its number.
pub proof fn lemma_refused_control_messages(channel: ControlView, packet: Seq<u8>)
    ensures
        ({
            let error = channel.receive_error(packet);
            let fault = protocol::message_error(packet);
            let ours = packet.subrange(12, 28) == channel.session_id@;
            &&& fault is Some ==> error == Some(QuicTransportError::Protocol(fault->Some_0))
            &&& fault is None && !ours ==> error == Some(
                QuicTransportError::ProtocolState(ProtocolStateFailure::SessionChanged),
            )
            &&& fault is None && ours && wire::u64_at(packet, 28) <= channel.last_incoming_sequence
                ==> error == Some(
                QuicTransportError::ProtocolState(ProtocolStateFailure::ControlSequence),
            )
        }),
{
}

/// Why a client's hello is refused: first the packet and its header, then the form of the
/// payload and of the signature, then the signature, and last the key.
pub proof fn lemma_refused_client_hellos(
    expected_client_key: Seq<u8>,
    session_id: SessionId,
    exporter: Seq<u8>,
    request: Seq<u8>,
)
    requires
        client_accepted(expected_client_key, session_id, exporter, request) is Err,
    ensures
        ({
            let error = client_accepted(expected_client_key, session_id, exporter, request)->Err_0;
            let payload = protocol::packet_payload(request);
            let flags = wire::u16_at(request, 8);
            let first = protocol::packet_type(request) is ClientHello && request.subrange(12, 28)
                == session_id@ && wire::u64_at(request, 28) == 1 && flags & 1 != 0;
            let formed = payload.len() == 132 && begins_with(payload, 1);
            let encoded = payload[131] < 32;
            let signed = outside::signature_valid(
                payload.subrange(68, 132),
                client_transcript_bytes(
                    session_id@,
                    exporter,
                    payload.subrange(4, 36),
                    payload.subrange(36, 68),
                ),
                payload.subrange(4, 36),
            );
            match protocol::message_error(request) {
                Some(fault) => error == QuicTransportError::Protocol(fault),
                None => error == QuicTransportError::Authentication(
                    if !first {
                        AuthenticationFailure::InvalidClientHelloHeader
                    } else if !formed {
                        AuthenticationFailure::MalformedClientHello
                    } else if !encoded {
                        AuthenticationFailure::ClientSignatureEncoding
                    } else if !signed {
                        AuthenticationFailure::ClientSignature
                    } else {
                        AuthenticationFailure::ClientNotTrusted
                    },
                ),
            }
        }),
{
    let payload = protocol::packet_payload(request);
    if payload.len() == 132 {
        lemma_first_bytes(payload, 1);
    }
}

/// Why a server's hello is refused: first the packet and its header, then the form of the
/// payload, the nonce that it answers, the form of the signature, the signature, and last the
/// key.
pub proof fn lemma_refused_server_hellos(
    public_key: Seq<u8>,
    expected_server_key: Seq<u8>,
    session_id: SessionId,
    exporter: Seq<u8>,
    client_nonce: Seq<u8>,
    response: Seq<u8>,
)
    requires
        client_outcome(
            public_key,
            expected_server_key,
            session_id,
            exporter,
            client_nonce,
            response,
        ) is Err,
    ensures
        ({
            let error = client_outcome(
                public_key,
                expected_server_key,
                session_id,
                exporter,
                client_nonce,
                response,
            )->Err_0;
            let payload = protocol::packet_payload(response);
            let flags = wire::u16_at(response, 8);
            let first = protocol::packet_type(response) is ServerHello && response.subrange(12, 28)
                == session_id@ && wire::u64_at(response, 28) == 1 && flags & 2 != 0;
            let formed = payload.len() == 164 && begins_with(payload, 2);
            let answers = payload.subrange(68, 100) == client_nonce;
            let encoded = payload[163] < 32;
            let signed = outside::signature_valid(
                payload.subrange(100, 164),
                server_transcript_bytes(
                    session_id@,
                    exporter,
                    public_key,
                    client_nonce,
                    payload.subrange(4, 36),
                    payload.subrange(36, 68),
                ),
                payload.subrange(4, 36),
            );
            match protocol::message_error(response) {
                Some(fault) => error == QuicTransportError::Protocol(fault),
                None => error == QuicTransportError::Authentication(
                    if !first {
                        AuthenticationFailure::InvalidServerHelloHeader
                    } else if !formed {
                        AuthenticationFailure::MalformedServerHello
                    } else if !answers {
                        AuthenticationFailure::ClientNonceMismatch
                    } else if !encoded {
                        AuthenticationFailure::ServerSignatureEncoding
                    } else if !signed {
                        AuthenticationFailure::ServerSignature
                    } else {
                        AuthenticationFailure::ServerNotTrusted
                    },
                ),
            }
        }),
{
    let payload = protocol::packet_payload(response);
    if payload.len() == 164 {
        lemma_first_bytes(payload, 2);
    }
}

} // verus!
