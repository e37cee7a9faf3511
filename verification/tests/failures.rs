use rustadmin_transport::tcp::{Encrypt, HandshakeError};
use rustadmin_transport::time::{Duration, Instant};
use rustadmin_transport::transport::application::{
    application_channels, client_offer_payload, read_ordering_epoch, server_accepts_session,
    validate_datagram_application_message, ApplicationChannels, ApplicationClassTag, EnqueueError,
    Message, QuicApplicationStream, VideoFrame,
};
use rustadmin_transport::transport::audio_datagram::{
    AudioCodec, AudioDatagramError, AudioJitterConfig,
};
use rustadmin_transport::transport::datagram::{QuicDatagramReceiver, QuicDatagramSender};
use rustadmin_transport::transport::identity::{check_file_size, LocalTlsIdentity};
use rustadmin_transport::transport::input::{InputProtocolError, MouseMovementMode};
use rustadmin_transport::transport::protocol::{
    frame_message, ChannelId, MessageType, ProtocolError, FLAG_ACK_REQUIRED, FLAG_RESPONSE,
};
use rustadmin_transport::transport::quic::{
    build_transport_config, AuthenticatedControlChannel, AuthenticationFailure,
    ConfigurationFailure, DatagramFailure, DeviceIdentity, ProtocolStateFailure,
    QuicTransportError, QuicTransportOptions, TlsCredentials,
};
use rustadmin_transport::transport::reliable::{
    check_length, decode_stream_preface, encode_stream_preface, ReliableChannel,
    ReliableChannelKind,
};
use rustadmin_transport::transport::session::{
    ColorFormat, LatencyMode, SessionAgreement, SessionNegotiationError, SessionOffer, COLOR_I420,
};
use rustadmin_transport::transport::video_datagram::{
    VideoCodec, VideoDatagramError, VideoFrameMetadata, VideoReassemblyConfig,
};
use sodiumoxide::crypto::{box_, sign};

const SESSION: [u8; 16] = [7; 16];
const EXPORTER: [u8; 32] = [8; 32];
const START: Instant = Instant { nanos: 0 };

fn state(failure: ProtocolStateFailure) -> Option<QuicTransportError> {
    Some(QuicTransportError::ProtocolState(failure))
}

fn authentication(failure: AuthenticationFailure) -> Option<QuicTransportError> {
    Some(QuicTransportError::Authentication(failure))
}

fn configuration(failure: ConfigurationFailure) -> Option<QuicTransportError> {
    Some(QuicTransportError::Configuration(failure))
}

fn device() -> DeviceIdentity {
    sodiumoxide::init().unwrap();
    let (public_key, secret_key) = sign::gen_keypair();
    DeviceIdentity::from_bytes(&secret_key.0, &public_key.0).unwrap()
}

#[test]
fn boxes_without_a_key_are_refused() {
    sodiumoxide::init().unwrap();
    let (our_public, our_secret) = box_::gen_keypair();
    let (their_public, their_secret) = box_::gen_keypair();
    let nonce = box_::Nonce([0; box_::NONCEBYTES]);
    let boxed = box_::seal(&[5; 31], &nonce, &our_public, &their_secret);
    assert_eq!(
        Encrypt::decode(&boxed, &their_public.0, &our_secret.0),
        Err(HandshakeError::SecretKeyLength)
    );
    assert_eq!(
        Encrypt::decode(&boxed[1..], &their_public.0, &our_secret.0),
        Err(HandshakeError::BoxDecryption)
    );
}

#[test]
fn configurations_that_cannot_work_are_refused() {
    sodiumoxide::init().unwrap();
    let (public_key, _) = sign::gen_keypair();
    let (_, secret_key) = sign::gen_keypair();
    assert_eq!(
        DeviceIdentity::from_keys(&secret_key.0, &public_key.0).err(),
        configuration(ConfigurationFailure::KeypairMismatch)
    );
    assert_eq!(
        TlsCredentials::new(Vec::new(), vec![1]).err(),
        configuration(ConfigurationFailure::EmptyCertificateChain)
    );
    let mut options = QuicTransportOptions::default();
    options.initial_mtu = 1199;
    assert_eq!(
        build_transport_config(&options).err(),
        configuration(ConfigurationFailure::InitialMtuTooSmall(1199))
    );
    let mut options = QuicTransportOptions::default();
    options.idle_timeout = Duration {
        nanos: (1 << 62) * 1_000_000,
    };
    assert_eq!(
        build_transport_config(&options).err(),
        configuration(ConfigurationFailure::IdleTimeoutTooLong)
    );
    assert_eq!(
        check_file_size(0, 10).err(),
        configuration(ConfigurationFailure::IdentityFileSize)
    );
    assert_eq!(
        LocalTlsIdentity::load(vec![1], Vec::new()).err(),
        configuration(ConfigurationFailure::EmptyIdentityFile)
    );
}

#[test]
fn hellos_that_cannot_be_trusted_are_refused() {
    let (client, server) = (device(), device());
    let nonce = [1; 32];
    let request =
        AuthenticatedControlChannel::client_hello(&client, SESSION, &EXPORTER, &nonce, 5).unwrap();
    let serve = |request: &[u8]| {
        AuthenticatedControlChannel::authenticate_server(
            &server,
            &client.public_key_bytes(),
            SESSION,
            &EXPORTER,
            &[2; 32],
            6,
            request,
        )
    };
    let framed = |message_type, flags, sequence, payload: &[u8]| {
        frame_message(message_type, flags, SESSION, sequence, payload, 5).unwrap()
    };
    assert_eq!(
        serve(&request[..40]).err(),
        Some(QuicTransportError::Protocol(ProtocolError::HeaderTruncated))
    );
    let hello = framed(
        MessageType::ClientHello,
        FLAG_ACK_REQUIRED,
        2,
        &request[48..],
    );
    assert_eq!(
        serve(&hello).err(),
        authentication(AuthenticationFailure::InvalidClientHelloHeader)
    );
    let hello = framed(
        MessageType::ClientHello,
        FLAG_ACK_REQUIRED,
        1,
        &request[48..179],
    );
    assert_eq!(
        serve(&hello).err(),
        authentication(AuthenticationFailure::MalformedClientHello)
    );
    let mut hello = request.clone();
    hello[179] = 0xff;
    assert_eq!(
        serve(&hello).err(),
        authentication(AuthenticationFailure::ClientSignatureEncoding)
    );

    let (_, response) = serve(&request).unwrap();
    let answer = |response: &[u8]| {
        AuthenticatedControlChannel::authenticate_client(
            &client,
            &server.public_key_bytes(),
            SESSION,
            &EXPORTER,
            &nonce,
            response,
        )
        .err()
    };
    assert_eq!(answer(&response), None);
    let hello = framed(MessageType::ServerHello, 0, 1, &response[48..]);
    assert_eq!(
        answer(&hello),
        authentication(AuthenticationFailure::InvalidServerHelloHeader)
    );
    let hello = framed(MessageType::ServerHello, FLAG_RESPONSE, 1, &response[48..211]);
    assert_eq!(
        answer(&hello),
        authentication(AuthenticationFailure::MalformedServerHello)
    );
    let mut hello = response.clone();
    hello[211] = 0xff;
    assert_eq!(
        answer(&hello),
        authentication(AuthenticationFailure::ServerSignatureEncoding)
    );
    let mut hello = response.clone();
    hello[150] ^= 1;
    assert_eq!(
        answer(&hello),
        authentication(AuthenticationFailure::ServerSignature)
    );
}

#[test]
fn control_messages_out_of_place_are_refused() {
    let (client, server) = (device(), device());
    let nonce = [1; 32];
    let request =
        AuthenticatedControlChannel::client_hello(&client, SESSION, &EXPORTER, &nonce, 5).unwrap();
    let (mut channel, _) = AuthenticatedControlChannel::authenticate_server(
        &server,
        &client.public_key_bytes(),
        SESSION,
        &EXPORTER,
        &[2; 32],
        6,
        &request,
    )
    .unwrap();
    let foreign = frame_message(MessageType::Ping, 0, [9; 16], 2, &[1; 8], 5).unwrap();
    assert_eq!(
        channel.receive_control(&foreign).err(),
        state(ProtocolStateFailure::SessionChanged)
    );
    let unbounded = frame_message(MessageType::Ping, 0, SESSION, 2, &[1; 9], 5).unwrap();
    assert_eq!(
        channel.respond_to_ping(&unbounded, 7).err(),
        authentication(AuthenticationFailure::UnboundedPingRequest)
    );
}

#[test]
fn reliable_messages_out_of_place_are_refused() {
    let mut preface = encode_stream_preface(ReliableChannelKind::Input);
    preface[7] = 1;
    assert_eq!(
        decode_stream_preface(&preface).err(),
        state(ProtocolStateFailure::InvalidPreface)
    );
    preface[7] = 0;
    preface[6] = ChannelId::MouseDatagram.code();
    assert_eq!(
        decode_stream_preface(&preface).err(),
        state(ProtocolStateFailure::NotReliable(ChannelId::MouseDatagram))
    );
    let kind = ReliableChannelKind::Clipboard;
    assert_eq!(
        check_length(kind, 47).err(),
        state(ProtocolStateFailure::MessageLength { kind, length: 47 })
    );
    let (mut channel, _) = ReliableChannel::open(kind, SESSION);
    assert_eq!(
        channel.send(MessageType::FileChunk, 0, 1, b"x").err(),
        state(ProtocolStateFailure::InvalidOnChannel {
            message_type: MessageType::FileChunk,
            kind,
        })
    );
    let message = |message_type, session, sequence| {
        frame_message(message_type, 0, session, sequence, b"x", 5).unwrap()
    };
    assert_eq!(
        channel.receive(&[0; 47]).err(),
        state(ProtocolStateFailure::MessageLength { kind, length: 47 })
    );
    assert_eq!(
        channel
            .receive(&message(MessageType::FileChunk, SESSION, 1))
            .err(),
        state(ProtocolStateFailure::ChannelOrSessionChanged)
    );
    assert_eq!(
        channel
            .receive(&message(MessageType::Clipboard, [9; 16], 1))
            .err(),
        state(ProtocolStateFailure::ChannelOrSessionChanged)
    );
    assert!(channel
        .receive(&message(MessageType::Clipboard, SESSION, 3))
        .is_ok());
    assert_eq!(
        channel
            .receive(&message(MessageType::Clipboard, SESSION, 3))
            .err(),
        state(ProtocolStateFailure::ReliableSequence)
    );
}

#[test]
fn datagrams_out_of_place_are_refused() {
    let mut receiver = QuicDatagramReceiver::new(
        SESSION,
        VideoReassemblyConfig::default(),
        AudioJitterConfig::default(),
    )
    .unwrap();
    let mut receive = |message_type, payload: &[u8]| {
        let datagram = frame_message(message_type, 0, SESSION, 1, payload, 5).unwrap();
        receiver.receive(&datagram, START).err()
    };
    assert_eq!(
        receive(MessageType::Ping, b"x"),
        state(ProtocolStateFailure::InvalidOnDatagram(MessageType::Ping))
    );
    assert_eq!(
        receive(MessageType::VideoFragment, b"x"),
        Some(QuicTransportError::Datagram(DatagramFailure::Video(
            VideoDatagramError::HeaderTruncated
        )))
    );
    assert_eq!(
        receive(MessageType::AudioPacket, b"x"),
        Some(QuicTransportError::Datagram(DatagramFailure::Audio(
            AudioDatagramError::HeaderTruncated
        )))
    );
    assert_eq!(
        receive(MessageType::MouseMovement, b"x"),
        Some(QuicTransportError::Datagram(DatagramFailure::Input(
            InputProtocolError::InvalidMousePayloadSize
        )))
    );
    assert_eq!(
        receiver.receive(&[0; 47], START).err(),
        state(ProtocolStateFailure::DatagramTruncated)
    );
}

#[test]
fn datagrams_that_cannot_be_sent_are_refused() {
    let mut sender = QuicDatagramSender::new(SESSION);
    let metadata = VideoFrameMetadata {
        frame_id: 0,
        codec: VideoCodec::H264,
        flags: 0,
        presentation_timestamp_us: 1,
    };
    assert_eq!(
        sender
            .send_video_frame(Some(1200), 1, metadata, &[1])
            .err(),
        Some(QuicTransportError::Datagram(DatagramFailure::Video(
            VideoDatagramError::ZeroFrameId
        )))
    );
    assert_eq!(
        sender
            .send_audio_packet(Some(1200), 1, 2, AudioCodec::Opus, 0, 48_000, b"opus")
            .err(),
        Some(QuicTransportError::Datagram(DatagramFailure::Audio(
            AudioDatagramError::InvalidChannelCount(0)
        )))
    );
    assert_eq!(
        sender
            .send_mouse_movement(Some(1200), 1, MouseMovementMode::Absolute, -1, 0, 0, 0)
            .err(),
        Some(QuicTransportError::Datagram(DatagramFailure::Input(
            InputProtocolError::InvalidCoordinates
        )))
    );
}

fn agreement() -> SessionAgreement {
    SessionAgreement {
        protocol_version: 1,
        video_codec: VideoCodec::H264,
        audio_codec: AudioCodec::Opus,
        color_format: ColorFormat::I420,
        hdr: false,
        max_width: 1920,
        max_height: 1080,
        max_fps: 60,
        max_datagram_payload: 1200,
        max_video_bitrate_kbps: 20_000,
        max_file_bitrate_kbps: 8_000,
        latency_mode: LatencyMode::Balanced,
        local_may_send_clipboard: true,
        remote_may_send_clipboard: true,
        file_transfer_enabled: true,
        local_may_send_input: true,
        remote_may_send_input: true,
        reliable_keyframes: true,
    }
}

fn empty_frame() -> Message {
    Message::VideoFrame(VideoFrame {
        frame_id: 1,
        capture_time_ms: 1,
        payload: None,
    })
}

#[test]
fn application_messages_out_of_place_are_refused() {
    let mut stream = QuicApplicationStream::establish(agreement());
    assert_eq!(
        stream
            .enqueue(b"frame".to_vec(), Some(&empty_frame()), Some(1200))
            .err(),
        Some(EnqueueError::Transport(QuicTransportError::ProtocolState(
            ProtocolStateFailure::MissingCodecPayload
        )))
    );
    let mut read = |kind, message_type, payload: &[u8], parsed: Option<&Message>| {
        stream
            .read_reliable(kind, message_type, payload.to_vec(), parsed)
            .err()
    };
    assert_eq!(
        read(
            ReliableChannelKind::Control,
            MessageType::ApplicationControl,
            b"x",
            None
        ),
        state(ProtocolStateFailure::UnparsableMessage)
    );
    assert_eq!(
        read(
            ReliableChannelKind::Clipboard,
            MessageType::Clipboard,
            b"x",
            Some(&Message::KeyEvent)
        ),
        state(ProtocolStateFailure::InvalidMessageOnChannel(
            ReliableChannelKind::Clipboard
        ))
    );
    assert_eq!(
        read(
            ReliableChannelKind::Control,
            MessageType::VideoOrdering,
            &[0, 0, 0, 0, 0, 0, 0, 1, 2],
            Some(&Message::KeyEvent)
        ),
        state(ProtocolStateFailure::NoSwitchDisplay)
    );
    assert_eq!(
        read(
            ReliableChannelKind::Control,
            MessageType::VideoOrderingAck,
            &5u64.to_be_bytes(),
            None
        ),
        state(ProtocolStateFailure::OrderingAcknowledgement(5))
    );
    assert_eq!(
        read_ordering_epoch(&[1, 2]).err(),
        state(ProtocolStateFailure::OrderingEpochTruncated)
    );
    assert_eq!(
        read_ordering_epoch(&[0; 8]).err(),
        state(ProtocolStateFailure::OrderingEpochZero)
    );
    assert_eq!(
        validate_datagram_application_message(
            ApplicationClassTag::Video,
            Some(&Message::AudioFrame)
        )
        .err(),
        state(ProtocolStateFailure::InvalidMessageOnDatagram)
    );
    assert_eq!(
        validate_datagram_application_message(ApplicationClassTag::Video, None).err(),
        state(ProtocolStateFailure::UnparsableMessage)
    );
}

#[test]
fn channels_of_a_connection_are_checked() {
    let mut channels = ApplicationChannels::new();
    let kinds = application_channels();
    channels.add(kinds[0], 1).unwrap();
    assert_eq!(
        channels.add(kinds[0], 2).err(),
        state(ProtocolStateFailure::DuplicateChannel)
    );
    assert_eq!(
        channels.add(ReliableChannelKind::Video, 3).err(),
        state(ProtocolStateFailure::InvalidMessageOnChannel(
            ReliableChannelKind::Video
        ))
    );
    let empty: ApplicationChannels<u8> = ApplicationChannels::new();
    assert_eq!(
        empty.finish().err(),
        state(ProtocolStateFailure::MissingChannel(
            ReliableChannelKind::Control
        ))
    );
}

#[test]
fn failed_negotiations_say_why() {
    let offer = SessionOffer {
        minimum_protocol_version: 1,
        maximum_protocol_version: 1,
        capabilities: 0,
        latency_mode: LatencyMode::Balanced,
        video_codecs: vec![VideoCodec::H264],
        audio_codecs: vec![AudioCodec::Opus],
        color_formats: COLOR_I420,
        max_width: 1920,
        max_height: 1080,
        max_fps: 60,
        max_datagram_payload: 255,
        max_video_bitrate_kbps: 1_000,
        max_file_bitrate_kbps: 0,
    };
    assert_eq!(
        client_offer_payload(&offer).err(),
        state(ProtocolStateFailure::Negotiation(
            SessionNegotiationError::InvalidDatagramSize
        ))
    );
    assert_eq!(
        server_accepts_session(&offer, MessageType::SessionOffer, b"x").err(),
        state(ProtocolStateFailure::Negotiation(
            SessionNegotiationError::HeaderTruncated
        ))
    );
}
