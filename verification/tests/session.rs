use rustadmin_transport::transport::audio_datagram::AudioCodec;
use rustadmin_transport::transport::session::{
    decode_session_acceptance, decode_session_agreement, decode_session_offer,
    encode_session_acceptance, encode_session_agreement, encode_session_offer, negotiate_session,
    validate_agreement_for_offer, validate_session_acceptance, ColorFormat, LatencyMode,
    SessionNegotiationError, SessionOffer, CAP_CLIPBOARD_RECEIVE, CAP_CLIPBOARD_SEND,
    CAP_FILE_TRANSFER, CAP_INPUT_RECEIVE, CAP_INPUT_SEND, CAP_RELIABLE_KEYFRAMES, COLOR_I420,
    COLOR_I444,
};
use rustadmin_transport::transport::video_datagram::VideoCodec;

fn offer() -> SessionOffer {
    SessionOffer {
        minimum_protocol_version: 1,
        maximum_protocol_version: 2,
        capabilities: CAP_CLIPBOARD_SEND
            | CAP_CLIPBOARD_RECEIVE
            | CAP_FILE_TRANSFER
            | CAP_INPUT_SEND
            | CAP_INPUT_RECEIVE
            | CAP_RELIABLE_KEYFRAMES,
        latency_mode: LatencyMode::LowLatency,
        video_codecs: vec![VideoCodec::H265, VideoCodec::H264],
        audio_codecs: vec![AudioCodec::Opus],
        color_formats: COLOR_I444 | COLOR_I420,
        max_width: 3840,
        max_height: 2160,
        max_fps: 60,
        max_datagram_payload: 1200,
        max_video_bitrate_kbps: 50_000,
        max_file_bitrate_kbps: 20_000,
    }
}

#[test]
fn offer_round_trip() {
    let offer = offer();
    assert_eq!(
        decode_session_offer(&encode_session_offer(&offer).unwrap()),
        Ok(offer)
    );
}

#[test]
fn agreement_round_trip_and_offer_validation() {
    let local = offer();
    let agreement = negotiate_session(&local, &local).unwrap();
    let encoded = encode_session_agreement(&agreement).unwrap();
    let decoded = decode_session_agreement(&encoded).unwrap();
    assert_eq!(decoded, agreement);
    assert!(validate_agreement_for_offer(&decoded, &local).is_ok());

    let mut downgraded = decoded;
    downgraded.protocol_version = 3;
    assert_eq!(
        validate_agreement_for_offer(&downgraded, &local),
        Err(SessionNegotiationError::InvalidAgreement)
    );
}

#[test]
fn acceptance_carries_server_offer_and_prevents_downgrade() {
    let client_offer = offer();
    let mut server_offer = offer();
    server_offer.maximum_protocol_version = 1;
    let agreement = negotiate_session(&client_offer, &server_offer).unwrap();
    let encoded = encode_session_acceptance(&server_offer, &agreement).unwrap();
    let (decoded_offer, decoded_agreement) = decode_session_acceptance(&encoded).unwrap();
    assert_eq!(decoded_offer, server_offer);
    assert_eq!(decoded_agreement, agreement);
    assert!(
        validate_session_acceptance(&client_offer, &decoded_offer, &decoded_agreement).is_ok()
    );

    let mut downgraded = decoded_agreement;
    downgraded.max_fps = downgraded.max_fps.saturating_sub(1);
    assert_eq!(
        validate_session_acceptance(&client_offer, &decoded_offer, &downgraded),
        Err(SessionNegotiationError::InvalidAgreement)
    );
}

#[test]
fn negotiation_selects_intersection_and_directional_permissions() {
    let local = offer();
    let mut remote = offer();
    remote.maximum_protocol_version = 1;
    remote.video_codecs = vec![VideoCodec::H264];
    remote.color_formats = COLOR_I420;
    remote.max_width = 1920;
    remote.max_fps = 30;
    remote.capabilities &= !CAP_CLIPBOARD_SEND;
    let agreement = negotiate_session(&local, &remote).unwrap();
    assert_eq!(agreement.protocol_version, 1);
    assert_eq!(agreement.video_codec, VideoCodec::H264);
    assert_eq!(agreement.color_format, ColorFormat::I420);
    assert_eq!((agreement.max_width, agreement.max_fps), (1920, 30));
    assert!(agreement.local_may_send_clipboard);
    assert!(!agreement.remote_may_send_clipboard);
}

#[test]
fn incompatible_protocol_and_codec_fail_cleanly() {
    let local = offer();
    let mut remote = offer();
    remote.minimum_protocol_version = 3;
    remote.maximum_protocol_version = 3;
    assert_eq!(
        negotiate_session(&local, &remote),
        Err(SessionNegotiationError::IncompatibleProtocol)
    );
    remote = offer();
    remote.video_codecs = vec![VideoCodec::Av1];
    assert_eq!(
        negotiate_session(&local, &remote),
        Err(SessionNegotiationError::IncompatibleVideoCodec)
    );
}

#[test]
fn malformed_limits_and_duplicate_codecs_are_rejected() {
    let mut invalid = offer();
    invalid.max_datagram_payload = 100;
    assert_eq!(
        encode_session_offer(&invalid),
        Err(SessionNegotiationError::InvalidDatagramSize)
    );
    invalid = offer();
    invalid.video_codecs.push(VideoCodec::H265);
    assert_eq!(
        encode_session_offer(&invalid),
        Err(SessionNegotiationError::InvalidVideoCodecs)
    );
}
