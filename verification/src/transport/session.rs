//! What two peers offer each other, and what they agree on.
use super::audio_datagram;
use super::audio_datagram::AudioCodec;
use super::video_datagram;
use super::video_datagram::VideoCodec;
use crate::wire;
use std::collections::BTreeSet;
use vstd::prelude::*;

verus! {

broadcast use {vstd::std_specs::btree::group_btree_axioms, vstd::laws_cmp::group_laws_cmp};

pub const SESSION_OFFER_HEADER_LEN: usize = 32;

pub const SESSION_AGREEMENT_LEN: usize = 28;

pub const SESSION_ACCEPTANCE_HEADER_LEN: usize = 4;

pub const MAX_OFFERED_VIDEO_CODECS: usize = 8;

pub const MAX_OFFERED_AUDIO_CODECS: usize = 4;

pub const COLOR_I420: u16 = 1;

pub const COLOR_I444: u16 = 2;

pub const COLOR_NV12: u16 = 4;

pub const COLOR_P010: u16 = 8;

pub const KNOWN_COLOR_FORMATS: u16 = 15;

pub const CAP_HDR: u16 = 1;

pub const CAP_CLIPBOARD_SEND: u16 = 2;

pub const CAP_CLIPBOARD_RECEIVE: u16 = 4;

pub const CAP_FILE_TRANSFER: u16 = 8;

pub const CAP_INPUT_SEND: u16 = 16;

pub const CAP_INPUT_RECEIVE: u16 = 32;

pub const CAP_RELIABLE_KEYFRAMES: u16 = 64;

pub const KNOWN_CAPABILITIES: u16 = 127;

#[derive(Clone, Copy, Debug, Eq, PartialEq, Structural)]
pub enum LatencyMode {
    Balanced,
    LowLatency,
    Quality,
}

impl LatencyMode {
    /// The byte that stands for the mode on the wire.
    pub open spec fn code_spec(self) -> u8 {
        match self {
            LatencyMode::Balanced => 1,
            LatencyMode::LowLatency => 2,
            LatencyMode::Quality => 3,
        }
    }

    /// The byte that stands for the mode on the wire.
    #[verifier::when_used_as_spec(code_spec)]
    pub fn code(self) -> (code: u8)
        ensures
            code == self.code_spec(),
    {
        match self {
            LatencyMode::Balanced => 1,
            LatencyMode::LowLatency => 2,
            LatencyMode::Quality => 3,
        }
    }
}

/// The mode that a byte stands for.
pub open spec fn latency_mode_of(value: u8) -> Result<LatencyMode, SessionNegotiationError> {
    match value {
        1 => Ok(LatencyMode::Balanced),
        2 => Ok(LatencyMode::LowLatency),
        3 => Ok(LatencyMode::Quality),
        _ => Err(SessionNegotiationError::InvalidLatencyMode(value)),
    }
}

impl vstd::std_specs::convert::TryFromSpecImpl<u8> for LatencyMode {
    open spec fn obeys_try_from_spec() -> bool {
        true
    }

    open spec fn try_from_spec(value: u8) -> Result<Self, SessionNegotiationError> {
        latency_mode_of(value)
    }
}

impl TryFrom<u8> for LatencyMode {
    type Error = SessionNegotiationError;

    fn try_from(value: u8) -> (result: Result<Self, SessionNegotiationError>) {
        match value {
            1 => Ok(LatencyMode::Balanced),
            2 => Ok(LatencyMode::LowLatency),
            3 => Ok(LatencyMode::Quality),
            _ => Err(SessionNegotiationError::InvalidLatencyMode(value)),
        }
    }
}

#[derive(Clone, Copy, Debug, Eq, PartialEq, Structural)]
pub enum ColorFormat {
    I420,
    I444,
    Nv12,
    P010,
}

impl ColorFormat {
    /// The byte that stands for the format in an agreement.
    pub open spec fn code_spec(self) -> u8 {
        match self {
            ColorFormat::I420 => 1,
            ColorFormat::I444 => 2,
            ColorFormat::Nv12 => 3,
            ColorFormat::P010 => 4,
        }
    }

    /// The byte that stands for the format in an agreement.
    #[verifier::when_used_as_spec(code_spec)]
    pub fn code(self) -> (code: u8)
        ensures
            code == self.code_spec(),
    {
        match self {
            ColorFormat::I420 => 1,
            ColorFormat::I444 => 2,
            ColorFormat::Nv12 => 3,
            ColorFormat::P010 => 4,
        }
    }

    /// The bit that stands for the format in an offer.
    pub open spec fn mask_spec(self) -> u16 {
        match self {
            ColorFormat::I420 => COLOR_I420,
            ColorFormat::I444 => COLOR_I444,
            ColorFormat::Nv12 => COLOR_NV12,
            ColorFormat::P010 => COLOR_P010,
        }
    }

    fn mask(self) -> (mask: u16)
        ensures
            mask == self.mask_spec(),
    {
        match self {
            ColorFormat::I420 => COLOR_I420,
            ColorFormat::I444 => COLOR_I444,
            ColorFormat::Nv12 => COLOR_NV12,
            ColorFormat::P010 => COLOR_P010,
        }
    }
}

/// The color format that a byte stands for.
pub open spec fn color_format_of(value: u8) -> Result<ColorFormat, SessionNegotiationError> {
    match value {
        1 => Ok(ColorFormat::I420),
        2 => Ok(ColorFormat::I444),
        3 => Ok(ColorFormat::Nv12),
        4 => Ok(ColorFormat::P010),
        _ => Err(SessionNegotiationError::UnknownColorFormat(value)),
    }
}

impl vstd::std_specs::convert::TryFromSpecImpl<u8> for ColorFormat {
    open spec fn obeys_try_from_spec() -> bool {
        true
    }

    open spec fn try_from_spec(value: u8) -> Result<Self, SessionNegotiationError> {
        color_format_of(value)
    }
}

impl TryFrom<u8> for ColorFormat {
    type Error = SessionNegotiationError;

    fn try_from(value: u8) -> (result: Result<Self, SessionNegotiationError>) {
        match value {
            1 => Ok(ColorFormat::I420),
            2 => Ok(ColorFormat::I444),
            3 => Ok(ColorFormat::Nv12),
            4 => Ok(ColorFormat::P010),
            _ => Err(SessionNegotiationError::UnknownColorFormat(value)),
        }
    }
}

#[derive(Clone, Copy, Debug, Eq, PartialEq, Structural)]
pub enum SessionNegotiationError {
    HeaderTruncated,
    LengthMismatch,
    InvalidReservedField,
    InvalidProtocolRange,
    IncompatibleProtocol,
    InvalidCapabilities(u16),
    InvalidColorFormats(u16),
    InvalidVideoCodecs,
    InvalidAudioCodecs,
    IncompatibleVideoCodec,
    IncompatibleAudioCodec,
    IncompatibleColorFormat,
    InvalidGeometry,
    InvalidDatagramSize,
    InvalidBitrate,
    UnknownVideoCodec(u8),
    UnknownAudioCodec(u8),
    UnknownColorFormat(u8),
    InvalidLatencyMode(u8),
    InvalidAgreement,
}

#[derive(Clone, Debug, Eq, PartialEq)]
pub struct SessionOffer {
    pub minimum_protocol_version: u16,
    pub maximum_protocol_version: u16,
    pub capabilities: u16,
    pub latency_mode: LatencyMode,
    pub video_codecs: Vec<VideoCodec>,
    pub audio_codecs: Vec<AudioCodec>,
    pub color_formats: u16,
    pub max_width: u16,
    pub max_height: u16,
    pub max_fps: u16,
    pub max_datagram_payload: u16,
    pub max_video_bitrate_kbps: u32,
    pub max_file_bitrate_kbps: u32,
}

/// An offer as a value, with its codecs in the order of preference.
#[verifier::ext_equal]
pub struct OfferView {
    pub minimum_protocol_version: u16,
    pub maximum_protocol_version: u16,
    pub capabilities: u16,
    pub latency_mode: LatencyMode,
    pub video_codecs: Seq<VideoCodec>,
    pub audio_codecs: Seq<AudioCodec>,
    pub color_formats: u16,
    pub max_width: u16,
    pub max_height: u16,
    pub max_fps: u16,
    pub max_datagram_payload: u16,
    pub max_video_bitrate_kbps: u32,
    pub max_file_bitrate_kbps: u32,
}

impl View for SessionOffer {
    type V = OfferView;

    open spec fn view(&self) -> OfferView {
        OfferView {
            minimum_protocol_version: self.minimum_protocol_version,
            maximum_protocol_version: self.maximum_protocol_version,
            capabilities: self.capabilities,
            latency_mode: self.latency_mode,
            video_codecs: self.video_codecs@,
            audio_codecs: self.audio_codecs@,
            color_formats: self.color_formats,
            max_width: self.max_width,
            max_height: self.max_height,
            max_fps: self.max_fps,
            max_datagram_payload: self.max_datagram_payload,
            max_video_bitrate_kbps: self.max_video_bitrate_kbps,
            max_file_bitrate_kbps: self.max_file_bitrate_kbps,
        }
    }
}

#[derive(Clone, Copy, Debug, Eq, PartialEq, Structural)]
pub struct SessionAgreement {
    pub protocol_version: u16,
    pub video_codec: VideoCodec,
    pub audio_codec: AudioCodec,
    pub color_format: ColorFormat,
    pub hdr: bool,
    pub max_width: u16,
    pub max_height: u16,
    pub max_fps: u16,
    pub max_datagram_payload: u16,
    pub max_video_bitrate_kbps: u32,
    pub max_file_bitrate_kbps: u32,
    pub latency_mode: LatencyMode,
    pub local_may_send_clipboard: bool,
    pub remote_may_send_clipboard: bool,
    pub file_transfer_enabled: bool,
    pub local_may_send_input: bool,
    pub remote_may_send_input: bool,
    pub reliable_keyframes: bool,
}

/// Whether a mask of capabilities holds the given one.
pub open spec fn has_capability(capabilities: u16, capability: u16) -> bool {
    capabilities & capability != 0
}

/// The first rule that an offer breaks, if any.
pub open spec fn offer_error(offer: OfferView) -> Option<SessionNegotiationError> {
    if offer.minimum_protocol_version == 0 || offer.maximum_protocol_version
        < offer.minimum_protocol_version {
        Some(SessionNegotiationError::InvalidProtocolRange)
    } else if offer.capabilities & !KNOWN_CAPABILITIES != 0 {
        Some(SessionNegotiationError::InvalidCapabilities(offer.capabilities))
    } else if offer.color_formats == 0 || offer.color_formats & !KNOWN_COLOR_FORMATS != 0 {
        Some(SessionNegotiationError::InvalidColorFormats(offer.color_formats))
    } else if offer.video_codecs.len() == 0 || offer.video_codecs.len() > MAX_OFFERED_VIDEO_CODECS
        || !offer.video_codecs.no_duplicates() {
        Some(SessionNegotiationError::InvalidVideoCodecs)
    } else if offer.audio_codecs.len() == 0 || offer.audio_codecs.len() > MAX_OFFERED_AUDIO_CODECS
        || !offer.audio_codecs.no_duplicates() {
        Some(SessionNegotiationError::InvalidAudioCodecs)
    } else if !(320 <= offer.max_width <= 16_384) || !(200 <= offer.max_height <= 16_384) || !(1
        <= offer.max_fps <= 240) {
        Some(SessionNegotiationError::InvalidGeometry)
    } else if !(256 <= offer.max_datagram_payload <= 65_000) {
        Some(SessionNegotiationError::InvalidDatagramSize)
    } else if !(0 < offer.max_video_bitrate_kbps <= 1_000_000) {
        Some(SessionNegotiationError::InvalidBitrate)
    } else if has_capability(offer.capabilities, CAP_FILE_TRANSFER) && offer.max_file_bitrate_kbps
        == 0 {
        Some(SessionNegotiationError::InvalidBitrate)
    } else {
        None
    }
}

/// Whether the fields of an agreement make sense together.
pub open spec fn agreement_valid(agreement: SessionAgreement) -> bool {
    &&& agreement.protocol_version != 0
    &&& 320 <= agreement.max_width <= 16_384
    &&& 200 <= agreement.max_height <= 16_384
    &&& 1 <= agreement.max_fps <= 240
    &&& 256 <= agreement.max_datagram_payload <= 65_000
    &&& 0 < agreement.max_video_bitrate_kbps <= 1_000_000
    &&& agreement.file_transfer_enabled ==> agreement.max_file_bitrate_kbps > 0
    &&& agreement.hdr ==> agreement.color_format == ColorFormat::P010
}

/// The bytes of a list of video codecs.
pub open spec fn video_codes(codecs: Seq<VideoCodec>) -> Seq<u8> {
    codecs.map_values(|codec: VideoCodec| codec.code())
}

/// The bytes of a list of audio codecs.
pub open spec fn audio_codes(codecs: Seq<AudioCodec>) -> Seq<u8> {
    codecs.map_values(|codec: AudioCodec| codec.code())
}

/// The thirty-two bytes before the lists of codecs in an offer.
pub open spec fn offer_header_bytes(offer: OfferView) -> Seq<u8> {
    wire::be16(offer.minimum_protocol_version) + wire::be16(offer.maximum_protocol_version)
        + wire::be16(offer.capabilities) + seq![
        offer.latency_mode.code(),
        offer.video_codecs.len() as u8,
        offer.audio_codecs.len() as u8,
        0u8,
    ] + wire::be16(offer.color_formats) + wire::be16(offer.max_width) + wire::be16(offer.max_height)
        + wire::be16(offer.max_fps) + wire::be16(offer.max_datagram_payload) + wire::be32(
        offer.max_video_bitrate_kbps,
    ) + wire::be32(offer.max_file_bitrate_kbps) + wire::be32(0)
}

/// The bytes of an offer.
pub open spec fn offer_bytes(offer: OfferView) -> Seq<u8> {
    offer_header_bytes(offer) + (video_codes(offer.video_codecs) + audio_codes(offer.audio_codecs))
}

fn video_codec_bytes(codecs: &Vec<VideoCodec>) -> (bytes: Vec<u8>)
    ensures
        bytes@ == video_codes(codecs@),
{
    let mut bytes: Vec<u8> = Vec::new();
    let mut index: usize = 0;
    while index < codecs.len()
        invariant
            index <= codecs@.len(),
            bytes@ == video_codes(codecs@.take(index as int)),
        decreases codecs@.len() - index,
    {
        bytes.push(codecs[index].code());
        index = index + 1;
        assert(bytes@ =~= video_codes(codecs@.take(index as int)));
    }
    assert(codecs@.take(index as int) =~= codecs@);
    bytes
}

fn audio_codec_bytes(codecs: &Vec<AudioCodec>) -> (bytes: Vec<u8>)
    ensures
        bytes@ == audio_codes(codecs@),
{
    let mut bytes: Vec<u8> = Vec::new();
    let mut index: usize = 0;
    while index < codecs.len()
        invariant
            index <= codecs@.len(),
            bytes@ == audio_codes(codecs@.take(index as int)),
        decreases codecs@.len() - index,
    {
        bytes.push(codecs[index].code());
        index = index + 1;
        assert(bytes@ =~= audio_codes(codecs@.take(index as int)));
    }
    assert(codecs@.take(index as int) =~= codecs@);
    bytes
}

fn contains_duplicates(values: &Vec<u8>) -> (duplicates: bool)
    ensures
        duplicates == !values@.no_duplicates(),
{
    let mut seen: BTreeSet<u8> = BTreeSet::new();
    let mut index: usize = 0;
    while index < values.len()
        invariant
            index <= values@.len(),
            forall|value: u8| #[trigger]
                seen@.contains(value) <==> exists|k: int| 0 <= k < index && values@[k] == value,
            forall|i: int, j: int| 0 <= i < j < index ==> values@[i] != values@[j],
        decreases values@.len() - index,
    {
        let value: u8 = values[index];
        let ghost before = seen@;
        if !seen.insert(value) {
            assert(before.contains(value));
            return true;
        }
        assert(!before.contains(value));
        assert forall|other: u8| #[trigger] seen@.contains(other) <==> exists|k: int|
            0 <= k < index + 1 && values@[k] == other by {
            if other == value {
                assert(values@[index as int] == other);
            } else if before.contains(other) {
                let k = choose|k: int| 0 <= k < index && values@[k] == other;
                assert(values@[k] == other);
            }
        }
        index = index + 1;
    }
    false
}

proof fn lemma_codes_keep_duplicates(video: Seq<VideoCodec>, audio: Seq<AudioCodec>)
    ensures
        video_codes(video).no_duplicates() == video.no_duplicates(),
        audio_codes(audio).no_duplicates() == audio.no_duplicates(),
{
    let codes = video_codes(video);
    assert forall|i: int, j: int| 0 <= i < video.len() && 0 <= j < video.len() implies ((
    #[trigger] codes[i]) == (#[trigger] codes[j])) == (video[i] == video[j]) by {}
    if codes.no_duplicates() {
        assert forall|i: int, j: int|
            0 <= i < video.len() && 0 <= j < video.len() && i != j implies video[i] != video[j] by {
            assert(codes[i] != codes[j]);
        }
    } else {
        let (i, j) = choose|i: int, j: int|
            0 <= i < codes.len() && 0 <= j < codes.len() && i != j && codes[i] == codes[j];
        assert(video[i] == video[j]);
    }
    let codes = audio_codes(audio);
    assert forall|i: int, j: int| 0 <= i < audio.len() && 0 <= j < audio.len() implies ((
    #[trigger] codes[i]) == (#[trigger] codes[j])) == (audio[i] == audio[j]) by {}
    if codes.no_duplicates() {
        assert forall|i: int, j: int|
            0 <= i < audio.len() && 0 <= j < audio.len() && i != j implies audio[i] != audio[j] by {
            assert(codes[i] != codes[j]);
        }
    } else {
        let (i, j) = choose|i: int, j: int|
            0 <= i < codes.len() && 0 <= j < codes.len() && i != j && codes[i] == codes[j];
        assert(audio[i] == audio[j]);
    }
}

fn validate_offer(offer: &SessionOffer) -> (result: Result<(), SessionNegotiationError>)
    ensures
        match offer_error(offer@) {
            Some(error) => result == Err::<(), _>(error),
            None => result == Ok::<_, SessionNegotiationError>(()),
        },
{
    if offer.minimum_protocol_version == 0 || offer.maximum_protocol_version
        < offer.minimum_protocol_version {
        return Err(SessionNegotiationError::InvalidProtocolRange);
    }
    if offer.capabilities & !KNOWN_CAPABILITIES != 0 {
        return Err(SessionNegotiationError::InvalidCapabilities(offer.capabilities));
    }
    if offer.color_formats == 0 || offer.color_formats & !KNOWN_COLOR_FORMATS != 0 {
        return Err(SessionNegotiationError::InvalidColorFormats(offer.color_formats));
    }
    proof {
        lemma_codes_keep_duplicates(offer.video_codecs@, offer.audio_codecs@);
    }
    if offer.video_codecs.len() == 0 || offer.video_codecs.len() > MAX_OFFERED_VIDEO_CODECS
        || contains_duplicates(&video_codec_bytes(&offer.video_codecs)) {
        return Err(SessionNegotiationError::InvalidVideoCodecs);
    }
    if offer.audio_codecs.len() == 0 || offer.audio_codecs.len() > MAX_OFFERED_AUDIO_CODECS
        || contains_duplicates(&audio_codec_bytes(&offer.audio_codecs)) {
        return Err(SessionNegotiationError::InvalidAudioCodecs);
    }
    if offer.max_width < 320 || offer.max_width > 16_384 || offer.max_height < 200
        || offer.max_height > 16_384 || offer.max_fps < 1 || offer.max_fps > 240 {
        return Err(SessionNegotiationError::InvalidGeometry);
    }
    if offer.max_datagram_payload < 256 || offer.max_datagram_payload > 65_000 {
        return Err(SessionNegotiationError::InvalidDatagramSize);
    }
    if offer.max_video_bitrate_kbps == 0 || offer.max_video_bitrate_kbps > 1_000_000 {
        return Err(SessionNegotiationError::InvalidBitrate);
    }
    if offer.capabilities & CAP_FILE_TRANSFER != 0 && offer.max_file_bitrate_kbps == 0 {
        return Err(SessionNegotiationError::InvalidBitrate);
    }
    Ok(())
}

/// The bytes of an offer, if it is valid.
pub fn encode_session_offer(offer: &SessionOffer) -> (result: Result<
    Vec<u8>,
    SessionNegotiationError,
>)
    ensures
        match offer_error(offer@) {
            Some(error) => result == Err::<Vec<u8>, _>(error),
            None => result matches Ok(bytes) && bytes@ == offer_bytes(offer@),
        },
{
    validate_offer(offer)?;
    let mut payload: Vec<u8> = Vec::new();
    wire::put_u16(&mut payload, offer.minimum_protocol_version);
    wire::put_u16(&mut payload, offer.maximum_protocol_version);
    wire::put_u16(&mut payload, offer.capabilities);
    wire::put_u8(&mut payload, offer.latency_mode.code());
    wire::put_u8(&mut payload, offer.video_codecs.len() as u8);
    wire::put_u8(&mut payload, offer.audio_codecs.len() as u8);
    wire::put_u8(&mut payload, 0);
    wire::put_u16(&mut payload, offer.color_formats);
    wire::put_u16(&mut payload, offer.max_width);
    wire::put_u16(&mut payload, offer.max_height);
    wire::put_u16(&mut payload, offer.max_fps);
    wire::put_u16(&mut payload, offer.max_datagram_payload);
    wire::put_u32(&mut payload, offer.max_video_bitrate_kbps);
    wire::put_u32(&mut payload, offer.max_file_bitrate_kbps);
    wire::put_u32(&mut payload, 0);
    assert(payload@ =~= offer_header_bytes(offer@));
    let ghost head = payload@;
    wire::put_bytes(&mut payload, &video_codec_bytes(&offer.video_codecs));
    wire::put_bytes(&mut payload, &audio_codec_bytes(&offer.audio_codecs));
    assert(payload@ =~= head + (video_codes(offer@.video_codecs) + audio_codes(
        offer@.audio_codecs,
    )));
    Ok(payload)
}

/// The first byte, if any, that stands for no video codec.
pub open spec fn unknown_video_code(codes: Seq<u8>) -> Option<u8>
    decreases codes.len(),
{
    if codes.len() == 0 {
        None
    } else if unknown_video_code(codes.drop_last()) is Some {
        unknown_video_code(codes.drop_last())
    } else if video_datagram::video_codec_of(codes.last()) is Err {
        Some(codes.last())
    } else {
        None
    }
}

/// The first byte, if any, that stands for no audio codec.
pub open spec fn unknown_audio_code(codes: Seq<u8>) -> Option<u8>
    decreases codes.len(),
{
    if codes.len() == 0 {
        None
    } else if unknown_audio_code(codes.drop_last()) is Some {
        unknown_audio_code(codes.drop_last())
    } else if audio_datagram::audio_codec_of(codes.last()) is Err {
        Some(codes.last())
    } else {
        None
    }
}

/// The video codecs that bytes stand for.
pub open spec fn video_codecs_of(codes: Seq<u8>) -> Seq<VideoCodec> {
    codes.map_values(|code: u8| video_datagram::video_codec_of(code)->Ok_0)
}

/// The audio codecs that bytes stand for.
pub open spec fn audio_codecs_of(codes: Seq<u8>) -> Seq<AudioCodec> {
    codes.map_values(|code: u8| audio_datagram::audio_codec_of(code)->Ok_0)
}

/// The offer in a payload, before it is held against the rules for offers.
pub open spec fn offer_fields(payload: Seq<u8>, latency_mode: LatencyMode) -> OfferView {
    let audio_start = SESSION_OFFER_HEADER_LEN + payload[7];
    OfferView {
        minimum_protocol_version: wire::u16_at(payload, 0),
        maximum_protocol_version: wire::u16_at(payload, 2),
        capabilities: wire::u16_at(payload, 4),
        latency_mode,
        video_codecs: video_codecs_of(
            payload.subrange(SESSION_OFFER_HEADER_LEN as int, audio_start),
        ),
        audio_codecs: audio_codecs_of(payload.subrange(audio_start, payload.len() as int)),
        color_formats: wire::u16_at(payload, 10),
        max_width: wire::u16_at(payload, 12),
        max_height: wire::u16_at(payload, 14),
        max_fps: wire::u16_at(payload, 16),
        max_datagram_payload: wire::u16_at(payload, 18),
        max_video_bitrate_kbps: wire::u32_at(payload, 20),
        max_file_bitrate_kbps: wire::u32_at(payload, 24),
    }
}

/// The offer in a payload, or the first reason why there is none.
pub open spec fn parse_offer(payload: Seq<u8>) -> Result<OfferView, SessionNegotiationError> {
    let audio_start = SESSION_OFFER_HEADER_LEN + payload[7];
    let video = payload.subrange(SESSION_OFFER_HEADER_LEN as int, audio_start);
    let audio = payload.subrange(audio_start, payload.len() as int);
    if payload.len() < SESSION_OFFER_HEADER_LEN {
        Err(SessionNegotiationError::HeaderTruncated)
    } else if payload[9] != 0 || wire::u32_at(payload, 28) != 0 {
        Err(SessionNegotiationError::InvalidReservedField)
    } else if payload.len() != audio_start + payload[8] {
        Err(SessionNegotiationError::LengthMismatch)
    } else if unknown_video_code(video) is Some {
        Err(SessionNegotiationError::UnknownVideoCodec(unknown_video_code(video)->Some_0))
    } else if unknown_audio_code(audio) is Some {
        Err(SessionNegotiationError::UnknownAudioCodec(unknown_audio_code(audio)->Some_0))
    } else {
        match latency_mode_of(payload[6]) {
            Err(error) => Err(error),
            Ok(latency_mode) => {
                let offer = offer_fields(payload, latency_mode);
                match offer_error(offer) {
                    Some(error) => Err(error),
                    None => Ok(offer),
                }
            },
        }
    }
}

fn decode_video_codecs(codes: &[u8]) -> (result: Result<Vec<VideoCodec>, SessionNegotiationError>)
    ensures
        match unknown_video_code(codes@) {
            Some(code) => result == Err::<Vec<VideoCodec>, _>(
                SessionNegotiationError::UnknownVideoCodec(code),
            ),
            None => result matches Ok(codecs) && codecs@ == video_codecs_of(codes@),
        },
{
    let mut codecs: Vec<VideoCodec> = Vec::new();
    let mut index: usize = 0;
    while index < codes.len()
        invariant
            index <= codes@.len(),
            unknown_video_code(codes@.take(index as int)) is None,
            codecs@ == video_codecs_of(codes@.take(index as int)),
        decreases codes@.len() - index,
    {
        proof {
            assert(codes@.take(index + 1).drop_last() =~= codes@.take(index as int));
        }
        match VideoCodec::try_from(codes[index]) {
            Ok(codec) => {
                codecs.push(codec);
            },
            Err(_) => {
                proof {
                    lemma_unknown_codes(codes@, index + 1);
                }
                return Err(SessionNegotiationError::UnknownVideoCodec(codes[index]));
            },
        }
        index = index + 1;
        assert(codecs@ =~= video_codecs_of(codes@.take(index as int)));
    }
    assert(codes@.take(index as int) =~= codes@);
    Ok(codecs)
}

fn decode_audio_codecs(codes: &[u8]) -> (result: Result<Vec<AudioCodec>, SessionNegotiationError>)
    ensures
        match unknown_audio_code(codes@) {
            Some(code) => result == Err::<Vec<AudioCodec>, _>(
                SessionNegotiationError::UnknownAudioCodec(code),
            ),
            None => result matches Ok(codecs) && codecs@ == audio_codecs_of(codes@),
        },
{
    let mut codecs: Vec<AudioCodec> = Vec::new();
    let mut index: usize = 0;
    while index < codes.len()
        invariant
            index <= codes@.len(),
            unknown_audio_code(codes@.take(index as int)) is None,
            codecs@ == audio_codecs_of(codes@.take(index as int)),
        decreases codes@.len() - index,
    {
        proof {
            assert(codes@.take(index + 1).drop_last() =~= codes@.take(index as int));
        }
        match AudioCodec::try_from(codes[index]) {
            Ok(codec) => {
                codecs.push(codec);
            },
            Err(_) => {
                proof {
                    lemma_unknown_codes(codes@, index + 1);
                }
                return Err(SessionNegotiationError::UnknownAudioCodec(codes[index]));
            },
        }
        index = index + 1;
        assert(codecs@ =~= audio_codecs_of(codes@.take(index as int)));
    }
    assert(codes@.take(index as int) =~= codes@);
    Ok(codecs)
}

/// What is unknown in the first bytes of a list is what is unknown in the list.
proof fn lemma_unknown_codes(codes: Seq<u8>, prefix: int)
    requires
        0 <= prefix <= codes.len(),
    ensures
        unknown_video_code(codes.take(prefix)) is Some ==> unknown_video_code(codes)
            == unknown_video_code(codes.take(prefix)),
        unknown_audio_code(codes.take(prefix)) is Some ==> unknown_audio_code(codes)
            == unknown_audio_code(codes.take(prefix)),
    decreases codes.len(),
{
    if prefix < codes.len() {
        assert(codes.drop_last().take(prefix) =~= codes.take(prefix));
        lemma_unknown_codes(codes.drop_last(), prefix);
    } else {
        assert(codes.take(prefix) =~= codes);
    }
}

/// The offer in a payload.
pub fn decode_session_offer(payload: &[u8]) -> (result: Result<
    SessionOffer,
    SessionNegotiationError,
>)
    ensures
        match parse_offer(payload@) {
            Err(error) => result == Err::<SessionOffer, _>(error),
            Ok(view) => result matches Ok(offer) && offer@ == view,
        },
{
    if payload.len() < SESSION_OFFER_HEADER_LEN {
        return Err(SessionNegotiationError::HeaderTruncated);
    }
    if payload[9] != 0 || wire::read_u32(payload, 28) != 0 {
        return Err(SessionNegotiationError::InvalidReservedField);
    }
    let audio_start: usize = SESSION_OFFER_HEADER_LEN + payload[7] as usize;
    if payload.len() != audio_start + payload[8] as usize {
        return Err(SessionNegotiationError::LengthMismatch);
    }
    let video_codecs = decode_video_codecs(
        vstd::slice::slice_subrange(payload, SESSION_OFFER_HEADER_LEN, audio_start),
    )?;
    let audio_codecs = decode_audio_codecs(
        vstd::slice::slice_subrange(payload, audio_start, payload.len()),
    )?;
    let latency_mode = LatencyMode::try_from(payload[6])?;
    let offer = SessionOffer {
        minimum_protocol_version: wire::read_u16(payload, 0),
        maximum_protocol_version: wire::read_u16(payload, 2),
        capabilities: wire::read_u16(payload, 4),
        latency_mode,
        video_codecs,
        audio_codecs,
        color_formats: wire::read_u16(payload, 10),
        max_width: wire::read_u16(payload, 12),
        max_height: wire::read_u16(payload, 14),
        max_fps: wire::read_u16(payload, 16),
        max_datagram_payload: wire::read_u16(payload, 18),
        max_video_bitrate_kbps: wire::read_u32(payload, 20),
        max_file_bitrate_kbps: wire::read_u32(payload, 24),
    };
    validate_offer(&offer)?;
    Ok(offer)
}

/// The first element of `preferred` that is also in `other`.
pub open spec fn first_common<T>(preferred: Seq<T>, other: Seq<T>) -> Option<T>
    decreases preferred.len(),
{
    if preferred.len() == 0 {
        None
    } else if first_common(preferred.drop_last(), other) is Some {
        first_common(preferred.drop_last(), other)
    } else if other.contains(preferred.last()) {
        Some(preferred.last())
    } else {
        None
    }
}

/// What is common in the first elements of a list is what is common first.
proof fn lemma_first_common<T>(preferred: Seq<T>, other: Seq<T>, prefix: int)
    requires
        0 <= prefix <= preferred.len(),
    ensures
        first_common(preferred.take(prefix), other) is Some ==> first_common(preferred, other)
            == first_common(preferred.take(prefix), other),
    decreases preferred.len(),
{
    if prefix < preferred.len() {
        assert(preferred.drop_last().take(prefix) =~= preferred.take(prefix));
        lemma_first_common(preferred.drop_last(), other, prefix);
    } else {
        assert(preferred.take(prefix) =~= preferred);
    }
}

/// What both lists have in common is in both of them.
proof fn lemma_first_common_is_common<T>(preferred: Seq<T>, other: Seq<T>)
    ensures
        match first_common(preferred, other) {
            Some(common) => preferred.contains(common) && other.contains(common),
            None => forall|element: T| preferred.contains(element) ==> !other.contains(element),
        },
    decreases preferred.len(),
{
    if preferred.len() > 0 {
        let rest = preferred.drop_last();
        lemma_first_common_is_common(rest, other);
        if first_common(rest, other) is Some {
            let common = first_common(rest, other)->Some_0;
            let k = choose|k: int| 0 <= k < rest.len() && rest[k] == common;
            assert(preferred[k] == common);
        } else if other.contains(preferred.last()) {
            assert(preferred[preferred.len() - 1] == preferred.last());
        } else {
            assert forall|element: T| preferred.contains(element) implies !other.contains(
                element,
            ) by {
                let k = choose|k: int| 0 <= k < preferred.len() && preferred[k] == element;
                if k < rest.len() {
                    assert(rest[k] == element);
                    assert(rest.contains(element));
                }
            }
        }
    }
}

fn contains_video_codec(codecs: &Vec<VideoCodec>, codec: VideoCodec) -> (contained: bool)
    ensures
        contained == codecs@.contains(codec),
{
    let mut index: usize = 0;
    while index < codecs.len()
        invariant
            index <= codecs@.len(),
            forall|k: int| 0 <= k < index ==> codecs@[k] != codec,
        decreases codecs@.len() - index,
    {
        if codecs[index] == codec {
            return true;
        }
        index = index + 1;
    }
    false
}

fn contains_audio_codec(codecs: &Vec<AudioCodec>, codec: AudioCodec) -> (contained: bool)
    ensures
        contained == codecs@.contains(codec),
{
    let mut index: usize = 0;
    while index < codecs.len()
        invariant
            index <= codecs@.len(),
            forall|k: int| 0 <= k < index ==> codecs@[k] != codec,
        decreases codecs@.len() - index,
    {
        if codecs[index] == codec {
            return true;
        }
        index = index + 1;
    }
    false
}

fn common_video_codec(local: &Vec<VideoCodec>, remote: &Vec<VideoCodec>) -> (common: Option<
    VideoCodec,
>)
    ensures
        common == first_common(local@, remote@),
{
    let mut index: usize = 0;
    while index < local.len()
        invariant
            index <= local@.len(),
            first_common(local@.take(index as int), remote@) is None,
        decreases local@.len() - index,
    {
        proof {
            assert(local@.take(index + 1).drop_last() =~= local@.take(index as int));
            lemma_first_common(local@, remote@, index + 1);
        }
        if contains_video_codec(remote, local[index]) {
            return Some(local[index]);
        }
        index = index + 1;
    }
    assert(local@.take(index as int) =~= local@);
    None
}

fn common_audio_codec(local: &Vec<AudioCodec>, remote: &Vec<AudioCodec>) -> (common: Option<
    AudioCodec,
>)
    ensures
        common == first_common(local@, remote@),
{
    let mut index: usize = 0;
    while index < local.len()
        invariant
            index <= local@.len(),
            first_common(local@.take(index as int), remote@) is None,
        decreases local@.len() - index,
    {
        proof {
            assert(local@.take(index + 1).drop_last() =~= local@.take(index as int));
            lemma_first_common(local@, remote@, index + 1);
        }
        if contains_audio_codec(remote, local[index]) {
            return Some(local[index]);
        }
        index = index + 1;
    }
    assert(local@.take(index as int) =~= local@);
    None
}

/// The color format to use, given those that both know and whether HDR is possible.
pub open spec fn best_color_format(common: u16, hdr: bool) -> Option<ColorFormat> {
    if hdr && common & COLOR_P010 != 0 {
        Some(ColorFormat::P010)
    } else if common & COLOR_I444 != 0 {
        Some(ColorFormat::I444)
    } else if common & COLOR_NV12 != 0 {
        Some(ColorFormat::Nv12)
    } else if common & COLOR_I420 != 0 {
        Some(ColorFormat::I420)
    } else {
        None
    }
}

pub open spec fn lesser16(first: u16, second: u16) -> u16 {
    if first <= second {
        first
    } else {
        second
    }
}

pub open spec fn lesser32(first: u32, second: u32) -> u32 {
    if first <= second {
        first
    } else {
        second
    }
}

fn min16(first: u16, second: u16) -> (lesser: u16)
    ensures
        lesser == lesser16(first, second),
{
    if first <= second {
        first
    } else {
        second
    }
}

fn min32(first: u32, second: u32) -> (lesser: u32)
    ensures
        lesser == lesser32(first, second),
{
    if first <= second {
        first
    } else {
        second
    }
}

/// What two peers agree on, from the view of the local one, or why they cannot.
pub open spec fn negotiated(local: OfferView, remote: OfferView) -> Result<
    SessionAgreement,
    SessionNegotiationError,
> {
    let version = lesser16(local.maximum_protocol_version, remote.maximum_protocol_version);
    let hdr = has_capability(local.capabilities & remote.capabilities, CAP_HDR);
    let color = best_color_format(local.color_formats & remote.color_formats, hdr);
    if offer_error(local) is Some {
        Err(offer_error(local)->Some_0)
    } else if offer_error(remote) is Some {
        Err(offer_error(remote)->Some_0)
    } else if version < local.minimum_protocol_version || version
        < remote.minimum_protocol_version {
        Err(SessionNegotiationError::IncompatibleProtocol)
    } else if first_common(local.video_codecs, remote.video_codecs) is None {
        Err(SessionNegotiationError::IncompatibleVideoCodec)
    } else if first_common(local.audio_codecs, remote.audio_codecs) is None {
        Err(SessionNegotiationError::IncompatibleAudioCodec)
    } else if color is None {
        Err(SessionNegotiationError::IncompatibleColorFormat)
    } else {
        Ok(
            SessionAgreement {
                protocol_version: version,
                video_codec: first_common(local.video_codecs, remote.video_codecs)->Some_0,
                audio_codec: first_common(local.audio_codecs, remote.audio_codecs)->Some_0,
                color_format: color->Some_0,
                hdr: hdr && color->Some_0 == ColorFormat::P010,
                max_width: lesser16(local.max_width, remote.max_width),
                max_height: lesser16(local.max_height, remote.max_height),
                max_fps: lesser16(local.max_fps, remote.max_fps),
                max_datagram_payload: lesser16(
                    local.max_datagram_payload,
                    remote.max_datagram_payload,
                ),
                max_video_bitrate_kbps: lesser32(
                    local.max_video_bitrate_kbps,
                    remote.max_video_bitrate_kbps,
                ),
                max_file_bitrate_kbps: lesser32(
                    local.max_file_bitrate_kbps,
                    remote.max_file_bitrate_kbps,
                ),
                latency_mode: if local.latency_mode == LatencyMode::LowLatency
                    || remote.latency_mode == LatencyMode::LowLatency {
                    LatencyMode::LowLatency
                } else {
                    local.latency_mode
                },
                local_may_send_clipboard: has_capability(local.capabilities, CAP_CLIPBOARD_SEND)
                    && has_capability(remote.capabilities, CAP_CLIPBOARD_RECEIVE),
                remote_may_send_clipboard: has_capability(remote.capabilities, CAP_CLIPBOARD_SEND)
                    && has_capability(local.capabilities, CAP_CLIPBOARD_RECEIVE),
                file_transfer_enabled: has_capability(
                    local.capabilities & remote.capabilities,
                    CAP_FILE_TRANSFER,
                ),
                local_may_send_input: has_capability(local.capabilities, CAP_INPUT_SEND)
                    && has_capability(remote.capabilities, CAP_INPUT_RECEIVE),
                remote_may_send_input: has_capability(remote.capabilities, CAP_INPUT_SEND)
                    && has_capability(local.capabilities, CAP_INPUT_RECEIVE),
                reliable_keyframes: has_capability(
                    local.capabilities & remote.capabilities,
                    CAP_RELIABLE_KEYFRAMES,
                ),
            },
        )
    }
}

fn choose_color_format(common: u16, hdr: bool) -> (format: Option<ColorFormat>)
    ensures
        format == best_color_format(common, hdr),
{
    if hdr && common & COLOR_P010 != 0 {
        Some(ColorFormat::P010)
    } else if common & COLOR_I444 != 0 {
        Some(ColorFormat::I444)
    } else if common & COLOR_NV12 != 0 {
        Some(ColorFormat::Nv12)
    } else if common & COLOR_I420 != 0 {
        Some(ColorFormat::I420)
    } else {
        None
    }
}

/// What two peers agree on, from the view of the local one.
pub fn negotiate_session(local: &SessionOffer, remote: &SessionOffer) -> (result: Result<
    SessionAgreement,
    SessionNegotiationError,
>)
    ensures
        result == negotiated(local@, remote@),
{
    validate_offer(local)?;
    validate_offer(remote)?;
    let protocol_version: u16 = min16(
        local.maximum_protocol_version,
        remote.maximum_protocol_version,
    );
    if protocol_version < local.minimum_protocol_version || protocol_version
        < remote.minimum_protocol_version {
        return Err(SessionNegotiationError::IncompatibleProtocol);
    }
    let video_codec = match common_video_codec(&local.video_codecs, &remote.video_codecs) {
        Some(codec) => codec,
        None => {
            return Err(SessionNegotiationError::IncompatibleVideoCodec);
        },
    };
    let audio_codec = match common_audio_codec(&local.audio_codecs, &remote.audio_codecs) {
        Some(codec) => codec,
        None => {
            return Err(SessionNegotiationError::IncompatibleAudioCodec);
        },
    };
    let common: u16 = local.capabilities & remote.capabilities;
    let hdr = common & CAP_HDR != 0;
    let color_format = match choose_color_format(local.color_formats & remote.color_formats, hdr) {
        Some(format) => format,
        None => {
            return Err(SessionNegotiationError::IncompatibleColorFormat);
        },
    };
    Ok(
        SessionAgreement {
            protocol_version,
            video_codec,
            audio_codec,
            color_format,
            hdr: hdr && color_format == ColorFormat::P010,
            max_width: min16(local.max_width, remote.max_width),
            max_height: min16(local.max_height, remote.max_height),
            max_fps: min16(local.max_fps, remote.max_fps),
            max_datagram_payload: min16(local.max_datagram_payload, remote.max_datagram_payload),
            max_video_bitrate_kbps: min32(
                local.max_video_bitrate_kbps,
                remote.max_video_bitrate_kbps,
            ),
            max_file_bitrate_kbps: min32(
                local.max_file_bitrate_kbps,
                remote.max_file_bitrate_kbps,
            ),
            latency_mode: if local.latency_mode == LatencyMode::LowLatency || remote.latency_mode
                == LatencyMode::LowLatency {
                LatencyMode::LowLatency
            } else {
                local.latency_mode
            },
            local_may_send_clipboard: local.capabilities & CAP_CLIPBOARD_SEND != 0
                && remote.capabilities & CAP_CLIPBOARD_RECEIVE != 0,
            remote_may_send_clipboard: remote.capabilities & CAP_CLIPBOARD_SEND != 0
                && local.capabilities & CAP_CLIPBOARD_RECEIVE != 0,
            file_transfer_enabled: common & CAP_FILE_TRANSFER != 0,
            local_may_send_input: local.capabilities & CAP_INPUT_SEND != 0 && remote.capabilities
                & CAP_INPUT_RECEIVE != 0,
            remote_may_send_input: remote.capabilities & CAP_INPUT_SEND != 0 && local.capabilities
                & CAP_INPUT_RECEIVE != 0,
            reliable_keyframes: common & CAP_RELIABLE_KEYFRAMES != 0,
        },
    )
}

/// The capability bit if it is set, and zero otherwise.
pub open spec fn flag_bit(set: bool, bit: u16) -> u16 {
    if set {
        bit
    } else {
        0
    }
}

/// What an agreement permits, as a mask of capabilities.
pub open spec fn agreement_flags_spec(agreement: SessionAgreement) -> u16 {
    (flag_bit(agreement.hdr, CAP_HDR) + flag_bit(
        agreement.local_may_send_clipboard,
        CAP_CLIPBOARD_SEND,
    ) + flag_bit(agreement.remote_may_send_clipboard, CAP_CLIPBOARD_RECEIVE) + flag_bit(
        agreement.file_transfer_enabled,
        CAP_FILE_TRANSFER,
    ) + flag_bit(agreement.local_may_send_input, CAP_INPUT_SEND) + flag_bit(
        agreement.remote_may_send_input,
        CAP_INPUT_RECEIVE,
    ) + flag_bit(agreement.reliable_keyframes, CAP_RELIABLE_KEYFRAMES)) as u16
}

/// The twenty-eight bytes of an agreement.
pub open spec fn agreement_bytes(agreement: SessionAgreement) -> Seq<u8> {
    wire::be16(agreement.protocol_version) + seq![
        agreement.video_codec.code(),
        agreement.audio_codec.code(),
        agreement.color_format.code(),
        agreement.latency_mode.code(),
    ] + wire::be16(agreement_flags_spec(agreement)) + wire::be16(agreement.max_width) + wire::be16(
        agreement.max_height,
    ) + wire::be16(agreement.max_fps) + wire::be16(agreement.max_datagram_payload) + wire::be32(
        agreement.max_video_bitrate_kbps,
    ) + wire::be32(agreement.max_file_bitrate_kbps) + wire::be32(0)
}

/// The agreement in a payload, or the first reason why there is none.
pub open spec fn parse_agreement(payload: Seq<u8>) -> Result<
    SessionAgreement,
    SessionNegotiationError,
> {
    let flags = wire::u16_at(payload, 6);
    if payload.len() != SESSION_AGREEMENT_LEN {
        Err(SessionNegotiationError::LengthMismatch)
    } else if wire::u32_at(payload, 24) != 0 {
        Err(SessionNegotiationError::InvalidReservedField)
    } else if flags & !KNOWN_CAPABILITIES != 0 {
        Err(SessionNegotiationError::InvalidAgreement)
    } else if color_format_of(payload[4]) is Err {
        Err(SessionNegotiationError::UnknownColorFormat(payload[4]))
    } else if video_datagram::video_codec_of(payload[2]) is Err {
        Err(SessionNegotiationError::UnknownVideoCodec(payload[2]))
    } else if audio_datagram::audio_codec_of(payload[3]) is Err {
        Err(SessionNegotiationError::UnknownAudioCodec(payload[3]))
    } else if latency_mode_of(payload[5]) is Err {
        Err(SessionNegotiationError::InvalidLatencyMode(payload[5]))
    } else {
        let agreement = SessionAgreement {
            protocol_version: wire::u16_at(payload, 0),
            video_codec: video_datagram::video_codec_of(payload[2])->Ok_0,
            audio_codec: audio_datagram::audio_codec_of(payload[3])->Ok_0,
            color_format: color_format_of(payload[4])->Ok_0,
            hdr: has_capability(flags, CAP_HDR),
            max_width: wire::u16_at(payload, 8),
            max_height: wire::u16_at(payload, 10),
            max_fps: wire::u16_at(payload, 12),
            max_datagram_payload: wire::u16_at(payload, 14),
            max_video_bitrate_kbps: wire::u32_at(payload, 16),
            max_file_bitrate_kbps: wire::u32_at(payload, 20),
            latency_mode: latency_mode_of(payload[5])->Ok_0,
            local_may_send_clipboard: has_capability(flags, CAP_CLIPBOARD_SEND),
            remote_may_send_clipboard: has_capability(flags, CAP_CLIPBOARD_RECEIVE),
            file_transfer_enabled: has_capability(flags, CAP_FILE_TRANSFER),
            local_may_send_input: has_capability(flags, CAP_INPUT_SEND),
            remote_may_send_input: has_capability(flags, CAP_INPUT_RECEIVE),
            reliable_keyframes: has_capability(flags, CAP_RELIABLE_KEYFRAMES),
        };
        if agreement_valid(agreement) {
            Ok(agreement)
        } else {
            Err(SessionNegotiationError::InvalidAgreement)
        }
    }
}

fn validate_agreement_fields(agreement: &SessionAgreement) -> (result: Result<
    (),
    SessionNegotiationError,
>)
    ensures
        if agreement_valid(*agreement) {
            result == Ok::<_, SessionNegotiationError>(())
        } else {
            result == Err::<(), _>(SessionNegotiationError::InvalidAgreement)
        },
{
    if agreement.protocol_version == 0 || agreement.max_width < 320 || agreement.max_width > 16_384
        || agreement.max_height < 200 || agreement.max_height > 16_384 || agreement.max_fps < 1
        || agreement.max_fps > 240 || agreement.max_datagram_payload < 256
        || agreement.max_datagram_payload > 65_000 || agreement.max_video_bitrate_kbps == 0
        || agreement.max_video_bitrate_kbps > 1_000_000 || (agreement.file_transfer_enabled
        && agreement.max_file_bitrate_kbps == 0) || (agreement.hdr && agreement.color_format
        != ColorFormat::P010) {
        return Err(SessionNegotiationError::InvalidAgreement);
    }
    Ok(())
}

fn flag_if(set: bool, bit: u16) -> (flag: u16)
    ensures
        flag == flag_bit(set, bit),
{
    if set {
        bit
    } else {
        0
    }
}

fn agreement_flags(agreement: &SessionAgreement) -> (flags: u16)
    ensures
        flags == agreement_flags_spec(*agreement),
{
    flag_if(agreement.hdr, CAP_HDR) + flag_if(
        agreement.local_may_send_clipboard,
        CAP_CLIPBOARD_SEND,
    ) + flag_if(agreement.remote_may_send_clipboard, CAP_CLIPBOARD_RECEIVE) + flag_if(
        agreement.file_transfer_enabled,
        CAP_FILE_TRANSFER,
    ) + flag_if(agreement.local_may_send_input, CAP_INPUT_SEND) + flag_if(
        agreement.remote_may_send_input,
        CAP_INPUT_RECEIVE,
    ) + flag_if(agreement.reliable_keyframes, CAP_RELIABLE_KEYFRAMES)
}

/// The bytes of an agreement, if it is valid.
pub fn encode_session_agreement(agreement: &SessionAgreement) -> (result: Result<
    [u8; SESSION_AGREEMENT_LEN],
    SessionNegotiationError,
>)
    ensures
        if agreement_valid(*agreement) {
            result matches Ok(bytes) && bytes@ == agreement_bytes(*agreement)
        } else {
            result == Err::<[u8; SESSION_AGREEMENT_LEN], _>(
                SessionNegotiationError::InvalidAgreement,
            )
        },
{
    validate_agreement_fields(agreement)?;
    let mut payload: Vec<u8> = Vec::new();
    wire::put_u16(&mut payload, agreement.protocol_version);
    wire::put_u8(&mut payload, agreement.video_codec.code());
    wire::put_u8(&mut payload, agreement.audio_codec.code());
    wire::put_u8(&mut payload, agreement.color_format.code());
    wire::put_u8(&mut payload, agreement.latency_mode.code());
    wire::put_u16(&mut payload, agreement_flags(agreement));
    wire::put_u16(&mut payload, agreement.max_width);
    wire::put_u16(&mut payload, agreement.max_height);
    wire::put_u16(&mut payload, agreement.max_fps);
    wire::put_u16(&mut payload, agreement.max_datagram_payload);
    wire::put_u32(&mut payload, agreement.max_video_bitrate_kbps);
    wire::put_u32(&mut payload, agreement.max_file_bitrate_kbps);
    wire::put_u32(&mut payload, 0);
    assert(payload@ =~= agreement_bytes(*agreement));
    let bytes: [u8; SESSION_AGREEMENT_LEN] = wire::read_array(&payload, 0);
    assert(bytes@ =~= agreement_bytes(*agreement));
    Ok(bytes)
}

/// The agreement in a payload.
pub fn decode_session_agreement(payload: &[u8]) -> (result: Result<
    SessionAgreement,
    SessionNegotiationError,
>)
    ensures
        result == parse_agreement(payload@),
{
    if payload.len() != SESSION_AGREEMENT_LEN {
        return Err(SessionNegotiationError::LengthMismatch);
    }
    if wire::read_u32(payload, 24) != 0 {
        return Err(SessionNegotiationError::InvalidReservedField);
    }
    let flags: u16 = wire::read_u16(payload, 6);
    if flags & !KNOWN_CAPABILITIES != 0 {
        return Err(SessionNegotiationError::InvalidAgreement);
    }
    let color_format = ColorFormat::try_from(payload[4])?;
    let video_codec = match VideoCodec::try_from(payload[2]) {
        Ok(codec) => codec,
        Err(_) => {
            return Err(SessionNegotiationError::UnknownVideoCodec(payload[2]));
        },
    };
    let audio_codec = match AudioCodec::try_from(payload[3]) {
        Ok(codec) => codec,
        Err(_) => {
            return Err(SessionNegotiationError::UnknownAudioCodec(payload[3]));
        },
    };
    let latency_mode = LatencyMode::try_from(payload[5])?;
    let agreement = SessionAgreement {
        protocol_version: wire::read_u16(payload, 0),
        video_codec,
        audio_codec,
        color_format,
        hdr: flags & CAP_HDR != 0,
        max_width: wire::read_u16(payload, 8),
        max_height: wire::read_u16(payload, 10),
        max_fps: wire::read_u16(payload, 12),
        max_datagram_payload: wire::read_u16(payload, 14),
        max_video_bitrate_kbps: wire::read_u32(payload, 16),
        max_file_bitrate_kbps: wire::read_u32(payload, 20),
        latency_mode,
        local_may_send_clipboard: flags & CAP_CLIPBOARD_SEND != 0,
        remote_may_send_clipboard: flags & CAP_CLIPBOARD_RECEIVE != 0,
        file_transfer_enabled: flags & CAP_FILE_TRANSFER != 0,
        local_may_send_input: flags & CAP_INPUT_SEND != 0,
        remote_may_send_input: flags & CAP_INPUT_RECEIVE != 0,
        reliable_keyframes: flags & CAP_RELIABLE_KEYFRAMES != 0,
    };
    validate_agreement_fields(&agreement)?;
    Ok(agreement)
}

/// Whether an agreement stays within an offer of the local peer.
pub open spec fn agreement_within(agreement: SessionAgreement, offer: OfferView) -> bool {
    &&& offer.minimum_protocol_version <= agreement.protocol_version
        <= offer.maximum_protocol_version
    &&& offer.video_codecs.contains(agreement.video_codec)
    &&& offer.audio_codecs.contains(agreement.audio_codec)
    &&& offer.color_formats & agreement.color_format.mask_spec() != 0
    &&& agreement.max_width <= offer.max_width
    &&& agreement.max_height <= offer.max_height
    &&& agreement.max_fps <= offer.max_fps
    &&& agreement.max_datagram_payload <= offer.max_datagram_payload
    &&& agreement.max_video_bitrate_kbps <= offer.max_video_bitrate_kbps
    &&& agreement.max_file_bitrate_kbps <= offer.max_file_bitrate_kbps
    &&& agreement.hdr ==> has_capability(offer.capabilities, CAP_HDR)
    &&& agreement.local_may_send_clipboard ==> has_capability(
        offer.capabilities,
        CAP_CLIPBOARD_SEND,
    )
    &&& agreement.remote_may_send_clipboard ==> has_capability(
        offer.capabilities,
        CAP_CLIPBOARD_RECEIVE,
    )
    &&& agreement.file_transfer_enabled ==> has_capability(offer.capabilities, CAP_FILE_TRANSFER)
    &&& agreement.local_may_send_input ==> has_capability(offer.capabilities, CAP_INPUT_SEND)
    &&& agreement.remote_may_send_input ==> has_capability(offer.capabilities, CAP_INPUT_RECEIVE)
    &&& agreement.reliable_keyframes ==> has_capability(offer.capabilities, CAP_RELIABLE_KEYFRAMES)
}

/// Why an agreement cannot be accepted by the peer that made the offer, if at all.
pub open spec fn agreement_error(agreement: SessionAgreement, offer: OfferView) -> Option<
    SessionNegotiationError,
> {
    if offer_error(offer) is Some {
        offer_error(offer)
    } else if !agreement_valid(agreement) || !agreement_within(agreement, offer) {
        Some(SessionNegotiationError::InvalidAgreement)
    } else {
        None
    }
}

/// Checks that an agreement is valid and stays within the local offer.
pub fn validate_agreement_for_offer(
    agreement: &SessionAgreement,
    local_offer: &SessionOffer,
) -> (result: Result<(), SessionNegotiationError>)
    ensures
        match agreement_error(*agreement, local_offer@) {
            Some(error) => result == Err::<(), _>(error),
            None => result == Ok::<_, SessionNegotiationError>(()),
        },
{
    validate_offer(local_offer)?;
    validate_agreement_fields(agreement)?;
    if agreement.protocol_version < local_offer.minimum_protocol_version
        || agreement.protocol_version > local_offer.maximum_protocol_version
        || !contains_video_codec(&local_offer.video_codecs, agreement.video_codec)
        || !contains_audio_codec(&local_offer.audio_codecs, agreement.audio_codec)
        || local_offer.color_formats & agreement.color_format.mask() == 0 || agreement.max_width
        > local_offer.max_width || agreement.max_height > local_offer.max_height
        || agreement.max_fps > local_offer.max_fps || agreement.max_datagram_payload
        > local_offer.max_datagram_payload || agreement.max_video_bitrate_kbps
        > local_offer.max_video_bitrate_kbps || agreement.max_file_bitrate_kbps
        > local_offer.max_file_bitrate_kbps || (agreement.hdr && local_offer.capabilities & CAP_HDR
        == 0) || (agreement.local_may_send_clipboard && local_offer.capabilities
        & CAP_CLIPBOARD_SEND == 0) || (agreement.remote_may_send_clipboard
        && local_offer.capabilities & CAP_CLIPBOARD_RECEIVE == 0) || (
    agreement.file_transfer_enabled && local_offer.capabilities & CAP_FILE_TRANSFER == 0) || (
    agreement.local_may_send_input && local_offer.capabilities & CAP_INPUT_SEND == 0) || (
    agreement.remote_may_send_input && local_offer.capabilities & CAP_INPUT_RECEIVE == 0) || (
    agreement.reliable_keyframes && local_offer.capabilities & CAP_RELIABLE_KEYFRAMES == 0) {
        return Err(SessionNegotiationError::InvalidAgreement);
    }
    Ok(())
}

/// The bytes of an acceptance: the server's offer, then the agreement.
pub open spec fn acceptance_bytes(offer: OfferView, agreement: SessionAgreement) -> Seq<u8> {
    wire::be16(offer_bytes(offer).len() as u16) + wire::be16(0) + offer_bytes(offer)
        + agreement_bytes(agreement)
}

/// The offer and the agreement in an acceptance, or the first reason why there is none.
pub open spec fn parse_acceptance(payload: Seq<u8>) -> Result<
    (OfferView, SessionAgreement),
    SessionNegotiationError,
> {
    let offer_len = wire::u16_at(payload, 0) as int;
    let offer_end = SESSION_ACCEPTANCE_HEADER_LEN + offer_len;
    if payload.len() < SESSION_ACCEPTANCE_HEADER_LEN + SESSION_AGREEMENT_LEN {
        Err(SessionNegotiationError::HeaderTruncated)
    } else if wire::u16_at(payload, 2) != 0 {
        Err(SessionNegotiationError::InvalidReservedField)
    } else if offer_len < SESSION_OFFER_HEADER_LEN || payload.len() != offer_end
        + SESSION_AGREEMENT_LEN {
        Err(SessionNegotiationError::LengthMismatch)
    } else {
        match parse_offer(payload.subrange(SESSION_ACCEPTANCE_HEADER_LEN as int, offer_end)) {
            Err(error) => Err(error),
            Ok(offer) => match parse_agreement(
                payload.subrange(offer_end, payload.len() as int),
            ) {
                Err(error) => Err(error),
                Ok(agreement) => Ok((offer, agreement)),
            },
        }
    }
}

/// The bytes of an acceptance, if its parts are valid.
pub fn encode_session_acceptance(
    server_offer: &SessionOffer,
    agreement: &SessionAgreement,
) -> (result: Result<Vec<u8>, SessionNegotiationError>)
    ensures
        if offer_error(server_offer@) is Some {
            result == Err::<Vec<u8>, _>(offer_error(server_offer@)->Some_0)
        } else if !agreement_valid(*agreement) {
            result == Err::<Vec<u8>, _>(SessionNegotiationError::InvalidAgreement)
        } else {
            result matches Ok(bytes) && bytes@ == acceptance_bytes(server_offer@, *agreement)
        },
{
    let encoded_offer = encode_session_offer(server_offer)?;
    let encoded_agreement = encode_session_agreement(agreement)?;
    proof {
        lemma_offer_len(server_offer@);
    }
    let mut payload: Vec<u8> = Vec::new();
    wire::put_u16(&mut payload, encoded_offer.len() as u16);
    wire::put_u16(&mut payload, 0);
    wire::put_bytes(&mut payload, &encoded_offer);
    wire::put_bytes(&mut payload, &encoded_agreement);
    assert(payload@ =~= acceptance_bytes(server_offer@, *agreement));
    Ok(payload)
}

proof fn lemma_offer_len(offer: OfferView)
    requires
        offer_error(offer) is None,
    ensures
        offer_header_bytes(offer).len() == SESSION_OFFER_HEADER_LEN,
        offer_bytes(offer).len() == SESSION_OFFER_HEADER_LEN + offer.video_codecs.len()
            + offer.audio_codecs.len(),
{
}

/// The offer and the agreement in an acceptance.
pub fn decode_session_acceptance(payload: &[u8]) -> (result: Result<
    (SessionOffer, SessionAgreement),
    SessionNegotiationError,
>)
    ensures
        match parse_acceptance(payload@) {
            Err(error) => result == Err::<(SessionOffer, SessionAgreement), _>(error),
            Ok((offer, agreement)) => result matches Ok(decoded) && decoded.0@ == offer
                && decoded.1 == agreement,
        },
{
    if payload.len() < SESSION_ACCEPTANCE_HEADER_LEN + SESSION_AGREEMENT_LEN {
        return Err(SessionNegotiationError::HeaderTruncated);
    }
    if wire::read_u16(payload, 2) != 0 {
        return Err(SessionNegotiationError::InvalidReservedField);
    }
    let offer_len: usize = wire::read_u16(payload, 0) as usize;
    let offer_end: usize = SESSION_ACCEPTANCE_HEADER_LEN + offer_len;
    if offer_len < SESSION_OFFER_HEADER_LEN || payload.len() != offer_end + SESSION_AGREEMENT_LEN {
        return Err(SessionNegotiationError::LengthMismatch);
    }
    let offer = decode_session_offer(
        vstd::slice::slice_subrange(payload, SESSION_ACCEPTANCE_HEADER_LEN, offer_end),
    )?;
    let agreement = decode_session_agreement(
        vstd::slice::slice_subrange(payload, offer_end, payload.len()),
    )?;
    Ok((offer, agreement))
}

/// What was negotiated is valid and stays within the offers of both peers; for
/// the remote peer the directions of the permissions are swapped.
pub proof fn lemma_negotiated_within_offers(local: OfferView, remote: OfferView)
    requires
        negotiated(local, remote) is Ok,
    ensures
        agreement_valid(negotiated(local, remote)->Ok_0),
        agreement_within(negotiated(local, remote)->Ok_0, local),
        agreement_within(mirrored(negotiated(local, remote)->Ok_0), remote),
{
    lemma_first_common_is_common(local.video_codecs, remote.video_codecs);
    lemma_first_common_is_common(local.audio_codecs, remote.audio_codecs);
    let agreement = negotiated(local, remote)->Ok_0;
    lemma_common_bits(local.capabilities, remote.capabilities, CAP_HDR);
    lemma_common_bits(local.capabilities, remote.capabilities, CAP_FILE_TRANSFER);
    lemma_common_bits(local.capabilities, remote.capabilities, CAP_RELIABLE_KEYFRAMES);
    lemma_common_bits(
        local.color_formats,
        remote.color_formats,
        agreement.color_format.mask_spec(),
    );
}

/// The same agreement from the view of the other peer.
pub open spec fn mirrored(agreement: SessionAgreement) -> SessionAgreement {
    SessionAgreement {
        local_may_send_clipboard: agreement.remote_may_send_clipboard,
        remote_may_send_clipboard: agreement.local_may_send_clipboard,
        local_may_send_input: agreement.remote_may_send_input,
        remote_may_send_input: agreement.local_may_send_input,
        ..agreement
    }
}

proof fn lemma_common_bits(first: u16, second: u16, bits: u16)
    ensures
        (first & second) & bits != 0 ==> first & bits != 0 && second & bits != 0,
{
    assert((first & second) & bits != 0 ==> first & bits != 0 && second & bits != 0)
        by (bit_vector);
}

/// Checks that an agreement is exactly what the two offers lead to.
pub fn validate_session_acceptance(
    client_offer: &SessionOffer,
    server_offer: &SessionOffer,
    agreement: &SessionAgreement,
) -> (result: Result<(), SessionNegotiationError>)
    ensures
        match negotiated(client_offer@, server_offer@) {
            Err(error) => result == Err::<(), _>(error),
            Ok(expected) => if expected == *agreement {
                result == Ok::<_, SessionNegotiationError>(())
            } else {
                result == Err::<(), _>(SessionNegotiationError::InvalidAgreement)
            },
        },
{
    let expected = negotiate_session(client_offer, server_offer)?;
    if expected != *agreement {
        return Err(SessionNegotiationError::InvalidAgreement);
    }
    proof {
        lemma_negotiated_within_offers(client_offer@, server_offer@);
    }
    validate_agreement_for_offer(agreement, client_offer)
}

/// Where each field of an offer stands in its bytes.
#[verifier::rlimit(60)]
#[verifier::spinoff_prover]
proof fn lemma_offer_fields(offer: OfferView)
    requires
        offer_error(offer) is None,
    ensures
        ({
            let head = offer_header_bytes(offer);
            &&& head.len() == SESSION_OFFER_HEADER_LEN
            &&& wire::u16_at(head, 0) == offer.minimum_protocol_version
            &&& wire::u16_at(head, 2) == offer.maximum_protocol_version
            &&& wire::u16_at(head, 4) == offer.capabilities
            &&& head[6] == offer.latency_mode.code()
            &&& head[7] == offer.video_codecs.len()
            &&& head[8] == offer.audio_codecs.len()
            &&& head[9] == 0
            &&& wire::u16_at(head, 10) == offer.color_formats
            &&& wire::u16_at(head, 12) == offer.max_width
            &&& wire::u16_at(head, 14) == offer.max_height
            &&& wire::u16_at(head, 16) == offer.max_fps
            &&& wire::u16_at(head, 18) == offer.max_datagram_payload
            &&& wire::u32_at(head, 20) == offer.max_video_bitrate_kbps
            &&& wire::u32_at(head, 24) == offer.max_file_bitrate_kbps
            &&& wire::u32_at(head, 28) == 0
        }),
{
    let head = offer_header_bytes(offer);
    assert(head.subrange(0, 2) =~= wire::be16(offer.minimum_protocol_version));
    assert(head.subrange(2, 4) =~= wire::be16(offer.maximum_protocol_version));
    assert(head.subrange(4, 6) =~= wire::be16(offer.capabilities));
    assert(head.subrange(10, 12) =~= wire::be16(offer.color_formats));
    assert(head.subrange(12, 14) =~= wire::be16(offer.max_width));
    assert(head.subrange(14, 16) =~= wire::be16(offer.max_height));
    assert(head.subrange(16, 18) =~= wire::be16(offer.max_fps));
    assert(head.subrange(18, 20) =~= wire::be16(offer.max_datagram_payload));
    assert(head.subrange(20, 24) =~= wire::be32(offer.max_video_bitrate_kbps));
    assert(head.subrange(24, 28) =~= wire::be32(offer.max_file_bitrate_kbps));
    assert(head.subrange(28, 32) =~= wire::be32(0));
    wire::lemma_u16_round_trip(head, 0, offer.minimum_protocol_version);
    wire::lemma_u16_round_trip(head, 2, offer.maximum_protocol_version);
    wire::lemma_u16_round_trip(head, 4, offer.capabilities);
    wire::lemma_u16_round_trip(head, 10, offer.color_formats);
    wire::lemma_u16_round_trip(head, 12, offer.max_width);
    wire::lemma_u16_round_trip(head, 14, offer.max_height);
    wire::lemma_u16_round_trip(head, 16, offer.max_fps);
    wire::lemma_u16_round_trip(head, 18, offer.max_datagram_payload);
    wire::lemma_u32_round_trip(head, 20, offer.max_video_bitrate_kbps);
    wire::lemma_u32_round_trip(head, 24, offer.max_file_bitrate_kbps);
    wire::lemma_u32_round_trip(head, 28, 0);
}

/// Codecs come back from their bytes, and none of the bytes is unknown.
proof fn lemma_codecs_round_trip(video: Seq<VideoCodec>, audio: Seq<AudioCodec>)
    ensures
        unknown_video_code(video_codes(video)) is None,
        unknown_audio_code(audio_codes(audio)) is None,
        video_codecs_of(video_codes(video)) == video,
        audio_codecs_of(audio_codes(audio)) == audio,
    decreases video.len() + audio.len(),
{
    assert(video_codecs_of(video_codes(video)) =~= video);
    assert(audio_codecs_of(audio_codes(audio)) =~= audio);
    if video.len() > 0 {
        assert(video_codes(video).drop_last() =~= video_codes(video.drop_last()));
        lemma_codecs_round_trip(video.drop_last(), audio);
    } else if audio.len() > 0 {
        assert(audio_codes(audio).drop_last() =~= audio_codes(audio.drop_last()));
        lemma_codecs_round_trip(video, audio.drop_last());
    }
}

/// The fields of a payload that begins with an offer's head.
#[verifier::rlimit(60)]
#[verifier::spinoff_prover]
proof fn lemma_offer_reads(head: Seq<u8>, rest: Seq<u8>)
    requires
        head.len() == SESSION_OFFER_HEADER_LEN,
    ensures
        ({
            let payload = head + rest;
            &&& wire::u16_at(payload, 0) == wire::u16_at(head, 0)
            &&& wire::u16_at(payload, 2) == wire::u16_at(head, 2)
            &&& wire::u16_at(payload, 4) == wire::u16_at(head, 4)
            &&& payload[6] == head[6]
            &&& payload[7] == head[7]
            &&& payload[8] == head[8]
            &&& payload[9] == head[9]
            &&& wire::u16_at(payload, 10) == wire::u16_at(head, 10)
            &&& wire::u16_at(payload, 12) == wire::u16_at(head, 12)
            &&& wire::u16_at(payload, 14) == wire::u16_at(head, 14)
            &&& wire::u16_at(payload, 16) == wire::u16_at(head, 16)
            &&& wire::u16_at(payload, 18) == wire::u16_at(head, 18)
            &&& wire::u32_at(payload, 20) == wire::u32_at(head, 20)
            &&& wire::u32_at(payload, 24) == wire::u32_at(head, 24)
            &&& wire::u32_at(payload, 28) == wire::u32_at(head, 28)
        }),
{
    wire::lemma_reads_of_prefix(head, rest, 0);
    wire::lemma_reads_of_prefix(head, rest, 2);
    wire::lemma_reads_of_prefix(head, rest, 4);
    wire::lemma_reads_of_prefix(head, rest, 10);
    wire::lemma_reads_of_prefix(head, rest, 12);
    wire::lemma_reads_of_prefix(head, rest, 14);
    wire::lemma_reads_of_prefix(head, rest, 16);
    wire::lemma_reads_of_prefix(head, rest, 18);
    wire::lemma_reads_of_prefix(head, rest, 20);
    wire::lemma_reads_of_prefix(head, rest, 24);
    wire::lemma_reads_of_prefix(head, rest, 28);
}

/// A valid offer comes back from its bytes.
pub proof fn lemma_offer_round_trip(offer: OfferView)
    requires
        offer_error(offer) is None,
    ensures
        parse_offer(offer_bytes(offer)) == Ok::<_, SessionNegotiationError>(offer),
{
    let head = offer_header_bytes(offer);
    let video = video_codes(offer.video_codecs);
    let audio = audio_codes(offer.audio_codecs);
    let payload = offer_bytes(offer);
    let audio_start = SESSION_OFFER_HEADER_LEN + offer.video_codecs.len() as int;
    lemma_offer_fields(offer);
    lemma_offer_reads(head, video + audio);
    lemma_offer_len(offer);
    lemma_codecs_round_trip(offer.video_codecs, offer.audio_codecs);
    lemma_three_parts(head, video, audio);
    assert(payload.subrange(SESSION_OFFER_HEADER_LEN as int, audio_start) == video);
    assert(payload.subrange(audio_start, payload.len() as int) == audio);
    assert(offer_fields(payload, offer.latency_mode) == offer);
}

/// The second and the third part of a sequence that is put together from three.
proof fn lemma_three_parts(first: Seq<u8>, second: Seq<u8>, third: Seq<u8>)
    ensures
        ({
            let whole = first + (second + third);
            let middle = (first.len() + second.len()) as int;
            &&& whole.subrange(first.len() as int, middle) == second
            &&& whole.subrange(middle, whole.len() as int) == third
        }),
{
    let whole = first + (second + third);
    let middle = (first.len() + second.len()) as int;
    assert(whole.subrange(first.len() as int, middle) =~= second);
    assert(whole.subrange(middle, whole.len() as int) =~= third);
}

/// Where each field of an agreement stands in its bytes.
#[verifier::rlimit(60)]
#[verifier::spinoff_prover]
proof fn lemma_agreement_fields(agreement: SessionAgreement)
    ensures
        ({
            let bytes = agreement_bytes(agreement);
            &&& bytes.len() == SESSION_AGREEMENT_LEN
            &&& wire::u16_at(bytes, 0) == agreement.protocol_version
            &&& bytes[2] == agreement.video_codec.code()
            &&& bytes[3] == agreement.audio_codec.code()
            &&& bytes[4] == agreement.color_format.code()
            &&& bytes[5] == agreement.latency_mode.code()
            &&& wire::u16_at(bytes, 6) == agreement_flags_spec(agreement)
            &&& wire::u16_at(bytes, 8) == agreement.max_width
            &&& wire::u16_at(bytes, 10) == agreement.max_height
            &&& wire::u16_at(bytes, 12) == agreement.max_fps
            &&& wire::u16_at(bytes, 14) == agreement.max_datagram_payload
            &&& wire::u32_at(bytes, 16) == agreement.max_video_bitrate_kbps
            &&& wire::u32_at(bytes, 20) == agreement.max_file_bitrate_kbps
            &&& wire::u32_at(bytes, 24) == 0
        }),
{
    let bytes = agreement_bytes(agreement);
    assert(bytes.subrange(0, 2) =~= wire::be16(agreement.protocol_version));
    assert(bytes.subrange(6, 8) =~= wire::be16(agreement_flags_spec(agreement)));
    assert(bytes.subrange(8, 10) =~= wire::be16(agreement.max_width));
    assert(bytes.subrange(10, 12) =~= wire::be16(agreement.max_height));
    assert(bytes.subrange(12, 14) =~= wire::be16(agreement.max_fps));
    assert(bytes.subrange(14, 16) =~= wire::be16(agreement.max_datagram_payload));
    assert(bytes.subrange(16, 20) =~= wire::be32(agreement.max_video_bitrate_kbps));
    assert(bytes.subrange(20, 24) =~= wire::be32(agreement.max_file_bitrate_kbps));
    assert(bytes.subrange(24, 28) =~= wire::be32(0));
    wire::lemma_u16_round_trip(bytes, 0, agreement.protocol_version);
    wire::lemma_u16_round_trip(bytes, 6, agreement_flags_spec(agreement));
    wire::lemma_u16_round_trip(bytes, 8, agreement.max_width);
    wire::lemma_u16_round_trip(bytes, 10, agreement.max_height);
    wire::lemma_u16_round_trip(bytes, 12, agreement.max_fps);
    wire::lemma_u16_round_trip(bytes, 14, agreement.max_datagram_payload);
    wire::lemma_u32_round_trip(bytes, 16, agreement.max_video_bitrate_kbps);
    wire::lemma_u32_round_trip(bytes, 20, agreement.max_file_bitrate_kbps);
    wire::lemma_u32_round_trip(bytes, 24, 0);
}

/// Each permission can be read from the mask, and nothing else is in it.
proof fn lemma_flags_round_trip(agreement: SessionAgreement)
    ensures
        ({
            let flags = agreement_flags_spec(agreement);
            &&& flags & !KNOWN_CAPABILITIES == 0
            &&& has_capability(flags, CAP_HDR) == agreement.hdr
            &&& has_capability(flags, CAP_CLIPBOARD_SEND) == agreement.local_may_send_clipboard
            &&& has_capability(flags, CAP_CLIPBOARD_RECEIVE) == agreement.remote_may_send_clipboard
            &&& has_capability(flags, CAP_FILE_TRANSFER) == agreement.file_transfer_enabled
            &&& has_capability(flags, CAP_INPUT_SEND) == agreement.local_may_send_input
            &&& has_capability(flags, CAP_INPUT_RECEIVE) == agreement.remote_may_send_input
            &&& has_capability(flags, CAP_RELIABLE_KEYFRAMES) == agreement.reliable_keyframes
        }),
{
    let flags = agreement_flags_spec(agreement);
    let b0 = flag_bit(agreement.hdr, 1);
    let b1 = flag_bit(agreement.local_may_send_clipboard, 2);
    let b2 = flag_bit(agreement.remote_may_send_clipboard, 4);
    let b3 = flag_bit(agreement.file_transfer_enabled, 8);
    let b4 = flag_bit(agreement.local_may_send_input, 16);
    let b5 = flag_bit(agreement.remote_may_send_input, 32);
    let b6 = flag_bit(agreement.reliable_keyframes, 64);
    assert(flags & !127u16 == 0 && (flags & 1 != 0) == (b0 != 0) && (flags & 2 != 0) == (b1 != 0)
        && (flags & 4 != 0) == (b2 != 0) && (flags & 8 != 0) == (b3 != 0) && (flags & 16 != 0) == (
    b4 != 0) && (flags & 32 != 0) == (b5 != 0) && (flags & 64 != 0) == (b6 != 0)) by (bit_vector)
        requires
            b0 == 0 || b0 == 1,
            b1 == 0 || b1 == 2,
            b2 == 0 || b2 == 4,
            b3 == 0 || b3 == 8,
            b4 == 0 || b4 == 16,
            b5 == 0 || b5 == 32,
            b6 == 0 || b6 == 64,
            flags == b0 + b1 + b2 + b3 + b4 + b5 + b6,
    ;
}

/// A valid agreement comes back from its bytes.
pub proof fn lemma_agreement_round_trip(agreement: SessionAgreement)
    requires
        agreement_valid(agreement),
    ensures
        parse_agreement(agreement_bytes(agreement)) == Ok::<_, SessionNegotiationError>(agreement),
{
    lemma_agreement_fields(agreement);
    lemma_flags_round_trip(agreement);
}

/// A valid offer and a valid agreement come back from the bytes of an acceptance.
pub proof fn lemma_acceptance_round_trip(offer: OfferView, agreement: SessionAgreement)
    requires
        offer_error(offer) is None,
        agreement_valid(agreement),
    ensures
        parse_acceptance(acceptance_bytes(offer, agreement)) == Ok::<_, SessionNegotiationError>(
            (offer, agreement),
        ),
{
    lemma_offer_len(offer);
    lemma_offer_round_trip(offer);
    lemma_agreement_round_trip(agreement);
    lemma_agreement_fields(agreement);
    lemma_acceptance_parts(offer_bytes(offer), agreement_bytes(agreement));
}

/// Where the parts of an acceptance stand in its bytes.
proof fn lemma_acceptance_parts(offer: Seq<u8>, agreement: Seq<u8>)
    requires
        offer.len() <= u16::MAX,
    ensures
        ({
            let payload = wire::be16(offer.len() as u16) + wire::be16(0) + offer + agreement;
            let offer_end = SESSION_ACCEPTANCE_HEADER_LEN + offer.len() as int;
            &&& payload.len() == offer_end + agreement.len()
            &&& wire::u16_at(payload, 0) == offer.len()
            &&& wire::u16_at(payload, 2) == 0
            &&& payload.subrange(SESSION_ACCEPTANCE_HEADER_LEN as int, offer_end) == offer
            &&& payload.subrange(offer_end, payload.len() as int) == agreement
        }),
{
    let head = wire::be16(offer.len() as u16) + wire::be16(0);
    let payload = head + offer + agreement;
    let offer_end = SESSION_ACCEPTANCE_HEADER_LEN + offer.len() as int;
    assert(payload.subrange(0, 2) =~= wire::be16(offer.len() as u16));
    assert(payload.subrange(2, 4) =~= wire::be16(0));
    wire::lemma_u16_round_trip(payload, 0, offer.len() as u16);
    wire::lemma_u16_round_trip(payload, 2, 0);
    assert(payload.subrange(SESSION_ACCEPTANCE_HEADER_LEN as int, offer_end) =~= offer);
    assert(payload.subrange(offer_end, payload.len() as int) =~= agreement);
}

/// An offer that was read has the bytes that it was read from, so that no two
/// payloads stand for the same offer.
pub proof fn lemma_offer_canonical(payload: Seq<u8>)
    requires
        parse_offer(payload) is Ok,
    ensures
        offer_bytes(parse_offer(payload)->Ok_0) == payload,
{
    let offer = parse_offer(payload)->Ok_0;
    let audio_start = SESSION_OFFER_HEADER_LEN + payload[7];
    let video = payload.subrange(SESSION_OFFER_HEADER_LEN as int, audio_start);
    let audio = payload.subrange(audio_start, payload.len() as int);
    lemma_known_codes(video, audio);
    let head = payload.subrange(0, SESSION_OFFER_HEADER_LEN as int);
    lemma_offer_header_canonical(payload, offer);
    assert(payload =~= head + (video + audio));
}

proof fn lemma_known_codes(video: Seq<u8>, audio: Seq<u8>)
    ensures
        unknown_video_code(video) is None ==> video_codes(video_codecs_of(video)) == video,
        unknown_audio_code(audio) is None ==> audio_codes(audio_codecs_of(audio)) == audio,
    decreases video.len() + audio.len(),
{
    if video.len() > 0 {
        let rest = video.drop_last();
        lemma_known_codes(rest, audio);
        if unknown_video_code(video) is None {
            assert(video_codes(video_codecs_of(video)) =~= video_codes(video_codecs_of(rest)).push(
                video.last(),
            ));
            assert(video =~= rest.push(video.last()));
        }
    } else {
        assert(video_codes(video_codecs_of(video)) =~= video);
        if audio.len() > 0 {
            let rest = audio.drop_last();
            lemma_known_codes(video, rest);
            if unknown_audio_code(audio) is None {
                assert(audio_codes(audio_codecs_of(audio)) =~= audio_codes(
                    audio_codecs_of(rest),
                ).push(audio.last()));
                assert(audio =~= rest.push(audio.last()));
            }
        } else {
            assert(audio_codes(audio_codecs_of(audio)) =~= audio);
        }
    }
}

#[verifier::rlimit(60)]
#[verifier::spinoff_prover]
proof fn lemma_offer_header_canonical(payload: Seq<u8>, offer: OfferView)
    requires
        parse_offer(payload) == Ok::<_, SessionNegotiationError>(offer),
    ensures
        offer_header_bytes(offer) == payload.subrange(0, SESSION_OFFER_HEADER_LEN as int),
{
    wire::lemma_be16_of_read(payload, 0);
    wire::lemma_be16_of_read(payload, 2);
    wire::lemma_be16_of_read(payload, 4);
    wire::lemma_be16_of_read(payload, 10);
    wire::lemma_be16_of_read(payload, 12);
    wire::lemma_be16_of_read(payload, 14);
    wire::lemma_be16_of_read(payload, 16);
    wire::lemma_be16_of_read(payload, 18);
    wire::lemma_be32_of_read(payload, 20);
    wire::lemma_be32_of_read(payload, 24);
    wire::lemma_be32_of_read(payload, 28);
    assert(payload.subrange(0, SESSION_OFFER_HEADER_LEN as int) =~= payload.subrange(0, 2)
        + payload.subrange(2, 4) + payload.subrange(4, 6) + seq![
        payload[6],
        payload[7],
        payload[8],
        payload[9],
    ] + payload.subrange(10, 12) + payload.subrange(12, 14) + payload.subrange(14, 16)
        + payload.subrange(16, 18) + payload.subrange(18, 20) + payload.subrange(20, 24)
        + payload.subrange(24, 28) + payload.subrange(28, 32));
}

/// An offer is valid exactly where each of its fields is in its range: a range of versions, no
/// unknown capability, at least one known color format, up to eight video codecs and up to four
/// audio codecs without repeats, a picture between 320 by 200 and 16384 by 16384 with up to 240
/// frames a second, datagrams between 256 and 65000 bytes, and bitrates that are not zero.
pub proof fn lemma_valid_offers(offer: OfferView)
    ensures
        offer_error(offer) is None <==> {
            &&& 1 <= offer.minimum_protocol_version <= offer.maximum_protocol_version
            &&& offer.capabilities < 128
            &&& 0 < offer.color_formats < 16
            &&& 1 <= offer.video_codecs.len() <= 8
            &&& forall|i: int, j: int|
                0 <= i < j < offer.video_codecs.len() ==> offer.video_codecs[i]
                    != offer.video_codecs[j]
            &&& 1 <= offer.audio_codecs.len() <= 4
            &&& forall|i: int, j: int|
                0 <= i < j < offer.audio_codecs.len() ==> offer.audio_codecs[i]
                    != offer.audio_codecs[j]
            &&& 320 <= offer.max_width <= 16_384
            &&& 200 <= offer.max_height <= 16_384
            &&& 1 <= offer.max_fps <= 240
            &&& 256 <= offer.max_datagram_payload <= 65_000
            &&& 1 <= offer.max_video_bitrate_kbps <= 1_000_000
            &&& offer.capabilities & 8 != 0 ==> offer.max_file_bitrate_kbps > 0
        },
        offer_error(offer) matches Some(error) ==> match error {
            SessionNegotiationError::InvalidProtocolRange => offer.minimum_protocol_version == 0
                || offer.maximum_protocol_version < offer.minimum_protocol_version,
            SessionNegotiationError::InvalidCapabilities(value) => value == offer.capabilities
                && value >= 128,
            SessionNegotiationError::InvalidColorFormats(value) => value == offer.color_formats
                && (value == 0 || value >= 16),
            SessionNegotiationError::InvalidVideoCodecs => offer.video_codecs.len() == 0
                || offer.video_codecs.len() > 8 || !offer.video_codecs.no_duplicates(),
            SessionNegotiationError::InvalidAudioCodecs => offer.audio_codecs.len() == 0
                || offer.audio_codecs.len() > 4 || !offer.audio_codecs.no_duplicates(),
            SessionNegotiationError::InvalidGeometry => offer.max_width < 320 || offer.max_width
                > 16_384 || offer.max_height < 200 || offer.max_height > 16_384 || offer.max_fps
                == 0 || offer.max_fps > 240,
            SessionNegotiationError::InvalidDatagramSize => offer.max_datagram_payload < 256
                || offer.max_datagram_payload > 65_000,
            SessionNegotiationError::InvalidBitrate => offer.max_video_bitrate_kbps == 0
                || offer.max_video_bitrate_kbps > 1_000_000 || offer.max_file_bitrate_kbps == 0,
            _ => false,
        },
{
    let capabilities = offer.capabilities;
    let formats = offer.color_formats;
    assert(capabilities & !127u16 != 0 <==> capabilities >= 128) by (bit_vector);
    assert(formats & !15u16 != 0 <==> formats >= 16) by (bit_vector);
}

proof fn lemma_both_bits(first: u16, second: u16, bit: u16)
    requires
        bit == 1 || bit == 2 || bit == 4 || bit == 8 || bit == 64,
    ensures
        (first & second) & bit != 0 <==> first & bit != 0 && second & bit != 0,
{
    assert((first & second) & bit != 0 <==> first & bit != 0 && second & bit != 0) by (bit_vector)
        requires
            bit == 1 || bit == 2 || bit == 4 || bit == 8 || bit == 64,
    ;
}

/// A permission is granted exactly where the one side offers to use it and the other side
/// offers to bear it, and a feature of both sides exactly where both offer it.
pub proof fn lemma_permissions_follow_both_offers(local: OfferView, remote: OfferView)
    requires
        negotiated(local, remote) is Ok,
    ensures
        ({
            let agreement = negotiated(local, remote)->Ok_0;
            &&& agreement.local_may_send_clipboard <==> local.capabilities & 2 != 0
                && remote.capabilities & 4 != 0
            &&& agreement.remote_may_send_clipboard <==> remote.capabilities & 2 != 0
                && local.capabilities & 4 != 0
            &&& agreement.local_may_send_input <==> local.capabilities & 16 != 0
                && remote.capabilities & 32 != 0
            &&& agreement.remote_may_send_input <==> remote.capabilities & 16 != 0
                && local.capabilities & 32 != 0
            &&& agreement.file_transfer_enabled <==> local.capabilities & 8 != 0
                && remote.capabilities & 8 != 0
            &&& agreement.reliable_keyframes <==> local.capabilities & 64 != 0
                && remote.capabilities & 64 != 0
            &&& agreement.hdr <==> local.capabilities & 1 != 0 && remote.capabilities & 1 != 0
                && local.color_formats & 8 != 0 && remote.color_formats & 8 != 0
        }),
{
    lemma_both_bits(local.capabilities, remote.capabilities, 1);
    lemma_both_bits(local.capabilities, remote.capabilities, 8);
    lemma_both_bits(local.capabilities, remote.capabilities, 64);
    lemma_both_bits(local.color_formats, remote.color_formats, 8);
}

/// The other peer comes to the mirror image of an agreement: what the one may send, the other
/// may receive, and all limits are the same. Only the codecs follow each side's own order of
/// preference, and so does the latency mode where neither side asks for low latency.
pub proof fn lemma_agreements_mirror_each_other(local: OfferView, remote: OfferView)
    requires
        offer_error(local) is None,
        offer_error(remote) is None,
    ensures
        negotiated(local, remote) is Ok <==> negotiated(remote, local) is Ok,
        negotiated(local, remote) is Ok ==> {
            let here = negotiated(local, remote)->Ok_0;
            let there = negotiated(remote, local)->Ok_0;
            &&& here.local_may_send_input == there.remote_may_send_input
            &&& here.remote_may_send_input == there.local_may_send_input
            &&& here.local_may_send_clipboard == there.remote_may_send_clipboard
            &&& here.remote_may_send_clipboard == there.local_may_send_clipboard
            &&& here.file_transfer_enabled == there.file_transfer_enabled
            &&& here.reliable_keyframes == there.reliable_keyframes
            &&& here.hdr == there.hdr
            &&& here.color_format == there.color_format
            &&& here.protocol_version == there.protocol_version
            &&& here.max_width == there.max_width
            &&& here.max_height == there.max_height
            &&& here.max_fps == there.max_fps
            &&& here.max_datagram_payload == there.max_datagram_payload
            &&& here.max_video_bitrate_kbps == there.max_video_bitrate_kbps
            &&& here.max_file_bitrate_kbps == there.max_file_bitrate_kbps
            &&& here.latency_mode == LatencyMode::LowLatency <==> there.latency_mode
                == LatencyMode::LowLatency
        },
{
    lemma_first_common_is_common(local.video_codecs, remote.video_codecs);
    lemma_first_common_is_common(local.audio_codecs, remote.audio_codecs);
    lemma_first_common_is_common(remote.video_codecs, local.video_codecs);
    lemma_first_common_is_common(remote.audio_codecs, local.audio_codecs);
    let (first, second) = (local.capabilities, remote.capabilities);
    assert(first & second == second & first) by (bit_vector);
    let (first, second) = (local.color_formats, remote.color_formats);
    assert(first & second == second & first) by (bit_vector);
}

/// Each limit of an agreement is the lower one of the two offers, and the version the highest
/// that both know. It has low latency exactly where one of them asks for it.
pub proof fn lemma_limits_are_the_lower_ones(local: OfferView, remote: OfferView)
    requires
        negotiated(local, remote) is Ok,
    ensures
        ({
            let agreement = negotiated(local, remote)->Ok_0;
            &&& agreement.protocol_version <= local.maximum_protocol_version
            &&& agreement.protocol_version <= remote.maximum_protocol_version
            &&& agreement.protocol_version == local.maximum_protocol_version
                || agreement.protocol_version == remote.maximum_protocol_version
            &&& agreement.max_width <= local.max_width && agreement.max_width <= remote.max_width
            &&& agreement.max_width == local.max_width || agreement.max_width == remote.max_width
            &&& agreement.max_height <= local.max_height && agreement.max_height
                <= remote.max_height
            &&& agreement.max_height == local.max_height || agreement.max_height
                == remote.max_height
            &&& agreement.max_fps <= local.max_fps && agreement.max_fps <= remote.max_fps
            &&& agreement.max_fps == local.max_fps || agreement.max_fps == remote.max_fps
            &&& agreement.max_datagram_payload <= local.max_datagram_payload
                && agreement.max_datagram_payload <= remote.max_datagram_payload
            &&& agreement.max_datagram_payload == local.max_datagram_payload
                || agreement.max_datagram_payload == remote.max_datagram_payload
            &&& agreement.max_video_bitrate_kbps <= local.max_video_bitrate_kbps
                && agreement.max_video_bitrate_kbps <= remote.max_video_bitrate_kbps
            &&& agreement.max_video_bitrate_kbps == local.max_video_bitrate_kbps
                || agreement.max_video_bitrate_kbps == remote.max_video_bitrate_kbps
            &&& agreement.max_file_bitrate_kbps <= local.max_file_bitrate_kbps
                && agreement.max_file_bitrate_kbps <= remote.max_file_bitrate_kbps
            &&& agreement.max_file_bitrate_kbps == local.max_file_bitrate_kbps
                || agreement.max_file_bitrate_kbps == remote.max_file_bitrate_kbps
            &&& agreement.latency_mode == LatencyMode::LowLatency <==> local.latency_mode
                == LatencyMode::LowLatency || remote.latency_mode == LatencyMode::LowLatency
            &&& agreement.latency_mode != LatencyMode::LowLatency ==> agreement.latency_mode
                == local.latency_mode
        }),
{
}

/// Whether `codec` is what `own` prefers of all that `other` has too.
pub open spec fn is_preferred<T>(codec: T, own: Seq<T>, other: Seq<T>) -> bool {
    exists|place: int|
        0 <= place < own.len() && #[trigger] own[place] == codec && other.contains(codec)
            && forall|earlier: int| 0 <= earlier < place ==> !other.contains(#[trigger] own[earlier])
}

proof fn lemma_first_common_is_preferred<T>(own: Seq<T>, other: Seq<T>)
    ensures
        first_common(own, other) matches Some(codec) ==> is_preferred(codec, own, other),
        first_common(own, other) is None ==> forall|place: int|
            0 <= place < own.len() ==> !other.contains(#[trigger] own[place]),
    decreases own.len(),
{
    if own.len() > 0 {
        let rest = own.drop_last();
        lemma_first_common_is_preferred(rest, other);
        if first_common(rest, other) is Some {
            let codec = first_common(rest, other)->Some_0;
            let place = choose|place: int|
                0 <= place < rest.len() && #[trigger] rest[place] == codec && other.contains(codec)
                    && forall|earlier: int|
                    0 <= earlier < place ==> !other.contains(#[trigger] rest[earlier]);
            assert(own[place] == codec);
            assert forall|earlier: int| 0 <= earlier < place implies !other.contains(
                #[trigger] own[earlier],
            ) by {
                assert(rest[earlier] == own[earlier]);
            }
        } else {
            assert forall|earlier: int| 0 <= earlier < own.len() - 1 implies !other.contains(
                #[trigger] own[earlier],
            ) by {
                assert(rest[earlier] == own[earlier]);
            }
            assert(own[own.len() - 1] == own.last());
        }
    }
}

/// The codecs are those that the local peer prefers among those of both. Of the color formats
/// that both know, the best is taken: ten bits where both can show HDR, and otherwise full
/// color before the two with less.
pub proof fn lemma_best_codecs_are_chosen(local: OfferView, remote: OfferView)
    requires
        negotiated(local, remote) is Ok,
    ensures
        ({
            let agreement = negotiated(local, remote)->Ok_0;
            let ten_bits = local.capabilities & 1 != 0 && remote.capabilities & 1 != 0
                && local.color_formats & 8 != 0 && remote.color_formats & 8 != 0;
            let full = local.color_formats & 2 != 0 && remote.color_formats & 2 != 0;
            let planes = local.color_formats & 4 != 0 && remote.color_formats & 4 != 0;
            let plain = local.color_formats & 1 != 0 && remote.color_formats & 1 != 0;
            &&& is_preferred(agreement.video_codec, local.video_codecs, remote.video_codecs)
            &&& is_preferred(agreement.audio_codec, local.audio_codecs, remote.audio_codecs)
            &&& agreement.color_format == ColorFormat::P010 <==> ten_bits
            &&& agreement.color_format == ColorFormat::I444 <==> !ten_bits && full
            &&& agreement.color_format == ColorFormat::Nv12 <==> !ten_bits && !full && planes
            &&& agreement.color_format == ColorFormat::I420 <==> !ten_bits && !full && !planes
                && plain
        }),
{
    lemma_first_common_is_preferred(local.video_codecs, remote.video_codecs);
    lemma_first_common_is_preferred(local.audio_codecs, remote.audio_codecs);
    lemma_both_bits(local.capabilities, remote.capabilities, 1);
    lemma_both_bits(local.color_formats, remote.color_formats, 1);
    lemma_both_bits(local.color_formats, remote.color_formats, 2);
    lemma_both_bits(local.color_formats, remote.color_formats, 4);
    lemma_both_bits(local.color_formats, remote.color_formats, 8);
}

/// Two valid offers are agreed on exactly where they share a version, a video codec, an audio
/// codec and a color format that can be used; otherwise the error says what they do not share.
pub proof fn lemma_compatible_offers_are_agreed_on(local: OfferView, remote: OfferView)
    requires
        offer_error(local) is None,
        offer_error(remote) is None,
    ensures
        ({
            let versions = local.minimum_protocol_version <= remote.maximum_protocol_version
                && remote.minimum_protocol_version <= local.maximum_protocol_version;
            let video = exists|codec: VideoCodec|
                #[trigger] local.video_codecs.contains(codec) && remote.video_codecs.contains(
                    codec,
                );
            let audio = exists|codec: AudioCodec|
                #[trigger] local.audio_codecs.contains(codec) && remote.audio_codecs.contains(
                    codec,
                );
            let color = {
                ||| local.color_formats & 1 != 0 && remote.color_formats & 1 != 0
                ||| local.color_formats & 2 != 0 && remote.color_formats & 2 != 0
                ||| local.color_formats & 4 != 0 && remote.color_formats & 4 != 0
                ||| local.color_formats & 8 != 0 && remote.color_formats & 8 != 0
                    && local.capabilities & 1 != 0 && remote.capabilities & 1 != 0
            };
            &&& negotiated(local, remote) is Ok <==> versions && video && audio && color
            &&& negotiated(local, remote) matches Err(error) ==> match error {
                SessionNegotiationError::IncompatibleProtocol => !versions,
                SessionNegotiationError::IncompatibleVideoCodec => versions && !video,
                SessionNegotiationError::IncompatibleAudioCodec => versions && video && !audio,
                SessionNegotiationError::IncompatibleColorFormat => versions && video && audio
                    && !color,
                _ => false,
            }
        }),
{
    lemma_first_common_is_common(local.video_codecs, remote.video_codecs);
    lemma_first_common_is_common(local.audio_codecs, remote.audio_codecs);
    lemma_both_bits(local.capabilities, remote.capabilities, 1);
    lemma_both_bits(local.color_formats, remote.color_formats, 1);
    lemma_both_bits(local.color_formats, remote.color_formats, 2);
    lemma_both_bits(local.color_formats, remote.color_formats, 4);
    lemma_both_bits(local.color_formats, remote.color_formats, 8);
}

/// An offer that is not valid is never negotiated: the error is its own, that of the local
/// offer first.
pub proof fn lemma_invalid_offers_are_refused(local: OfferView, remote: OfferView)
    ensures
        offer_error(local) matches Some(error) ==> negotiated(local, remote) == Err::<
            SessionAgreement,
            _,
        >(error),
        offer_error(local) is None ==> (offer_error(remote) matches Some(error) ==> negotiated(
            local,
            remote,
        ) == Err::<SessionAgreement, _>(error)),
{
}

/// An agreement is accepted exactly where it makes sense in itself and asks for nothing that
/// the offer does not hold.
pub proof fn lemma_accepted_agreements(agreement: SessionAgreement, offer: OfferView)
    requires
        offer_error(offer) is None,
    ensures
        agreement_error(agreement, offer) is None <==> {
            &&& agreement.protocol_version >= offer.minimum_protocol_version
            &&& agreement.protocol_version <= offer.maximum_protocol_version
            &&& exists|place: int|
                0 <= place < offer.video_codecs.len() && #[trigger] offer.video_codecs[place]
                    == agreement.video_codec
            &&& exists|place: int|
                0 <= place < offer.audio_codecs.len() && #[trigger] offer.audio_codecs[place]
                    == agreement.audio_codec
            &&& agreement.color_format == ColorFormat::I420 ==> offer.color_formats & 1 != 0
            &&& agreement.color_format == ColorFormat::I444 ==> offer.color_formats & 2 != 0
            &&& agreement.color_format == ColorFormat::Nv12 ==> offer.color_formats & 4 != 0
            &&& agreement.color_format == ColorFormat::P010 ==> offer.color_formats & 8 != 0
            &&& 320 <= agreement.max_width <= offer.max_width
            &&& 200 <= agreement.max_height <= offer.max_height
            &&& 1 <= agreement.max_fps <= offer.max_fps
            &&& 256 <= agreement.max_datagram_payload <= offer.max_datagram_payload
            &&& 1 <= agreement.max_video_bitrate_kbps <= offer.max_video_bitrate_kbps
            &&& agreement.max_file_bitrate_kbps <= offer.max_file_bitrate_kbps
            &&& agreement.file_transfer_enabled ==> agreement.max_file_bitrate_kbps >= 1
            &&& agreement.hdr ==> agreement.color_format == ColorFormat::P010
            &&& agreement.hdr ==> offer.capabilities & 1 != 0
            &&& agreement.local_may_send_clipboard ==> offer.capabilities & 2 != 0
            &&& agreement.remote_may_send_clipboard ==> offer.capabilities & 4 != 0
            &&& agreement.file_transfer_enabled ==> offer.capabilities & 8 != 0
            &&& agreement.local_may_send_input ==> offer.capabilities & 16 != 0
            &&& agreement.remote_may_send_input ==> offer.capabilities & 32 != 0
            &&& agreement.reliable_keyframes ==> offer.capabilities & 64 != 0
        },
        agreement_error(agreement, offer) is Some ==> agreement_error(agreement, offer)
            == Some(SessionNegotiationError::InvalidAgreement),
{
}

/// The bytes by which latency modes, color formats and codecs are told apart on the wire.
pub proof fn lemma_session_codes(value: u8)
    ensures
        latency_mode_of(value) == (match value {
            1 => Ok::<_, SessionNegotiationError>(LatencyMode::Balanced),
            2 => Ok(LatencyMode::LowLatency),
            3 => Ok(LatencyMode::Quality),
            _ => Err(SessionNegotiationError::InvalidLatencyMode(value)),
        }),
        color_format_of(value) == (match value {
            1 => Ok::<_, SessionNegotiationError>(ColorFormat::I420),
            2 => Ok(ColorFormat::I444),
            3 => Ok(ColorFormat::Nv12),
            4 => Ok(ColorFormat::P010),
            _ => Err(SessionNegotiationError::UnknownColorFormat(value)),
        }),
        latency_mode_of(value) matches Ok(mode) ==> mode.code() == value,
        color_format_of(value) matches Ok(format) ==> format.code() == value,
{
}


/// Where each field of an offer stands in its bytes, and the codecs behind them: first those of
/// video, then those of audio, one byte each.
pub proof fn lemma_offer_layout(offer: OfferView, place: int)
    requires
        offer_error(offer) is None,
    ensures
        ({
            let bytes = offer_bytes(offer);
            let video = offer.video_codecs.len() as int;
            let audio = offer.audio_codecs.len() as int;
            &&& bytes.len() == 32 + video + audio
            &&& wire::u16_at(bytes, 0) == offer.minimum_protocol_version
            &&& wire::u16_at(bytes, 2) == offer.maximum_protocol_version
            &&& wire::u16_at(bytes, 4) == offer.capabilities
            &&& bytes[6] == offer.latency_mode.code()
            &&& bytes[7] == video
            &&& bytes[8] == audio
            &&& bytes[9] == 0
            &&& wire::u16_at(bytes, 10) == offer.color_formats
            &&& wire::u16_at(bytes, 12) == offer.max_width
            &&& wire::u16_at(bytes, 14) == offer.max_height
            &&& wire::u16_at(bytes, 16) == offer.max_fps
            &&& wire::u16_at(bytes, 18) == offer.max_datagram_payload
            &&& wire::u32_at(bytes, 20) == offer.max_video_bitrate_kbps
            &&& wire::u32_at(bytes, 24) == offer.max_file_bitrate_kbps
            &&& wire::u32_at(bytes, 28) == 0
            &&& 0 <= place < video ==> bytes[32 + place] == offer.video_codecs[place].code()
            &&& 0 <= place < audio ==> bytes[32 + video + place] == offer.audio_codecs[place].code()
        }),
{
    let head = offer_header_bytes(offer);
    let video = video_codes(offer.video_codecs);
    let audio = audio_codes(offer.audio_codecs);
    lemma_offer_fields(offer);
    lemma_offer_reads(head, video + audio);
    lemma_offer_len(offer);
}

/// An offer is read from exactly those bytes that a valid offer has.
pub proof fn lemma_offers_that_can_be_read(payload: Seq<u8>, offer: OfferView)
    ensures
        parse_offer(payload) == Ok::<_, SessionNegotiationError>(offer) <==> offer_error(offer)
            is None && payload == offer_bytes(offer),
{
    if parse_offer(payload) == Ok::<_, SessionNegotiationError>(offer) {
        lemma_offer_canonical(payload);
    } else if offer_error(offer) is None && payload == offer_bytes(offer) {
        lemma_offer_round_trip(offer);
    }
}

/// What is said of bytes that hold no offer: that they are too few, that a reserved field is
/// used, or that their number does not follow from the numbers of codecs.
pub proof fn lemma_offers_that_cannot_be_read(payload: Seq<u8>)
    ensures
        payload.len() < 32 ==> parse_offer(payload) == Err::<OfferView, _>(
            SessionNegotiationError::HeaderTruncated,
        ),
        payload.len() >= 32 && (payload[9] != 0 || wire::u32_at(payload, 28) != 0)
            ==> parse_offer(payload) == Err::<OfferView, _>(
            SessionNegotiationError::InvalidReservedField,
        ),
        payload.len() >= 32 && payload[9] == 0 && wire::u32_at(payload, 28) == 0 && payload.len()
            != 32 + payload[7] + payload[8] ==> parse_offer(payload) == Err::<OfferView, _>(
            SessionNegotiationError::LengthMismatch,
        ),
{
}

/// Where each field of an agreement stands in its bytes, with one bit for each permission.
pub proof fn lemma_agreement_layout(agreement: SessionAgreement)
    ensures
        ({
            let bytes = agreement_bytes(agreement);
            let flags = wire::u16_at(bytes, 6);
            &&& bytes.len() == 28
            &&& wire::u16_at(bytes, 0) == agreement.protocol_version
            &&& bytes[2] == agreement.video_codec.code()
            &&& bytes[3] == agreement.audio_codec.code()
            &&& bytes[4] == agreement.color_format.code()
            &&& bytes[5] == agreement.latency_mode.code()
            &&& flags & !127u16 == 0
            &&& flags & 1 != 0 <==> agreement.hdr
            &&& flags & 2 != 0 <==> agreement.local_may_send_clipboard
            &&& flags & 4 != 0 <==> agreement.remote_may_send_clipboard
            &&& flags & 8 != 0 <==> agreement.file_transfer_enabled
            &&& flags & 16 != 0 <==> agreement.local_may_send_input
            &&& flags & 32 != 0 <==> agreement.remote_may_send_input
            &&& flags & 64 != 0 <==> agreement.reliable_keyframes
            &&& wire::u16_at(bytes, 8) == agreement.max_width
            &&& wire::u16_at(bytes, 10) == agreement.max_height
            &&& wire::u16_at(bytes, 12) == agreement.max_fps
            &&& wire::u16_at(bytes, 14) == agreement.max_datagram_payload
            &&& wire::u32_at(bytes, 16) == agreement.max_video_bitrate_kbps
            &&& wire::u32_at(bytes, 20) == agreement.max_file_bitrate_kbps
            &&& wire::u32_at(bytes, 24) == 0
        }),
{
    lemma_agreement_fields(agreement);
    lemma_flags_round_trip(agreement);
}

/// An agreement is read exactly where 28 bytes hold known codes, no unknown flag, nothing in the
/// reserved field, and fields that make sense together. It says what the fields say.
pub proof fn lemma_agreements_that_can_be_read(payload: Seq<u8>)
    ensures
        ({
            let result = parse_agreement(payload);
            let agreement = result->Ok_0;
            let flags = wire::u16_at(payload, 6);
            let whole = payload.len() == 28 && wire::u32_at(payload, 24) == 0 && flags & !127u16
                == 0 && 1 <= payload[2] <= 6 && payload[3] == 1 && 1 <= payload[4] <= 4 && 1
                <= payload[5] <= 3;
            let sensible = wire::u16_at(payload, 0) >= 1 && 320 <= wire::u16_at(payload, 8)
                <= 16_384 && 200 <= wire::u16_at(payload, 10) <= 16_384 && 1 <= wire::u16_at(
                payload,
                12,
            ) <= 240 && 256 <= wire::u16_at(payload, 14) <= 65_000 && 1 <= wire::u32_at(payload, 16)
                <= 1_000_000 && (flags & 8 != 0 ==> wire::u32_at(payload, 20) >= 1) && (flags & 1
                != 0 ==> payload[4] == 4);
            &&& result is Ok <==> whole && sensible
            &&& whole && !sensible ==> result->Err_0 == SessionNegotiationError::InvalidAgreement
            &&& payload.len() != 28 ==> result->Err_0 == SessionNegotiationError::LengthMismatch
            &&& result is Ok ==> {
                &&& agreement.protocol_version == wire::u16_at(payload, 0)
                &&& agreement.video_codec.code() == payload[2]
                &&& agreement.audio_codec.code() == payload[3]
                &&& agreement.color_format.code() == payload[4]
                &&& agreement.latency_mode.code() == payload[5]
                &&& agreement.hdr <==> flags & 1 != 0
                &&& agreement.local_may_send_clipboard <==> flags & 2 != 0
                &&& agreement.remote_may_send_clipboard <==> flags & 4 != 0
                &&& agreement.file_transfer_enabled <==> flags & 8 != 0
                &&& agreement.local_may_send_input <==> flags & 16 != 0
                &&& agreement.remote_may_send_input <==> flags & 32 != 0
                &&& agreement.reliable_keyframes <==> flags & 64 != 0
                &&& agreement.max_width == wire::u16_at(payload, 8)
                &&& agreement.max_height == wire::u16_at(payload, 10)
                &&& agreement.max_fps == wire::u16_at(payload, 12)
                &&& agreement.max_datagram_payload == wire::u16_at(payload, 14)
                &&& agreement.max_video_bitrate_kbps == wire::u32_at(payload, 16)
                &&& agreement.max_file_bitrate_kbps == wire::u32_at(payload, 20)
            }
        }),
{
}

/// An acceptance holds the length of the offer, two zeros, the offer and the agreement. It is
/// read exactly where each part is.
pub proof fn lemma_acceptance_layout(
    payload: Seq<u8>,
    offer: OfferView,
    agreement: SessionAgreement,
)
    requires
        offer_error(offer) is None,
        agreement_valid(agreement),
    ensures
        ({
            let bytes = acceptance_bytes(offer, agreement);
            let end = 4 + offer_bytes(offer).len() as int;
            &&& bytes.len() == end + 28
            &&& wire::u16_at(bytes, 0) == offer_bytes(offer).len()
            &&& wire::u16_at(bytes, 2) == 0
            &&& bytes.subrange(4, end) == offer_bytes(offer)
            &&& bytes.subrange(end, end + 28) == agreement_bytes(agreement)
        }),
        ({
            let length = wire::u16_at(payload, 0) as int;
            parse_acceptance(payload) == Ok::<_, SessionNegotiationError>((offer, agreement)) <==> {
                &&& payload.len() == 32 + length
                &&& length >= 32
                &&& wire::u16_at(payload, 2) == 0
                &&& parse_offer(payload.subrange(4, 4 + length)) == Ok::<
                    _,
                    SessionNegotiationError,
                >(offer)
                &&& parse_agreement(payload.subrange(4 + length, 32 + length)) == Ok::<
                    _,
                    SessionNegotiationError,
                >(agreement)
            }
        }),
{
    lemma_offer_len(offer);
    lemma_agreement_fields(agreement);
    lemma_acceptance_parts(offer_bytes(offer), agreement_bytes(agreement));
}


/// The first byte that stands for no codec is the one that is named: before it all are known.
pub proof fn lemma_first_unknown_codec_is_named(codes: Seq<u8>, place: int)
    requires
        0 <= place < codes.len(),
    ensures
        (forall|index: int| 0 <= index < codes.len() ==> 1 <= #[trigger] codes[index] <= 6)
            <==> unknown_video_code(codes) is None,
        (forall|index: int| 0 <= index < codes.len() ==> #[trigger] codes[index] == 1)
            <==> unknown_audio_code(codes) is None,
        (forall|index: int| 0 <= index < place ==> 1 <= #[trigger] codes[index] <= 6) && !(1
            <= codes[place] <= 6) ==> unknown_video_code(codes) == Some(codes[place]),
        (forall|index: int| 0 <= index < place ==> #[trigger] codes[index] == 1) && codes[place]
            != 1 ==> unknown_audio_code(codes) == Some(codes[place]),
{
    lemma_known_or_named(codes);
    let before = codes.take(place + 1);
    lemma_known_or_named(codes.take(place));
    assert(before.drop_last() =~= codes.take(place));
    assert(forall|index: int| 0 <= index < place ==> codes.take(place)[index] == codes[index]);
    lemma_unknown_codes(codes, place + 1);
}

/// Codes are all known exactly where none is named as unknown.
proof fn lemma_known_or_named(codes: Seq<u8>)
    ensures
        (forall|index: int| 0 <= index < codes.len() ==> 1 <= #[trigger] codes[index] <= 6)
            <==> unknown_video_code(codes) is None,
        (forall|index: int| 0 <= index < codes.len() ==> #[trigger] codes[index] == 1)
            <==> unknown_audio_code(codes) is None,
    decreases codes.len(),
{
    if codes.len() > 0 {
        let rest = codes.drop_last();
        let last = codes.len() - 1;
        lemma_known_or_named(rest);
        assert(forall|index: int| 0 <= index < last ==> rest[index] == codes[index]);
        assert(codes[last] == codes.last());
        if unknown_video_code(codes) is None {
            assert forall|index: int| 0 <= index < codes.len() implies 1 <= #[trigger] codes[index]
                <= 6 by {
                if index < last {
                    assert(1 <= rest[index] <= 6);
                }
            }
        } else if forall|index: int| 0 <= index < codes.len() ==> 1 <= #[trigger] codes[index] <= 6 {
            assert forall|index: int| 0 <= index < rest.len() implies 1 <= #[trigger] rest[index]
                <= 6 by {
                assert(1 <= codes[index] <= 6);
            }
            assert(1 <= codes[last] <= 6);
        }
        if unknown_audio_code(codes) is None {
            assert forall|index: int| 0 <= index < codes.len() implies #[trigger] codes[index]
                == 1 by {
                if index < last {
                    assert(rest[index] == 1);
                }
            }
        } else if forall|index: int| 0 <= index < codes.len() ==> #[trigger] codes[index] == 1 {
            assert forall|index: int| 0 <= index < rest.len() implies #[trigger] rest[index]
                == 1 by {
                assert(codes[index] == 1);
            }
            assert(codes[last] == 1);
        }
    }
}

/// What is said of bytes of the right shape that hold no offer: the first video codec that is
/// unknown, then the first audio codec, then the latency mode, then what the offer breaks.
pub proof fn lemma_offers_with_unknown_parts(payload: Seq<u8>)
    requires
        payload.len() >= 32,
        payload[9] == 0,
        wire::u32_at(payload, 28) == 0,
        payload.len() == 32 + payload[7] + payload[8],
    ensures
        ({
            let video = unknown_video_code(payload.subrange(32, 32 + payload[7]));
            let audio = unknown_audio_code(
                payload.subrange(32 + payload[7], payload.len() as int),
            );
            let mode = payload[6];
            let result = parse_offer(payload);
            &&& video is Some ==> result == Err::<OfferView, _>(
                SessionNegotiationError::UnknownVideoCodec(video->Some_0),
            )
            &&& video is None && audio is Some ==> result == Err::<OfferView, _>(
                SessionNegotiationError::UnknownAudioCodec(audio->Some_0),
            )
            &&& video is None && audio is None && !(1 <= mode <= 3) ==> result == Err::<
                OfferView,
                _,
            >(SessionNegotiationError::InvalidLatencyMode(mode))
        }),
{
}

/// What is said of 28 bytes that hold no agreement.
pub proof fn lemma_agreements_that_cannot_be_read(payload: Seq<u8>)
    requires
        payload.len() == 28,
        parse_agreement(payload) is Err,
    ensures
        ({
            let flags = wire::u16_at(payload, 6);
            parse_agreement(payload)->Err_0 == if wire::u32_at(payload, 24) != 0 {
                SessionNegotiationError::InvalidReservedField
            } else if flags & !127u16 != 0 {
                SessionNegotiationError::InvalidAgreement
            } else if !(1 <= payload[4] <= 4) {
                SessionNegotiationError::UnknownColorFormat(payload[4])
            } else if !(1 <= payload[2] <= 6) {
                SessionNegotiationError::UnknownVideoCodec(payload[2])
            } else if payload[3] != 1 {
                SessionNegotiationError::UnknownAudioCodec(payload[3])
            } else if !(1 <= payload[5] <= 3) {
                SessionNegotiationError::InvalidLatencyMode(payload[5])
            } else {
                SessionNegotiationError::InvalidAgreement
            }
        }),
{
}

/// What is said of bytes that hold no acceptance: they are too few, a reserved field is used,
/// the length of the offer does not fit, or one of the parts cannot be read.
pub proof fn lemma_acceptances_that_cannot_be_read(payload: Seq<u8>)
    requires
        parse_acceptance(payload) is Err,
    ensures
        ({
            let length = wire::u16_at(payload, 0) as int;
            let offer = parse_offer(payload.subrange(4, 4 + length));
            parse_acceptance(payload)->Err_0 == if payload.len() < 32 {
                SessionNegotiationError::HeaderTruncated
            } else if wire::u16_at(payload, 2) != 0 {
                SessionNegotiationError::InvalidReservedField
            } else if length < 32 || payload.len() != 32 + length {
                SessionNegotiationError::LengthMismatch
            } else if offer is Err {
                offer->Err_0
            } else {
                parse_agreement(payload.subrange(4 + length, 32 + length))->Err_0
            }
        }),
{
}

} // verus!
