//! Clipboard text that is kept alike on both sides, without loops and in allowed directions only.
use crate::outside;
use crate::wire;
use std::collections::BTreeMap;
use vstd::prelude::*;

verus! {

broadcast use {vstd::std_specs::btree::group_btree_axioms, vstd::laws_cmp::group_laws_cmp};

pub const CLIPBOARD_HEADER_LEN: usize = 32;

pub const DEFAULT_MAX_CLIPBOARD_BYTES: usize = 0x10_0000;

pub const MAX_TRACKED_ORIGINS: usize = 8;

pub const FORMAT_UTF8_TEXT: u8 = 1;

#[derive(Clone, Copy, Debug, Eq, PartialEq, Structural)]
pub enum ClipboardPermission {
    Disabled,
    ReceiveOnly,
    SendOnly,
    Bidirectional,
}

impl ClipboardPermission {
    pub open spec fn may_send(self) -> bool {
        self == ClipboardPermission::SendOnly || self == ClipboardPermission::Bidirectional
    }

    pub open spec fn may_receive(self) -> bool {
        self == ClipboardPermission::ReceiveOnly || self == ClipboardPermission::Bidirectional
    }

    fn can_send(self) -> (can: bool)
        ensures
            can == self.may_send(),
    {
        matches!(self, ClipboardPermission::SendOnly | ClipboardPermission::Bidirectional)
    }

    fn can_receive(self) -> (can: bool)
        ensures
            can == self.may_receive(),
    {
        matches!(self, ClipboardPermission::ReceiveOnly | ClipboardPermission::Bidirectional)
    }
}

#[derive(Clone, Debug, Eq, PartialEq)]
pub struct ClipboardText {
    pub origin_id: [u8; 16],
    pub change_sequence: u64,
    pub text: String,
}

/// A change of the clipboard as a value.
#[verifier::ext_equal]
pub struct ClipboardTextView {
    pub origin_id: Seq<u8>,
    pub change_sequence: u64,
    pub text: Seq<char>,
}

impl View for ClipboardText {
    type V = ClipboardTextView;

    open spec fn view(&self) -> ClipboardTextView {
        ClipboardTextView {
            origin_id: self.origin_id@,
            change_sequence: self.change_sequence,
            text: self.text@,
        }
    }
}

#[derive(Clone, Copy, Debug, Eq, PartialEq, Structural)]
pub enum ClipboardError {
    PermissionDenied,
    ZeroOrigin,
    ZeroSequence,
    HeaderTruncated,
    UnsupportedFormat(u8),
    InvalidReservedField,
    InvalidSize(usize),
    InvalidUtf8,
    TooManyOrigins,
    SequenceExhausted,
}

/// Why an origin and a sequence number cannot name a change, if they cannot.
pub open spec fn change_error(origin_id: Seq<u8>, change_sequence: u64) -> Option<ClipboardError> {
    if wire::all_zero(origin_id) {
        Some(ClipboardError::ZeroOrigin)
    } else if change_sequence == 0 {
        Some(ClipboardError::ZeroSequence)
    } else {
        None
    }
}

fn validate_origin_and_sequence(origin_id: &[u8; 16], change_sequence: u64) -> (result: Result<
    (),
    ClipboardError,
>)
    ensures
        match change_error(origin_id@, change_sequence) {
            Some(error) => result == Err::<(), _>(error),
            None => result == Ok::<_, ClipboardError>(()),
        },
{
    if wire::is_all_zero(origin_id) {
        return Err(ClipboardError::ZeroOrigin);
    }
    if change_sequence == 0 {
        return Err(ClipboardError::ZeroSequence);
    }
    Ok(())
}

/// The thirty-two bytes before a text of the given length.
pub open spec fn clipboard_header(origin_id: Seq<u8>, change_sequence: u64, length: u32) -> Seq<
    u8,
> {
    origin_id + wire::be64(change_sequence) + seq![FORMAT_UTF8_TEXT, 0u8] + wire::be16(0)
        + wire::be32(length)
}

/// The payload of a change.
pub open spec fn clipboard_bytes(change: ClipboardTextView) -> Seq<u8> {
    let text = vstd::utf8::encode_utf8(change.text);
    clipboard_header(change.origin_id, change.change_sequence, text.len() as u32) + text
}

/// Why a change cannot be sent, if it cannot.
pub open spec fn sending_error(change: ClipboardTextView, max_bytes: usize) -> Option<
    ClipboardError,
> {
    let length = vstd::utf8::encode_utf8(change.text).len();
    if change_error(change.origin_id, change.change_sequence) is Some {
        change_error(change.origin_id, change.change_sequence)
    } else if length > max_bytes || length > u32::MAX {
        Some(ClipboardError::InvalidSize(length as usize))
    } else {
        None
    }
}

/// The change in a payload, or the first reason why there is none.
pub open spec fn parse_clipboard(payload: Seq<u8>, max_bytes: usize) -> Result<
    ClipboardTextView,
    ClipboardError,
> {
    let origin_id = payload.subrange(0, 16);
    let change_sequence = wire::u64_at(payload, 16);
    let declared_len = wire::u32_at(payload, 28);
    let text = payload.subrange(CLIPBOARD_HEADER_LEN as int, payload.len() as int);
    if payload.len() < CLIPBOARD_HEADER_LEN {
        Err(ClipboardError::HeaderTruncated)
    } else if change_error(origin_id, change_sequence) is Some {
        Err(change_error(origin_id, change_sequence)->Some_0)
    } else if payload[24] != FORMAT_UTF8_TEXT {
        Err(ClipboardError::UnsupportedFormat(payload[24]))
    } else if payload[25] != 0 || wire::u16_at(payload, 26) != 0 {
        Err(ClipboardError::InvalidReservedField)
    } else if declared_len != text.len() || declared_len > max_bytes {
        Err(ClipboardError::InvalidSize(declared_len as usize))
    } else if !vstd::utf8::valid_utf8(text) {
        Err(ClipboardError::InvalidUtf8)
    } else {
        Ok(ClipboardTextView { origin_id, change_sequence, text: vstd::utf8::decode_utf8(text) })
    }
}

/// The payload of a change.
pub fn encode_clipboard_text(
    origin_id: [u8; 16],
    change_sequence: u64,
    text: &str,
    max_bytes: usize,
) -> (result: Result<Vec<u8>, ClipboardError>)
    ensures
        ({
            let change = ClipboardTextView {
                origin_id: origin_id@,
                change_sequence,
                text: text@,
            };
            match sending_error(change, max_bytes) {
                Some(error) => result == Err::<Vec<u8>, _>(error),
                None => result matches Ok(payload) && payload@ == clipboard_bytes(change),
            }
        }),
{
    validate_origin_and_sequence(&origin_id, change_sequence)?;
    let bytes = text.as_bytes();
    if bytes.len() > max_bytes || bytes.len() > u32::MAX as usize {
        return Err(ClipboardError::InvalidSize(bytes.len()));
    }
    let mut payload: Vec<u8> = Vec::new();
    wire::put_bytes(&mut payload, &origin_id);
    wire::put_u64(&mut payload, change_sequence);
    wire::put_u8(&mut payload, FORMAT_UTF8_TEXT);
    wire::put_u8(&mut payload, 0);
    wire::put_u16(&mut payload, 0);
    wire::put_u32(&mut payload, bytes.len() as u32);
    assert(payload@ =~= clipboard_header(origin_id@, change_sequence, bytes@.len() as u32));
    wire::put_bytes(&mut payload, bytes);
    Ok(payload)
}

/// The change in a payload.
pub fn decode_clipboard_text(payload: &[u8], max_bytes: usize) -> (result: Result<
    ClipboardText,
    ClipboardError,
>)
    ensures
        match parse_clipboard(payload@, max_bytes) {
            Ok(change) => result matches Ok(text) && text@ == change,
            Err(error) => result == Err::<ClipboardText, _>(error),
        },
{
    if payload.len() < CLIPBOARD_HEADER_LEN {
        return Err(ClipboardError::HeaderTruncated);
    }
    let origin_id: [u8; 16] = wire::read_array(payload, 0);
    let change_sequence: u64 = wire::read_u64(payload, 16);
    validate_origin_and_sequence(&origin_id, change_sequence)?;
    if payload[24] != FORMAT_UTF8_TEXT {
        return Err(ClipboardError::UnsupportedFormat(payload[24]));
    }
    if payload[25] != 0 || wire::read_u16(payload, 26) != 0 {
        return Err(ClipboardError::InvalidReservedField);
    }
    let declared_len: usize = wire::read_u32(payload, 28) as usize;
    if declared_len != payload.len() - CLIPBOARD_HEADER_LEN || declared_len > max_bytes {
        return Err(ClipboardError::InvalidSize(declared_len));
    }
    match outside::text_from_utf8(wire::copy_range(payload, CLIPBOARD_HEADER_LEN, payload.len())) {
        Some(text) => Ok(ClipboardText { origin_id, change_sequence, text }),
        None => Err(ClipboardError::InvalidUtf8),
    }
}

/// An origin as a number.
pub open spec fn origin_key(origin_id: Seq<u8>) -> u128 {
    (wire::u64_at(origin_id, 0) * 0x1_0000_0000_0000_0000 + wire::u64_at(origin_id, 8)) as u128
}

/// Different origins are different numbers.
#[verifier::rlimit(50)]
#[verifier::spinoff_prover]
pub proof fn lemma_origin_keys_differ(first: Seq<u8>, second: Seq<u8>)
    requires
        first.len() == 16,
        second.len() == 16,
        first != second,
    ensures
        origin_key(first) != origin_key(second),
{
    if origin_key(first) == origin_key(second) {
        wire::lemma_be64_of_read(first, 0);
        wire::lemma_be64_of_read(first, 8);
        wire::lemma_be64_of_read(second, 0);
        wire::lemma_be64_of_read(second, 8);
        assert(first =~= first.subrange(0, 8) + first.subrange(8, 16));
        assert(second =~= second.subrange(0, 8) + second.subrange(8, 16));
    }
}

fn key_of_origin(origin_id: &[u8; 16]) -> (key: u128)
    ensures
        key == origin_key(origin_id@),
{
    wire::read_u64(origin_id, 0) as u128 * 0x1_0000_0000_0000_0000 + wire::read_u64(
        origin_id,
        8,
    ) as u128
}

/// What a side knows of the clipboard: what it may do, how many changes it sent, and the
/// last change that it took from each other origin.
pub struct ClipboardState {
    permission: ClipboardPermission,
    local_origin_id: [u8; 16],
    next_local_sequence: u64,
    remote_sequences: BTreeMap<u128, u64>,
    max_bytes: usize,
}

/// What a clipboard state holds. Remote origins are known by their numbers.
#[verifier::ext_equal]
pub struct ClipboardView {
    pub permission: ClipboardPermission,
    pub local_origin_id: Seq<u8>,
    pub next_local_sequence: u64,
    pub remote_sequences: Map<u128, u64>,
    pub max_bytes: usize,
}

impl View for ClipboardState {
    type V = ClipboardView;

    closed spec fn view(&self) -> ClipboardView {
        ClipboardView {
            permission: self.permission,
            local_origin_id: self.local_origin_id@,
            next_local_sequence: self.next_local_sequence,
            remote_sequences: self.remote_sequences@,
            max_bytes: self.max_bytes,
        }
    }
}

impl ClipboardView {
    /// The change that the next local text becomes.
    pub open spec fn local_change(self, text: Seq<char>) -> ClipboardTextView {
        ClipboardTextView {
            origin_id: self.local_origin_id,
            change_sequence: self.next_local_sequence,
            text,
        }
    }

    /// What `prepare_local_text` does and returns.
    pub open spec fn prepared(self, text: Seq<char>) -> (
        ClipboardView,
        Result<Seq<u8>, ClipboardError>,
    ) {
        if !self.permission.may_send() {
            (self, Err(ClipboardError::PermissionDenied))
        } else {
            match sending_error(self.local_change(text), self.max_bytes) {
                Some(error) => (self, Err(error)),
                None => if self.next_local_sequence == u64::MAX {
                    (self, Err(ClipboardError::SequenceExhausted))
                } else {
                    (
                        ClipboardView {
                            next_local_sequence: (self.next_local_sequence + 1) as u64,
                            ..self
                        },
                        Ok(clipboard_bytes(self.local_change(text))),
                    )
                },
            }
        }
    }

    /// The state once a change of another origin was taken.
    pub open spec fn taking(self, change: ClipboardTextView) -> ClipboardView {
        ClipboardView {
            remote_sequences: self.remote_sequences.insert(
                origin_key(change.origin_id),
                change.change_sequence,
            ),
            ..self
        }
    }

    /// What `receive` does and returns.
    pub open spec fn received(self, payload: Seq<u8>) -> (
        ClipboardView,
        Result<Option<ClipboardTextView>, ClipboardError>,
    ) {
        if !self.permission.may_receive() {
            (self, Err(ClipboardError::PermissionDenied))
        } else {
            match parse_clipboard(payload, self.max_bytes) {
                Err(error) => (self, Err(error)),
                Ok(change) => {
                    let key = origin_key(change.origin_id);
                    if change.origin_id == self.local_origin_id {
                        (self, Ok(None))
                    } else if self.remote_sequences.contains_key(key) {
                        if change.change_sequence <= self.remote_sequences[key] {
                            (self, Ok(None))
                        } else {
                            (self.taking(change), Ok(Some(change)))
                        }
                    } else if self.remote_sequences.len() >= MAX_TRACKED_ORIGINS {
                        (self, Err(ClipboardError::TooManyOrigins))
                    } else {
                        (self.taking(change), Ok(Some(change)))
                    }
                },
            }
        }
    }
}

impl ClipboardState {
    pub fn new(permission: ClipboardPermission, local_origin_id: [u8; 16], max_bytes: usize) -> (result:
        Result<ClipboardState, ClipboardError>)
        ensures
            match change_error(local_origin_id@, 1) {
                Some(error) => result == Err::<ClipboardState, _>(error),
                None => if max_bytes == 0 || max_bytes > DEFAULT_MAX_CLIPBOARD_BYTES {
                    result == Err::<ClipboardState, _>(ClipboardError::InvalidSize(max_bytes))
                } else {
                    result matches Ok(state) && state@ == (ClipboardView {
                        permission,
                        local_origin_id: local_origin_id@,
                        next_local_sequence: 1,
                        remote_sequences: Map::empty(),
                        max_bytes,
                    })
                },
            },
    {
        validate_origin_and_sequence(&local_origin_id, 1)?;
        if max_bytes == 0 || max_bytes > DEFAULT_MAX_CLIPBOARD_BYTES {
            return Err(ClipboardError::InvalidSize(max_bytes));
        }
        Ok(
            ClipboardState {
                permission,
                local_origin_id,
                next_local_sequence: 1,
                remote_sequences: BTreeMap::new(),
                max_bytes,
            },
        )
    }

    /// The payload that tells the other side of a new local text.
    pub fn prepare_local_text(&mut self, text: &str) -> (result: Result<Vec<u8>, ClipboardError>)
        ensures
            final(self)@ == old(self)@.prepared(text@).0,
            match old(self)@.prepared(text@).1 {
                Ok(bytes) => result matches Ok(payload) && payload@ == bytes,
                Err(error) => result == Err::<Vec<u8>, _>(error),
            },
    {
        if !self.permission.can_send() {
            return Err(ClipboardError::PermissionDenied);
        }
        let sequence: u64 = self.next_local_sequence;
        let payload = encode_clipboard_text(self.local_origin_id, sequence, text, self.max_bytes)?;
        if sequence == u64::MAX {
            return Err(ClipboardError::SequenceExhausted);
        }
        self.next_local_sequence = sequence + 1;
        Ok(payload)
    }

    /// The text to put on the local clipboard, none where the change is our own or no news.
    pub fn receive(&mut self, payload: &[u8]) -> (result: Result<
        Option<ClipboardText>,
        ClipboardError,
    >)
        ensures
            final(self)@ == old(self)@.received(payload@).0,
            match old(self)@.received(payload@).1 {
                Ok(Some(change)) => result matches Ok(Some(text)) && text@ == change,
                Ok(None) => result matches Ok(None),
                Err(error) => result == Err::<Option<ClipboardText>, _>(error),
            },
    {
        if !self.permission.can_receive() {
            return Err(ClipboardError::PermissionDenied);
        }
        let clipboard = decode_clipboard_text(payload, self.max_bytes)?;
        if wire::bytes_equal(&clipboard.origin_id, &self.local_origin_id) {
            return Ok(None);
        }
        let key: u128 = key_of_origin(&clipboard.origin_id);
        if let Some(last_sequence) = self.remote_sequences.get(&key) {
            if clipboard.change_sequence <= *last_sequence {
                return Ok(None);
            }
        } else if self.remote_sequences.len() >= MAX_TRACKED_ORIGINS {
            return Err(ClipboardError::TooManyOrigins);
        }
        self.remote_sequences.insert(key, clipboard.change_sequence);
        Ok(Some(clipboard))
    }

    /// Forgets what was taken from other origins.
    pub fn reset_remote_state(&mut self)
        ensures
            final(self)@ == (ClipboardView { remote_sequences: Map::empty(), ..old(self)@ }),
    {
        self.remote_sequences.clear();
    }
}

/// Where each field of a clipboard header stands in its bytes.
proof fn lemma_header_fields(origin_id: Seq<u8>, change_sequence: u64, length: u32)
    requires
        origin_id.len() == 16,
    ensures
        ({
            let head = clipboard_header(origin_id, change_sequence, length);
            &&& head.len() == CLIPBOARD_HEADER_LEN
            &&& head.subrange(0, 16) == origin_id
            &&& wire::u64_at(head, 16) == change_sequence
            &&& head[24] == FORMAT_UTF8_TEXT
            &&& head[25] == 0
            &&& wire::u16_at(head, 26) == 0
            &&& wire::u32_at(head, 28) == length
        }),
{
    let head = clipboard_header(origin_id, change_sequence, length);
    assert(head.subrange(0, 16) =~= origin_id);
    assert(head.subrange(16, 24) =~= wire::be64(change_sequence));
    assert(head.subrange(26, 28) =~= wire::be16(0));
    assert(head.subrange(28, 32) =~= wire::be32(length));
    wire::lemma_u64_round_trip(head, 16, change_sequence);
    wire::lemma_u16_round_trip(head, 26, 0);
    wire::lemma_u32_round_trip(head, 28, length);
}

/// A change that can be sent comes back from its payload.
pub proof fn lemma_clipboard_round_trip(change: ClipboardTextView, max_bytes: usize)
    requires
        change.origin_id.len() == 16,
        sending_error(change, max_bytes) is None,
    ensures
        parse_clipboard(clipboard_bytes(change), max_bytes) == Ok::<_, ClipboardError>(change),
{
    let text = vstd::utf8::encode_utf8(change.text);
    let head = clipboard_header(change.origin_id, change.change_sequence, text.len() as u32);
    let payload = head + text;
    lemma_header_fields(change.origin_id, change.change_sequence, text.len() as u32);
    wire::lemma_reads_of_prefix(head, text, 16);
    wire::lemma_reads_of_prefix(head, text, 26);
    wire::lemma_reads_of_prefix(head, text, 28);
    assert(payload.subrange(0, 16) =~= head.subrange(0, 16));
    assert(payload.subrange(CLIPBOARD_HEADER_LEN as int, payload.len() as int) =~= text);
    vstd::utf8::encode_utf8_valid_utf8(change.text);
    vstd::utf8::encode_utf8_decode_utf8(change.text);
}

/// A side that gets its own change back does not take it.
pub proof fn lemma_own_change_is_ignored(state: ClipboardView, text: Seq<char>)
    requires
        state.local_origin_id.len() == 16,
        state.permission == ClipboardPermission::Bidirectional,
        state.prepared(text).1 is Ok,
    ensures
        state.prepared(text).0.received(state.prepared(text).1->Ok_0) == (
            state.prepared(text).0,
            Ok::<Option<ClipboardTextView>, ClipboardError>(None),
        ),
{
    lemma_clipboard_round_trip(state.local_change(text), state.max_bytes);
}

/// A change that was taken is not taken a second time, nor is an older one of its origin.
pub proof fn lemma_change_is_taken_once(state: ClipboardView, taken: Seq<u8>, later: Seq<u8>)
    requires
        state.received(taken).1 matches Ok(Some(change)) && (parse_clipboard(
            later,
            state.max_bytes,
        ) matches Ok(other) && other.origin_id == change.origin_id && other.change_sequence
            <= change.change_sequence),
    ensures
        state.received(taken).0.received(later) == (
            state.received(taken).0,
            Ok::<Option<ClipboardTextView>, ClipboardError>(None),
        ),
{
}

/// What is taken was allowed, is news, and comes from another origin.
pub proof fn lemma_taken_change_is_news(state: ClipboardView, payload: Seq<u8>)
    ensures
        state.received(payload).1 matches Ok(Some(change)) ==> {
            &&& state.permission.may_receive()
            &&& change.origin_id != state.local_origin_id
            &&& state.remote_sequences.contains_key(origin_key(change.origin_id))
                ==> state.remote_sequences[origin_key(change.origin_id)] < change.change_sequence
        },
{
}

/// No more origins are remembered than there is room for, whatever is received.
pub proof fn lemma_tracked_origins_are_bounded(state: ClipboardView, payload: Seq<u8>)
    requires
        state.remote_sequences.dom().finite(),
        state.remote_sequences.len() <= MAX_TRACKED_ORIGINS,
    ensures
        state.received(payload).0.remote_sequences.dom().finite(),
        state.received(payload).0.remote_sequences.len() <= MAX_TRACKED_ORIGINS,
{
}

/// Who may do what: each of the two directions is open in its own mode and in that for both.
pub proof fn lemma_clipboard_permissions(permission: ClipboardPermission)
    ensures
        permission.may_send() <==> permission is SendOnly || permission is Bidirectional,
        permission.may_receive() <==> permission is ReceiveOnly || permission is Bidirectional,
{
}

/// Where each part of a change stands in its payload.
pub proof fn lemma_clipboard_layout(change: ClipboardTextView)
    requires
        change.origin_id.len() == 16,
        vstd::utf8::encode_utf8(change.text).len() <= 0xffff_ffff,
    ensures
        ({
            let payload = clipboard_bytes(change);
            let text = vstd::utf8::encode_utf8(change.text);
            &&& payload.len() == 32 + text.len()
            &&& payload.subrange(0, 16) == change.origin_id
            &&& wire::u64_at(payload, 16) == change.change_sequence
            &&& payload[24] == 1 && payload[25] == 0
            &&& wire::u16_at(payload, 26) == 0
            &&& wire::u32_at(payload, 28) == text.len()
            &&& payload.subrange(32, payload.len() as int) == text
        }),
{
    let text = vstd::utf8::encode_utf8(change.text);
    let payload = clipboard_bytes(change);
    assert(payload.subrange(0, 16) =~= change.origin_id);
    assert(payload.subrange(16, 24) =~= wire::be64(change.change_sequence));
    assert(payload.subrange(26, 28) =~= wire::be16(0));
    assert(payload.subrange(28, 32) =~= wire::be32(text.len() as u32));
    assert(payload.subrange(32, payload.len() as int) =~= text);
    wire::lemma_u64_round_trip(payload, 16, change.change_sequence);
    wire::lemma_u16_round_trip(payload, 26, 0);
    wire::lemma_u32_round_trip(payload, 28, text.len() as u32);
}

/// A payload is read as a change exactly where it names an origin and a number, is plain text
/// with nothing in the reserved fields, as long as it says and not too long; otherwise the error
/// says what is wrong.
pub proof fn lemma_changes_that_can_be_read(payload: Seq<u8>, max_bytes: usize)
    ensures
        ({
            let text = payload.subrange(32, payload.len() as int);
            &&& parse_clipboard(payload, max_bytes) is Ok <==> payload.len() >= 32
                && !wire::all_zero(payload.subrange(0, 16)) && wire::u64_at(payload, 16) > 0
                && payload[24] == 1 && payload[25] == 0 && wire::u16_at(payload, 26) == 0
                && wire::u32_at(payload, 28) == payload.len() - 32 && payload.len() - 32
                <= max_bytes && vstd::utf8::valid_utf8(text)
            &&& parse_clipboard(payload, max_bytes) matches Ok(change) ==> {
                &&& change.origin_id == payload.subrange(0, 16)
                &&& change.change_sequence == wire::u64_at(payload, 16)
                &&& change.text == vstd::utf8::decode_utf8(text)
            }
            &&& parse_clipboard(payload, max_bytes) matches Err(error) ==> match error {
                ClipboardError::HeaderTruncated => payload.len() < 32,
                ClipboardError::ZeroOrigin => wire::all_zero(payload.subrange(0, 16)),
                ClipboardError::ZeroSequence => wire::u64_at(payload, 16) == 0,
                ClipboardError::UnsupportedFormat(format) => format == payload[24] && format != 1,
                ClipboardError::InvalidReservedField => payload[25] != 0 || wire::u16_at(
                    payload,
                    26,
                ) != 0,
                ClipboardError::InvalidSize(size) => size == wire::u32_at(payload, 28) && (size
                    != payload.len() - 32 || size > max_bytes),
                ClipboardError::InvalidUtf8 => !vstd::utf8::valid_utf8(text),
                _ => false,
            }
        }),
{
}

/// A local text is sent exactly where sending is permitted and the text is not too long, under
/// the next number of the own origin, and nothing else changes.
pub proof fn lemma_local_texts_are_numbered(state: ClipboardView, text: Seq<char>)
    requires
        state.local_origin_id.len() == 16,
        !wire::all_zero(state.local_origin_id),
        0 < state.next_local_sequence < u64::MAX,
        state.max_bytes <= 0xffff_ffff,
    ensures
        ({
            let (after, result) = state.prepared(text);
            let length = vstd::utf8::encode_utf8(text).len();
            &&& result is Ok <==> state.permission.may_send() && length <= state.max_bytes
            &&& result is Err ==> after == state
            &&& !state.permission.may_send() ==> result == Err::<Seq<u8>, _>(
                ClipboardError::PermissionDenied,
            )
            &&& result matches Ok(payload) ==> {
                &&& after.next_local_sequence == state.next_local_sequence + 1
                &&& after == (ClipboardView {
                    next_local_sequence: after.next_local_sequence,
                    ..state
                })
                &&& payload.subrange(0, 16) == state.local_origin_id
                &&& wire::u64_at(payload, 16) == state.next_local_sequence
                &&& payload.subrange(32, payload.len() as int) == vstd::utf8::encode_utf8(text)
            }
        }),
{
    if state.prepared(text).1 is Ok {
        lemma_clipboard_layout(state.local_change(text));
    }
}

/// A change of another side is taken exactly where receiving is permitted, it can be read, it is
/// newer than the last one of its origin, and there is a place for its origin among the eight.
/// The receiver then remembers its number, and nothing else changes.
pub proof fn lemma_newer_changes_are_taken(
    state: ClipboardView,
    payload: Seq<u8>,
    other: u128,
)
    ensures
        ({
            let (after, result) = state.received(payload);
            let origin_id = payload.subrange(0, 16);
            let sequence = wire::u64_at(payload, 16);
            let key = origin_key(origin_id);
            let readable = parse_clipboard(payload, state.max_bytes) is Ok;
            let own = origin_id == state.local_origin_id;
            let known = state.remote_sequences.contains_key(key);
            let newer = known ==> sequence > state.remote_sequences[key];
            let place = known || state.remote_sequences.len() < 8;
            let taken = state.permission.may_receive() && readable && !own && newer && place;
            &&& (result is Ok && result->Ok_0 is Some) <==> taken
            &&& result matches Ok(Some(change)) ==> Ok::<_, ClipboardError>(change)
                == parse_clipboard(payload, state.max_bytes)
            &&& (result is Ok && result->Ok_0 is None) <==> state.permission.may_receive() && readable && (own
                || !newer)
            &&& result == Err::<Option<ClipboardTextView>, _>(ClipboardError::TooManyOrigins)
                <==> state.permission.may_receive() && readable && !own && !place
            &&& !state.permission.may_receive() ==> result == Err::<Option<ClipboardTextView>, _>(
                ClipboardError::PermissionDenied,
            )
            &&& !taken ==> after == state
            &&& taken ==> {
                &&& after == (ClipboardView { remote_sequences: after.remote_sequences, ..state })
                &&& after.remote_sequences.contains_key(key) && after.remote_sequences[key]
                    == sequence
                &&& other != key ==> (after.remote_sequences.contains_key(other)
                    <==> state.remote_sequences.contains_key(other))
                &&& other != key && state.remote_sequences.contains_key(other)
                    ==> after.remote_sequences[other] == state.remote_sequences[other]
            }
        }),
{
    lemma_changes_that_can_be_read(payload, state.max_bytes);
}

/// A change can be sent exactly where it names an origin and a number and is not too long.
pub proof fn lemma_changes_that_can_be_sent(change: ClipboardTextView, max_bytes: usize)
    ensures
        sending_error(change, max_bytes) is None <==> !wire::all_zero(change.origin_id)
            && change.change_sequence > 0 && vstd::utf8::encode_utf8(change.text).len()
            <= max_bytes && vstd::utf8::encode_utf8(change.text).len() <= 0xffff_ffff,
        sending_error(change, max_bytes) matches Some(ClipboardError::InvalidSize(_))
            ==> vstd::utf8::encode_utf8(change.text).len() > max_bytes || vstd::utf8::encode_utf8(
            change.text,
        ).len() > 0xffff_ffff,
{
}

} // verus!
