//! File transfers: their messages, which file names are safe, and checked reception in order.
use crate::outside;
use crate::text;
use crate::wire;
use vstd::prelude::*;

verus! {

pub const FILE_METADATA_HEADER_LEN: usize = 68;

pub const FILE_CHUNK_HEADER_LEN: usize = 28;

pub const FILE_CANCEL_PAYLOAD_LEN: usize = 20;

pub const MAX_FILE_NAME_BYTES: usize = 255;

pub const MAX_FILE_CHUNK_BYTES: usize = 0x4_0000;

pub const DEFAULT_MAX_FILE_BYTES: u64 = 0x5_0000_0000;

#[derive(Clone, Debug, Eq, PartialEq)]
pub struct FileTransferMetadata {
    pub transfer_id: [u8; 16],
    pub file_name: String,
    pub file_size: u64,
    pub resume_offset: u64,
    pub sha256: [u8; 32],
}

/// The metadata of a transfer as a value.
#[verifier::ext_equal]
pub struct MetadataView {
    pub transfer_id: Seq<u8>,
    pub file_name: Seq<char>,
    pub file_size: u64,
    pub resume_offset: u64,
    pub sha256: Seq<u8>,
}

impl View for FileTransferMetadata {
    type V = MetadataView;

    open spec fn view(&self) -> MetadataView {
        MetadataView {
            transfer_id: self.transfer_id@,
            file_name: self.file_name@,
            file_size: self.file_size,
            resume_offset: self.resume_offset,
            sha256: self.sha256@,
        }
    }
}

#[derive(Clone, Debug, Eq, PartialEq)]
pub struct FileChunk {
    pub transfer_id: [u8; 16],
    pub offset: u64,
    pub data: Vec<u8>,
}

/// A piece of a file as a value.
#[verifier::ext_equal]
pub struct ChunkView {
    pub transfer_id: Seq<u8>,
    pub offset: u64,
    pub data: Seq<u8>,
}

impl View for FileChunk {
    type V = ChunkView;

    open spec fn view(&self) -> ChunkView {
        ChunkView { transfer_id: self.transfer_id@, offset: self.offset, data: self.data@ }
    }
}

#[derive(Clone, Copy, Debug, Eq, PartialEq, Structural)]
pub enum FileCancelReason {
    User,
    PermissionDenied,
    InvalidData,
    IntegrityFailure,
    SessionClosed,
}

impl FileCancelReason {
    /// The number that stands for the reason.
    pub open spec fn code_spec(self) -> u16 {
        match self {
            FileCancelReason::User => 1,
            FileCancelReason::PermissionDenied => 2,
            FileCancelReason::InvalidData => 3,
            FileCancelReason::IntegrityFailure => 4,
            FileCancelReason::SessionClosed => 5,
        }
    }

    /// The number that stands for the reason.
    #[verifier::when_used_as_spec(code_spec)]
    pub fn code(self) -> (code: u16)
        ensures
            code == self.code_spec(),
    {
        match self {
            FileCancelReason::User => 1,
            FileCancelReason::PermissionDenied => 2,
            FileCancelReason::InvalidData => 3,
            FileCancelReason::IntegrityFailure => 4,
            FileCancelReason::SessionClosed => 5,
        }
    }
}

/// The reason that a number stands for.
pub open spec fn cancel_reason_of(value: u16) -> Result<FileCancelReason, FileTransferError> {
    match value {
        1 => Ok(FileCancelReason::User),
        2 => Ok(FileCancelReason::PermissionDenied),
        3 => Ok(FileCancelReason::InvalidData),
        4 => Ok(FileCancelReason::IntegrityFailure),
        5 => Ok(FileCancelReason::SessionClosed),
        _ => Err(FileTransferError::UnknownCancelReason(value)),
    }
}

impl vstd::std_specs::convert::TryFromSpecImpl<u16> for FileCancelReason {
    open spec fn obeys_try_from_spec() -> bool {
        true
    }

    open spec fn try_from_spec(value: u16) -> Result<Self, FileTransferError> {
        cancel_reason_of(value)
    }
}

impl TryFrom<u16> for FileCancelReason {
    type Error = FileTransferError;

    fn try_from(value: u16) -> (result: Result<Self, FileTransferError>) {
        match value {
            1 => Ok(FileCancelReason::User),
            2 => Ok(FileCancelReason::PermissionDenied),
            3 => Ok(FileCancelReason::InvalidData),
            4 => Ok(FileCancelReason::IntegrityFailure),
            5 => Ok(FileCancelReason::SessionClosed),
            _ => Err(FileTransferError::UnknownCancelReason(value)),
        }
    }
}

#[derive(Clone, Copy, Debug, Eq, PartialEq, Structural)]
pub struct FileTransferProgress {
    pub completed_bytes: u64,
    pub total_bytes: u64,
}

/// Where an interrupted transfer goes on: how many bytes are there, and their hash so far.
pub struct FileResumeState {
    pub offset: u64,
    pub hasher: sha2::Sha256,
}

#[derive(Clone, Copy, Debug, Eq, PartialEq, Structural)]
pub enum FileTransferError {
    PermissionDenied,
    ZeroTransferId,
    InvalidFileName,
    FileTooLarge(u64),
    InvalidResumeOffset { offset: u64, size: u64 },
    MissingHash,
    MetadataTruncated,
    InvalidReservedField,
    InvalidNameLength,
    InvalidUtf8,
    ChunkTruncated,
    InvalidChunkSize(usize),
    TransferIdMismatch,
    UnexpectedOffset { expected: u64, received: u64 },
    ChunkExceedsFileSize,
    Incomplete,
    HashMismatch,
    Cancelled,
    InvalidResumeState,
    UnknownCancelReason(u16),
    InvalidRateLimit,
}

/// Whether a character may stand in a file name: no separator, no drive letter's colon, and
/// no control character.
pub open spec fn is_name_char(character: char) -> bool {
    character != '/' && character != '\\' && character != ':' && !text::is_control(character)
}

/// Whether a text is a name of a file in one directory, on every system.
pub open spec fn is_file_name(name: Seq<char>) -> bool {
    &&& 0 < vstd::utf8::encode_utf8(name).len() <= MAX_FILE_NAME_BYTES
    &&& name != "."@
    &&& name != ".."@
    &&& forall|index: int| 0 <= index < name.len() ==> is_name_char(#[trigger] name[index])
}

/// Checks that a text is a safe name of a file.
pub fn validate_file_name(file_name: &str) -> (result: Result<(), FileTransferError>)
    ensures
        result == if is_file_name(file_name@) {
            Ok::<_, FileTransferError>(())
        } else {
            Err::<(), _>(FileTransferError::InvalidFileName)
        },
{
    let length: usize = file_name.as_bytes().len();
    if length == 0 || length > MAX_FILE_NAME_BYTES || text::same_text(file_name, ".")
        || text::same_text(file_name, "..") {
        return Err(FileTransferError::InvalidFileName);
    }
    let count: usize = file_name.unicode_len();
    let mut index: usize = 0;
    while index < count
        invariant
            index <= count == file_name@.len(),
            forall|before: int| 0 <= before < index ==> is_name_char(#[trigger] file_name@[before]),
        decreases count - index,
    {
        let character = file_name.get_char(index);
        if character == '/' || character == '\\' || character == ':' || text::is_control_char(
            character,
        ) {
            assert(!is_name_char(file_name@[index as int]));
            return Err(FileTransferError::InvalidFileName);
        }
        index = index + 1;
    }
    Ok(())
}

/// The first rule that metadata break, if any.
pub open spec fn metadata_error(metadata: MetadataView, max_file_bytes: u64) -> Option<
    FileTransferError,
> {
    if wire::all_zero(metadata.transfer_id) {
        Some(FileTransferError::ZeroTransferId)
    } else if !is_file_name(metadata.file_name) {
        Some(FileTransferError::InvalidFileName)
    } else if metadata.file_size > max_file_bytes {
        Some(FileTransferError::FileTooLarge(metadata.file_size))
    } else if metadata.resume_offset > metadata.file_size {
        Some(
            FileTransferError::InvalidResumeOffset {
                offset: metadata.resume_offset,
                size: metadata.file_size,
            },
        )
    } else if wire::all_zero(metadata.sha256) {
        Some(FileTransferError::MissingHash)
    } else {
        None
    }
}

fn validate_transfer_id(transfer_id: &[u8; 16]) -> (result: Result<(), FileTransferError>)
    ensures
        result == if wire::all_zero(transfer_id@) {
            Err::<(), _>(FileTransferError::ZeroTransferId)
        } else {
            Ok::<_, FileTransferError>(())
        },
{
    if wire::is_all_zero(transfer_id) {
        return Err(FileTransferError::ZeroTransferId);
    }
    Ok(())
}

fn validate_metadata(metadata: &FileTransferMetadata, max_file_bytes: u64) -> (result: Result<
    (),
    FileTransferError,
>)
    ensures
        match metadata_error(metadata@, max_file_bytes) {
            Some(error) => result == Err::<(), _>(error),
            None => result == Ok::<_, FileTransferError>(()),
        },
{
    validate_transfer_id(&metadata.transfer_id)?;
    validate_file_name(metadata.file_name.as_str())?;
    if metadata.file_size > max_file_bytes {
        return Err(FileTransferError::FileTooLarge(metadata.file_size));
    }
    if metadata.resume_offset > metadata.file_size {
        return Err(
            FileTransferError::InvalidResumeOffset {
                offset: metadata.resume_offset,
                size: metadata.file_size,
            },
        );
    }
    if wire::is_all_zero(&metadata.sha256) {
        return Err(FileTransferError::MissingHash);
    }
    Ok(())
}

/// The sixty-eight bytes before a file name of the given length.
pub open spec fn metadata_header(metadata: MetadataView, name_length: u16) -> Seq<u8> {
    metadata.transfer_id + wire::be64(metadata.file_size) + wire::be64(metadata.resume_offset)
        + metadata.sha256 + wire::be16(name_length) + wire::be16(0)
}

/// The payload of metadata.
pub open spec fn metadata_bytes(metadata: MetadataView) -> Seq<u8> {
    let name = vstd::utf8::encode_utf8(metadata.file_name);
    metadata_header(metadata, name.len() as u16) + name
}

/// The metadata in a payload, or the first reason why there are none.
pub open spec fn parse_metadata(payload: Seq<u8>, max_file_bytes: u64) -> Result<
    MetadataView,
    FileTransferError,
> {
    let name = payload.subrange(FILE_METADATA_HEADER_LEN as int, payload.len() as int);
    let name_len = wire::u16_at(payload, 64);
    let metadata = MetadataView {
        transfer_id: payload.subrange(0, 16),
        file_name: vstd::utf8::decode_utf8(name),
        file_size: wire::u64_at(payload, 16),
        resume_offset: wire::u64_at(payload, 24),
        sha256: payload.subrange(32, 64),
    };
    if payload.len() < FILE_METADATA_HEADER_LEN {
        Err(FileTransferError::MetadataTruncated)
    } else if wire::u16_at(payload, 66) != 0 {
        Err(FileTransferError::InvalidReservedField)
    } else if name_len == 0 || name_len > MAX_FILE_NAME_BYTES || payload.len()
        != FILE_METADATA_HEADER_LEN + name_len {
        Err(FileTransferError::InvalidNameLength)
    } else if !vstd::utf8::valid_utf8(name) {
        Err(FileTransferError::InvalidUtf8)
    } else {
        match metadata_error(metadata, max_file_bytes) {
            Some(error) => Err(error),
            None => Ok(metadata),
        }
    }
}

/// The payload of metadata, if they are valid.
pub fn encode_file_metadata(metadata: &FileTransferMetadata, max_file_bytes: u64) -> (result:
    Result<Vec<u8>, FileTransferError>)
    ensures
        match metadata_error(metadata@, max_file_bytes) {
            Some(error) => result == Err::<Vec<u8>, _>(error),
            None => result matches Ok(payload) && payload@ == metadata_bytes(metadata@),
        },
{
    validate_metadata(metadata, max_file_bytes)?;
    let name = metadata.file_name.as_str().as_bytes();
    let mut payload: Vec<u8> = Vec::new();
    wire::put_bytes(&mut payload, &metadata.transfer_id);
    wire::put_u64(&mut payload, metadata.file_size);
    wire::put_u64(&mut payload, metadata.resume_offset);
    wire::put_bytes(&mut payload, &metadata.sha256);
    wire::put_u16(&mut payload, name.len() as u16);
    wire::put_u16(&mut payload, 0);
    assert(payload@ =~= metadata_header(metadata@, name@.len() as u16));
    wire::put_bytes(&mut payload, name);
    Ok(payload)
}

/// The metadata in a payload.
pub fn decode_file_metadata(payload: &[u8], max_file_bytes: u64) -> (result: Result<
    FileTransferMetadata,
    FileTransferError,
>)
    ensures
        match parse_metadata(payload@, max_file_bytes) {
            Ok(view) => result matches Ok(metadata) && metadata@ == view,
            Err(error) => result == Err::<FileTransferMetadata, _>(error),
        },
{
    if payload.len() < FILE_METADATA_HEADER_LEN {
        return Err(FileTransferError::MetadataTruncated);
    }
    if wire::read_u16(payload, 66) != 0 {
        return Err(FileTransferError::InvalidReservedField);
    }
    let name_len: usize = wire::read_u16(payload, 64) as usize;
    if name_len == 0 || name_len > MAX_FILE_NAME_BYTES || payload.len() != FILE_METADATA_HEADER_LEN
        + name_len {
        return Err(FileTransferError::InvalidNameLength);
    }
    let file_name = match outside::text_from_utf8(
        wire::copy_range(payload, FILE_METADATA_HEADER_LEN, payload.len()),
    ) {
        Some(file_name) => file_name,
        None => return Err(FileTransferError::InvalidUtf8),
    };
    let metadata = FileTransferMetadata {
        transfer_id: wire::read_array(payload, 0),
        file_name,
        file_size: wire::read_u64(payload, 16),
        resume_offset: wire::read_u64(payload, 24),
        sha256: wire::read_array(payload, 32),
    };
    validate_metadata(&metadata, max_file_bytes)?;
    Ok(metadata)
}

/// The twenty-eight bytes before the data of a piece.
pub open spec fn chunk_header(transfer_id: Seq<u8>, offset: u64, length: u32) -> Seq<u8> {
    transfer_id + wire::be64(offset) + wire::be32(length)
}

/// The payload of a piece.
pub open spec fn chunk_bytes(chunk: ChunkView) -> Seq<u8> {
    chunk_header(chunk.transfer_id, chunk.offset, chunk.data.len() as u32) + chunk.data
}

/// The first rule that a piece breaks, if any.
pub open spec fn chunk_error(chunk: ChunkView) -> Option<FileTransferError> {
    if wire::all_zero(chunk.transfer_id) {
        Some(FileTransferError::ZeroTransferId)
    } else if chunk.data.len() == 0 || chunk.data.len() > MAX_FILE_CHUNK_BYTES {
        Some(FileTransferError::InvalidChunkSize(chunk.data.len() as usize))
    } else {
        None
    }
}

/// The piece in a payload, or the first reason why there is none.
pub open spec fn parse_chunk(payload: Seq<u8>) -> Result<ChunkView, FileTransferError> {
    let declared_len = wire::u32_at(payload, 24);
    let data = payload.subrange(FILE_CHUNK_HEADER_LEN as int, payload.len() as int);
    if payload.len() < FILE_CHUNK_HEADER_LEN {
        Err(FileTransferError::ChunkTruncated)
    } else if declared_len == 0 || declared_len > MAX_FILE_CHUNK_BYTES || data.len()
        != declared_len {
        Err(FileTransferError::InvalidChunkSize(declared_len as usize))
    } else if wire::all_zero(payload.subrange(0, 16)) {
        Err(FileTransferError::ZeroTransferId)
    } else {
        Ok(
            ChunkView {
                transfer_id: payload.subrange(0, 16),
                offset: wire::u64_at(payload, 16),
                data,
            },
        )
    }
}

/// The payload of a piece, if it is valid.
pub fn encode_file_chunk(chunk: &FileChunk) -> (result: Result<Vec<u8>, FileTransferError>)
    ensures
        match chunk_error(chunk@) {
            Some(error) => result == Err::<Vec<u8>, _>(error),
            None => result matches Ok(payload) && payload@ == chunk_bytes(chunk@),
        },
{
    validate_transfer_id(&chunk.transfer_id)?;
    if chunk.data.len() == 0 || chunk.data.len() > MAX_FILE_CHUNK_BYTES {
        return Err(FileTransferError::InvalidChunkSize(chunk.data.len()));
    }
    let mut payload: Vec<u8> = Vec::with_capacity(FILE_CHUNK_HEADER_LEN + chunk.data.len());
    wire::put_bytes(&mut payload, &chunk.transfer_id);
    wire::put_u64(&mut payload, chunk.offset);
    wire::put_u32(&mut payload, chunk.data.len() as u32);
    assert(payload@ =~= chunk_header(chunk.transfer_id@, chunk.offset, chunk.data@.len() as u32));
    wire::put_bytes(&mut payload, &chunk.data);
    Ok(payload)
}

/// The piece in a payload.
pub fn decode_file_chunk(payload: &[u8]) -> (result: Result<FileChunk, FileTransferError>)
    ensures
        match parse_chunk(payload@) {
            Ok(view) => result matches Ok(chunk) && chunk@ == view,
            Err(error) => result == Err::<FileChunk, _>(error),
        },
{
    if payload.len() < FILE_CHUNK_HEADER_LEN {
        return Err(FileTransferError::ChunkTruncated);
    }
    let declared_len: usize = wire::read_u32(payload, 24) as usize;
    if declared_len == 0 || declared_len > MAX_FILE_CHUNK_BYTES || payload.len()
        - FILE_CHUNK_HEADER_LEN != declared_len {
        return Err(FileTransferError::InvalidChunkSize(declared_len));
    }
    let transfer_id: [u8; 16] = wire::read_array(payload, 0);
    validate_transfer_id(&transfer_id)?;
    Ok(
        FileChunk {
            transfer_id,
            offset: wire::read_u64(payload, 16),
            data: wire::copy_range(payload, FILE_CHUNK_HEADER_LEN, payload.len()),
        },
    )
}

/// The payload that cancels a transfer.
pub open spec fn cancel_bytes(transfer_id: Seq<u8>, reason: FileCancelReason) -> Seq<u8> {
    transfer_id + wire::be16(reason.code()) + wire::be16(0)
}

/// The transfer and the reason in a payload that cancels, or the first reason why it does not.
pub open spec fn parse_cancel(payload: Seq<u8>) -> Result<
    (Seq<u8>, FileCancelReason),
    FileTransferError,
> {
    if payload.len() != FILE_CANCEL_PAYLOAD_LEN {
        Err(FileTransferError::ChunkTruncated)
    } else if wire::u16_at(payload, 18) != 0 {
        Err(FileTransferError::InvalidReservedField)
    } else if wire::all_zero(payload.subrange(0, 16)) {
        Err(FileTransferError::ZeroTransferId)
    } else {
        match cancel_reason_of(wire::u16_at(payload, 16)) {
            Ok(reason) => Ok((payload.subrange(0, 16), reason)),
            Err(error) => Err(error),
        }
    }
}

/// The payload that cancels a transfer.
pub fn encode_file_cancel(transfer_id: [u8; 16], reason: FileCancelReason) -> (result: Result<
    [u8; 20],
    FileTransferError,
>)
    ensures
        if wire::all_zero(transfer_id@) {
            result == Err::<[u8; 20], _>(FileTransferError::ZeroTransferId)
        } else {
            result matches Ok(payload) && payload@ == cancel_bytes(transfer_id@, reason)
        },
{
    validate_transfer_id(&transfer_id)?;
    let mut bytes: Vec<u8> = Vec::with_capacity(FILE_CANCEL_PAYLOAD_LEN);
    wire::put_bytes(&mut bytes, &transfer_id);
    wire::put_u16(&mut bytes, reason.code());
    wire::put_u16(&mut bytes, 0);
    assert(bytes@ =~= cancel_bytes(transfer_id@, reason));
    let payload: [u8; 20] = wire::read_array(&bytes, 0);
    assert(payload@ =~= bytes@);
    Ok(payload)
}

/// The transfer and the reason in a payload that cancels.
pub fn decode_file_cancel(payload: &[u8]) -> (result: Result<
    ([u8; 16], FileCancelReason),
    FileTransferError,
>)
    ensures
        match parse_cancel(payload@) {
            Ok((transfer_id, reason)) => result matches Ok((id, given)) && id@ == transfer_id
                && given == reason,
            Err(error) => result == Err::<([u8; 16], FileCancelReason), _>(error),
        },
{
    if payload.len() != FILE_CANCEL_PAYLOAD_LEN {
        return Err(FileTransferError::ChunkTruncated);
    }
    if wire::read_u16(payload, 18) != 0 {
        return Err(FileTransferError::InvalidReservedField);
    }
    let transfer_id: [u8; 16] = wire::read_array(payload, 0);
    validate_transfer_id(&transfer_id)?;
    let reason = FileCancelReason::try_from(wire::read_u16(payload, 16))?;
    Ok((transfer_id, reason))
}

/// Receives a file in order and checks its hash at the end.
pub struct FileTransferReceiver {
    metadata: FileTransferMetadata,
    expected_offset: u64,
    hasher: sha2::Sha256,
    cancelled: bool,
}

/// What a receiver holds, with all bytes that were hashed so far.
#[verifier::ext_equal]
pub struct ReceptionView {
    pub metadata: MetadataView,
    pub expected_offset: u64,
    pub hashed: Seq<u8>,
    pub cancelled: bool,
}

impl View for FileTransferReceiver {
    type V = ReceptionView;

    closed spec fn view(&self) -> ReceptionView {
        ReceptionView {
            metadata: self.metadata@,
            expected_offset: self.expected_offset,
            hashed: outside::hashed_bytes(self.hasher),
            cancelled: self.cancelled,
        }
    }
}

/// Why a transfer does not start, if it does not. Of the state to resume from only the
/// offset counts.
pub open spec fn starting_error(
    metadata: MetadataView,
    max_file_bytes: u64,
    user_permitted: bool,
    resume_offset: Option<u64>,
) -> Option<FileTransferError> {
    if !user_permitted {
        Some(FileTransferError::PermissionDenied)
    } else if metadata_error(metadata, max_file_bytes) is Some {
        metadata_error(metadata, max_file_bytes)
    } else if metadata.resume_offset == 0 && resume_offset is Some {
        Some(FileTransferError::InvalidResumeState)
    } else if metadata.resume_offset != 0 && resume_offset != Some(metadata.resume_offset) {
        Some(FileTransferError::InvalidResumeState)
    } else {
        None
    }
}

impl ReceptionView {
    /// Why a piece is not taken, if it is not.
    pub open spec fn chunk_error(self, chunk: ChunkView) -> Option<FileTransferError> {
        if self.cancelled {
            Some(FileTransferError::Cancelled)
        } else if chunk.transfer_id != self.metadata.transfer_id {
            Some(FileTransferError::TransferIdMismatch)
        } else if chunk.offset != self.expected_offset {
            Some(
                FileTransferError::UnexpectedOffset {
                    expected: self.expected_offset,
                    received: chunk.offset,
                },
            )
        } else if chunk.data.len() == 0 || chunk.data.len() > MAX_FILE_CHUNK_BYTES {
            Some(FileTransferError::InvalidChunkSize(chunk.data.len() as usize))
        } else if self.expected_offset + chunk.data.len() > self.metadata.file_size {
            Some(FileTransferError::ChunkExceedsFileSize)
        } else {
            None
        }
    }

    /// The receiver after a piece that it took.
    pub open spec fn after(self, chunk: ChunkView) -> ReceptionView {
        ReceptionView {
            expected_offset: (self.expected_offset + chunk.data.len()) as u64,
            hashed: self.hashed + chunk.data,
            ..self
        }
    }

    pub open spec fn progress(self) -> FileTransferProgress {
        FileTransferProgress {
            completed_bytes: self.expected_offset,
            total_bytes: self.metadata.file_size,
        }
    }

    /// Why the file is not accepted at the end, if it is not.
    pub open spec fn finishing_error(self) -> Option<FileTransferError> {
        if self.cancelled {
            Some(FileTransferError::Cancelled)
        } else if self.expected_offset != self.metadata.file_size {
            Some(FileTransferError::Incomplete)
        } else if outside::sha256(self.hashed) != self.metadata.sha256 {
            Some(FileTransferError::HashMismatch)
        } else {
            None
        }
    }
}

impl FileTransferReceiver {
    /// Starts to receive a file, if the user permits it. A transfer that goes on needs the
    /// state of what is there already.
    pub fn start(
        metadata: FileTransferMetadata,
        max_file_bytes: u64,
        user_permitted: bool,
        resume_state: Option<FileResumeState>,
    ) -> (result: Result<FileTransferReceiver, FileTransferError>)
        ensures
            match starting_error(
                metadata@,
                max_file_bytes,
                user_permitted,
                match resume_state {
                    Some(state) => Some(state.offset),
                    None => None,
                },
            ) {
                Some(error) => result == Err::<FileTransferReceiver, _>(error),
                None => result matches Ok(receiver) && receiver@ == (ReceptionView {
                    metadata: metadata@,
                    expected_offset: metadata.resume_offset,
                    hashed: match resume_state {
                        Some(state) => outside::hashed_bytes(state.hasher),
                        None => Seq::empty(),
                    },
                    cancelled: false,
                }),
            },
    {
        if !user_permitted {
            return Err(FileTransferError::PermissionDenied);
        }
        validate_metadata(&metadata, max_file_bytes)?;
        let hasher = if metadata.resume_offset == 0 {
            if resume_state.is_some() {
                return Err(FileTransferError::InvalidResumeState);
            }
            outside::start_hash()
        } else {
            match resume_state {
                Some(state) => {
                    if state.offset != metadata.resume_offset {
                        return Err(FileTransferError::InvalidResumeState);
                    }
                    state.hasher
                },
                None => return Err(FileTransferError::InvalidResumeState),
            }
        };
        Ok(
            FileTransferReceiver {
                expected_offset: metadata.resume_offset,
                metadata,
                hasher,
                cancelled: false,
            },
        )
    }

    /// Takes the next piece of the file.
    pub fn accept_chunk(&mut self, chunk: &FileChunk) -> (result: Result<
        FileTransferProgress,
        FileTransferError,
    >)
        ensures
            match old(self)@.chunk_error(chunk@) {
                Some(error) => result == Err::<FileTransferProgress, _>(error) && final(self)@
                    == old(self)@,
                None => result == Ok::<_, FileTransferError>(final(self)@.progress())
                    && final(self)@ == old(self)@.after(chunk@),
            },
    {
        if self.cancelled {
            return Err(FileTransferError::Cancelled);
        }
        if !wire::bytes_equal(&chunk.transfer_id, &self.metadata.transfer_id) {
            return Err(FileTransferError::TransferIdMismatch);
        }
        if chunk.offset != self.expected_offset {
            return Err(
                FileTransferError::UnexpectedOffset {
                    expected: self.expected_offset,
                    received: chunk.offset,
                },
            );
        }
        if chunk.data.len() == 0 || chunk.data.len() > MAX_FILE_CHUNK_BYTES {
            return Err(FileTransferError::InvalidChunkSize(chunk.data.len()));
        }
        let next_offset: u64 = match self.expected_offset.checked_add(chunk.data.len() as u64) {
            Some(next_offset) => next_offset,
            None => return Err(FileTransferError::ChunkExceedsFileSize),
        };
        if next_offset > self.metadata.file_size {
            return Err(FileTransferError::ChunkExceedsFileSize);
        }
        outside::extend_hash(&mut self.hasher, &chunk.data);
        self.expected_offset = next_offset;
        Ok(self.progress())
    }

    pub fn progress(&self) -> (progress: FileTransferProgress)
        ensures
            progress == self@.progress(),
    {
        FileTransferProgress {
            completed_bytes: self.expected_offset,
            total_bytes: self.metadata.file_size,
        }
    }

    pub fn cancel(&mut self)
        ensures
            final(self)@ == (ReceptionView { cancelled: true, ..old(self)@ }),
    {
        self.cancelled = true;
    }

    /// Accepts the file, if it is complete and has the hash that was announced.
    pub fn finish(self) -> (result: Result<FileTransferMetadata, FileTransferError>)
        ensures
            match self@.finishing_error() {
                Some(error) => result == Err::<FileTransferMetadata, _>(error),
                None => result matches Ok(metadata) && metadata@ == self@.metadata,
            },
    {
        if self.cancelled {
            return Err(FileTransferError::Cancelled);
        }
        if self.expected_offset != self.metadata.file_size {
            return Err(FileTransferError::Incomplete);
        }
        let digest = outside::finish_hash(self.hasher);
        if !wire::bytes_equal(&digest, &self.metadata.sha256) {
            return Err(FileTransferError::HashMismatch);
        }
        Ok(self.metadata)
    }
}

/// Where each field of a metadata header stands in its bytes.
#[verifier::rlimit(60)]
#[verifier::spinoff_prover]
proof fn lemma_metadata_fields(metadata: MetadataView, name_length: u16)
    requires
        metadata.transfer_id.len() == 16,
        metadata.sha256.len() == 32,
    ensures
        ({
            let head = metadata_header(metadata, name_length);
            &&& head.len() == FILE_METADATA_HEADER_LEN
            &&& head.subrange(0, 16) == metadata.transfer_id
            &&& wire::u64_at(head, 16) == metadata.file_size
            &&& wire::u64_at(head, 24) == metadata.resume_offset
            &&& head.subrange(32, 64) == metadata.sha256
            &&& wire::u16_at(head, 64) == name_length
            &&& wire::u16_at(head, 66) == 0
        }),
{
    let head = metadata_header(metadata, name_length);
    assert(head.subrange(0, 16) =~= metadata.transfer_id);
    assert(head.subrange(16, 24) =~= wire::be64(metadata.file_size));
    assert(head.subrange(24, 32) =~= wire::be64(metadata.resume_offset));
    assert(head.subrange(32, 64) =~= metadata.sha256);
    assert(head.subrange(64, 66) =~= wire::be16(name_length));
    assert(head.subrange(66, 68) =~= wire::be16(0));
    wire::lemma_u64_round_trip(head, 16, metadata.file_size);
    wire::lemma_u64_round_trip(head, 24, metadata.resume_offset);
    wire::lemma_u16_round_trip(head, 64, name_length);
    wire::lemma_u16_round_trip(head, 66, 0);
}

/// Valid metadata come back from their payload.
#[verifier::rlimit(60)]
#[verifier::spinoff_prover]
pub proof fn lemma_metadata_round_trip(metadata: MetadataView, max_file_bytes: u64)
    requires
        metadata.transfer_id.len() == 16,
        metadata.sha256.len() == 32,
        metadata_error(metadata, max_file_bytes) is None,
    ensures
        parse_metadata(metadata_bytes(metadata), max_file_bytes) == Ok::<_, FileTransferError>(
            metadata,
        ),
{
    let name = vstd::utf8::encode_utf8(metadata.file_name);
    let head = metadata_header(metadata, name.len() as u16);
    let payload = head + name;
    lemma_metadata_fields(metadata, name.len() as u16);
    wire::lemma_reads_of_prefix(head, name, 16);
    wire::lemma_reads_of_prefix(head, name, 24);
    wire::lemma_reads_of_prefix(head, name, 64);
    wire::lemma_reads_of_prefix(head, name, 66);
    assert(payload.subrange(0, 16) =~= head.subrange(0, 16));
    assert(payload.subrange(32, 64) =~= head.subrange(32, 64));
    assert(payload.subrange(FILE_METADATA_HEADER_LEN as int, payload.len() as int) =~= name);
    vstd::utf8::encode_utf8_valid_utf8(metadata.file_name);
    vstd::utf8::encode_utf8_decode_utf8(metadata.file_name);
}

#[verifier::spinoff_prover]
proof fn lemma_chunk_fields(transfer_id: Seq<u8>, offset: u64, length: u32)
    requires
        transfer_id.len() == 16,
    ensures
        ({
            let head = chunk_header(transfer_id, offset, length);
            &&& head.len() == FILE_CHUNK_HEADER_LEN
            &&& head.subrange(0, 16) == transfer_id
            &&& wire::u64_at(head, 16) == offset
            &&& wire::u32_at(head, 24) == length
        }),
{
    let head = chunk_header(transfer_id, offset, length);
    assert(head.subrange(0, 16) =~= transfer_id);
    assert(head.subrange(16, 24) =~= wire::be64(offset));
    assert(head.subrange(24, 28) =~= wire::be32(length));
    wire::lemma_u64_round_trip(head, 16, offset);
    wire::lemma_u32_round_trip(head, 24, length);
}

/// A valid piece comes back from its payload.
#[verifier::spinoff_prover]
pub proof fn lemma_chunk_round_trip(chunk: ChunkView)
    requires
        chunk.transfer_id.len() == 16,
        chunk_error(chunk) is None,
    ensures
        parse_chunk(chunk_bytes(chunk)) == Ok::<_, FileTransferError>(chunk),
{
    let head = chunk_header(chunk.transfer_id, chunk.offset, chunk.data.len() as u32);
    let payload = head + chunk.data;
    lemma_chunk_fields(chunk.transfer_id, chunk.offset, chunk.data.len() as u32);
    wire::lemma_reads_of_prefix(head, chunk.data, 16);
    wire::lemma_reads_of_prefix(head, chunk.data, 24);
    assert(payload.subrange(0, 16) =~= head.subrange(0, 16));
    assert(payload.subrange(FILE_CHUNK_HEADER_LEN as int, payload.len() as int) =~= chunk.data);
}

/// A cancellation comes back from its payload.
pub proof fn lemma_cancel_round_trip(transfer_id: Seq<u8>, reason: FileCancelReason)
    requires
        transfer_id.len() == 16,
        !wire::all_zero(transfer_id),
    ensures
        parse_cancel(cancel_bytes(transfer_id, reason)) == Ok::<_, FileTransferError>(
            (transfer_id, reason),
        ),
{
    let payload = cancel_bytes(transfer_id, reason);
    assert(payload.subrange(0, 16) =~= transfer_id);
    assert(payload.subrange(16, 18) =~= wire::be16(reason.code()));
    assert(payload.subrange(18, 20) =~= wire::be16(0));
    wire::lemma_u16_round_trip(payload, 16, reason.code());
    wire::lemma_u16_round_trip(payload, 18, 0);
}

/// A safe file name cannot lead out of a directory: it is neither the directory nor its
/// parent, and no part of it separates directories.
pub proof fn lemma_file_name_stays_in_its_directory(name: Seq<char>)
    requires
        is_file_name(name),
    ensures
        name.len() > 0,
        name != "."@,
        name != ".."@,
        !name.contains('/'),
        !name.contains('\\'),
        !name.contains(':'),
        !name.contains('\0'),
        forall|index: int| 0 <= index < name.len() ==> !text::is_control(#[trigger] name[index]),
{
    if name.len() == 0 {
        assert(name =~= Seq::<char>::empty());
    }
}

/// The receiver after pieces with the given data, one behind the other, none where one of
/// them is not taken.
pub open spec fn accepted_pieces(state: ReceptionView, pieces: Seq<Seq<u8>>) -> Option<
    ReceptionView,
>
    decreases pieces.len(),
{
    if pieces.len() == 0 {
        Some(state)
    } else {
        match accepted_pieces(state, pieces.drop_last()) {
            None => None,
            Some(before) => {
                let chunk = ChunkView {
                    transfer_id: state.metadata.transfer_id,
                    offset: before.expected_offset,
                    data: pieces.last(),
                };
                if before.chunk_error(chunk) is None {
                    Some(before.after(chunk))
                } else {
                    None
                }
            },
        }
    }
}

/// All pieces behind each other.
pub open spec fn joined_pieces(pieces: Seq<Seq<u8>>) -> Seq<u8>
    decreases pieces.len(),
{
    if pieces.len() == 0 {
        Seq::empty()
    } else {
        joined_pieces(pieces.drop_last()) + pieces.last()
    }
}

/// What was taken of a file, and that it was hashed in full.
proof fn lemma_pieces_are_hashed(state: ReceptionView, pieces: Seq<Seq<u8>>)
    requires
        !state.cancelled,
        state.expected_offset + joined_pieces(pieces).len() <= state.metadata.file_size,
        forall|index: int|
            0 <= index < pieces.len() ==> 0 < (#[trigger] pieces[index]).len()
                <= MAX_FILE_CHUNK_BYTES,
    ensures
        accepted_pieces(state, pieces) == Some(
            (ReceptionView {
                expected_offset: (state.expected_offset + joined_pieces(pieces).len()) as u64,
                hashed: state.hashed + joined_pieces(pieces),
                ..state
            }),
        ),
    decreases pieces.len(),
{
    if pieces.len() == 0 {
        assert(state.hashed + joined_pieces(pieces) =~= state.hashed);
    } else {
        let before = pieces.drop_last();
        assert forall|index: int| 0 <= index < before.len() implies 0 < (
        #[trigger] before[index]).len() <= MAX_FILE_CHUNK_BYTES by {
            assert(before[index] == pieces[index]);
        }
        lemma_pieces_are_hashed(state, before);
        assert(pieces[pieces.len() - 1] == pieces.last());
        assert(state.hashed + joined_pieces(before) + pieces.last() =~= state.hashed
            + joined_pieces(pieces));
    }
}

/// A file whose remaining bytes arrive in pieces and in order is accepted if and only if all
/// that was hashed of it, before and after, has the hash that was announced.
pub proof fn lemma_ordered_pieces_are_verified(state: ReceptionView, pieces: Seq<Seq<u8>>)
    requires
        !state.cancelled,
        state.expected_offset + joined_pieces(pieces).len() == state.metadata.file_size,
        forall|index: int|
            0 <= index < pieces.len() ==> 0 < (#[trigger] pieces[index]).len()
                <= MAX_FILE_CHUNK_BYTES,
    ensures
        accepted_pieces(state, pieces) is Some,
        accepted_pieces(state, pieces)->Some_0.finishing_error() == if outside::sha256(
            state.hashed + joined_pieces(pieces),
        ) == state.metadata.sha256 {
            None
        } else {
            Some(FileTransferError::HashMismatch)
        },
{
    lemma_pieces_are_hashed(state, pieces);
}

/// A text is a file name exactly where it has one to 255 bytes, is neither the directory nor its
/// parent, and holds no slash, backslash or colon and no control character.
pub proof fn lemma_good_file_names(name: Seq<char>)
    ensures
        is_file_name(name) <==> {
            &&& 1 <= vstd::utf8::encode_utf8(name).len() <= 255
            &&& name != seq!['.']
            &&& name != seq!['.', '.']
            &&& forall|place: int|
                0 <= place < name.len() ==> {
                    &&& (#[trigger] name[place]) != '/'
                    &&& name[place] != '\\'
                    &&& name[place] != ':'
                    &&& (name[place] as u32) >= 0x20
                    &&& !(0x7f <= (name[place] as u32) <= 0x9f)
                }
        },
{
    reveal_strlit(".");
    reveal_strlit("..");
    assert("."@ =~= seq!['.']);
    assert(".."@ =~= seq!['.', '.']);
    if is_file_name(name) {
        assert forall|place: int| 0 <= place < name.len() implies {
            &&& (#[trigger] name[place]) != '/'
            &&& name[place] != '\\'
            &&& name[place] != ':'
            &&& (name[place] as u32) >= 0x20
            &&& !(0x7f <= (name[place] as u32) <= 0x9f)
        } by {
            assert(is_name_char(name[place]));
        }
    }
}

/// Metadata are good exactly where they name a transfer and a file, the file is not too large,
/// goes on within itself, and has a hash; otherwise the error says what is wrong.
pub proof fn lemma_good_metadata(metadata: MetadataView, max_file_bytes: u64)
    ensures
        metadata_error(metadata, max_file_bytes) is None <==> !wire::all_zero(metadata.transfer_id)
            && is_file_name(metadata.file_name) && metadata.file_size <= max_file_bytes
            && metadata.resume_offset <= metadata.file_size && !wire::all_zero(metadata.sha256),
        metadata_error(metadata, max_file_bytes) matches Some(error) ==> match error {
            FileTransferError::ZeroTransferId => wire::all_zero(metadata.transfer_id),
            FileTransferError::InvalidFileName => !is_file_name(metadata.file_name),
            FileTransferError::FileTooLarge(size) => size == metadata.file_size && size
                > max_file_bytes,
            FileTransferError::InvalidResumeOffset { offset, size } => offset
                == metadata.resume_offset && size == metadata.file_size && offset > size,
            FileTransferError::MissingHash => wire::all_zero(metadata.sha256),
            _ => false,
        },
{
}

/// A transfer starts exactly where the user permits it, its metadata are good, and it goes on
/// from just the offset up to which the file is there already: from none where it begins anew.
pub proof fn lemma_permitted_transfers_start(
    metadata: MetadataView,
    max_file_bytes: u64,
    user_permitted: bool,
    resume_offset: Option<u64>,
)
    ensures
        starting_error(metadata, max_file_bytes, user_permitted, resume_offset) is None <==> {
            &&& user_permitted
            &&& metadata_error(metadata, max_file_bytes) is None
            &&& resume_offset is None ==> metadata.resume_offset == 0
            &&& resume_offset matches Some(offset) ==> offset == metadata.resume_offset && offset
                > 0
        },
        !user_permitted ==> starting_error(metadata, max_file_bytes, user_permitted, resume_offset)
            == Some(FileTransferError::PermissionDenied),
{
}

/// A piece is taken exactly where the transfer goes on, it belongs to it, begins where the last
/// one ended, has one byte to 256 KiB, and stays within the file. Then as many bytes more are
/// there, and they are hashed behind all before.
pub proof fn lemma_pieces_are_taken_in_order(state: ReceptionView, chunk: ChunkView)
    ensures
        state.chunk_error(chunk) is None <==> !state.cancelled && chunk.transfer_id
            == state.metadata.transfer_id && chunk.offset == state.expected_offset && 1
            <= chunk.data.len() <= 262_144 && state.expected_offset + chunk.data.len()
            <= state.metadata.file_size,
        state.chunk_error(chunk) is None ==> {
            let after = state.after(chunk);
            &&& after.expected_offset == state.expected_offset + chunk.data.len()
            &&& after.hashed == state.hashed + chunk.data
            &&& after.metadata == state.metadata
            &&& !after.cancelled
            &&& after.progress().completed_bytes == state.progress().completed_bytes
                + chunk.data.len()
            &&& after.progress().completed_bytes <= after.progress().total_bytes
            &&& after.progress().total_bytes == state.metadata.file_size
        },
        state.chunk_error(chunk) matches Some(error) ==> match error {
            FileTransferError::Cancelled => state.cancelled,
            FileTransferError::TransferIdMismatch => chunk.transfer_id
                != state.metadata.transfer_id,
            FileTransferError::UnexpectedOffset { expected, received } => expected
                == state.expected_offset && received == chunk.offset && expected != received,
            FileTransferError::InvalidChunkSize(size) => chunk.data.len() == 0 || chunk.data.len()
                > 262_144,
            FileTransferError::ChunkExceedsFileSize => state.expected_offset + chunk.data.len()
                > state.metadata.file_size,
            _ => false,
        },
{
}

/// A file is accepted at the end exactly where it was not cancelled, is there in full, and what
/// was hashed has the hash that was announced.
pub proof fn lemma_whole_files_are_accepted(state: ReceptionView)
    ensures
        state.finishing_error() is None <==> !state.cancelled && state.expected_offset
            == state.metadata.file_size && outside::sha256(state.hashed) == state.metadata.sha256,
        state.cancelled ==> state.finishing_error() == Some(FileTransferError::Cancelled),
        !state.cancelled && state.expected_offset != state.metadata.file_size
            ==> state.finishing_error() == Some(FileTransferError::Incomplete),
{
}

/// A piece can be sent exactly where it belongs to a transfer and has one byte to 256 KiB.
pub proof fn lemma_pieces_that_can_be_sent(chunk: ChunkView)
    ensures
        chunk_error(chunk) is None <==> !wire::all_zero(chunk.transfer_id) && 1 <= chunk.data.len()
            <= 262_144,
{
}

/// Where each part of metadata stands in its payload.
#[verifier::rlimit(60)]
#[verifier::spinoff_prover]
pub proof fn lemma_metadata_layout(metadata: MetadataView)
    requires
        metadata.transfer_id.len() == 16,
        metadata.sha256.len() == 32,
        vstd::utf8::encode_utf8(metadata.file_name).len() <= 0xffff,
    ensures
        ({
            let payload = metadata_bytes(metadata);
            let name = vstd::utf8::encode_utf8(metadata.file_name);
            &&& payload.len() == 68 + name.len()
            &&& payload.subrange(0, 16) == metadata.transfer_id
            &&& wire::u64_at(payload, 16) == metadata.file_size
            &&& wire::u64_at(payload, 24) == metadata.resume_offset
            &&& payload.subrange(32, 64) == metadata.sha256
            &&& wire::u16_at(payload, 64) == name.len()
            &&& wire::u16_at(payload, 66) == 0
            &&& payload.subrange(68, payload.len() as int) == name
        }),
{
    let name = vstd::utf8::encode_utf8(metadata.file_name);
    let head = metadata_header(metadata, name.len() as u16);
    let payload = head + name;
    lemma_metadata_fields(metadata, name.len() as u16);
    wire::lemma_reads_of_prefix(head, name, 16);
    wire::lemma_reads_of_prefix(head, name, 24);
    wire::lemma_reads_of_prefix(head, name, 64);
    wire::lemma_reads_of_prefix(head, name, 66);
    assert(payload.subrange(0, 16) =~= head.subrange(0, 16));
    assert(payload.subrange(32, 64) =~= head.subrange(32, 64));
    assert(payload.subrange(68, payload.len() as int) =~= name);
}

/// Where each part of a piece stands in its payload.
pub proof fn lemma_piece_layout(chunk: ChunkView)
    requires
        chunk.transfer_id.len() == 16,
        chunk.data.len() <= 0xffff_ffff,
    ensures
        ({
            let payload = chunk_bytes(chunk);
            &&& payload.len() == 28 + chunk.data.len()
            &&& payload.subrange(0, 16) == chunk.transfer_id
            &&& wire::u64_at(payload, 16) == chunk.offset
            &&& wire::u32_at(payload, 24) == chunk.data.len()
            &&& payload.subrange(28, payload.len() as int) == chunk.data
        }),
{
    let head = chunk_header(chunk.transfer_id, chunk.offset, chunk.data.len() as u32);
    let payload = head + chunk.data;
    lemma_chunk_fields(chunk.transfer_id, chunk.offset, chunk.data.len() as u32);
    wire::lemma_reads_of_prefix(head, chunk.data, 16);
    wire::lemma_reads_of_prefix(head, chunk.data, 24);
    assert(payload.subrange(0, 16) =~= head.subrange(0, 16));
    assert(payload.subrange(28, payload.len() as int) =~= chunk.data);
}

/// What is read of metadata, of a piece and of a cancellation, and when it can be read.
pub proof fn lemma_payloads_that_can_be_read(payload: Seq<u8>, max_file_bytes: u64)
    ensures
        parse_metadata(payload, max_file_bytes) matches Ok(metadata) ==> {
            &&& payload.len() == 68 + wire::u16_at(payload, 64)
            &&& 1 <= wire::u16_at(payload, 64) <= 255
            &&& wire::u16_at(payload, 66) == 0
            &&& metadata.transfer_id == payload.subrange(0, 16)
            &&& metadata.file_size == wire::u64_at(payload, 16)
            &&& metadata.resume_offset == wire::u64_at(payload, 24)
            &&& metadata.sha256 == payload.subrange(32, 64)
            &&& metadata_error(metadata, max_file_bytes) is None
        },
        parse_metadata(payload, max_file_bytes) matches Err(error) ==> match error {
            FileTransferError::MetadataTruncated => payload.len() < 68,
            FileTransferError::InvalidReservedField => wire::u16_at(payload, 66) != 0,
            FileTransferError::InvalidNameLength => payload.len() != 68 + wire::u16_at(payload, 64)
                || wire::u16_at(payload, 64) == 0 || wire::u16_at(payload, 64) > 255,
            FileTransferError::InvalidUtf8 => !vstd::utf8::valid_utf8(
                payload.subrange(68, payload.len() as int),
            ),
            FileTransferError::ZeroTransferId => wire::all_zero(payload.subrange(0, 16)),
            FileTransferError::FileTooLarge(size) => size == wire::u64_at(payload, 16) && size
                > max_file_bytes,
            FileTransferError::InvalidResumeOffset { offset, size } => offset == wire::u64_at(
                payload,
                24,
            ) && size == wire::u64_at(payload, 16) && offset > size,
            FileTransferError::MissingHash => wire::all_zero(payload.subrange(32, 64)),
            FileTransferError::InvalidFileName => true,
            _ => false,
        },
        parse_chunk(payload) is Ok <==> payload.len() >= 29 && wire::u32_at(payload, 24)
            == payload.len() - 28 && payload.len() - 28 <= 262_144 && !wire::all_zero(
            payload.subrange(0, 16),
        ),
        parse_chunk(payload) matches Ok(chunk) ==> chunk.transfer_id == payload.subrange(0, 16)
            && chunk.offset == wire::u64_at(payload, 16) && chunk.data == payload.subrange(
            28,
            payload.len() as int,
        ),
        parse_cancel(payload) is Ok <==> payload.len() == 20 && wire::u16_at(payload, 18) == 0
            && !wire::all_zero(payload.subrange(0, 16)) && 1 <= wire::u16_at(payload, 16) <= 5,
        parse_cancel(payload) matches Ok((transfer_id, reason)) ==> transfer_id == payload.subrange(
            0,
            16,
        ) && reason.code() == wire::u16_at(payload, 16),
{
}

/// The numbers of the reasons for a cancellation.
pub proof fn lemma_cancel_reasons()
    ensures
        cancel_reason_of(1) == Ok::<_, FileTransferError>(FileCancelReason::User),
        cancel_reason_of(2) == Ok::<_, FileTransferError>(FileCancelReason::PermissionDenied),
        cancel_reason_of(3) == Ok::<_, FileTransferError>(FileCancelReason::InvalidData),
        cancel_reason_of(4) == Ok::<_, FileTransferError>(FileCancelReason::IntegrityFailure),
        cancel_reason_of(5) == Ok::<_, FileTransferError>(FileCancelReason::SessionClosed),
{
}

} // verus!
