use rustadmin_transport::transport::file_transfer::{
    decode_file_chunk, decode_file_metadata, encode_file_chunk, encode_file_metadata,
    validate_file_name, FileChunk, FileResumeState, FileTransferError, FileTransferMetadata,
    FileTransferReceiver,
};
use sha2::{Digest, Sha256};

fn metadata(data: &[u8]) -> FileTransferMetadata {
    let digest = Sha256::digest(data);
    let mut sha256 = [0u8; 32];
    sha256.copy_from_slice(&digest);
    FileTransferMetadata {
        transfer_id: [1; 16],
        file_name: "report.txt".to_owned(),
        file_size: data.len() as u64,
        resume_offset: 0,
        sha256,
    }
}

#[test]
fn metadata_and_chunks_round_trip() {
    let metadata = metadata(b"hello");
    let encoded = encode_file_metadata(&metadata, 1024).unwrap();
    assert_eq!(decode_file_metadata(&encoded, 1024).unwrap(), metadata);
    let chunk = FileChunk {
        transfer_id: [1; 16],
        offset: 2,
        data: b"llo".to_vec(),
    };
    assert_eq!(
        decode_file_chunk(&encode_file_chunk(&chunk).unwrap()).unwrap(),
        chunk
    );
}

#[test]
fn unsafe_file_names_are_rejected() {
    for name in [
        "../secret",
        "folder/file",
        "folder\\file",
        "C:secret",
        ".",
        "",
    ] {
        assert_eq!(
            validate_file_name(name),
            Err(FileTransferError::InvalidFileName)
        );
    }
    assert!(validate_file_name("safe name.txt").is_ok());
}

#[test]
fn ordered_chunks_are_hash_verified() {
    let data = b"hello";
    let metadata = metadata(data);
    let mut receiver = FileTransferReceiver::start(metadata.clone(), 1024, true, None).unwrap();
    receiver
        .accept_chunk(&FileChunk {
            transfer_id: [1; 16],
            offset: 0,
            data: b"he".to_vec(),
        })
        .unwrap();
    assert_eq!(
        receiver
            .accept_chunk(&FileChunk {
                transfer_id: [1; 16],
                offset: 2,
                data: b"llo".to_vec(),
            })
            .unwrap()
            .completed_bytes,
        5
    );
    assert_eq!(receiver.finish().unwrap(), metadata);
}

#[test]
fn resume_requires_matching_hash_state() {
    let data = b"hello";
    let mut metadata = metadata(data);
    metadata.resume_offset = 2;
    assert!(matches!(
        FileTransferReceiver::start(metadata.clone(), 1024, true, None),
        Err(FileTransferError::InvalidResumeState)
    ));
    let mut hasher = Sha256::new();
    hasher.update(b"he");
    let mut receiver = FileTransferReceiver::start(
        metadata,
        1024,
        true,
        Some(FileResumeState { offset: 2, hasher }),
    )
    .unwrap();
    receiver
        .accept_chunk(&FileChunk {
            transfer_id: [1; 16],
            offset: 2,
            data: b"llo".to_vec(),
        })
        .unwrap();
    assert!(receiver.finish().is_ok());
}

#[test]
fn permission_order_and_hash_failures_are_enforced() {
    let metadata = metadata(b"hello");
    assert!(matches!(
        FileTransferReceiver::start(metadata.clone(), 1024, false, None),
        Err(FileTransferError::PermissionDenied)
    ));
    let mut receiver = FileTransferReceiver::start(metadata, 1024, true, None).unwrap();
    assert_eq!(
        receiver.accept_chunk(&FileChunk {
            transfer_id: [1; 16],
            offset: 1,
            data: b"bad".to_vec(),
        }),
        Err(FileTransferError::UnexpectedOffset {
            expected: 0,
            received: 1,
        })
    );
}
