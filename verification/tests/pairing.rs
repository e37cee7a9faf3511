use rustadmin_transport::transport::pairing::{
    MemoryTrustedPeerStore, PairingCandidate, PairingError, TrustedPeerStore,
};

fn candidate() -> PairingCandidate {
    PairingCandidate::new("peer-1".to_owned(), [7; 32], vec![1, 2, 3, 4]).unwrap()
}

#[test]
fn pairing_requires_exact_explicit_fingerprint_confirmation() {
    let candidate = candidate();
    let fingerprint = candidate.fingerprint();
    assert_eq!(fingerprint.len(), 95);
    assert!(candidate.clone().confirm("00:11", 1).is_err());
    let record = candidate
        .confirm(&fingerprint.to_ascii_lowercase(), 1)
        .unwrap();
    assert_eq!(record.peer_id, "peer-1");
    assert!(record.validate().is_ok());
}

#[test]
fn trust_store_refuses_silent_identity_replacement() {
    let candidate = candidate();
    let record = candidate
        .clone()
        .confirm(&candidate.fingerprint(), 1)
        .unwrap();
    let mut store = MemoryTrustedPeerStore::default();
    store.insert(record.clone()).unwrap();
    assert_eq!(store.load("peer-1").unwrap(), Some(record.clone()));
    assert!(matches!(
        store.insert(record),
        Err(PairingError::AlreadyPaired)
    ));
}

#[test]
fn corrupted_certificate_pin_is_rejected() {
    let candidate = candidate();
    let mut record = candidate
        .clone()
        .confirm(&candidate.fingerprint(), 1)
        .unwrap();
    record.certificate_pin[0] ^= 1;
    assert!(matches!(
        record.validate(),
        Err(PairingError::InvalidCertificate)
    ));
}
