//! Pairing: which peers are trusted, and how a user confirms one by its fingerprint.
use crate::outside;
use crate::text;
use crate::wire;
use vstd::prelude::*;

verus! {

pub const MAX_PEER_ID_BYTES: usize = 128;

pub const MAX_CERTIFICATE_BYTES: usize = 0x4000;

/// The longest encoded record of a peer, in bytes.
pub const MAX_RECORD_BYTES: usize = 0x1_0000;

/// How many records of peers are listed at most.
pub const MAX_LISTED_RECORDS: usize = 4_096;

#[derive(Clone, Debug, Eq, PartialEq)]
pub enum PairingError {
    InvalidPeerId,
    InvalidIdentityKey,
    InvalidCertificate,
    FingerprintMismatch,
    AlreadyPaired,
    InvalidRecord,
    /// What the storage says of it.
    Io(String),
}

/// A peer that asks to be trusted.
#[derive(Clone, Debug, Eq, PartialEq)]
pub struct PairingCandidate {
    pub peer_id: String,
    pub identity_key: [u8; 32],
    pub certificate_der: Vec<u8>,
    pub certificate_pin: [u8; 32],
}

/// A peer that is trusted.
#[derive(Clone, Debug, Eq, PartialEq)]
pub struct TrustedPeerRecord {
    pub peer_id: String,
    pub identity_key: [u8; 32],
    pub certificate_der: Vec<u8>,
    pub certificate_pin: [u8; 32],
    pub confirmed_at_unix_ms: u64,
}

/// A candidate as a value.
#[verifier::ext_equal]
pub struct CandidateView {
    pub peer_id: Seq<char>,
    pub identity_key: Seq<u8>,
    pub certificate_der: Seq<u8>,
    pub certificate_pin: Seq<u8>,
}

/// A record as a value.
#[verifier::ext_equal]
pub struct RecordView {
    pub peer_id: Seq<char>,
    pub identity_key: Seq<u8>,
    pub certificate_der: Seq<u8>,
    pub certificate_pin: Seq<u8>,
    pub confirmed_at_unix_ms: u64,
}

impl View for PairingCandidate {
    type V = CandidateView;

    open spec fn view(&self) -> CandidateView {
        CandidateView {
            peer_id: self.peer_id@,
            identity_key: self.identity_key@,
            certificate_der: self.certificate_der@,
            certificate_pin: self.certificate_pin@,
        }
    }
}

impl View for TrustedPeerRecord {
    type V = RecordView;

    open spec fn view(&self) -> RecordView {
        RecordView {
            peer_id: self.peer_id@,
            identity_key: self.identity_key@,
            certificate_der: self.certificate_der@,
            certificate_pin: self.certificate_pin@,
            confirmed_at_unix_ms: self.confirmed_at_unix_ms,
        }
    }
}

/// Whether a text can name a peer.
pub open spec fn is_peer_id(peer_id: Seq<char>) -> bool {
    &&& 0 < vstd::utf8::encode_utf8(peer_id).len() <= MAX_PEER_ID_BYTES
    &&& forall|index: int|
        0 <= index < peer_id.len() ==> !text::is_control(#[trigger] peer_id[index])
}

/// Checks that a text can name a peer.
pub fn validate_peer_id(peer_id: &str) -> (result: Result<(), PairingError>)
    ensures
        result == if is_peer_id(peer_id@) {
            Ok::<_, PairingError>(())
        } else {
            Err::<(), _>(PairingError::InvalidPeerId)
        },
{
    let length: usize = peer_id.as_bytes().len();
    if length == 0 || length > MAX_PEER_ID_BYTES {
        return Err(PairingError::InvalidPeerId);
    }
    let count: usize = peer_id.unicode_len();
    let mut index: usize = 0;
    while index < count
        invariant
            index <= count == peer_id@.len(),
            forall|before: int|
                0 <= before < index ==> !text::is_control(#[trigger] peer_id@[before]),
        decreases count - index,
    {
        if text::is_control_char(peer_id.get_char(index)) {
            assert(text::is_control(peer_id@[index as int]));
            return Err(PairingError::InvalidPeerId);
        }
        index = index + 1;
    }
    Ok(())
}

/// Why a peer cannot be a candidate, if it cannot.
pub open spec fn candidate_error(
    peer_id: Seq<char>,
    identity_key: Seq<u8>,
    certificate_der: Seq<u8>,
) -> Option<PairingError> {
    if !is_peer_id(peer_id) {
        Some(PairingError::InvalidPeerId)
    } else if wire::all_zero(identity_key) {
        Some(PairingError::InvalidIdentityKey)
    } else if certificate_der.len() == 0 || certificate_der.len() > MAX_CERTIFICATE_BYTES {
        Some(PairingError::InvalidCertificate)
    } else {
        None
    }
}

/// What the fingerprint of a peer is the digest of.
pub open spec fn fingerprint_source(identity_key: Seq<u8>, certificate_pin: Seq<u8>) -> Seq<u8> {
    vstd::utf8::encode_utf8("rustadmin-peer-pairing-v1"@) + identity_key + certificate_pin
}

impl CandidateView {
    /// The fingerprint by which a user recognises the peer.
    pub open spec fn fingerprint(self) -> Seq<char> {
        text::colon_text(
            outside::sha256(fingerprint_source(self.identity_key, self.certificate_pin)),
        )
    }

    /// The record of the peer once it is trusted.
    pub open spec fn confirmed(self, confirmed_at_unix_ms: u64) -> RecordView {
        RecordView {
            peer_id: self.peer_id,
            identity_key: self.identity_key,
            certificate_der: self.certificate_der,
            certificate_pin: self.certificate_pin,
            confirmed_at_unix_ms,
        }
    }
}

impl RecordView {
    /// Why the record is invalid, if it is.
    pub open spec fn error(self) -> Option<PairingError> {
        if candidate_error(self.peer_id, self.identity_key, self.certificate_der) is Some {
            candidate_error(self.peer_id, self.identity_key, self.certificate_der)
        } else if outside::sha256(self.certificate_der) != self.certificate_pin {
            Some(PairingError::InvalidCertificate)
        } else {
            None
        }
    }
}

impl PairingCandidate {
    /// A peer with the given key and certificate, whose digest is its pin.
    pub fn new(peer_id: String, identity_key: [u8; 32], certificate_der: Vec<u8>) -> (result: Result<
        PairingCandidate,
        PairingError,
    >)
        ensures
            match candidate_error(peer_id@, identity_key@, certificate_der@) {
                Some(error) => result == Err::<PairingCandidate, _>(error),
                None => result matches Ok(candidate) && candidate@ == (CandidateView {
                    peer_id: peer_id@,
                    identity_key: identity_key@,
                    certificate_der: certificate_der@,
                    certificate_pin: outside::sha256(certificate_der@),
                }),
            },
    {
        validate_peer_id(peer_id.as_str())?;
        if wire::is_all_zero(&identity_key) {
            return Err(PairingError::InvalidIdentityKey);
        }
        if certificate_der.len() == 0 || certificate_der.len() > MAX_CERTIFICATE_BYTES {
            return Err(PairingError::InvalidCertificate);
        }
        let certificate_pin = outside::sha256_of(&certificate_der);
        Ok(PairingCandidate { peer_id, identity_key, certificate_der, certificate_pin })
    }

    /// The fingerprint by which a user recognises the peer.
    pub fn fingerprint(&self) -> (fingerprint: String)
        ensures
            fingerprint@ == self@.fingerprint(),
            fingerprint@.len() == 95,
    {
        let mut hasher = outside::start_hash();
        outside::extend_hash(&mut hasher, "rustadmin-peer-pairing-v1".as_bytes());
        outside::extend_hash(&mut hasher, &self.identity_key);
        outside::extend_hash(&mut hasher, &self.certificate_pin);
        assert(outside::hashed_bytes(hasher) =~= fingerprint_source(
            self.identity_key@,
            self.certificate_pin@,
        ));
        let digest = outside::finish_hash(hasher);
        proof {
            text::lemma_colon_text_length(digest@);
        }
        text::hex_with_colons(&digest)
    }

    /// The record of the peer, if the user confirms its fingerprint, in upper or lower case.
    pub fn confirm(self, confirmed_fingerprint: &str, confirmed_at_unix_ms: u64) -> (result: Result<
        TrustedPeerRecord,
        PairingError,
    >)
        ensures
            if text::same_but_for_case(
                vstd::utf8::encode_utf8(self@.fingerprint()),
                vstd::utf8::encode_utf8(confirmed_fingerprint@),
            ) {
                result matches Ok(record) && record@ == self@.confirmed(confirmed_at_unix_ms)
            } else {
                result == Err::<TrustedPeerRecord, _>(PairingError::FingerprintMismatch)
            },
    {
        if !text::constant_time_ascii_case_equal(
            self.fingerprint().as_str(),
            confirmed_fingerprint,
        ) {
            return Err(PairingError::FingerprintMismatch);
        }
        Ok(
            TrustedPeerRecord {
                peer_id: self.peer_id,
                identity_key: self.identity_key,
                certificate_der: self.certificate_der,
                certificate_pin: self.certificate_pin,
                confirmed_at_unix_ms,
            },
        )
    }
}

impl TrustedPeerRecord {
    /// Checks that the record can be trusted: its fields are valid, and the pin is the
    /// certificate's.
    pub fn validate(&self) -> (result: Result<(), PairingError>)
        ensures
            match self@.error() {
                Some(error) => result == Err::<(), _>(error),
                None => result == Ok::<_, PairingError>(()),
            },
    {
        validate_peer_id(self.peer_id.as_str())?;
        if wire::is_all_zero(&self.identity_key) {
            return Err(PairingError::InvalidIdentityKey);
        }
        if self.certificate_der.len() == 0 || self.certificate_der.len() > MAX_CERTIFICATE_BYTES {
            return Err(PairingError::InvalidCertificate);
        }
        if !wire::bytes_equal(&outside::sha256_of(&self.certificate_der), &self.certificate_pin) {
            return Err(PairingError::InvalidCertificate);
        }
        Ok(())
    }

    /// Another record with the same contents.
    pub fn duplicate(&self) -> (copy: TrustedPeerRecord)
        ensures
            copy@ == self@,
    {
        TrustedPeerRecord {
            peer_id: self.peer_id.clone(),
            identity_key: self.identity_key,
            certificate_der: wire::copy_range(&self.certificate_der, 0, self.certificate_der.len()),
            certificate_pin: self.certificate_pin,
            confirmed_at_unix_ms: self.confirmed_at_unix_ms,
        }
    }
}

/// Keeps the records of trusted peers.
pub trait TrustedPeerStore {
    fn load(&self, peer_id: &str) -> Result<Option<TrustedPeerRecord>, PairingError>;

    fn insert(&mut self, record: TrustedPeerRecord) -> Result<(), PairingError>;
}

/// Keeps the records of trusted peers in memory.
pub struct MemoryTrustedPeerStore {
    records: Vec<TrustedPeerRecord>,
}

/// Whether the record at an index is that of a peer.
spec fn is_record_of(records: Seq<TrustedPeerRecord>, peer_id: Seq<char>, index: int) -> bool {
    0 <= index < records.len() && records[index].peer_id@ == peer_id
}

/// Whether no peer has two records.
spec fn no_peer_twice(records: Seq<TrustedPeerRecord>) -> bool {
    forall|first: int, second: int, peer_id: Seq<char>|
        #[trigger] is_record_of(records, peer_id, first) && #[trigger] is_record_of(
            records,
            peer_id,
            second,
        ) ==> first == second
}

/// The records by the peers that they are of.
spec fn records_by_peer(records: Seq<TrustedPeerRecord>) -> Map<Seq<char>, RecordView> {
    Map::new(
        |peer_id: Seq<char>| exists|index: int| #[trigger] is_record_of(records, peer_id, index),
        |peer_id: Seq<char>|
            records[choose|index: int| #[trigger] is_record_of(records, peer_id, index)]@,
    )
}

proof fn lemma_record_of_peer(records: Seq<TrustedPeerRecord>, peer_id: Seq<char>, index: int)
    requires
        no_peer_twice(records),
        is_record_of(records, peer_id, index),
    ensures
        records_by_peer(records).contains_key(peer_id),
        records_by_peer(records)[peer_id] == records[index]@,
{
    let chosen = choose|at: int| #[trigger] is_record_of(records, peer_id, at);
    assert(is_record_of(records, peer_id, chosen));
}

/// What inserting a record does and returns: a peer that is trusted stays as it is.
pub open spec fn inserted(records: Map<Seq<char>, RecordView>, record: RecordView) -> (
    Map<Seq<char>, RecordView>,
    Result<(), PairingError>,
) {
    if record.error() is Some {
        (records, Err(record.error()->Some_0))
    } else if records.contains_key(record.peer_id) {
        (records, Err(PairingError::AlreadyPaired))
    } else {
        (records.insert(record.peer_id, record), Ok(()))
    }
}

impl View for MemoryTrustedPeerStore {
    type V = Map<Seq<char>, RecordView>;

    closed spec fn view(&self) -> Map<Seq<char>, RecordView> {
        records_by_peer(self.records@)
    }
}

impl MemoryTrustedPeerStore {
    #[verifier::type_invariant]
    spec fn has_no_peer_twice(self) -> bool {
        no_peer_twice(self.records@)
    }

    /// Where the record of a peer stands, if there is one.
    fn find(&self, peer_id: &str) -> (found: Option<usize>)
        ensures
            match found {
                Some(index) => is_record_of(self.records@, peer_id@, index as int),
                None => forall|index: int| !is_record_of(self.records@, peer_id@, index),
            },
    {
        let mut index: usize = 0;
        while index < self.records.len()
            invariant
                index <= self.records@.len(),
                forall|before: int|
                    0 <= before < index ==> !is_record_of(self.records@, peer_id@, before),
            decreases self.records@.len() - index,
        {
            if text::same_text(self.records[index].peer_id.as_str(), peer_id) {
                return Some(index);
            }
            index = index + 1;
        }
        None
    }
}

impl Default for MemoryTrustedPeerStore {
    fn default() -> (store: MemoryTrustedPeerStore)
        ensures
            store@ == Map::<Seq<char>, RecordView>::empty(),
    {
        let records: Vec<TrustedPeerRecord> = Vec::new();
        assert(records_by_peer(records@) =~= Map::<Seq<char>, RecordView>::empty());
        MemoryTrustedPeerStore { records }
    }
}

impl TrustedPeerStore for MemoryTrustedPeerStore {
    /// The record of a peer, if there is one.
    fn load(&self, peer_id: &str) -> (result: Result<Option<TrustedPeerRecord>, PairingError>)
        ensures
            if !is_peer_id(peer_id@) {
                result == Err::<Option<TrustedPeerRecord>, _>(PairingError::InvalidPeerId)
            } else if self@.contains_key(peer_id@) {
                result matches Ok(Some(record)) && record@ == self@[peer_id@]
            } else {
                result matches Ok(None)
            },
    {
        validate_peer_id(peer_id)?;
        proof {
            use_type_invariant(self);
        }
        match self.find(peer_id) {
            Some(index) => {
                proof {
                    lemma_record_of_peer(self.records@, peer_id@, index as int);
                }
                Ok(Some(self.records[index].duplicate()))
            },
            None => Ok(None),
        }
    }

    /// Adds the record of a peer that is not trusted yet.
    fn insert(&mut self, record: TrustedPeerRecord) -> (result: Result<(), PairingError>)
        ensures
            (final(self)@, result) == inserted(old(self)@, record@),
    {
        proof {
            use_type_invariant(&*self);
        }
        record.validate()?;
        let ghost before = self.records@;
        if let Some(index) = self.find(record.peer_id.as_str()) {
            proof {
                lemma_record_of_peer(before, record.peer_id@, index as int);
            }
            return Err(PairingError::AlreadyPaired);
        }
        let mut records: Vec<TrustedPeerRecord> = Vec::new();
        core::mem::swap(&mut records, &mut self.records);
        let ghost added = record;
        records.push(record);
        proof {
            lemma_record_added(before, added);
        }
        self.records = records;
        Ok(())
    }
}

/// A record of a new peer is added to the records by peer.
proof fn lemma_record_added(records: Seq<TrustedPeerRecord>, record: TrustedPeerRecord)
    requires
        no_peer_twice(records),
        forall|index: int| !is_record_of(records, record.peer_id@, index),
    ensures
        no_peer_twice(records.push(record)),
        records_by_peer(records.push(record)) == records_by_peer(records).insert(
            record.peer_id@,
            record@,
        ),
        !records_by_peer(records).contains_key(record.peer_id@),
{
    let after = records.push(record);
    assert forall|peer_id: Seq<char>, index: int| #[trigger] is_record_of(
        after,
        peer_id,
        index,
    ) implies is_record_of(records, peer_id, index) || (index == records.len() && peer_id
        == record.peer_id@) by {}
    assert forall|first: int, second: int, peer_id: Seq<char>|
        #[trigger] is_record_of(after, peer_id, first) && #[trigger] is_record_of(
            after,
            peer_id,
            second,
        ) implies first == second by {
        if first < records.len() {
            assert(is_record_of(records, peer_id, first));
        }
        if second < records.len() {
            assert(is_record_of(records, peer_id, second));
        }
    }
    let expected = records_by_peer(records).insert(record.peer_id@, record@);
    assert(is_record_of(after, record.peer_id@, records.len() as int));
    lemma_record_of_peer(after, record.peer_id@, records.len() as int);
    let found = records_by_peer(after);
    assert forall|peer_id: Seq<char>| #[trigger] found.dom().contains(peer_id)
        == expected.dom().contains(peer_id) by {
        if found.contains_key(peer_id) && peer_id != record.peer_id@ {
            let index = choose|index: int| #[trigger] is_record_of(after, peer_id, index);
            lemma_record_of_peer(records, peer_id, index);
        }
        if records_by_peer(records).contains_key(peer_id) {
            let index = choose|index: int| #[trigger] is_record_of(records, peer_id, index);
            assert(is_record_of(after, peer_id, index));
            lemma_record_of_peer(after, peer_id, index);
        }
    }
    assert forall|peer_id: Seq<char>| found.dom().contains(peer_id) implies #[trigger] found[peer_id]
        == expected[peer_id] by {
        if peer_id != record.peer_id@ {
            let index = choose|index: int| #[trigger] is_record_of(after, peer_id, index);
            lemma_record_of_peer(after, peer_id, index);
            lemma_record_of_peer(records, peer_id, index);
        }
    }
    assert(found.dom() =~= expected.dom());
    assert(found =~= expected);
}

/// A record as it is written down.
#[derive(Clone, Debug, Eq, PartialEq)]
pub struct PersistedTrustedPeer {
    pub version: u16,
    pub peer_id: String,
    pub identity_key_base64: String,
    pub certificate_der_base64: String,
    pub certificate_pin_base64: String,
    pub confirmed_at_unix_ms: u64,
}

impl PersistedTrustedPeer {
    /// Whether this is what is written down for a record.
    pub open spec fn stands_for(self, record: RecordView) -> bool {
        &&& self.version == 1
        &&& self.peer_id@ == record.peer_id
        &&& self.identity_key_base64@ == outside::base64_text(record.identity_key)
        &&& self.certificate_der_base64@ == outside::base64_text(record.certificate_der)
        &&& self.certificate_pin_base64@ == outside::base64_text(record.certificate_pin)
        &&& outside::base64_bytes(self.identity_key_base64@) == Some(record.identity_key)
        &&& outside::base64_bytes(self.certificate_der_base64@) == Some(record.certificate_der)
        &&& outside::base64_bytes(self.certificate_pin_base64@) == Some(record.certificate_pin)
        &&& self.confirmed_at_unix_ms == record.confirmed_at_unix_ms
    }

    /// The record that is written down here, if one is.
    pub open spec fn record(self) -> Result<RecordView, PairingError> {
        match (
            outside::base64_bytes(self.identity_key_base64@),
            outside::base64_bytes(self.certificate_der_base64@),
            outside::base64_bytes(self.certificate_pin_base64@),
        ) {
            (Some(identity_key), Some(certificate_der), Some(certificate_pin)) => if self.version
                == 1 && identity_key.len() == 32 && certificate_pin.len() == 32 {
                Ok(
                    RecordView {
                        peer_id: self.peer_id@,
                        identity_key,
                        certificate_der,
                        certificate_pin,
                        confirmed_at_unix_ms: self.confirmed_at_unix_ms,
                    },
                )
            } else {
                Err(PairingError::InvalidRecord)
            },
            _ => Err(PairingError::InvalidRecord),
        }
    }

    /// What is written down for a record. The bound on the certificate's length is that of
    /// what base64 text can hold in memory.
    pub fn from_record(record: &TrustedPeerRecord) -> (persisted: PersistedTrustedPeer)
        requires
            record.certificate_der@.len() <= isize::MAX / 2,
        ensures
            persisted.stands_for(record@),
    {
        PersistedTrustedPeer {
            version: 1,
            peer_id: record.peer_id.clone(),
            identity_key_base64: outside::base64_encode(&record.identity_key),
            certificate_der_base64: outside::base64_encode(&record.certificate_der),
            certificate_pin_base64: outside::base64_encode(&record.certificate_pin),
            confirmed_at_unix_ms: record.confirmed_at_unix_ms,
        }
    }

    /// The record that is written down here.
    pub fn into_record(self) -> (result: Result<TrustedPeerRecord, PairingError>)
        ensures
            match self.record() {
                Ok(view) => result matches Ok(record) && record@ == view,
                Err(error) => result == Err::<TrustedPeerRecord, _>(error),
            },
    {
        if self.version != 1 {
            return Err(PairingError::InvalidRecord);
        }
        let identity_key = decode_key(self.identity_key_base64.as_str())?;
        let certificate_der = match outside::base64_decode(self.certificate_der_base64.as_str()) {
            Some(certificate_der) => certificate_der,
            None => return Err(PairingError::InvalidRecord),
        };
        let certificate_pin = decode_key(self.certificate_pin_base64.as_str())?;
        Ok(
            TrustedPeerRecord {
                peer_id: self.peer_id,
                identity_key,
                certificate_der,
                certificate_pin,
                confirmed_at_unix_ms: self.confirmed_at_unix_ms,
            },
        )
    }
}

/// The thirty-two bytes that a base64 text stands for.
fn decode_key(encoded: &str) -> (result: Result<[u8; 32], PairingError>)
    ensures
        match outside::base64_bytes(encoded@) {
            Some(bytes) => if bytes.len() == 32 {
                result matches Ok(key) && key@ == bytes
            } else {
                result == Err::<[u8; 32], _>(PairingError::InvalidRecord)
            },
            None => result == Err::<[u8; 32], _>(PairingError::InvalidRecord),
        },
{
    match outside::base64_decode(encoded) {
        Some(bytes) => key_of_bytes(&bytes),
        None => Err(PairingError::InvalidRecord),
    }
}

/// A key of thirty-two bytes.
pub fn key_of_bytes(bytes: &[u8]) -> (result: Result<[u8; 32], PairingError>)
    ensures
        if bytes@.len() == 32 {
            result matches Ok(key) && key@ == bytes@
        } else {
            result == Err::<[u8; 32], _>(PairingError::InvalidRecord)
        },
{
    if bytes.len() != 32 {
        return Err(PairingError::InvalidRecord);
    }
    let key: [u8; 32] = wire::read_array(bytes, 0);
    assert(key@ =~= bytes@);
    Ok(key)
}

/// The valid record in an encoding of the given length. `parsed` is what the encoding was
/// read as.
pub open spec fn decoded(encoded_length: usize, parsed: Option<PersistedTrustedPeer>) -> Result<
    RecordView,
    PairingError,
> {
    if encoded_length > MAX_RECORD_BYTES {
        Err(PairingError::InvalidRecord)
    } else {
        match parsed {
            None => Err(PairingError::InvalidRecord),
            Some(persisted) => match persisted.record() {
                Err(error) => Err(error),
                Ok(record) => match record.error() {
                    Some(error) => Err(error),
                    None => Ok(record),
                },
            },
        }
    }
}

/// The valid record in an encoding of the given length.
pub fn decode_record(encoded_length: usize, parsed: Option<PersistedTrustedPeer>) -> (result:
    Result<TrustedPeerRecord, PairingError>)
    ensures
        match decoded(encoded_length, parsed) {
            Ok(view) => result matches Ok(record) && record@ == view,
            Err(error) => result == Err::<TrustedPeerRecord, _>(error),
        },
{
    if encoded_length > MAX_RECORD_BYTES {
        return Err(PairingError::InvalidRecord);
    }
    let persisted = match parsed {
        Some(persisted) => persisted,
        None => return Err(PairingError::InvalidRecord),
    };
    let record = persisted.into_record()?;
    record.validate()?;
    Ok(record)
}

/// The valid record of a peer in an encoding of the given length. It must be that peer's.
pub fn load_record(peer_id: &str, encoded_length: usize, parsed: Option<PersistedTrustedPeer>) -> (result:
    Result<TrustedPeerRecord, PairingError>)
    ensures
        match decoded(encoded_length, parsed) {
            Ok(view) => if view.peer_id == peer_id@ {
                result matches Ok(record) && record@ == view
            } else {
                result == Err::<TrustedPeerRecord, _>(PairingError::InvalidRecord)
            },
            Err(error) => result == Err::<TrustedPeerRecord, _>(error),
        },
{
    let record = decode_record(encoded_length, parsed)?;
    if !text::same_text(record.peer_id.as_str(), peer_id) {
        return Err(PairingError::InvalidRecord);
    }
    Ok(record)
}

/// The name of the file that holds the record of a peer: the digest of the peer's name.
pub fn record_file_name(peer_id: &str) -> (result: Result<String, PairingError>)
    ensures
        if is_peer_id(peer_id@) {
            result matches Ok(name) && name@ == text::hex_text(
                outside::sha256(vstd::utf8::encode_utf8(peer_id@)),
            ) + ".json"@
        } else {
            result == Err::<String, _>(PairingError::InvalidPeerId)
        },
{
    validate_peer_id(peer_id)?;
    let mut name = text::hex_lower(&outside::sha256_of(peer_id.as_bytes()));
    outside::push_text(&mut name, ".json");
    Ok(name)
}

/// Refuses to list more records than there may be.
pub fn check_listing(listed: usize) -> (result: Result<(), PairingError>)
    ensures
        result == if listed >= MAX_LISTED_RECORDS {
            Err::<(), _>(PairingError::InvalidRecord)
        } else {
            Ok::<_, PairingError>(())
        },
{
    if listed >= MAX_LISTED_RECORDS {
        return Err(PairingError::InvalidRecord);
    }
    Ok(())
}

/// Whether records are listed by the names of their peers.
pub open spec fn is_listed_by_peer(records: Seq<TrustedPeerRecord>) -> bool {
    forall|first: int, second: int|
        0 <= first < second < records.len() ==> text::not_after(
            (#[trigger] records[first]).peer_id@,
            (#[trigger] records[second]).peer_id@,
        )
}

/// Where a record goes in a list: behind all that do not come after it.
pub open spec fn place_in_list(records: Seq<TrustedPeerRecord>, peer_id: Seq<char>) -> int
    decreases records.len(),
{
    if records.len() == 0 {
        0
    } else if text::not_after(records.last().peer_id@, peer_id) {
        records.len() as int
    } else {
        place_in_list(records.drop_last(), peer_id)
    }
}

/// Adds a record to a list by the names of peers, behind those of the same name.
pub fn list_record(records: &mut Vec<TrustedPeerRecord>, record: TrustedPeerRecord)
    requires
        is_listed_by_peer(old(records)@),
    ensures
        final(records)@ == old(records)@.insert(
            place_in_list(old(records)@, record.peer_id@),
            record,
        ),
        is_listed_by_peer(final(records)@),
{
    let mut place: usize = records.len();
    assert(records@.take(place as int) =~= records@);
    while place > 0
        invariant
            place <= records@.len(),
            records@ == old(records)@,
            place_in_list(records@, record.peer_id@) == place_in_list(
                records@.take(place as int),
                record.peer_id@,
            ),
            forall|later: int|
                place <= later < records@.len() ==> !text::not_after(
                    (#[trigger] records@[later]).peer_id@,
                    record.peer_id@,
                ),
        ensures
            place <= records@.len(),
            records@ == old(records)@,
            place == place_in_list(records@, record.peer_id@),
            place > 0 ==> text::not_after(records@[place - 1].peer_id@, record.peer_id@),
            forall|later: int|
                place <= later < records@.len() ==> !text::not_after(
                    (#[trigger] records@[later]).peer_id@,
                    record.peer_id@,
                ),
        decreases place,
    {
        assert(records@.take(place as int).last() == records@[place - 1]);
        if text::is_not_after(records[place - 1].peer_id.as_str(), record.peer_id.as_str()) {
            break ;
        }
        assert(records@.take(place as int).drop_last() =~= records@.take(place - 1));
        place = place - 1;
    }
    let ghost before = records@;
    let ghost added = record;
    records.insert(place, record);
    proof {
        lemma_listed_with(before, added, place as int);
    }
}

/// A list stays in order where a record is put in its place.
proof fn lemma_listed_with(records: Seq<TrustedPeerRecord>, record: TrustedPeerRecord, place: int)
    requires
        is_listed_by_peer(records),
        0 <= place <= records.len(),
        place > 0 ==> text::not_after(records[place - 1].peer_id@, record.peer_id@),
        forall|later: int|
            place <= later < records.len() ==> !text::not_after(
                (#[trigger] records[later]).peer_id@,
                record.peer_id@,
            ),
    ensures
        is_listed_by_peer(records.insert(place, record)),
{
    let after = records.insert(place, record);
    assert forall|first: int, second: int| 0 <= first < second < after.len() implies text::not_after(
        (#[trigger] after[first]).peer_id@,
        (#[trigger] after[second]).peer_id@,
    ) by {
        if second == place {
            assert(after[first] == records[first]);
            if first < place - 1 {
                assert(text::not_after(records[first].peer_id@, records[place - 1].peer_id@));
                text::lemma_order_is_transitive(
                    records[first].peer_id@,
                    records[place - 1].peer_id@,
                    record.peer_id@,
                );
            }
        } else if first == place {
            assert(after[second] == records[second - 1]);
            text::lemma_order_is_total(records[second - 1].peer_id@, record.peer_id@);
        } else {
            let one = if first < place {
                first
            } else {
                first - 1
            };
            let other = if second < place {
                second
            } else {
                second - 1
            };
            assert(after[first] == records[one]);
            assert(after[second] == records[other]);
        }
    }
}

/// What is written down for a record is read as that record again.
pub proof fn lemma_persisted_record_round_trip(
    persisted: PersistedTrustedPeer,
    record: RecordView,
    encoded_length: usize,
)
    requires
        record.identity_key.len() == 32,
        record.certificate_pin.len() == 32,
        record.error() is None,
        persisted.stands_for(record),
        encoded_length <= MAX_RECORD_BYTES,
    ensures
        decoded(encoded_length, Some(persisted)) == Ok::<_, PairingError>(record),
{
    assert(persisted.record()->Ok_0 =~= record);
}

/// A peer that was confirmed can be stored: its record is valid.
pub proof fn lemma_confirmed_candidate_is_valid(candidate: CandidateView, confirmed_at_unix_ms: u64)
    requires
        candidate_error(
            candidate.peer_id,
            candidate.identity_key,
            candidate.certificate_der,
        ) is None,
        candidate.certificate_pin == outside::sha256(candidate.certificate_der),
    ensures
        candidate.confirmed(confirmed_at_unix_ms).error() is None,
{
}

/// A trusted peer is never replaced silently: whatever is inserted, its record stays.
pub proof fn lemma_trusted_peer_is_not_replaced(
    records: Map<Seq<char>, RecordView>,
    peer_id: Seq<char>,
    record: RecordView,
)
    requires
        records.contains_key(peer_id),
    ensures
        inserted(records, record).0.contains_key(peer_id),
        inserted(records, record).0[peer_id] == records[peer_id],
        record.peer_id == peer_id ==> inserted(records, record).1 is Err,
{
}

/// A fingerprint confirms itself, and nothing of another length does.
pub proof fn lemma_fingerprint_confirms_itself(candidate: CandidateView, other: Seq<char>)
    ensures
        text::same_but_for_case(
            vstd::utf8::encode_utf8(candidate.fingerprint()),
            vstd::utf8::encode_utf8(candidate.fingerprint()),
        ),
        vstd::utf8::encode_utf8(other).len() != vstd::utf8::encode_utf8(
            candidate.fingerprint(),
        ).len() ==> !text::same_but_for_case(
            vstd::utf8::encode_utf8(candidate.fingerprint()),
            vstd::utf8::encode_utf8(other),
        ),
{
}


/// A peer's name has 1 to 128 bytes and no control character.
pub proof fn lemma_good_peer_names(peer_id: Seq<char>)
    ensures
        is_peer_id(peer_id) <==> {
            &&& 1 <= vstd::utf8::encode_utf8(peer_id).len() <= 128
            &&& forall|index: int|
                0 <= index < peer_id.len() ==> 32 <= (#[trigger] peer_id[index]) as u32 <= 126
                    || 160 <= peer_id[index] as u32
        },
{
    if is_peer_id(peer_id) {
        assert forall|index: int| 0 <= index < peer_id.len() implies 32 <= (
        #[trigger] peer_id[index]) as u32 <= 126 || 160 <= peer_id[index] as u32 by {
            assert(!text::is_control(peer_id[index]));
        }
    }
}

/// A peer can be a candidate exactly where its name is good, its key is not all zeros and its
/// certificate has 1 to 16384 bytes. The first of these that fails is what is reported.
pub proof fn lemma_good_candidates(
    peer_id: Seq<char>,
    identity_key: Seq<u8>,
    certificate_der: Seq<u8>,
)
    ensures
        ({
            let error = candidate_error(peer_id, identity_key, certificate_der);
            let key = exists|index: int|
                0 <= index < identity_key.len() && #[trigger] identity_key[index] != 0;
            let certificate = 1 <= certificate_der.len() <= 16_384;
            &&& error is None <==> is_peer_id(peer_id) && key && certificate
            &&& !is_peer_id(peer_id) <==> error == Some(PairingError::InvalidPeerId)
            &&& is_peer_id(peer_id) && !key <==> error == Some(PairingError::InvalidIdentityKey)
            &&& is_peer_id(peer_id) && key && !certificate <==> error == Some(
                PairingError::InvalidCertificate,
            )
        }),
{
    wire::lemma_all_zero(identity_key);
}

/// A record is valid exactly where its peer could be a candidate and its pin is the digest of
/// its certificate.
pub proof fn lemma_valid_records(record: RecordView)
    ensures
        record.error() is None <==> candidate_error(
            record.peer_id,
            record.identity_key,
            record.certificate_der,
        ) is None && record.certificate_pin == outside::sha256(record.certificate_der),
        candidate_error(record.peer_id, record.identity_key, record.certificate_der) is Some
            ==> record.error() == candidate_error(
            record.peer_id,
            record.identity_key,
            record.certificate_der,
        ),
        candidate_error(record.peer_id, record.identity_key, record.certificate_der) is None
            && record.error() is Some ==> record.error() == Some(PairingError::InvalidCertificate),
{
}

/// The record of a confirmed peer is the candidate, with the time of the confirmation.
pub proof fn lemma_confirmation_keeps_the_candidate(candidate: CandidateView, time: u64)
    ensures
        candidate.confirmed(time).peer_id == candidate.peer_id,
        candidate.confirmed(time).identity_key == candidate.identity_key,
        candidate.confirmed(time).certificate_der == candidate.certificate_der,
        candidate.confirmed(time).certificate_pin == candidate.certificate_pin,
        candidate.confirmed(time).confirmed_at_unix_ms == time,
{
}

/// A fingerprint covers the whole key and the whole pin, in that order, behind a fixed text:
/// candidates that differ in one of them differ in what the fingerprint is the digest of.
pub proof fn lemma_fingerprint_covers_key_and_pin(
    key: Seq<u8>,
    pin: Seq<u8>,
    other_key: Seq<u8>,
    other_pin: Seq<u8>,
)
    requires
        key.len() == 32,
        pin.len() == 32,
        other_key.len() == 32,
        other_pin.len() == 32,
    ensures
        ({
            let source = fingerprint_source(key, pin);
            let fixed = vstd::utf8::encode_utf8("rustadmin-peer-pairing-v1"@);
            let length = fixed.len() as int;
            &&& source.len() == length + 64
            &&& source.subrange(0, length) == fixed
            &&& source.subrange(length, length + 32) == key
            &&& source.subrange(length + 32, length + 64) == pin
            &&& source == fingerprint_source(other_key, other_pin) <==> key == other_key && pin
                == other_pin
        }),
{
    let fixed = vstd::utf8::encode_utf8("rustadmin-peer-pairing-v1"@);
    let length = fixed.len() as int;
    let source = fingerprint_source(key, pin);
    let other = fingerprint_source(other_key, other_pin);
    assert(source.subrange(0, length) =~= fixed);
    assert(source.subrange(length, length + 32) =~= key);
    assert(source.subrange(length + 32, length + 64) =~= pin);
    assert(other.subrange(length, length + 32) =~= other_key);
    assert(other.subrange(length + 32, length + 64) =~= other_pin);
}

/// A fingerprint is the digest in words, two digits to a byte and a colon between two bytes.
pub proof fn lemma_fingerprint_is_a_digest(candidate: CandidateView, index: int)
    requires
        0 <= index,
    ensures
        ({
            let digest = outside::sha256(
                fingerprint_source(candidate.identity_key, candidate.certificate_pin),
            );
            let words = candidate.fingerprint();
            &&& digest.len() > 0 ==> words.len() == 3 * digest.len() - 1
            &&& index < digest.len() ==> text::is_hex_digit_of(
                words[3 * index],
                digest[index] as int / 16,
                65,
            ) && text::is_hex_digit_of(words[3 * index + 1], digest[index] as int % 16, 65)
            &&& index + 1 < digest.len() ==> words[3 * index + 2] == ':'
        }),
{
    text::lemma_colon_text_digits(
        outside::sha256(fingerprint_source(candidate.identity_key, candidate.certificate_pin)),
    );
}

/// A valid record of a peer that is not trusted yet is stored, and no other record changes.
/// Nothing changes where the record is refused.
pub proof fn lemma_new_peers_are_stored(
    records: Map<Seq<char>, RecordView>,
    record: RecordView,
    other: Seq<char>,
)
    ensures
        ({
            let (after, result) = inserted(records, record);
            let taken = record.error() is None && !records.contains_key(record.peer_id);
            &&& result is Ok <==> taken
            &&& taken ==> after.contains_key(record.peer_id) && after[record.peer_id] == record
            &&& !taken ==> after == records
            &&& other != record.peer_id ==> (after.contains_key(other) <==> records.contains_key(
                other,
            )) && after[other] == records[other]
            &&& record.error() is Some ==> result->Err_0 == record.error()->Some_0
            &&& record.error() is None && !taken ==> result->Err_0 == PairingError::AlreadyPaired
        }),
{
}

/// A record is read exactly where at most 65536 bytes were written down for it, they could be
/// parsed, they are of version 1, and what they hold is a valid record with a key and a pin of
/// 32 bytes each.
pub proof fn lemma_records_that_can_be_read(
    encoded_length: usize,
    parsed: Option<PersistedTrustedPeer>,
)
    ensures
        ({
            let result = decoded(encoded_length, parsed);
            let persisted = parsed->Some_0;
            let key = outside::base64_bytes(persisted.identity_key_base64@);
            let certificate = outside::base64_bytes(persisted.certificate_der_base64@);
            let pin = outside::base64_bytes(persisted.certificate_pin_base64@);
            let record = RecordView {
                peer_id: persisted.peer_id@,
                identity_key: key->Some_0,
                certificate_der: certificate->Some_0,
                certificate_pin: pin->Some_0,
                confirmed_at_unix_ms: persisted.confirmed_at_unix_ms,
            };
            let written = encoded_length <= 65_536 && parsed is Some && persisted.version == 1
                && key is Some && certificate is Some && pin is Some && key->Some_0.len() == 32
                && pin->Some_0.len() == 32;
            &&& result is Ok <==> written && record.error() is None
            &&& result is Ok ==> result->Ok_0 == record
            &&& !written ==> result->Err_0 == PairingError::InvalidRecord
            &&& written && record.error() is Some ==> result->Err_0 == record.error()->Some_0
        }),
{
}

/// What is written down for a record says the same as the record, in version 1.
pub proof fn lemma_what_is_written_down(persisted: PersistedTrustedPeer, record: RecordView)
    requires
        persisted.stands_for(record),
    ensures
        persisted.version == 1,
        persisted.peer_id@ == record.peer_id,
        persisted.confirmed_at_unix_ms == record.confirmed_at_unix_ms,
        outside::base64_bytes(persisted.identity_key_base64@) == Some(record.identity_key),
        outside::base64_bytes(persisted.certificate_der_base64@) == Some(record.certificate_der),
        outside::base64_bytes(persisted.certificate_pin_base64@) == Some(record.certificate_pin),
{
}

/// A record goes behind all that do not come after it, and before all that do.
pub proof fn lemma_place_in_list(records: Seq<TrustedPeerRecord>, peer_id: Seq<char>)
    ensures
        0 <= place_in_list(records, peer_id) <= records.len(),
        place_in_list(records, peer_id) > 0 ==> text::not_after(
            records[place_in_list(records, peer_id) - 1].peer_id@,
            peer_id,
        ),
        forall|index: int|
            place_in_list(records, peer_id) <= index < records.len() ==> !text::not_after(
                (#[trigger] records[index]).peer_id@,
                peer_id,
            ),
    decreases records.len(),
{
    if records.len() > 0 && !text::not_after(records.last().peer_id@, peer_id) {
        let before = records.drop_last();
        lemma_place_in_list(before, peer_id);
        assert forall|index: int|
            place_in_list(records, peer_id) <= index < records.len() implies !text::not_after(
            (#[trigger] records[index]).peer_id@,
            peer_id,
        ) by {
            if index < before.len() {
                assert(before[index] == records[index]);
            }
        }
    }
}

/// A listed record stands between those whose names do not come after its own and those whose
/// names do.
pub proof fn lemma_list_is_sorted(
    records: Seq<TrustedPeerRecord>,
    first: int,
    second: int,
)
    requires
        is_listed_by_peer(records),
        0 <= first < second < records.len(),
    ensures
        text::not_after(records[first].peer_id@, records[second].peer_id@),
        MAX_LISTED_RECORDS == 4_096,
{
}

} // verus!
