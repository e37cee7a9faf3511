//! Calls into other crates and into std, with what is believed of them.
use base64::Engine;
use sha2::Digest;
use vstd::prelude::*;

verus! {

/// `sha2::Sha256`, a hash computation under way.
#[verifier::external_type_specification]
#[verifier::external_body]
pub struct ExSha256(sha2::Sha256);

/// The bytes that were handed to a hash computation so far, in order.
pub uninterp spec fn hashed_bytes(hasher: sha2::Sha256) -> Seq<u8>;

/// The SHA-256 digest of some bytes.
pub uninterp spec fn sha256(data: Seq<u8>) -> Seq<u8>;

/// `sha2::Sha256::new`: a computation to which nothing was handed yet.
#[verifier::external_body]
pub(crate) fn start_hash() -> (hasher: sha2::Sha256)
    ensures
        hashed_bytes(hasher) == Seq::<u8>::empty(),
{
    sha2::Sha256::new()
}

/// `sha2::Sha256::update`: hands `data` to the computation, after what it has already.
#[verifier::external_body]
pub(crate) fn extend_hash(hasher: &mut sha2::Sha256, data: &[u8])
    ensures
        hashed_bytes(*final(hasher)) == hashed_bytes(*old(hasher)) + data@,
{
    hasher.update(data);
}

/// `sha2::Sha256::finalize`: the digest of all that was handed to the computation,
/// which is a function of those bytes alone, however they were cut into pieces.
#[verifier::external_body]
pub(crate) fn finish_hash(hasher: sha2::Sha256) -> (digest: [u8; 32])
    ensures
        digest@ == sha256(hashed_bytes(hasher)),
{
    hasher.finalize().into()
}

/// The SHA-256 digest of `data`.
pub fn sha256_of(data: &[u8]) -> (digest: [u8; 32])
    ensures
        digest@ == sha256(data@),
{
    let mut hasher = start_hash();
    extend_hash(&mut hasher, data);
    assert(Seq::<u8>::empty() + data@ =~= data@);
    finish_hash(hasher)
}

/// `String::from_utf8`: the text whose UTF-8 encoding the bytes are, and none exactly
/// where they are not valid UTF-8.
#[verifier::external_body]
pub(crate) fn text_from_utf8(bytes: Vec<u8>) -> (text: Option<String>)
    ensures
        match text {
            Some(text) => vstd::utf8::valid_utf8(bytes@) && text@ == vstd::utf8::decode_utf8(
                bytes@,
            ),
            None => !vstd::utf8::valid_utf8(bytes@),
        },
{
    match String::from_utf8(bytes) {
        Ok(text) => Some(text),
        Err(_) => None,
    }
}

/// `String::push`: appends a character to a text.
#[verifier::external_body]
pub(crate) fn push_char(text: &mut String, character: char)
    ensures
        final(text)@ == old(text)@.push(character),
{
    text.push(character);
}

/// `String::push_str`: appends a text to another.
#[verifier::external_body]
pub(crate) fn push_text(text: &mut String, more: &str)
    ensures
        final(text)@ == old(text)@ + more@,
{
    text.push_str(more);
}

/// The text that stands for some bytes in standard base64 with padding.
pub uninterp spec fn base64_text(bytes: Seq<u8>) -> Seq<char>;

/// The bytes that a text stands for in standard base64 with padding, if it stands for any.
pub uninterp spec fn base64_bytes(text: Seq<char>) -> Option<Seq<u8>>;

/// `base64::engine::general_purpose::STANDARD.encode`: the base64 text of the bytes,
/// which decodes to them again. It panics only where the length of the text
/// overflows, which the bound on the length leaves out.
#[verifier::external_body]
pub(crate) fn base64_encode(bytes: &[u8]) -> (text: String)
    requires
        bytes@.len() <= isize::MAX / 2,
    ensures
        text@ == base64_text(bytes@),
        base64_bytes(text@) == Some(bytes@),
{
    base64::engine::general_purpose::STANDARD.encode(bytes)
}

/// `base64::engine::general_purpose::STANDARD.decode`: the bytes of a base64 text, and
/// none where the text is no base64.
#[verifier::external_body]
pub(crate) fn base64_decode(text: &str) -> (bytes: Option<Vec<u8>>)
    ensures
        match bytes {
            Some(bytes) => base64_bytes(text@) == Some(bytes@),
            None => base64_bytes(text@) is None,
        },
{
    match base64::engine::general_purpose::STANDARD.decode(text) {
        Ok(bytes) => Some(bytes),
        Err(_) => None,
    }
}

/// The bytes by which a sealed message is longer than the message.
pub const SEAL_OVERHEAD: usize = 16;

/// A message that is encrypted and authenticated under a nonce and a key.
pub uninterp spec fn sealed(message: Seq<u8>, nonce: Seq<u8>, key: Seq<u8>) -> Seq<u8>;

/// `sodiumoxide::crypto::secretbox::seal`: the sealed message, sixteen bytes longer
/// than the message, a function of message, nonce and key alone. The bound keeps
/// the length of the result within what can be allocated.
#[verifier::external_body]
pub(crate) fn seal(message: &[u8], nonce: &[u8; 24], key: &[u8; 32]) -> (result: Vec<u8>)
    requires
        message@.len() + SEAL_OVERHEAD <= isize::MAX,
    ensures
        result@ == sealed(message@, nonce@, key@),
        result@.len() == message@.len() + SEAL_OVERHEAD,
{
    sodiumoxide::crypto::secretbox::seal(
        message,
        &sodiumoxide::crypto::secretbox::Nonce(*nonce),
        &sodiumoxide::crypto::secretbox::Key(*key),
    )
}

/// `sodiumoxide::crypto::secretbox::open`: the message that was sealed under the nonce and
/// the key, and none exactly where the bytes are no message sealed under them.
#[verifier::external_body]
pub(crate) fn open(bytes: &[u8], nonce: &[u8; 24], key: &[u8; 32]) -> (message: Option<Vec<u8>>)
    ensures
        match message {
            Some(message) => bytes@ == sealed(message@, nonce@, key@) && bytes@.len()
                == message@.len() + SEAL_OVERHEAD && (forall|other: Seq<u8>|
                bytes@ == #[trigger] sealed(other, nonce@, key@) ==> other == message@),
            None => forall|other: Seq<u8>| bytes@ != #[trigger] sealed(other, nonce@, key@),
        },
{
    sodiumoxide::crypto::secretbox::open(
        bytes,
        &sodiumoxide::crypto::secretbox::Nonce(*nonce),
        &sodiumoxide::crypto::secretbox::Key(*key),
    ).ok()
}

/// The message in a box for a secret key from a public key, if there is one.
pub uninterp spec fn box_opened(
    bytes: Seq<u8>,
    nonce: Seq<u8>,
    public_key: Seq<u8>,
    secret_key: Seq<u8>,
) -> Option<Seq<u8>>;

/// `sodiumoxide::crypto::box_::open`: the message in the box, and none where it cannot be
/// opened with these keys, a function of the arguments alone.
#[verifier::external_body]
pub(crate) fn open_box(
    bytes: &[u8],
    nonce: &[u8; 24],
    public_key: &[u8; 32],
    secret_key: &[u8; 32],
) -> (message: Option<Vec<u8>>)
    ensures
        match message {
            Some(message) => box_opened(bytes@, nonce@, public_key@, secret_key@) == Some(
                message@,
            ),
            None => box_opened(bytes@, nonce@, public_key@, secret_key@) is None,
        },
{
    sodiumoxide::crypto::box_::open(
        bytes,
        &sodiumoxide::crypto::box_::Nonce(*nonce),
        &sodiumoxide::crypto::box_::PublicKey(*public_key),
        &sodiumoxide::crypto::box_::SecretKey(*secret_key),
    ).ok()
}

/// `sodiumoxide::init`: whether libsodium could be set up, which rests on the machine.
#[verifier::external_body]
pub(crate) fn init_sodium() -> (ready: bool) {
    sodiumoxide::init().is_ok()
}

/// `sodiumoxide::crypto::sign::SecretKey::public_key`: the public key that a signing key
/// carries in its second half.
#[verifier::external_body]
pub(crate) fn signing_public_key(secret_key: &[u8; 64]) -> (public_key: [u8; 32])
    ensures
        public_key@ == secret_key@.subrange(32, 64),
{
    sodiumoxide::crypto::sign::SecretKey(*secret_key).public_key().0
}

/// The Ed25519 signature of a message under a secret key.
pub uninterp spec fn signature_of(message: Seq<u8>, secret_key: Seq<u8>) -> Seq<u8>;

/// Whether an Ed25519 signature of a message is valid for a public key.
pub uninterp spec fn signature_valid(
    signature: Seq<u8>,
    message: Seq<u8>,
    public_key: Seq<u8>,
) -> bool;

/// `sodiumoxide::crypto::sign::sign_detached`: the signature of the message, a function of
/// message and key alone, and one that is encoded as a signature must be.
#[verifier::external_body]
pub(crate) fn sign(message: &[u8], secret_key: &[u8; 64]) -> (signature: [u8; 64])
    ensures
        signature@ == signature_of(message@, secret_key@),
        signature@[63] < 32,
{
    sodiumoxide::crypto::sign::sign_detached(
        message,
        &sodiumoxide::crypto::sign::SecretKey(*secret_key),
    ).to_bytes()
}

/// `sodiumoxide::crypto::sign::verify_detached`: whether the signature is valid, and none
/// where `Signature::from_bytes` refuses the bytes because one of the three highest
/// bits of the last one is set.
#[verifier::external_body]
pub(crate) fn verify(signature: &[u8; 64], message: &[u8], public_key: &[u8; 32]) -> (valid: Option<
    bool,
>)
    ensures
        valid == if signature@[63] < 32 {
            Some(signature_valid(signature@, message@, public_key@))
        } else {
            None
        },
{
    let key = sodiumoxide::crypto::sign::PublicKey(*public_key);
    match sodiumoxide::crypto::sign::Signature::from_bytes(signature) {
        Ok(signature) => Some(sodiumoxide::crypto::sign::verify_detached(&signature, message, &key)),
        Err(_) => None,
    }
}

} // verus!
