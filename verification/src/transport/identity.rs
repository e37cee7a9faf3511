//! The certificate and the private key by which a device is known, and when they are made.
use super::quic::{ConfigurationFailure, QuicTransportError, TlsCredentials};
use crate::wire;
use vstd::prelude::*;

verus! {

pub const CERTIFICATE_FILE: &'static str = "certificate.der";

pub const PRIVATE_KEY_FILE: &'static str = "private-key.pk8";

pub const MAX_CERTIFICATE_BYTES: u64 = 0x4000;

pub const MAX_PRIVATE_KEY_BYTES: u64 = 0x4000;

/// What is done about a device's identity.
#[derive(Clone, Copy, Debug, Eq, PartialEq, Structural)]
pub enum IdentityAction {
    Load,
    Generate,
}

/// What is done about an identity whose files are there or not: a half of one is never
/// replaced silently.
pub fn plan_identity(certificate_exists: bool, private_key_exists: bool) -> (result: Result<
    IdentityAction,
    QuicTransportError,
>)
    ensures
        result == if certificate_exists && private_key_exists {
            Ok::<_, QuicTransportError>(IdentityAction::Load)
        } else if !certificate_exists && !private_key_exists {
            Ok::<_, QuicTransportError>(IdentityAction::Generate)
        } else {
            Err::<IdentityAction, _>(
                QuicTransportError::Configuration(ConfigurationFailure::IncompleteIdentity),
            )
        },
{
    match (certificate_exists, private_key_exists) {
        (true, true) => Ok(IdentityAction::Load),
        (false, false) => Ok(IdentityAction::Generate),
        _ => Err(QuicTransportError::Configuration(ConfigurationFailure::IncompleteIdentity)),
    }
}

/// Checks the size of a file of an identity before it is read.
pub fn check_file_size(length: u64, maximum: u64) -> (result: Result<(), QuicTransportError>)
    ensures
        result == if length == 0 || length > maximum {
            Err::<(), _>(QuicTransportError::Configuration(ConfigurationFailure::IdentityFileSize))
        } else {
            Ok::<_, QuicTransportError>(())
        },
{
    if length == 0 || length > maximum {
        return Err(QuicTransportError::Configuration(ConfigurationFailure::IdentityFileSize));
    }
    Ok(())
}

/// A certificate and its private key, both DER-encoded.
pub struct LocalTlsIdentity {
    certificate: Vec<u8>,
    private_key_pkcs8: Vec<u8>,
}

impl LocalTlsIdentity {
    pub closed spec fn certificate_der(&self) -> Seq<u8> {
        self.certificate@
    }

    pub closed spec fn private_key_der(&self) -> Seq<u8> {
        self.private_key_pkcs8@
    }

    /// The identity in the contents of two files.
    pub fn load(certificate: Vec<u8>, private_key_pkcs8: Vec<u8>) -> (result: Result<
        LocalTlsIdentity,
        QuicTransportError,
    >)
        ensures
            if certificate@.len() == 0 || private_key_pkcs8@.len() == 0 {
                result matches Err(error) && error == QuicTransportError::Configuration(
                    ConfigurationFailure::EmptyIdentityFile,
                )
            } else {
                result matches Ok(identity) && identity.certificate_der() == certificate@
                    && identity.private_key_der() == private_key_pkcs8@
            },
    {
        if certificate.len() == 0 || private_key_pkcs8.len() == 0 {
            return Err(QuicTransportError::Configuration(ConfigurationFailure::EmptyIdentityFile));
        }
        Ok(LocalTlsIdentity { certificate, private_key_pkcs8 })
    }

    /// An identity that was just made.
    pub fn generated(certificate: Vec<u8>, private_key_pkcs8: Vec<u8>) -> (identity:
        LocalTlsIdentity)
        ensures
            identity.certificate_der() == certificate@,
            identity.private_key_der() == private_key_pkcs8@,
    {
        LocalTlsIdentity { certificate, private_key_pkcs8 }
    }

    pub fn certificate(&self) -> (certificate: Vec<u8>)
        ensures
            certificate@ == self.certificate_der(),
    {
        let certificate = wire::copy_range(&self.certificate, 0, self.certificate.len());
        assert(certificate@ =~= self.certificate@);
        certificate
    }

    pub fn certificate_bytes(&self) -> (certificate: &[u8])
        ensures
            certificate@ == self.certificate_der(),
    {
        self.certificate.as_slice()
    }

    /// The identity as what a connection is authenticated with.
    pub fn credentials(&self) -> (result: Result<TlsCredentials, QuicTransportError>)
        ensures
            result matches Ok(credentials) && credentials.certificate_chain@.len() == 1
                && credentials.certificate_chain@[0]@ == self.certificate_der()
                && credentials.private_key@ == self.private_key_der(),
    {
        let mut chain: Vec<Vec<u8>> = Vec::new();
        chain.push(self.certificate());
        let private_key = wire::copy_range(
            &self.private_key_pkcs8,
            0,
            self.private_key_pkcs8.len(),
        );
        assert(private_key@ =~= self.private_key_pkcs8@);
        TlsCredentials::new(chain, private_key)
    }
}

} // verus!
