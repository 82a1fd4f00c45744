//! The fingerprint of a certificate: the SHA-256 digest of the binary
//! contents of its PEM encoding.

use sha2::Digest;
use vstd::prelude::*;

verus! {

/// The error of the PEM decoder.
#[verifier::external_type_specification]
#[verifier::external_body]
pub struct ExPemError(pem::PemError);

/// The binary contents of the first PEM block of `text`, if `text` holds a
/// block that the decoder accepts.
pub uninterp spec fn pem_contents(text: Seq<u8>) -> Option<Seq<u8>>;

/// The SHA-256 digest of `data`.
pub uninterp spec fn sha256(data: Seq<u8>) -> Seq<u8>;

/// Why a certificate has no fingerprint.
#[derive(Debug, PartialEq, Eq, Structural)]
pub enum FingerprintError {
    /// The bytes hold no well-formed PEM block.
    MalformedPem,
}

/// The fingerprint of the PEM-encoded certificate `certificate`, if it has one.
pub open spec fn fingerprint(certificate: Seq<u8>) -> Option<Seq<u8>> {
    match pem_contents(certificate) {
        Some(contents) => Some(sha256(contents)),
        None => None,
    }
}

/// Calls `pem::parse` and takes the contents of the block it found. The
/// decoder reads nothing but `text`, so what it returns is a function of
/// `text`: that function is named `pem_contents`, and is `None` where the
/// decoder reports an error.
#[verifier::external_body]
fn decode_pem(text: &[u8]) -> (decoded: Result<Vec<u8>, pem::PemError>)
    ensures
        match decoded {
            Ok(contents) => pem_contents(text@) == Some(contents@),
            Err(_) => pem_contents(text@) is None,
        },
{
    pem::parse(text).map(|block| block.into_contents())
}

/// Calls `sha2::Sha256::digest`. The digest is a function of `data`, named
/// `sha256`.
#[verifier::external_body]
fn sha256_digest(data: &[u8]) -> (digest: Vec<u8>)
    ensures
        digest@ == sha256(data@),
{
    sha2::Sha256::digest(data).to_vec()
}

/// Computes the fingerprint of a PEM-encoded certificate.
pub fn calculate_fingerprint(certificate: &[u8]) -> (result: Result<Vec<u8>, FingerprintError>)
    ensures
        match result {
            Ok(digest) => fingerprint(certificate@) == Some(digest@),
            Err(e) => fingerprint(certificate@) is None && e == FingerprintError::MalformedPem,
        },
{
    match decode_pem(certificate) {
        Ok(contents) => Ok(sha256_digest(contents.as_slice())),
        Err(_) => Err(FingerprintError::MalformedPem),
    }
}

} // verus!
