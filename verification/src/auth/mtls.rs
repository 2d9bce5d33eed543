//! Client certificates.

use http::Extensions;
use rustls::crypto::ring::cipher_suite::TLS13_AES_128_GCM_SHA256;
use rustls::pki_types::CertificateDer;
use vstd::prelude::*;

use crate::auth::context::PeerIdentity;
use crate::auth::error::AuthError;
use crate::text::{hex_bytes, hex_bytes_text, law_bytes_in_hex};

verus! {

#[verifier::external_type_specification]
#[verifier::external_body]
pub struct ExCertificateDer<'a>(CertificateDer<'a>);

#[verifier::external_type_specification]
#[verifier::external_body]
pub struct ExExtensions(Extensions);

/// The certificate of a client, which the TLS layer has checked and attached to the
/// request.
pub struct PeerCertificate(pub CertificateDer<'static>);

/// `CertificateDer::clone` makes an equal certificate.
#[verifier::external_body]
fn clone_certificate(cert: &CertificateDer<'static>) -> (r: CertificateDer<'static>)
    ensures
        r == *cert,
{
    cert.clone()
}

impl Clone for PeerCertificate {
    fn clone(&self) -> (r: Self)
        ensures
            r == *self,
    {
        PeerCertificate(clone_certificate(&self.0))
    }
}

/// The certificate attached to a request: what `Extensions::get` finds of that type.
pub uninterp spec fn attached_certificate(extensions: Extensions) -> Option<PeerCertificate>;

/// `Extensions::get` finds the certificate that was attached, if one was.
#[verifier::external_body]
fn find_certificate(extensions: &Extensions) -> (r: Option<&PeerCertificate>)
    ensures
        match r {
            Some(cert) => attached_certificate(*extensions) == Some(*cert),
            None => attached_certificate(*extensions) is None,
        },
{
    extensions.get::<PeerCertificate>()
}

/// The bytes of a certificate: what `CertificateDer::as_ref` returns.
pub uninterp spec fn certificate_bytes(cert: CertificateDer<'static>) -> Seq<u8>;

/// `CertificateDer::as_ref` gives the bytes of the certificate.
#[verifier::external_body]
fn der_bytes<'a>(cert: &'a CertificateDer<'static>) -> (r: &'a [u8])
    ensures
        r@ == certificate_bytes(*cert),
{
    cert.as_ref()
}

/// The most bytes that can be digested.
pub const DIGEST_LIMIT: u64 = 0x1fff_ffff_ffff_ffff;

/// The SHA-256 digest of some bytes: what the hash of the TLS 1.3 suite with SHA-256 makes of
/// them.
pub uninterp spec fn sha256(bytes: Seq<u8>) -> Seq<u8>;

/// `Hash::hash` of the suite `TLS13_AES_128_GCM_SHA256` returns the SHA-256 digest, which has
/// 32 bytes. It panics where the number of bits does not fit 64 bits.
#[verifier::external_body]
fn sha256_digest(bytes: &[u8]) -> (r: Vec<u8>)
    requires
        bytes@.len() <= DIGEST_LIMIT,
    ensures
        r@ == sha256(bytes@),
        r@.len() == 32,
{
    TLS13_AES_128_GCM_SHA256.tls13().unwrap().common.hash_provider.hash(bytes).as_ref().to_vec()
}

/// The fingerprint of a certificate: the SHA-256 digest of its bytes, in hexadecimal digits.
pub fn fingerprint(bytes: &[u8]) -> (r: String)
    requires
        bytes@.len() <= DIGEST_LIMIT,
    ensures
        r@ == hex_bytes_text(sha256(bytes@)),
{
    let digest = sha256_digest(bytes);
    hex_bytes(digest.as_slice())
}

/// Whether `identity` is what is known of a certificate: its fingerprint. Its names are
/// not read.
pub open spec fn is_identity(cert: CertificateDer<'static>, identity: PeerIdentity) -> bool {
    &&& identity.subject_dn@ == "(unknown)"@
    &&& identity.issuer_dn@ == "(unknown)"@
    &&& identity.fingerprint@ == hex_bytes_text(sha256(certificate_bytes(cert)))
}

/// Whether a certificate has a fingerprint: no certificate is so large in fact that it has
/// none.
pub open spec fn has_fingerprint(cert: CertificateDer<'static>) -> bool {
    certificate_bytes(cert).len() <= DIGEST_LIMIT
}

fn extract_identity(cert: &CertificateDer<'static>) -> (r: Result<PeerIdentity, AuthError>)
    ensures
        match r {
            Ok(identity) => has_fingerprint(*cert) && is_identity(*cert, identity),
            Err(e) => !has_fingerprint(*cert) && (e matches AuthError::InvalidClientCert(m) && m@
                == "certificate too large"@),
        },
{
    let bytes = der_bytes(cert);
    if bytes.len() as u64 > DIGEST_LIMIT {
        return Err(AuthError::InvalidClientCert("certificate too large".to_owned()));
    }
    Ok(
        PeerIdentity {
            subject_dn: "(unknown)".to_owned(),
            issuer_dn: "(unknown)".to_owned(),
            fingerprint: fingerprint(bytes),
        },
    )
}

/// Takes the identity of a client from the certificate that the TLS layer has checked.
#[derive(Debug, Clone, Copy)]
pub struct MtlsProvider {
    required: bool,
}

impl MtlsProvider {
    /// Whether a client without a certificate is refused.
    pub closed spec fn is_required(&self) -> bool {
        self.required
    }

    pub fn new(required: bool) -> (r: Self)
        ensures
            r.is_required() == required,
    {
        MtlsProvider { required }
    }

    /// The identity of the client, if it has a certificate.
    pub fn verify(&self, extensions: &Extensions) -> (r: Result<Option<PeerIdentity>, AuthError>)
        ensures
            match attached_certificate(*extensions) {
                Some(cert) => if has_fingerprint(cert.0) {
                    r matches Ok(Some(identity)) && is_identity(cert.0, identity)
                } else {
                    r matches Err(AuthError::InvalidClientCert(m)) && m@
                        == "certificate too large"@
                },
                None => if self.is_required() {
                    r == Err::<Option<PeerIdentity>, AuthError>(AuthError::MissingClientCert)
                } else {
                    r == Ok::<Option<PeerIdentity>, AuthError>(None)
                },
            },
    {
        match find_certificate(extensions) {
            Some(peer) => match extract_identity(&peer.0) {
                Ok(identity) => Ok(Some(identity)),
                Err(e) => Err(e),
            },
            None => if self.required {
                Err(AuthError::MissingClientCert)
            } else {
                Ok(None)
            },
        }
    }
}

// ── Laws ────────────────────────────────────────────────────────────────────

/// A client is known by the digest of its certificate, each byte in two hexadecimal digits; the
/// names in the certificate are not read.
pub proof fn law_certificates_are_known_by_their_digest(
    cert: CertificateDer<'static>,
    identity: PeerIdentity,
    i: int,
)
    requires
        is_identity(cert, identity),
        0 <= i < sha256(certificate_bytes(cert)).len(),
    ensures
        identity.subject_dn@ == "(unknown)"@,
        identity.issuer_dn@ == "(unknown)"@,
        identity.fingerprint@.len() == 2 * sha256(certificate_bytes(cert)).len(),
        ({
            let high = (sha256(certificate_bytes(cert))[i] / 16) as u32;
            let low = (sha256(certificate_bytes(cert))[i] % 16) as u32;
            &&& identity.fingerprint@[2 * i] as u32 == if high < 10 { 48 + high } else { 87 + high }
            &&& identity.fingerprint@[2 * i + 1] as u32 == if low < 10 { 48 + low } else { 87 + low }
        }),
{
    law_bytes_in_hex(sha256(certificate_bytes(cert)), i);
}

} // verus!
