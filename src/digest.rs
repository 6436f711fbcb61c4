//! Commitment digests that bind a claim to its signing domain and key.
use vstd::prelude::*;

verus! {

/// The SHA-256 digest of `data`.
pub uninterp spec fn sha256_of(data: Seq<u8>) -> Seq<u8>;

/// Relies on `sha2::Sha256::digest`: the SHA-256 digest of the bytes, which
/// depends on those bytes alone.
#[verifier::external_body]
fn sha256(data: &[u8]) -> (r: [u8; 32])
    ensures
        r@ == sha256_of(data@),
{
    <sha2::Sha256 as sha2::Digest>::digest(data).into()
}

/// The pair of digests committed for a run.
#[derive(Debug, Clone, Copy)]
pub struct SigningIdentity {
    pub domain_hash: [u8; 32],
    pub public_key_hash: [u8; 32],
}

/// Digest of the UTF-8 bytes of a domain name.
pub open spec fn domain_digest(domain: Seq<char>) -> Seq<u8> {
    sha256_of(vstd::utf8::encode_utf8(domain))
}

/// Digest of raw public-key bytes.
pub open spec fn key_digest(key: Seq<u8>) -> Seq<u8> {
    sha256_of(key)
}

/// Hashes the claimed sending domain and the public-key bytes.
pub fn signing_identity(domain: &str, public_key: &[u8]) -> (r: SigningIdentity)
    ensures
        r.domain_hash@ == domain_digest(domain@),
        r.public_key_hash@ == key_digest(public_key@),
{
    SigningIdentity { domain_hash: sha256(domain.as_bytes()), public_key_hash: sha256(public_key) }
}

/// Equal domains and equal key bytes always give equal digests, in every
/// run: the commitment depends on nothing but those inputs.
pub proof fn lemma_identity_deterministic(d1: Seq<char>, d2: Seq<char>, k1: Seq<u8>, k2: Seq<u8>)
    requires
        d1 == d2,
        k1 == k2,
    ensures
        domain_digest(d1) == domain_digest(d2),
        key_digest(k1) == key_digest(k2),
{
}

} // verus!
