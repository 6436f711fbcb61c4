//! The verification run performed inside the isolated environment.
use vstd::prelude::*;
use crate::claim::{claim_bytes, claim_len, encodable, ClaimView, PublicClaim};
use crate::digest::{domain_digest, key_digest, signing_identity, SigningIdentity};
use crate::extract::{lossy_text, payment_facts_of, PaymentFacts};

verus! {

/// Whether `raw` parses as a MIME message.
pub uninterp spec fn parses_as_mail(raw: Seq<u8>) -> bool;

/// Relies on `mailparse::parse_mail`: whether the bytes parse as a message,
/// which depends on the bytes alone.
#[verifier::external_body]
fn mail_parses(raw: &[u8]) -> (r: bool)
    ensures
        r == parses_as_mail(raw@),
{
    mailparse::parse_mail(raw).is_ok()
}

/// The inputs of a run, in the order the host writes them.
#[derive(Debug, Clone)]
pub struct GuestInputs {
    pub from_domain: String,
    pub raw_email: Vec<u8>,
    pub public_key_type: String,
    pub public_key: Vec<u8>,
}

/// What the authentication capability reported for the message.
#[derive(Debug, Clone, Copy, PartialEq, Eq, Structural)]
pub enum Authentication {
    /// The signature validated with no error.
    Passed,
    /// Authentication ran and the signature did not validate.
    Failed,
    /// Authentication could not be carried out on these inputs.
    Unavailable,
}

/// Fatal outcomes of a run: no claim is committed.
#[derive(Debug, Clone, Copy, PartialEq, Eq, Structural)]
pub enum RunError {
    /// The message does not parse.
    MalformedMessage,
    /// Authentication could not be carried out.
    AuthenticationUnavailable,
    /// The claim's encoding would not fit in memory.
    ClaimTooLarge,
}

/// What a run commits: the claim and the public bytes.
#[derive(Debug, Clone)]
pub struct RunOutput {
    pub claim: PublicClaim,
    pub committed: Vec<u8>,
}

/// The public bytes of a run: the domain digest, the key digest, then the
/// encoded claim.
pub open spec fn committed_bytes(v: ClaimView) -> Seq<u8> {
    v.from_domain_hash + v.public_key_hash + claim_bytes(v)
}

/// The claim a run on these inputs commits.
pub open spec fn expected_claim(domain: Seq<char>, raw: Seq<u8>, key: Seq<u8>, passed: bool) -> ClaimView {
    let facts = payment_facts_of(lossy_text(raw));
    ClaimView {
        from_domain_hash: domain_digest(domain),
        public_key_hash: key_digest(key),
        result: passed,
        receiver: facts.0,
        amount: facts.1,
        sender: facts.2,
    }
}

/// Assembles the claim from the digests, the authentication result and the
/// extracted facts.
pub fn build_claim(identity: &SigningIdentity, authenticated: bool, facts: PaymentFacts) -> (r: PublicClaim)
    ensures
        r.from_domain_hash == identity.domain_hash,
        r.public_key_hash == identity.public_key_hash,
        r.result == authenticated,
        r.receiver@ == facts.receiver@,
        r.amount@ == facts.amount@,
        r.sender@ == facts.sender@,
{
    PublicClaim {
        from_domain_hash: identity.domain_hash,
        public_key_hash: identity.public_key_hash,
        result: authenticated,
        receiver: facts.receiver,
        amount: facts.amount,
        sender: facts.sender,
    }
}

/// The committed bytes of a claim.
pub fn public_output(claim: &PublicClaim) -> (r: Vec<u8>)
    requires
        64 + claim_len(claim@) <= usize::MAX,
    ensures
        r@ == committed_bytes(claim@),
{
    let mut out: Vec<u8> = Vec::new();
    let mut i: usize = 0;
    while i < 32
        invariant
            i <= 32,
            out@ == claim.from_domain_hash@.subrange(0, i as int),
        decreases 32 - i,
    {
        out.push(claim.from_domain_hash[i]);
        i = i + 1;
        assert(out@ =~= claim.from_domain_hash@.subrange(0, i as int));
    }
    let mut j: usize = 0;
    while j < 32
        invariant
            j <= 32,
            out@ == claim.from_domain_hash@ + claim.public_key_hash@.subrange(0, j as int),
        decreases 32 - j,
    {
        out.push(claim.public_key_hash[j]);
        j = j + 1;
        assert(out@ =~= claim.from_domain_hash@ + claim.public_key_hash@.subrange(0, j as int));
    }
    assert(claim.from_domain_hash@.subrange(0, 32) =~= claim.from_domain_hash@);
    assert(claim.public_key_hash@.subrange(0, 32) =~= claim.public_key_hash@);
    let mut body = claim.encode();
    out.append(&mut body);
    out
}

fn padded_size(n: usize) -> (r: u128)
    ensures
        r == 32 + crate::claim::padded(n as nat),
{
    let rem = n % 32;
    if rem == 0 {
        32 + n as u128
    } else {
        32 + n as u128 + (32 - rem) as u128
    }
}

/// One run: parse the message, hash the domain and key, take the
/// authentication result, extract the payment facts (whatever that result
/// is) and commit the claim.
pub fn run(inputs: &GuestInputs, authentication: Authentication) -> (r: Result<RunOutput, RunError>)
    ensures
        !parses_as_mail(inputs.raw_email@) ==> r == Err::<RunOutput, RunError>(RunError::MalformedMessage),
        parses_as_mail(inputs.raw_email@) && authentication == Authentication::Unavailable ==> r == Err::<
            RunOutput,
            RunError,
        >(RunError::AuthenticationUnavailable),
        parses_as_mail(inputs.raw_email@) && authentication != Authentication::Unavailable ==> {
            let v = expected_claim(
                inputs.from_domain@,
                inputs.raw_email@,
                inputs.public_key@,
                authentication == Authentication::Passed,
            );
            &&& 64 + claim_len(v) <= usize::MAX ==> (r matches Ok(out) && out.claim@ == v && out.committed@
                == committed_bytes(v))
            &&& !(64 + claim_len(v) <= usize::MAX) ==> r == Err::<RunOutput, RunError>(RunError::ClaimTooLarge)
        },
{
    if !mail_parses(inputs.raw_email.as_slice()) {
        return Err(RunError::MalformedMessage);
    }
    let identity = signing_identity(inputs.from_domain.as_str(), inputs.public_key.as_slice());
    let passed = match authentication {
        Authentication::Passed => true,
        Authentication::Failed => false,
        Authentication::Unavailable => return Err(RunError::AuthenticationUnavailable),
    };
    let facts = PaymentFacts::extract_from_bytes(inputs.raw_email.as_slice());
    let claim = build_claim(&identity, passed, facts);
    let total = 64 + 32 + 192 + padded_size(claim.receiver.as_str().as_bytes().len())
        + padded_size(claim.amount.as_str().as_bytes().len()) + padded_size(claim.sender.as_str().as_bytes().len());
    let ghost v = expected_claim(
        inputs.from_domain@,
        inputs.raw_email@,
        inputs.public_key@,
        authentication == Authentication::Passed,
    );
    assert(claim@ =~= v);
    assert(total == 64 + claim_len(v));
    if total > usize::MAX as u128 {
        return Err(RunError::ClaimTooLarge);
    }
    let committed = public_output(&claim);
    Ok(RunOutput { claim, committed })
}


/// A run whose authentication reports failure commits `result = false`,
/// with the digests of the domain and of the key bytes still in place.
pub proof fn lemma_failed_authentication_commits_false(domain: Seq<char>, raw: Seq<u8>, key: Seq<u8>)
    ensures
        !expected_claim(domain, raw, key, false).result,
        expected_claim(domain, raw, key, false).from_domain_hash == domain_digest(domain),
        expected_claim(domain, raw, key, false).public_key_hash == key_digest(key),
{
}

/// When the payment template does not match the body, the three facts of
/// the claim are empty and its result is the authentication result.
pub proof fn lemma_no_notification_empty_facts(domain: Seq<char>, raw: Seq<u8>, key: Seq<u8>, passed: bool)
    requires
        crate::extract::regex_captures(crate::extract::PAYMENT_PATTERN@, lossy_text(raw)) is None,
    ensures
        expected_claim(domain, raw, key, passed).receiver == Seq::<char>::empty(),
        expected_claim(domain, raw, key, passed).amount == Seq::<char>::empty(),
        expected_claim(domain, raw, key, passed).sender == Seq::<char>::empty(),
        expected_claim(domain, raw, key, passed).result == passed,
{
}

} // verus!
