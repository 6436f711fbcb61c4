//! Decisions of the host across one proof-producing run. The host performs
//! each action (key lookup, proving, proof verification, saving) and hands
//! back what happened.
use vstd::prelude::*;
use crate::claim::{claim_bytes, encodable, PublicClaim};
use crate::header::{HostError, SignatureRef};
use crate::pipeline::committed_bytes;

verus! {

/// Where a run stands.
#[derive(Debug, Clone, Copy, PartialEq, Eq, Structural)]
pub enum Phase {
    AwaitingKey,
    AwaitingProof,
    AwaitingVerification,
    AwaitingSave,
    Finished,
    Failed,
}

/// What the host reports back after performing an action.
#[derive(Debug, Clone, Copy, PartialEq, Eq, Structural)]
pub enum Event {
    KeyResolved,
    KeyUnavailable,
    ProofProduced,
    ProofFailed,
    ProofVerified,
    ProofRejected,
    ProofSaved,
    SaveFailed,
}

/// Why a run stopped without a saved proof.
#[derive(Debug, Clone, Copy, PartialEq, Eq, Structural)]
pub enum StopReason {
    Signature(HostError),
    KeyResolution,
    Proving,
    Verification,
    Saving,
    /// An event that the current phase does not expect.
    OutOfOrder,
}

/// What the host is to do next.
#[derive(Debug, Clone)]
pub enum Action {
    /// Look up the public key for this domain and selector.
    ResolveKey { domain: String, selector: String },
    /// Run the prover on the guest inputs.
    Prove,
    /// Verify the proof against the verification key.
    Verify,
    /// Write the proof to storage.
    Persist,
    /// No signature header names the expected domain.
    ReportInvalidDomain,
    /// The run is over with a saved proof.
    Complete,
    /// The run is over without one.
    Stop(StopReason),
}

/// The first decision, from the outcome of header selection.
pub fn begin(selected: Result<Option<SignatureRef>, HostError>) -> (r: (Phase, Action))
    ensures
        match selected {
            Ok(Some(s)) => r.0 == Phase::AwaitingKey && (r.1 matches Action::ResolveKey { domain, selector }
                && domain@ == s.domain@ && selector@ == s.selector@),
            Ok(None) => r.0 == Phase::Finished && r.1 is ReportInvalidDomain,
            Err(e) => r.0 == Phase::Failed && r.1 == Action::Stop(StopReason::Signature(e)),
        },
{
    match selected {
        Ok(Some(s)) => (Phase::AwaitingKey, Action::ResolveKey { domain: s.domain, selector: s.selector }),
        Ok(None) => (Phase::Finished, Action::ReportInvalidDomain),
        Err(e) => (Phase::Failed, Action::Stop(StopReason::Signature(e))),
    }
}

/// The phase and action after `event` in `phase`.
pub open spec fn transition(phase: Phase, event: Event) -> (Phase, Option<StopReason>) {
    match (phase, event) {
        (Phase::AwaitingKey, Event::KeyResolved) => (Phase::AwaitingProof, None),
        (Phase::AwaitingKey, Event::KeyUnavailable) => (Phase::Failed, Some(StopReason::KeyResolution)),
        (Phase::AwaitingProof, Event::ProofProduced) => (Phase::AwaitingVerification, None),
        (Phase::AwaitingProof, Event::ProofFailed) => (Phase::Failed, Some(StopReason::Proving)),
        (Phase::AwaitingVerification, Event::ProofVerified) => (Phase::AwaitingSave, None),
        (Phase::AwaitingVerification, Event::ProofRejected) => (Phase::Failed, Some(StopReason::Verification)),
        (Phase::AwaitingSave, Event::ProofSaved) => (Phase::Finished, None),
        (Phase::AwaitingSave, Event::SaveFailed) => (Phase::Failed, Some(StopReason::Saving)),
        _ => (Phase::Failed, Some(StopReason::OutOfOrder)),
    }
}

/// The action that goes with entering `next` without a stop reason.
pub open spec fn action_for(next: Phase) -> Action {
    match next {
        Phase::AwaitingProof => Action::Prove,
        Phase::AwaitingVerification => Action::Verify,
        Phase::AwaitingSave => Action::Persist,
        _ => Action::Complete,
    }
}

/// One step of the run. The proof is saved only right after it was
/// verified: `Persist` comes from no other phase or event.
pub fn step(phase: Phase, event: Event) -> (r: (Phase, Action))
    ensures
        r.0 == transition(phase, event).0,
        match transition(phase, event).1 {
            Some(reason) => r.1 == Action::Stop(reason),
            None => r.1 == action_for(r.0),
        },
        r.1 is Persist <==> (phase == Phase::AwaitingVerification && event == Event::ProofVerified),
{
    match (phase, event) {
        (Phase::AwaitingKey, Event::KeyResolved) => (Phase::AwaitingProof, Action::Prove),
        (Phase::AwaitingKey, Event::KeyUnavailable) => (Phase::Failed, Action::Stop(StopReason::KeyResolution)),
        (Phase::AwaitingProof, Event::ProofProduced) => (Phase::AwaitingVerification, Action::Verify),
        (Phase::AwaitingProof, Event::ProofFailed) => (Phase::Failed, Action::Stop(StopReason::Proving)),
        (Phase::AwaitingVerification, Event::ProofVerified) => (Phase::AwaitingSave, Action::Persist),
        (Phase::AwaitingVerification, Event::ProofRejected) => (
            Phase::Failed,
            Action::Stop(StopReason::Verification),
        ),
        (Phase::AwaitingSave, Event::ProofSaved) => (Phase::Finished, Action::Complete),
        (Phase::AwaitingSave, Event::SaveFailed) => (Phase::Failed, Action::Stop(StopReason::Saving)),
        _ => (Phase::Failed, Action::Stop(StopReason::OutOfOrder)),
    }
}

/// The phase reached from `phase` through `events`.
pub open spec fn run_from(phase: Phase, events: Seq<Event>) -> Phase
    decreases events.len(),
{
    if events.len() == 0 {
        phase
    } else {
        run_from(transition(phase, events[0]).0, events.drop_first())
    }
}

/// Whether some step of the run from `phase` through `events` asks to
/// save the proof.
pub open spec fn persists(phase: Phase, events: Seq<Event>) -> bool
    decreases events.len(),
{
    if events.len() == 0 {
        false
    } else {
        (phase == Phase::AwaitingVerification && events[0] == Event::ProofVerified) || persists(
            transition(phase, events[0]).0,
            events.drop_first(),
        )
    }
}

/// Over any sequence of reports, a save is asked for only where the proof
/// was reported verified; a run in which verification never succeeds never
/// saves.
pub proof fn lemma_no_save_without_verification(phase: Phase, events: Seq<Event>)
    ensures
        persists(phase, events) ==> events.contains(Event::ProofVerified),
    decreases events.len(),
{
    if events.len() > 0 {
        lemma_no_save_without_verification(transition(phase, events[0]).0, events.drop_first());
        if persists(phase, events) && events[0] != Event::ProofVerified {
            let k = choose|k: int| 0 <= k < events.drop_first().len() && events.drop_first()[k] == Event::ProofVerified;
            assert(events[k + 1] == Event::ProofVerified);
        }
        if events[0] == Event::ProofVerified {
            assert(events[0] == Event::ProofVerified);
        }
    }
}

/// Reads the claim out of a run's public bytes: the two digests, then the
/// encoded claim whose own digests must agree with them.
pub fn committed_claim(committed: &[u8]) -> (r: Option<PublicClaim>)
    ensures
        match r {
            Some(c) => encodable(c@) && committed@ == committed_bytes(c@),
            None => forall|v: crate::claim::ClaimView| encodable(v) ==> committed_bytes(v) != committed@,
        },
{
    let len = committed.len();
    if len < 64 {
        return None;
    }
    let mut rest: Vec<u8> = Vec::new();
    let mut i: usize = 64;
    while i < len
        invariant
            64 <= i <= len,
            len == committed@.len(),
            rest@ == committed@.subrange(64, i as int),
        decreases len - i,
    {
        rest.push(committed[i]);
        i = i + 1;
        assert(rest@ =~= committed@.subrange(64, i as int));
    }
    let c = match PublicClaim::decode(rest.as_slice()) {
        Some(c) => c,
        None => {
            proof {
                assert forall|v: crate::claim::ClaimView| encodable(v) implies committed_bytes(v) != committed@ by {
                    if committed_bytes(v) == committed@ {
                        assert(committed@.subrange(64, len as int) =~= claim_bytes(v));
                    }
                }
            }
            return None;
        },
    };
    let mut ok = true;
    let mut j: usize = 0;
    while j < 32
        invariant
            j <= 32,
            len == committed@.len(),
            64 <= len,
            ok == forall|k: int| 0 <= k < j ==> committed@[k] == c.from_domain_hash@[k] && committed@[32 + k]
                == c.public_key_hash@[k],
        decreases 32 - j,
    {
        ok = ok && committed[j] == c.from_domain_hash[j] && committed[32 + j] == c.public_key_hash[j];
        j = j + 1;
    }
    if ok {
        assert(committed@ =~= committed_bytes(c@));
        Some(c)
    } else {
        proof {
            assert forall|v: crate::claim::ClaimView| encodable(v) implies committed_bytes(v) != committed@ by {
                if committed_bytes(v) == committed@ {
                    assert(committed@.subrange(64, len as int) =~= claim_bytes(v));
                    crate::claim::lemma_claim_round_trip(v, c@);
                    let k = choose|k: int| 0 <= k < 32 && !(committed@[k] == c.from_domain_hash@[k] && committed@[32 + k]
                        == c.public_key_hash@[k]);
                    assert(committed@[k] == v.from_domain_hash[k]);
                    assert(committed@[32 + k] == v.public_key_hash[k]);
                }
            }
        }
        None
    }
}

} // verus!
