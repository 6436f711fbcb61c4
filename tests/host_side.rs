use dkim_claim::header::{select_signature, HostError};
use dkim_claim::lifecycle::{begin, step, Action, Event, Phase, StopReason};
use dkim_claim::message::{normalize_line_endings, signature_header_values, MessageError};

fn sig(d: &str, s: &str) -> String {
    format!("v=1; a=rsa-sha256; d={}; s={}; h=from; bh=abc; b=def", d, s)
}

#[test]
fn selection_skips_other_domains() {
    let values = vec![sig("other.com", "s1"), sig("PhonePe.COM", "s2"), sig("phonepe.com", "s3")];
    let r = select_signature("phonepe.com", &values).expect("well formed").expect("found");
    assert_eq!(r.domain, "PhonePe.COM");
    assert_eq!(r.selector, "s2");
}

#[test]
fn selection_without_match_is_none() {
    let values = vec![sig("other.com", "s1"), sig("example.org", "s2")];
    assert!(select_signature("phonepe.com", &values).expect("well formed").is_none());
    assert!(select_signature("phonepe.com", &vec![]).expect("empty").is_none());
}

#[test]
fn selection_errors() {
    let missing = vec!["v=1; a=rsa-sha256; d=phonepe.com".to_string()];
    assert_eq!(select_signature("phonepe.com", &missing).err(), Some(HostError::MissingTag));
    let malformed = vec!["=;=".to_string()];
    assert_eq!(select_signature("phonepe.com", &malformed).err(), Some(HostError::MalformedSignature));
}

#[test]
fn later_tag_overrides_earlier() {
    let values = vec!["d=other.com; s=a; d=phonepe.com".to_string()];
    let r = select_signature("phonepe.com", &values).expect("ok").expect("found");
    assert_eq!(r.domain, "phonepe.com");
    assert_eq!(r.selector, "a");
}

#[test]
fn header_values_in_order() {
    let raw = b"From: a@b.c\r\nDKIM-Signature: d=one.com; s=x\r\nSubject: s\r\ndkim-signature: d=two.com; s=y\r\n\r\nbody";
    let v = signature_header_values(raw).expect("parses");
    assert_eq!(v, vec!["d=one.com; s=x".to_string(), "d=two.com; s=y".to_string()]);
    assert_eq!(signature_header_values(b" x: y\r\n\r\n").err(), Some(MessageError::MalformedHeaders));
}

#[test]
fn line_feeds_become_crlf() {
    assert_eq!(normalize_line_endings(b"a\nb\r\nc"), b"a\r\nb\r\r\nc".to_vec());
    assert_eq!(normalize_line_endings(b""), Vec::<u8>::new());
}

#[test]
fn run_saves_only_after_verification() {
    let (p, a) = begin(Ok(None));
    assert_eq!(p, Phase::Finished);
    assert!(matches!(a, Action::ReportInvalidDomain));
    let (p, _) = step(Phase::AwaitingKey, Event::KeyResolved);
    assert_eq!(p, Phase::AwaitingProof);
    let (p, a) = step(p, Event::ProofProduced);
    assert!(matches!(a, Action::Verify));
    let (p2, a2) = step(p, Event::ProofRejected);
    assert_eq!(p2, Phase::Failed);
    assert!(matches!(a2, Action::Stop(StopReason::Verification)));
    let (p3, a3) = step(p, Event::ProofVerified);
    assert_eq!(p3, Phase::AwaitingSave);
    assert!(matches!(a3, Action::Persist));
    let (_, a4) = step(Phase::AwaitingProof, Event::ProofVerified);
    assert!(matches!(a4, Action::Stop(StopReason::OutOfOrder)));
}
