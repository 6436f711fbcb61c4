use dkim_claim::digest::signing_identity;
use dkim_claim::lifecycle::committed_claim;
use dkim_claim::pipeline::{run, Authentication, GuestInputs, RunError};

const DOMAIN_HASH: &str = "575febebbaa08909409130fcf30a6bf6cb6e896cf9624538c40958cceb8a401a";
const KEY_HASH: &str = "6a7df5ff20cd0afbda5ff7fe5b13925e5aee776936efbf0cb46b61f9ee272cc5";

fn hex(b: &[u8]) -> String {
    b.iter().map(|x| format!("{:02x}", x)).collect()
}

fn inputs(body: &str) -> GuestInputs {
    GuestInputs {
        from_domain: "phonepe.com".to_string(),
        raw_email: format!("From: a@phonepe.com\r\nSubject: Paid\r\n\r\n{}", body).into_bytes(),
        public_key_type: "rsa".to_string(),
        public_key: b"key-bytes-123".to_vec(),
    }
}

const BODY: &str = "Paid to: Jane Doe\r\nAmount: \u{20B9}500.00\r\nDebited from: ACCT123\r\n";

#[test]
fn digests_are_sha256_of_domain_and_key() {
    let id = signing_identity("phonepe.com", b"key-bytes-123");
    assert_eq!(hex(&id.domain_hash), DOMAIN_HASH);
    assert_eq!(hex(&id.public_key_hash), KEY_HASH);
    let empty = signing_identity("", b"");
    assert_eq!(hex(&empty.domain_hash), "e3b0c44298fc1c149afbf4c8996fb92427ae41e4649b934ca495991b7852b855");
}

#[test]
fn digests_are_stable_across_calls() {
    let a = signing_identity("phonepe.com", b"key-bytes-123");
    let b = signing_identity("phonepe.com", b"key-bytes-123");
    assert_eq!(a.domain_hash, b.domain_hash);
    assert_eq!(a.public_key_hash, b.public_key_hash);
}

#[test]
fn passed_run_commits_facts_and_digests() {
    let out = run(&inputs(BODY), Authentication::Passed).expect("run succeeds");
    assert!(out.claim.result);
    assert_eq!(hex(&out.claim.from_domain_hash), DOMAIN_HASH);
    assert_eq!(hex(&out.claim.public_key_hash), KEY_HASH);
    assert_eq!(out.claim.receiver, "Jane Doe");
    assert_eq!(out.claim.amount, "500.00");
    assert_eq!(out.claim.sender, "ACCT123");
    assert_eq!(&out.committed[..32], &out.claim.from_domain_hash[..]);
    assert_eq!(&out.committed[32..64], &out.claim.public_key_hash[..]);
    assert_eq!(&out.committed[64..], &out.claim.encode()[..]);
}

#[test]
fn failed_authentication_commits_false_with_digests() {
    let out = run(&inputs(BODY), Authentication::Failed).expect("run succeeds");
    assert!(!out.claim.result);
    assert_eq!(hex(&out.claim.from_domain_hash), DOMAIN_HASH);
    assert_eq!(hex(&out.claim.public_key_hash), KEY_HASH);
    assert_eq!(out.claim.receiver, "Jane Doe");
}

#[test]
fn no_notification_keeps_result() {
    let out = run(&inputs("Just a note.\r\n"), Authentication::Passed).expect("run succeeds");
    assert!(out.claim.result);
    assert_eq!(out.claim.receiver, "");
    assert_eq!(out.claim.amount, "");
    assert_eq!(out.claim.sender, "");
}

#[test]
fn unavailable_authentication_is_fatal() {
    assert_eq!(run(&inputs(BODY), Authentication::Unavailable).err(), Some(RunError::AuthenticationUnavailable));
}

#[test]
fn unparsable_message_is_fatal() {
    let mut i = inputs(BODY);
    i.raw_email = b" leading space\r\n\r\nbody".to_vec();
    assert_eq!(run(&i, Authentication::Passed).err(), Some(RunError::MalformedMessage));
}

#[test]
fn committed_bytes_read_back() {
    let out = run(&inputs(BODY), Authentication::Passed).expect("run succeeds");
    let c = committed_claim(&out.committed).expect("reads back");
    assert!(c.result);
    assert_eq!(c.receiver, "Jane Doe");
    assert_eq!(c.from_domain_hash, out.claim.from_domain_hash);
    let mut bad = out.committed.clone();
    bad[0] ^= 1;
    assert!(committed_claim(&bad).is_none());
    assert!(committed_claim(&out.committed[..40]).is_none());
}
