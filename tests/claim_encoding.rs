use alloy_sol_types::private::FixedBytes;
use alloy_sol_types::SolValue;
use dkim_claim::claim::PublicClaim;

fn word(n: u64) -> Vec<u8> {
    let mut w = vec![0u8; 24];
    w.extend_from_slice(&n.to_be_bytes());
    w
}

fn sample(receiver: &str, amount: &str, sender: &str, result: bool) -> PublicClaim {
    PublicClaim {
        from_domain_hash: [1u8; 32],
        public_key_hash: [2u8; 32],
        result,
        receiver: receiver.to_string(),
        amount: amount.to_string(),
        sender: sender.to_string(),
    }
}

fn same(a: &PublicClaim, b: &PublicClaim) -> bool {
    a.from_domain_hash == b.from_domain_hash
        && a.public_key_hash == b.public_key_hash
        && a.result == b.result
        && a.receiver == b.receiver
        && a.amount == b.amount
        && a.sender == b.sender
}

fn alloy_encoding(c: &PublicClaim) -> Vec<u8> {
    (
        FixedBytes::<32>::from(c.from_domain_hash),
        FixedBytes::<32>::from(c.public_key_hash),
        c.result,
        c.receiver.clone(),
        c.amount.clone(),
        c.sender.clone(),
    )
        .abi_encode()
}

#[test]
fn encode_exact_layout() {
    let c = sample("ab", "", "c", true);
    let mut want = word(32);
    want.extend_from_slice(&[1u8; 32]);
    want.extend_from_slice(&[2u8; 32]);
    want.extend(word(1));
    want.extend(word(192));
    want.extend(word(256));
    want.extend(word(288));
    want.extend(word(2));
    want.extend_from_slice(b"ab");
    want.extend_from_slice(&[0u8; 30]);
    want.extend(word(0));
    want.extend(word(1));
    want.extend_from_slice(b"c");
    want.extend_from_slice(&[0u8; 31]);
    assert_eq!(want.len(), 384);
    assert_eq!(c.encode(), want);
}

#[test]
fn encode_matches_abi_library() {
    for c in [
        sample("Jane Doe", "500.00", "ACCT123", true),
        sample("", "", "", false),
        sample(&"x".repeat(64), "1", &"\u{20B9}é".repeat(40), true),
    ] {
        assert_eq!(c.encode(), alloy_encoding(&c));
    }
}

#[test]
fn round_trip_plain() {
    let c = sample("Jane Doe", "500.00", "ACCT123", true);
    let d = PublicClaim::decode(&c.encode()).expect("decodes");
    assert!(same(&c, &d));
}

#[test]
fn round_trip_empty_strings() {
    let c = sample("", "", "", false);
    let d = PublicClaim::decode(&c.encode()).expect("decodes");
    assert!(same(&c, &d));
}

#[test]
fn round_trip_long_and_multibyte_strings() {
    let c = sample(&"r".repeat(1000), &"9".repeat(33), &"\u{20B9}".repeat(300), true);
    let d = PublicClaim::decode(&c.encode()).expect("decodes");
    assert!(same(&c, &d));
}

#[test]
fn decode_rejects_altered_bytes() {
    let c = sample("ab", "", "c", true);
    let mut bytes = c.encode();
    bytes[383] = 7;
    assert!(PublicClaim::decode(&bytes).is_none());
    let mut bytes = c.encode();
    bytes[127] = 2;
    assert!(PublicClaim::decode(&bytes).is_none());
}

#[test]
fn decode_rejects_truncated_and_invalid_utf8() {
    let c = sample("ab", "", "c", true);
    let bytes = c.encode();
    assert!(PublicClaim::decode(&bytes[..bytes.len() - 32]).is_none());
    assert!(PublicClaim::decode(&[]).is_none());
    let mut bad = bytes.clone();
    bad[288] = 0xff;
    assert!(PublicClaim::decode(&bad).is_none());
}
