use dkim_claim::extract::PaymentFacts;

const SAMPLE: &str = "Subject: Payment\r\n\r\nHello,\r\nPaid to: Jane Doe\r\nTxn details\r\nAmount \u{20B9}500.00 sent\r\nDebited from: ACCT123\r\nThanks\r\n";

#[test]
fn extracts_sample_notification() {
    let f = PaymentFacts::extract(SAMPLE);
    assert_eq!(f.receiver, "Jane Doe");
    assert_eq!(f.amount, "500.00");
    assert_eq!(f.sender, "ACCT123");
}

#[test]
fn extracts_from_bytes_with_line_feeds() {
    let text = "Paid to :  Jane Doe  \nsomething\n\u{20B9} 42\nDebited from : AB12\n";
    let f = PaymentFacts::extract_from_bytes(text.as_bytes());
    assert_eq!(f.receiver, "Jane Doe");
    assert_eq!(f.amount, "42");
    assert_eq!(f.sender, "AB12");
}

#[test]
fn invalid_utf8_is_read_lossily() {
    let mut raw = vec![0xffu8, 0xfe];
    raw.extend_from_slice(SAMPLE.as_bytes());
    let f = PaymentFacts::extract_from_bytes(&raw);
    assert_eq!(f.receiver, "Jane Doe");
    assert_eq!(f.amount, "500.00");
    assert_eq!(f.sender, "ACCT123");
}

#[test]
fn absent_notification_gives_empty_facts() {
    let f = PaymentFacts::extract("Subject: hi\r\n\r\nNothing to see here.\r\n");
    assert_eq!(f.receiver, "");
    assert_eq!(f.amount, "");
    assert_eq!(f.sender, "");
}

#[test]
fn incomplete_notification_gives_empty_facts() {
    let f = PaymentFacts::extract("Paid to: Jane Doe\r\n\u{20B9}500.00\r\n");
    assert_eq!(f.receiver, "");
    assert_eq!(f.amount, "");
    assert_eq!(f.sender, "");
}

#[test]
fn extract_info_trims_first_group() {
    let content = "Paid to =\n  Jane Doe \nmore";
    let v = dkim_claim::extract::extract_info(content, r"Paid to\s*=\s*\n\s*(\S+(?:\s+\S+\s\S*))");
    assert_eq!(v, Some("Jane Doe".to_string()));
}

#[test]
fn extract_info_amount_and_txn() {
    let content = "Txn. ID =\n: =\n T12345\nAmount &#8377; 250 paid";
    assert_eq!(
        dkim_claim::extract::extract_info(content, r"Txn\.\s*ID\s*=\s*\n\s*:\s*=\s*\n\s*(\S+)"),
        Some("T12345".to_string())
    );
    assert_eq!(dkim_claim::extract::extract_info(content, r"&#8377;\s*(\d+)"), Some("250".to_string()));
}

#[test]
fn extract_info_absent_or_groupless() {
    assert_eq!(dkim_claim::extract::extract_info("nothing", r"Amount (\d+)"), None);
    assert_eq!(dkim_claim::extract::extract_info("abc", "abc"), None);
    assert_eq!(dkim_claim::extract::extract_info("abc", r"(?=a)(b)"), None);
}
