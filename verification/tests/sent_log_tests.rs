use katana_messaging::sent_log::{describe_sent_message, describe_sent_messages, SentMessage, SentMessageLog};

fn message(to: &str, payload: &[&str]) -> SentMessage {
    SentMessage {
        from_address: "0x1".to_string(),
        to_address: to.to_string(),
        to_address_hex: format!("padded-{}", to),
        payload: payload.iter().map(|s| s.to_string()).collect(),
    }
}

#[test]
fn executed_message_reads_target_and_selector_from_payload() {
    let exec = "0xexec".to_string();
    let log = describe_sent_message(&exec, &exec, &message("0x99", &["0xa", "0xb", "0xc", "0xd"]));
    match log {
        SentMessageLog::Executed { from_address, to_address, selector, payload } => {
            assert_eq!(from_address, "0x1");
            assert_eq!(to_address, "0xa");
            assert_eq!(selector, "0xb");
            assert_eq!(payload, vec!["0xc".to_string(), "0xd".to_string()]);
        }
        _ => panic!("expected an executed message"),
    }
}

#[test]
fn l3_message_reads_recipient_from_payload() {
    let log = describe_sent_message(&"0x5".to_string(), &"0xexec".to_string(), &message("0x4d5347", &["0xa", "0xb"]));
    match log {
        SentMessageLog::Sent { hash, to_address, payload, .. } => {
            assert_eq!(hash, "0x5");
            assert_eq!(to_address, "0xa");
            assert_eq!(payload, vec!["0xb".to_string()]);
        }
        _ => panic!("expected a sent message"),
    }
}

#[test]
fn plain_message_keeps_recipient_and_payload() {
    let log = describe_sent_message(&"0x5".to_string(), &"0xexec".to_string(), &message("0x42", &[]));
    match log {
        SentMessageLog::Sent { to_address, payload, .. } => {
            assert_eq!(to_address, "padded-0x42");
            assert!(payload.is_empty());
        }
        _ => panic!("expected a sent message"),
    }
}

#[test]
fn one_log_per_message() {
    let msgs = vec![message("0x42", &["0x1"]), message("0x4d5347", &["0x2"])];
    let hashes = vec!["0xh1".to_string(), "0xh2".to_string()];
    let logs = describe_sent_messages(&msgs, &hashes, &"0xexec".to_string());
    assert_eq!(logs.len(), 2);
    assert!(matches!(&logs[1], SentMessageLog::Sent { to_address, .. } if to_address == "0x2"));
}
