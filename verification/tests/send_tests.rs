use katana_messaging::gather::MessengerKind;
use katana_messaging::send::{messages_of_receipts, send_messages_plan, send_messages_settle, SendPlan};

#[test]
fn block_without_receipts_finishes_unsettled() {
    assert!(matches!(send_messages_plan(7, None), SendPlan::Finish(None)));
}

#[test]
fn block_without_messages_finishes_with_zero() {
    assert!(matches!(send_messages_plan(7, Some(0)), SendPlan::Finish(Some((7, 0)))));
}

#[test]
fn block_with_messages_is_sent() {
    assert!(matches!(send_messages_plan(7, Some(3)), SendPlan::Send));
}

#[test]
fn accepted_messages_are_counted_and_recorded_on_starknet() {
    let s = send_messages_settle(MessengerKind::Starknet, 7, Some(3));
    assert_eq!(s.outcome, (7, 3));
    assert_eq!(s.record_send_from_block, Some(7));
    let e = send_messages_settle(MessengerKind::Ethereum, 7, Some(3));
    assert_eq!(e.outcome, (7, 3));
    assert_eq!(e.record_send_from_block, None);
}

#[test]
fn failed_sending_reports_the_block_with_no_message() {
    let s = send_messages_settle(MessengerKind::Starknet, 9, None);
    assert_eq!(s.outcome, (9, 0));
    assert_eq!(s.record_send_from_block, None);
}

#[test]
fn receipts_are_flattened_in_order() {
    let receipts = vec![vec![1, 2], vec![], vec![3], vec![4, 5]];
    assert_eq!(messages_of_receipts(receipts), vec![1, 2, 3, 4, 5]);
    let none: Vec<Vec<u8>> = Vec::new();
    assert!(messages_of_receipts(none).is_empty());
}
