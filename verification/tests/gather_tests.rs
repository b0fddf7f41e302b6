use katana_messaging::gather::{gather_messages, GatherAction, MessengerKind};
use katana_messaging::hash::Hash32;

fn h(b: u8) -> Hash32 {
    let mut bytes = [0u8; 32];
    bytes[31] = b;
    Hash32::from_bytes(bytes)
}

#[test]
fn same_as_compares_every_byte() {
    let mut a = [7u8; 32];
    let b = a;
    assert!(Hash32::from_bytes(a).same_as(&Hash32::from_bytes(b)));
    a[0] = 8;
    assert!(!Hash32::from_bytes(a).same_as(&Hash32::from_bytes(b)));
    assert!(!h(1).same_as(&h(2)));
}

#[test]
fn ethereum_adds_every_gathered_transaction() {
    let hashes = vec![h(1), h(2), h(3)];
    let plan = gather_messages(MessengerKind::Ethereum, &hashes, &h(2), 40);
    assert_eq!(
        plan.actions,
        vec![GatherAction::AddToPool(0), GatherAction::AddToPool(1), GatherAction::AddToPool(2)]
    );
    assert_eq!(plan.outcome, (40, 3));
}

#[test]
fn starknet_adds_only_after_the_last_processed_message() {
    let hashes = vec![h(1), h(2), h(3), h(4)];
    let plan = gather_messages(MessengerKind::Starknet, &hashes, &h(2), 12);
    assert_eq!(
        plan.actions,
        vec![
            GatherAction::RecordHash(0),
            GatherAction::RecordHash(1),
            GatherAction::AddToPool(2),
            GatherAction::RecordHash(2),
            GatherAction::AddToPool(3),
            GatherAction::RecordHash(3),
            GatherAction::RecordBlock(12),
        ]
    );
    assert_eq!(plan.outcome, (12, 4));
}

#[test]
fn starknet_without_the_last_processed_message_adds_nothing() {
    let hashes = vec![h(5), h(6)];
    let plan = gather_messages(MessengerKind::Starknet, &hashes, &h(9), 3);
    assert_eq!(
        plan.actions,
        vec![GatherAction::RecordHash(0), GatherAction::RecordHash(1), GatherAction::RecordBlock(3)]
    );
}

#[test]
fn starknet_repeated_hash_resumes_at_its_first_occurrence() {
    let hashes = vec![h(2), h(7), h(2)];
    let plan = gather_messages(MessengerKind::Starknet, &hashes, &h(2), 1);
    assert_eq!(
        plan.actions,
        vec![
            GatherAction::RecordHash(0),
            GatherAction::AddToPool(1),
            GatherAction::RecordHash(1),
            GatherAction::AddToPool(2),
            GatherAction::RecordHash(2),
            GatherAction::RecordBlock(1),
        ]
    );
}

#[test]
fn empty_rounds() {
    let none: Vec<Hash32> = Vec::new();
    let eth = gather_messages(MessengerKind::Ethereum, &none, &h(1), 8);
    assert!(eth.actions.is_empty());
    assert_eq!(eth.outcome, (8, 0));
    let stark = gather_messages(MessengerKind::Starknet, &none, &h(1), 8);
    assert_eq!(stark.actions, vec![GatherAction::RecordBlock(8)]);
}

#[test]
fn restart_regathers_without_adding_processed_messages() {
    // First round: the last message processed is h(3), recorded in the file.
    let first = vec![h(1), h(2), h(3)];
    let plan = gather_messages(MessengerKind::Starknet, &first, &h(1), 20);
    let last_recorded = plan
        .actions
        .iter()
        .filter_map(|a| match a {
            GatherAction::RecordHash(i) => Some(*i),
            _ => None,
        })
        .last()
        .unwrap();
    assert_eq!(last_recorded, 2);
    // After a restart, block 20 is gathered again, with new messages after it.
    let again = vec![h(1), h(2), h(3), h(4), h(5)];
    let plan = gather_messages(MessengerKind::Starknet, &again, &first[last_recorded], 21);
    let added: Vec<usize> = plan
        .actions
        .iter()
        .filter_map(|a| match a {
            GatherAction::AddToPool(i) => Some(*i),
            _ => None,
        })
        .collect();
    assert_eq!(added, vec![3, 4]);
}
