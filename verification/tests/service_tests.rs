use katana_messaging::gather::MessengerKind;
use katana_messaging::hash::Hash32;
use katana_messaging::service::{
    GatherPoll, MessagingConfig, MessagingOutcome, MessagingService, PollStep, SendPoll, MAX_GATHER_BLOCKS,
};

fn service(gather_from: u64, send_from: u64) -> MessagingService {
    let config = MessagingConfig {
        gather_from_block: gather_from,
        send_from_block: send_from,
        tx_hash: Hash32::from_bytes([3u8; 32]),
        interval: 2,
        path: "messaging.json".to_string(),
    };
    MessagingService::new(config, MessengerKind::Starknet)
}

#[test]
fn new_takes_the_configuration() {
    let s = service(10, 4);
    assert_eq!(s.gather_from_block(), 10);
    assert_eq!(s.send_from_block(), 4);
    assert!(s.tx_hash().same_as(&Hash32::from_bytes([3u8; 32])));
    assert_eq!(s.path(), "messaging.json");
    assert_eq!(s.kind(), MessengerKind::Starknet);
    assert!(!s.gather_in_flight());
    assert!(!s.send_in_flight());
}

#[test]
fn one_gathering_at_a_time() {
    let mut s = service(10, 4);
    assert_eq!(s.start_gather(), Some(10));
    assert!(s.gather_in_flight());
    assert_eq!(s.start_gather(), None);
    assert_eq!(s.gather_polled(GatherPoll::Pending), PollStep::Continue);
    assert_eq!(s.start_gather(), None);
}

#[test]
fn gathering_resumes_after_the_reported_block() {
    let mut s = service(10, 4);
    s.start_gather();
    let step = s.gather_polled(GatherPoll::Gathered { last_block: 15, msg_count: 3 });
    assert_eq!(step, PollStep::Ready(MessagingOutcome::Gather { lastest_block: 15, msg_count: 3 }));
    assert_eq!(s.gather_from_block(), 16);
    assert!(!s.gather_in_flight());
    assert_eq!(s.start_gather(), Some(16));
}

#[test]
fn failed_gathering_is_retried_from_the_same_block() {
    let mut s = service(10, 4);
    s.start_gather();
    assert_eq!(s.gather_polled(GatherPoll::Failed), PollStep::ReturnPending);
    assert_eq!(s.gather_from_block(), 10);
    assert_eq!(s.start_gather(), Some(10));
}

#[test]
fn gathering_poll_without_gathering_continues() {
    let mut s = service(10, 4);
    assert_eq!(s.gather_polled(GatherPoll::Failed), PollStep::Continue);
    assert_eq!(s.gather_from_block(), 10);
}

#[test]
fn sending_waits_for_the_local_chain() {
    let mut s = service(0, 4);
    assert_eq!(s.start_send(3), None);
    assert!(!s.send_in_flight());
    assert_eq!(s.start_send(4), Some(4));
    assert!(s.send_in_flight());
    assert_eq!(s.start_send(100), None);
}

#[test]
fn settled_block_moves_the_cursor_by_one() {
    let mut s = service(0, 4);
    s.start_send(9);
    assert_eq!(s.send_polled(SendPoll::Pending), None);
    let out = s.send_polled(SendPoll::Settled { block_num: 4, msg_count: 2 });
    assert_eq!(out, Some(MessagingOutcome::Send { block_num: 4, msg_count: 2 }));
    assert_eq!(s.send_from_block(), 5);
    assert!(!s.send_in_flight());
}

#[test]
fn failed_sending_moves_on() {
    let mut s = service(0, 4);
    s.start_send(9);
    assert_eq!(s.send_polled(SendPoll::Failed), None);
    assert_eq!(s.send_from_block(), 5);
    assert!(!s.send_in_flight());
}

#[test]
fn block_without_receipts_is_tried_again() {
    let mut s = service(0, 4);
    s.start_send(9);
    assert_eq!(s.send_polled(SendPoll::NotSettled), None);
    assert_eq!(s.send_from_block(), 4);
    assert_eq!(s.start_send(9), Some(4));
}

#[test]
fn polling_one_side_leaves_the_other() {
    let mut s = service(10, 4);
    s.start_gather();
    s.start_send(4);
    s.gather_polled(GatherPoll::Gathered { last_block: 30, msg_count: 0 });
    assert!(s.send_in_flight());
    assert_eq!(s.send_from_block(), 4);
    s.send_polled(SendPoll::Settled { block_num: 4, msg_count: 1 });
    assert_eq!(s.gather_from_block(), 31);
}

#[test]
fn sending_keeps_the_block_in_flight() {
    let mut s = service(0, 4);
    assert_eq!(s.sending(), None);
    s.start_send(9);
    assert_eq!(s.sending(), Some(4));
    s.send_polled(SendPoll::Settled { block_num: 4, msg_count: 0 });
    assert_eq!(s.sending(), None);
}

#[test]
fn run_sends_consecutive_blocks() {
    let mut s = service(0, 2);
    let mut sent = Vec::new();
    for latest in [1u64, 3, 3, 10, 10] {
        s.start_gather();
        if !s.send_in_flight() {
            s.start_send(latest);
        }
        if let Some(block) = s.sending() {
            if let Some(MessagingOutcome::Send { block_num, .. }) =
                s.send_polled(SendPoll::Settled { block_num: block, msg_count: 1 })
            {
                sent.push(block_num);
            }
        }
    }
    assert_eq!(sent, vec![2, 3, 4, 5]);
    assert_eq!(s.send_from_block(), 6);
}

#[test]
fn gathering_window() {
    assert_eq!(MAX_GATHER_BLOCKS, 200);
}

#[test]
fn run_gathers_forward() {
    let mut s = service(10, 0);
    let mut reached = Vec::new();
    for last in [12u64, 12, 9, 30] {
        let from = s.start_gather().unwrap();
        // A report one block before the start means nothing new was found.
        let last = if last + 1 < from { from - 1 } else { last };
        if let PollStep::Ready(MessagingOutcome::Gather { lastest_block, .. }) =
            s.gather_polled(GatherPoll::Gathered { last_block: last, msg_count: 0 })
        {
            reached.push(lastest_block);
        }
        assert_eq!(s.gather_from_block(), reached.last().unwrap() + 1);
    }
    assert_eq!(reached, vec![12, 12, 12, 30]);
}
