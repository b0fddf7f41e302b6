use vstd::prelude::*;

use crate::gather::MessengerKind;

verus! {

/// What to do with a local block whose messages are to be sent.
#[derive(Clone, Copy, Debug)]
pub enum SendPlan {
    /// Finish the round with this result, without sending anything.
    Finish(Option<(u64, usize)>),
    /// Send the block's messages to the settlement chain.
    Send,
}

/// What a sending round reports once the settlement chain answered.
#[derive(Clone, Copy, Debug)]
pub struct Settlement {
    /// The local block and the number of messages settled from it.
    pub outcome: (u64, usize),
    /// The block to record as `send_from_block` in the configuration file, if any.
    pub record_send_from_block: Option<u64>,
}

pub open spec fn send_plan_spec(block_num: u64, messages: Option<usize>) -> SendPlan {
    match messages {
        None => SendPlan::Finish(None),
        Some(n) => if n == 0 {
            SendPlan::Finish(Some((block_num, 0usize)))
        } else {
            SendPlan::Send
        },
    }
}

pub open spec fn settlement_spec(kind: MessengerKind, block_num: u64, sent: Option<usize>) -> Settlement {
    Settlement {
        outcome: (block_num, match sent {
            Some(n) => n,
            None => 0usize,
        }),
        record_send_from_block: match (kind, sent) {
            (MessengerKind::Starknet, Some(_)) => Some(block_num),
            _ => None,
        },
    }
}

/// Decides, from the messages to the settlement chain found in the receipts
/// of local block `block_num` (`None` when the block has no receipts), whether
/// there is anything to send.
pub fn send_messages_plan(block_num: u64, messages: Option<usize>) -> (plan: SendPlan)
    ensures
        plan == send_plan_spec(block_num, messages),
        plan == SendPlan::Finish(None) <==> messages is None,
        plan is Send <==> (messages matches Some(n) && n > 0),
        plan matches SendPlan::Finish(Some(r)) ==> r == (block_num, 0usize) && messages == Some(0usize),
{
    match messages {
        None => SendPlan::Finish(None),
        Some(n) => if n == 0 {
            SendPlan::Finish(Some((block_num, 0)))
        } else {
            SendPlan::Send
        },
    }
}

/// Decides what a sending round reports, from the number of message hashes
/// the settlement chain returned (`None` when sending failed). A failure still
/// reports the block, with no message, so that the block is not retried
/// forever.
pub fn send_messages_settle(kind: MessengerKind, block_num: u64, sent: Option<usize>) -> (s: Settlement)
    ensures
        s == settlement_spec(kind, block_num, sent),
        sent matches Some(n) ==> s.outcome == (block_num, n),
        sent is None ==> s.outcome == (block_num, 0usize),
        s.record_send_from_block == (if kind == MessengerKind::Starknet && sent is Some { Some(block_num) } else { None }),
{
    let count: usize = match sent {
        Some(n) => n,
        None => 0,
    };
    let record = match (kind, sent) {
        (MessengerKind::Starknet, Some(_)) => Some(block_num),
        _ => None,
    };
    Settlement { outcome: (block_num, count), record_send_from_block: record }
}

/// The messages that a local block sends to the settlement chain: those of
/// each of its receipts, receipt after receipt, each receipt's in order.
pub fn messages_of_receipts<T>(receipts: Vec<Vec<T>>) -> (messages: Vec<T>)
    ensures
        messages@ == receipts@.map_values(|r: Vec<T>| r@).flatten(),
{
    let ghost all = receipts@.map_values(|r: Vec<T>| r@).flatten();
    let mut rest = receipts;
    let mut messages: Vec<T> = Vec::new();
    while rest.len() > 0
        invariant
            messages@ + rest@.map_values(|r: Vec<T>| r@).flatten() == all,
        decreases rest.len(),
    {
        let ghost before = rest@;
        let mut receipt = rest.remove(0);
        proof {
            let m = before.map_values(|r: Vec<T>| r@);
            assert(m.first() == receipt@);
            assert(m.drop_first() =~= rest@.map_values(|r: Vec<T>| r@));
            assert(m.flatten() == m.first() + m.drop_first().flatten());
        }
        let ghost prefix = messages@;
        let ghost taken = receipt@;
        messages.append(&mut receipt);
        assert((prefix + taken) + rest@.map_values(|r: Vec<T>| r@).flatten()
            =~= prefix + (taken + rest@.map_values(|r: Vec<T>| r@).flatten()));
    }
    assert(rest@.map_values(|r: Vec<T>| r@) =~= Seq::<Seq<T>>::empty());
    assert(messages@ =~= all);
    messages
}

/// Law: a sending round reports the block it was started for whenever that
/// block has receipts, whether sending succeeds or fails; only a block
/// without receipts is left unreported.
pub proof fn lemma_round_reports_its_block(kind: MessengerKind, block_num: u64, messages: Option<usize>, sent: Option<usize>)
    ensures
        messages is None <==> send_plan_spec(block_num, messages) == SendPlan::Finish(None),
        send_plan_spec(block_num, messages) matches SendPlan::Finish(Some(r)) ==> r.0 == block_num,
        send_plan_spec(block_num, messages) == SendPlan::Send ==> settlement_spec(kind, block_num, sent).outcome.0 == block_num,
{
}

/// Law: a block is sent exactly when its receipts hold at least one
/// message; a round finishes without sending only for a block without
/// receipts (reporting nothing) or one whose receipts hold no message
/// (reporting that block with no message).
pub proof fn lemma_send_exactly_when_messages(block_num: u64, messages: Option<usize>)
    ensures
        (send_plan_spec(block_num, messages) is Send) <==> (messages matches Some(n) && n > 0),
        send_plan_spec(block_num, messages) == SendPlan::Finish(None) <==> messages is None,
        send_plan_spec(block_num, messages) == SendPlan::Finish(Some((block_num, 0usize))) <==> messages == Some(0usize),
{
}

/// Law: when the settlement chain returns `n` hashes for a block's
/// messages, the round reports that block with `n` messages settled; it
/// reports no message only when sending failed or nothing was accepted
/// (`n == 0`); two rounds for one block that differ in the number accepted
/// report different counts.
pub proof fn lemma_settled_count_is_accepted_count(kind: MessengerKind, block_num: u64, n: usize, m: usize)
    ensures
        settlement_spec(kind, block_num, Some(n)).outcome == (block_num, n),
        settlement_spec(kind, block_num, None).outcome == (block_num, 0usize),
        settlement_spec(kind, block_num, Some(n)).outcome.1 == 0 ==> n == 0,
        n != m ==> settlement_spec(kind, block_num, Some(n)).outcome != settlement_spec(kind, block_num, Some(m)).outcome,
{
}

/// Law: on Starknet the configuration file records a local block as sent
/// exactly when its messages were accepted by the settlement chain; on
/// Ethereum nothing is recorded.
pub proof fn lemma_record_only_accepted(kind: MessengerKind, block_num: u64, sent: Option<usize>)
    ensures
        settlement_spec(kind, block_num, sent).record_send_from_block is Some
            <==> (kind == MessengerKind::Starknet && sent is Some),
        settlement_spec(kind, block_num, sent).record_send_from_block matches Some(b) ==> b == block_num,
{
}

} // verus!
