use vstd::prelude::*;

use crate::hash::{same_hash, Hash32};

verus! {

/// The settlement chain the service talks to.
#[derive(Clone, Copy, Debug, PartialEq, Eq, Structural)]
pub enum MessengerKind {
    Ethereum,
    Starknet,
}

/// One step that the service performs after messages were gathered, in order.
#[derive(Clone, Copy, Debug, PartialEq, Eq, Structural)]
pub enum GatherAction {
    /// Add the gathered L1 handler transaction at this index to the pool.
    AddToPool(usize),
    /// Record the message hash of the transaction at this index as the
    /// last processed message (`tx_hash` of the configuration file).
    RecordHash(usize),
    /// Record this settlement block as the block to gather from next
    /// (`gather_from_block` of the configuration file).
    RecordBlock(u64),
}

/// What a gathering round does with the transactions it received.
pub struct GatherPlan {
    pub actions: Vec<GatherAction>,
    /// The block reached on the settlement chain and the number of transactions gathered.
    pub outcome: (u64, usize),
}

/// Whether the last processed message occurs strictly before index `i`.
pub open spec fn resume_point_before(hashes: Seq<Hash32>, resume_after: Hash32, i: int) -> bool {
    exists|j: int| 0 <= j < i && same_hash(#[trigger] hashes[j], resume_after)
}

/// Whether the transaction at index `i` goes to the pool: every gathered
/// transaction on Ethereum; on Starknet only those that come after the first
/// occurrence of the last processed message.
pub open spec fn goes_to_pool(kind: MessengerKind, hashes: Seq<Hash32>, resume_after: Hash32, i: int) -> bool {
    match kind {
        MessengerKind::Ethereum => true,
        MessengerKind::Starknet => resume_point_before(hashes, resume_after, i),
    }
}

/// The actions taken for the transaction at index `i`.
pub open spec fn tx_actions(kind: MessengerKind, hashes: Seq<Hash32>, resume_after: Hash32, i: int) -> Seq<GatherAction> {
    let add = if goes_to_pool(kind, hashes, resume_after, i) {
        seq![GatherAction::AddToPool(i as usize)]
    } else {
        Seq::empty()
    };
    match kind {
        MessengerKind::Ethereum => add,
        MessengerKind::Starknet => add.push(GatherAction::RecordHash(i as usize)),
    }
}

/// The actions taken for the first `n` transactions.
pub open spec fn actions_upto(kind: MessengerKind, hashes: Seq<Hash32>, resume_after: Hash32, n: nat) -> Seq<GatherAction>
    decreases n,
{
    if n == 0 {
        Seq::empty()
    } else {
        actions_upto(kind, hashes, resume_after, (n - 1) as nat) + tx_actions(kind, hashes, resume_after, n - 1)
    }
}

/// All actions of a gathering round that reached `block_num`.
pub open spec fn gather_actions(kind: MessengerKind, hashes: Seq<Hash32>, resume_after: Hash32, block_num: u64) -> Seq<GatherAction> {
    let per_tx = actions_upto(kind, hashes, resume_after, hashes.len());
    match kind {
        MessengerKind::Ethereum => per_tx,
        MessengerKind::Starknet => per_tx.push(GatherAction::RecordBlock(block_num)),
    }
}

/// Decides what to do with the L1 handler transactions gathered up to
/// `block_num`, given their message hashes in the order received and the
/// hash of the last message processed before.
pub fn gather_messages(
    kind: MessengerKind,
    message_hashes: &Vec<Hash32>,
    resume_after: &Hash32,
    block_num: u64,
) -> (plan: GatherPlan)
    ensures
        plan.actions@ == gather_actions(kind, message_hashes@, *resume_after, block_num),
        plan.outcome == (block_num, message_hashes.len()),
{
    let mut actions: Vec<GatherAction> = Vec::new();
    let mut seen = false;
    let n: usize = message_hashes.len();
    let mut i: usize = 0;
    while i < n
        invariant
            n == message_hashes.len(),
            i <= n,
            seen == resume_point_before(message_hashes@, *resume_after, i as int),
            actions@ == actions_upto(kind, message_hashes@, *resume_after, i as nat),
        decreases n - i,
    {
        let ghost before = actions@;
        let selected = match kind {
            MessengerKind::Ethereum => true,
            MessengerKind::Starknet => seen,
        };
        if selected {
            actions.push(GatherAction::AddToPool(i));
        }
        if let MessengerKind::Starknet = kind {
            actions.push(GatherAction::RecordHash(i));
        }
        proof {
            assert(actions@ =~= before + tx_actions(kind, message_hashes@, *resume_after, i as int));
        }
        if message_hashes[i].same_as(resume_after) {
            seen = true;
            assert(same_hash(message_hashes@[i as int], *resume_after));
        }
        proof {
            if seen {
                if !resume_point_before(message_hashes@, *resume_after, i as int) {
                    assert(same_hash(message_hashes@[i as int], *resume_after));
                }
            } else {
                assert forall|j: int| 0 <= j < i + 1 implies !same_hash(#[trigger] message_hashes@[j], *resume_after) by {
                    if j < i {
                        assert(!resume_point_before(message_hashes@, *resume_after, i as int));
                    }
                }
            }
        }
        i = i + 1;
    }
    if let MessengerKind::Starknet = kind {
        actions.push(GatherAction::RecordBlock(block_num));
    }
    GatherPlan { actions, outcome: (block_num, n) }
}

/// Every action of the first `n` transactions names an index below `n`; the
/// pool receives exactly the selected transactions, and on Starknet every
/// transaction's hash is recorded.
pub proof fn lemma_actions_upto_contents(kind: MessengerKind, hashes: Seq<Hash32>, resume_after: Hash32, n: nat)
    requires
        n <= usize::MAX,
    ensures
        forall|k: int| 0 <= k < actions_upto(kind, hashes, resume_after, n).len() ==> match #[trigger] actions_upto(kind, hashes, resume_after, n)[k] {
            GatherAction::AddToPool(x) => x < n && goes_to_pool(kind, hashes, resume_after, x as int),
            GatherAction::RecordHash(x) => x < n && kind == MessengerKind::Starknet,
            GatherAction::RecordBlock(_) => false,
        },
        forall|x: usize| x < n && goes_to_pool(kind, hashes, resume_after, x as int) ==> actions_upto(kind, hashes, resume_after, n).contains(GatherAction::AddToPool(x)),
        forall|x: usize| x < n && kind == MessengerKind::Starknet ==> actions_upto(kind, hashes, resume_after, n).contains(GatherAction::RecordHash(x)),
    decreases n,
{
    if n > 0 {
        let m: nat = (n - 1) as nat;
        lemma_actions_upto_contents(kind, hashes, resume_after, m);
        let a = actions_upto(kind, hashes, resume_after, m);
        let t = tx_actions(kind, hashes, resume_after, m as int);
        let all = actions_upto(kind, hashes, resume_after, n);
        assert(all == a + t);
        assert forall|x: usize| x < n && goes_to_pool(kind, hashes, resume_after, x as int) implies all.contains(GatherAction::AddToPool(x)) by {
            if x < m {
                let k = choose|k: int| 0 <= k < a.len() && a[k] == GatherAction::AddToPool(x);
                assert(all[k] == GatherAction::AddToPool(x));
            } else {
                assert(t[0] == GatherAction::AddToPool(x));
                assert(all[a.len() as int] == GatherAction::AddToPool(x));
            }
        }
        assert forall|x: usize| x < n && kind == MessengerKind::Starknet implies all.contains(GatherAction::RecordHash(x)) by {
            if x < m {
                assert(a.contains(GatherAction::RecordHash(x)));
                let k = choose|k: int| 0 <= k < a.len() && a[k] == GatherAction::RecordHash(x);
                assert(all[k] == GatherAction::RecordHash(x));
            } else {
                assert(t[t.len() - 1] == GatherAction::RecordHash(x));
                assert(all[a.len() + t.len() - 1] == GatherAction::RecordHash(x));
            }
        }
    }
}

/// Law: the pool receives exactly the selected transactions of the round.
pub proof fn lemma_pool_receives_selected(kind: MessengerKind, hashes: Seq<Hash32>, resume_after: Hash32, block_num: u64, x: usize)
    requires
        hashes.len() <= usize::MAX,
    ensures
        gather_actions(kind, hashes, resume_after, block_num).contains(GatherAction::AddToPool(x))
            <==> (x < hashes.len() && goes_to_pool(kind, hashes, resume_after, x as int)),
{
    lemma_actions_upto_contents(kind, hashes, resume_after, hashes.len());
    let a = actions_upto(kind, hashes, resume_after, hashes.len());
    let all = gather_actions(kind, hashes, resume_after, block_num);
    if all.contains(GatherAction::AddToPool(x)) {
        let k = choose|k: int| 0 <= k < all.len() && all[k] == GatherAction::AddToPool(x);
        if k < a.len() {
            assert(all[k] == a[k]);
        }
    }
    if x < hashes.len() && goes_to_pool(kind, hashes, resume_after, x as int) {
        let k = choose|k: int| 0 <= k < a.len() && a[k] == GatherAction::AddToPool(x);
        assert(all[k] == a[k]);
    }
}

/// The pool additions among the first `n` transactions come in increasing
/// index order, so no transaction is added twice.
pub proof fn lemma_actions_upto_ordered(kind: MessengerKind, hashes: Seq<Hash32>, resume_after: Hash32, n: nat)
    requires
        n <= usize::MAX,
    ensures
        forall|p: int, q: int|
            0 <= p < q < actions_upto(kind, hashes, resume_after, n).len()
                && (#[trigger] actions_upto(kind, hashes, resume_after, n)[p]) is AddToPool
                && (#[trigger] actions_upto(kind, hashes, resume_after, n)[q]) is AddToPool
            ==> actions_upto(kind, hashes, resume_after, n)[p]->AddToPool_0 < actions_upto(kind, hashes, resume_after, n)[q]->AddToPool_0,
    decreases n,
{
    if n > 0 {
        let m: nat = (n - 1) as nat;
        lemma_actions_upto_ordered(kind, hashes, resume_after, m);
        lemma_actions_upto_contents(kind, hashes, resume_after, m);
        let a = actions_upto(kind, hashes, resume_after, m);
        let t = tx_actions(kind, hashes, resume_after, m as int);
        let all = actions_upto(kind, hashes, resume_after, n);
        assert(all == a + t);
        assert forall|p: int, q: int|
            0 <= p < q < all.len() && (#[trigger] all[p]) is AddToPool && (#[trigger] all[q]) is AddToPool
            implies all[p]->AddToPool_0 < all[q]->AddToPool_0 by {
            if q < a.len() {
                assert(all[p] == a[p] && all[q] == a[q]);
            } else if p < a.len() {
                assert(all[p] == a[p]);
                assert(all[q] == t[q - a.len()]);
                assert(t[q - a.len()]->AddToPool_0 == m);
            } else {
                assert(all[p] == t[p - a.len()]);
                assert(all[q] == t[q - a.len()]);
            }
        }
    }
}

/// Law: in a round, the pool additions come in the order the transactions
/// were gathered, each at most once.
pub proof fn lemma_pool_additions_in_order(kind: MessengerKind, hashes: Seq<Hash32>, resume_after: Hash32, block_num: u64, p: int, q: int)
    requires
        hashes.len() <= usize::MAX,
        0 <= p < q < gather_actions(kind, hashes, resume_after, block_num).len(),
        gather_actions(kind, hashes, resume_after, block_num)[p] is AddToPool,
        gather_actions(kind, hashes, resume_after, block_num)[q] is AddToPool,
    ensures
        gather_actions(kind, hashes, resume_after, block_num)[p]->AddToPool_0
            < gather_actions(kind, hashes, resume_after, block_num)[q]->AddToPool_0,
{
    lemma_actions_upto_ordered(kind, hashes, resume_after, hashes.len());
    let a = actions_upto(kind, hashes, resume_after, hashes.len());
    let all = gather_actions(kind, hashes, resume_after, block_num);
    assert(q < a.len());
    assert(all[p] == a[p] && all[q] == a[q]);
}

/// Law: on Ethereum every gathered transaction goes to the pool.
pub proof fn lemma_ethereum_adds_all(hashes: Seq<Hash32>, resume_after: Hash32, block_num: u64, x: usize)
    requires
        hashes.len() <= usize::MAX,
        x < hashes.len(),
    ensures
        gather_actions(MessengerKind::Ethereum, hashes, resume_after, block_num).contains(GatherAction::AddToPool(x)),
{
    lemma_pool_receives_selected(MessengerKind::Ethereum, hashes, resume_after, block_num, x);
}

/// Law: on Starknet, when the last processed message is not among the
/// gathered ones, nothing goes to the pool.
pub proof fn lemma_starknet_without_resume_point_adds_nothing(hashes: Seq<Hash32>, resume_after: Hash32, block_num: u64, x: usize)
    requires
        hashes.len() <= usize::MAX,
        forall|j: int| 0 <= j < hashes.len() ==> !same_hash(#[trigger] hashes[j], resume_after),
    ensures
        !gather_actions(MessengerKind::Starknet, hashes, resume_after, block_num).contains(GatherAction::AddToPool(x)),
{
    lemma_pool_receives_selected(MessengerKind::Starknet, hashes, resume_after, block_num, x);
}

/// Law: on Starknet a round ends by recording the hash of the last gathered
/// message and then the block reached, so the configuration file holds both
/// when the round is over.
pub proof fn lemma_starknet_records_last(hashes: Seq<Hash32>, resume_after: Hash32, block_num: u64)
    requires
        0 < hashes.len() <= usize::MAX,
    ensures
        gather_actions(MessengerKind::Starknet, hashes, resume_after, block_num).len() >= 2,
        gather_actions(MessengerKind::Starknet, hashes, resume_after, block_num).last() == GatherAction::RecordBlock(block_num),
        gather_actions(MessengerKind::Starknet, hashes, resume_after, block_num)[
            gather_actions(MessengerKind::Starknet, hashes, resume_after, block_num).len() - 2
        ] == GatherAction::RecordHash((hashes.len() - 1) as usize),
        forall|x: usize| x < hashes.len() ==> gather_actions(MessengerKind::Starknet, hashes, resume_after, block_num).contains(GatherAction::RecordHash(x)),
{
    let n: nat = hashes.len();
    lemma_actions_upto_contents(MessengerKind::Starknet, hashes, resume_after, n);
    let a = actions_upto(MessengerKind::Starknet, hashes, resume_after, n);
    let pre = actions_upto(MessengerKind::Starknet, hashes, resume_after, (n - 1) as nat);
    let t = tx_actions(MessengerKind::Starknet, hashes, resume_after, n - 1);
    assert(a == pre + t);
    assert(a.last() == GatherAction::RecordHash((n - 1) as usize));
    let all = gather_actions(MessengerKind::Starknet, hashes, resume_after, block_num);
    assert(all[all.len() - 2] == a.last());
    assert forall|x: usize| x < hashes.len() implies all.contains(GatherAction::RecordHash(x)) by {
        assert(a.contains(GatherAction::RecordHash(x)));
        let k = choose|k: int| 0 <= k < a.len() && a[k] == GatherAction::RecordHash(x);
        assert(all[k] == a[k]);
    }
}

/// Law: after a restart the service gathers again from the block it
/// recorded, which ends with the message it recorded. On Starknet the
/// messages up to and including that one are skipped, and exactly the
/// messages after it go to the pool.
pub proof fn lemma_restart_skips_processed(processed: Seq<Hash32>, fresh: Seq<Hash32>, resume_after: Hash32, i: int)
    requires
        processed.len() > 0,
        same_hash(processed.last(), resume_after),
        forall|j: int| 0 <= j < processed.len() - 1 ==> !same_hash(#[trigger] processed[j], resume_after),
        0 <= i < processed.len() + fresh.len(),
    ensures
        goes_to_pool(MessengerKind::Starknet, processed + fresh, resume_after, i) <==> i >= processed.len(),
{
    let all = processed + fresh;
    if i >= processed.len() {
        assert(all[processed.len() - 1] == processed.last());
    }
    if resume_point_before(all, resume_after, i) {
        let j = choose|j: int| 0 <= j < i && same_hash(#[trigger] all[j], resume_after);
        if i < processed.len() {
            assert(all[j] == processed[j]);
        }
    }
}

} // verus!
