use vstd::prelude::*;

use crate::gather::MessengerKind;
use crate::hash::Hash32;

verus! {

/// The part of the messaging configuration that the service reads.
pub struct MessagingConfig {
    /// The block number of the settlement chain from which messages are gathered.
    pub gather_from_block: u64,
    /// The block number of the local chain from which messages are sent.
    pub send_from_block: u64,
    /// The hash of the last message already processed.
    pub tx_hash: Hash32,
    /// Seconds between two messaging rounds.
    pub interval: u64,
    /// Path of the configuration file that records the progress.
    pub path: String,
}

/// What one messaging round reports.
#[derive(Clone, Copy, Debug, PartialEq, Eq, Structural)]
pub enum MessagingOutcome {
    Gather {
        /// The latest block number of the settlement chain from which messages were gathered.
        lastest_block: u64,
        /// The number of settlement chain messages gathered up until `latest_block`.
        msg_count: usize,
    },
    Send {
        /// The current local block number from which messages were sent.
        block_num: u64,
        /// The number of messages sent on `block_num`.
        msg_count: usize,
    },
}

/// How a poll of the gathering work ended.
#[derive(Clone, Copy, Debug, PartialEq, Eq, Structural)]
pub enum GatherPoll {
    /// Still running.
    Pending,
    /// Messages were gathered up to `last_block`.
    Gathered { last_block: u64, msg_count: usize },
    /// The gathering failed.
    Failed,
}

/// How a poll of the sending work ended.
#[derive(Clone, Copy, Debug, PartialEq, Eq, Structural)]
pub enum SendPoll {
    /// Still running.
    Pending,
    /// The messages of `block_num` were settled.
    Settled { block_num: u64, msg_count: usize },
    /// The local block had no receipts yet; nothing was settled.
    NotSettled,
    /// The sending failed.
    Failed,
}

/// What the service does after polling the gathering work.
#[derive(Clone, Copy, Debug, PartialEq, Eq, Structural)]
pub enum PollStep {
    /// Hand this outcome to the consumer of the stream.
    Ready(MessagingOutcome),
    /// End this poll without an outcome.
    ReturnPending,
    /// Go on and poll the sending work.
    Continue,
}

/// The abstract state of the service.
pub struct ServiceState {
    pub kind: MessengerKind,
    pub gather_from_block: u64,
    pub send_from_block: u64,
    pub tx_hash: Hash32,
    pub path: Seq<char>,
    pub gather_in_flight: bool,
    /// The local block whose messages are being sent, if a sending runs.
    pub sending: Option<u64>,
}

/// The decisions of the messaging service: which block ranges to gather and
/// to send, and how the progress moves when that work ends. The timer, the
/// chains and the transaction pool are driven from outside.
pub struct MessagingService {
    kind: MessengerKind,
    gather_from_block: u64,
    send_from_block: u64,
    tx_hash: Hash32,
    path: String,
    gather_in_flight: bool,
    sending: Option<u64>,
}

/// A running sending is for the sending cursor block: the cursor only moves
/// once the sending ends.
pub open spec fn sending_for_cursor(s: ServiceState) -> bool {
    s.sending matches Some(b) ==> b == s.send_from_block
}

impl MessagingService {
    #[verifier::type_invariant]
    spec fn sending_is_for_cursor(self) -> bool {
        self.sending matches Some(b) ==> b == self.send_from_block
    }
}

impl View for MessagingService {
    type V = ServiceState;

    closed spec fn view(&self) -> ServiceState {
        ServiceState {
            kind: self.kind,
            gather_from_block: self.gather_from_block,
            send_from_block: self.send_from_block,
            tx_hash: self.tx_hash,
            path: self.path@,
            gather_in_flight: self.gather_in_flight,
            sending: self.sending,
        }
    }
}

/// The number of settlement blocks one gathering asks for at most; it keeps
/// the requests small enough for the settlement chain's RPC.
pub const MAX_GATHER_BLOCKS: u64 = 200;

/// At a tick, gathering starts from the cursor unless a gathering is already running.
pub open spec fn start_gather_step(s: ServiceState) -> (ServiceState, Option<u64>) {
    if s.gather_in_flight {
        (s, None)
    } else {
        (ServiceState { gather_in_flight: true, ..s }, Some(s.gather_from_block))
    }
}

/// At a tick, sending starts for the cursor block unless a sending is
/// already running or the local chain has not reached that block.
pub open spec fn start_send_step(s: ServiceState, local_latest: u64) -> (ServiceState, Option<u64>) {
    if s.sending is Some || s.send_from_block > local_latest {
        (s, None)
    } else {
        (ServiceState { sending: Some(s.send_from_block), ..s }, Some(s.send_from_block))
    }
}

/// The gathering poll results that the service can take in.
pub open spec fn gather_poll_fits(s: ServiceState, p: GatherPoll) -> bool {
    s.gather_in_flight ==> match p {
        GatherPoll::Gathered { last_block, .. } => last_block < u64::MAX,
        _ => true,
    }
}

/// After a gathering poll: on success the cursor moves past the reported
/// block and the outcome is handed out; on failure the cursor stays and the
/// poll ends; while pending the sending work is polled next.
pub open spec fn gather_polled_step(s: ServiceState, p: GatherPoll) -> (ServiceState, PollStep) {
    if !s.gather_in_flight {
        (s, PollStep::Continue)
    } else {
        match p {
            GatherPoll::Pending => (s, PollStep::Continue),
            GatherPoll::Gathered { last_block, msg_count } => (
                ServiceState { gather_from_block: (last_block + 1) as u64, gather_in_flight: false, ..s },
                PollStep::Ready(MessagingOutcome::Gather { lastest_block: last_block, msg_count }),
            ),
            GatherPoll::Failed => (ServiceState { gather_in_flight: false, ..s }, PollStep::ReturnPending),
        }
    }
}

/// The sending poll results that the service can take in: a sending reports
/// the block it was started for.
pub open spec fn send_poll_fits(s: ServiceState, p: SendPoll) -> bool {
    s.sending matches Some(b) ==> match p {
        SendPoll::Settled { block_num, .. } => block_num == b && block_num < u64::MAX,
        SendPoll::Failed => s.send_from_block < u64::MAX,
        _ => true,
    }
}

/// After a sending poll: a settled block moves the cursor past it and the
/// outcome is handed out; a failure moves the cursor to the next block so
/// that one block is not retried forever; a block without receipts is tried
/// again at the next tick.
pub open spec fn send_polled_step(s: ServiceState, p: SendPoll) -> (ServiceState, Option<MessagingOutcome>) {
    if s.sending is None {
        (s, None)
    } else {
        match p {
            SendPoll::Pending => (s, None),
            SendPoll::Settled { block_num, msg_count } => (
                ServiceState { send_from_block: (block_num + 1) as u64, sending: None, ..s },
                Some(MessagingOutcome::Send { block_num, msg_count }),
            ),
            SendPoll::NotSettled => (ServiceState { sending: None, ..s }, None),
            SendPoll::Failed => (
                ServiceState { send_from_block: (s.send_from_block + 1) as u64, sending: None, ..s },
                None,
            ),
        }
    }
}

impl MessagingService {
    /// Initializes the service from the configuration, for a messenger of the given kind.
    pub fn new(config: MessagingConfig, kind: MessengerKind) -> (service: MessagingService)
        ensures
            service@ == (ServiceState {
                kind,
                gather_from_block: config.gather_from_block,
                send_from_block: config.send_from_block,
                tx_hash: config.tx_hash,
                path: config.path@,
                gather_in_flight: false,
                sending: None,
            }),
    {
        MessagingService {
            kind,
            gather_from_block: config.gather_from_block,
            send_from_block: config.send_from_block,
            tx_hash: config.tx_hash,
            path: config.path,
            gather_in_flight: false,
            sending: None,
        }
    }

    pub fn kind(&self) -> (r: MessengerKind)
        ensures
            r == self@.kind,
    {
        self.kind
    }

    pub fn gather_from_block(&self) -> (r: u64)
        ensures
            r == self@.gather_from_block,
    {
        self.gather_from_block
    }

    pub fn send_from_block(&self) -> (r: u64)
        ensures
            r == self@.send_from_block,
    {
        self.send_from_block
    }

    pub fn tx_hash(&self) -> (r: Hash32)
        ensures
            r == self@.tx_hash,
    {
        self.tx_hash
    }

    pub fn path(&self) -> (r: &String)
        ensures
            r@ == self@.path,
    {
        &self.path
    }

    pub fn gather_in_flight(&self) -> (r: bool)
        ensures
            r == self@.gather_in_flight,
    {
        self.gather_in_flight
    }

    pub fn send_in_flight(&self) -> (r: bool)
        ensures
            r == self@.sending is Some,
    {
        self.sending.is_some()
    }

    /// The local block whose messages are being sent, if a sending runs.
    pub fn sending(&self) -> (r: Option<u64>)
        ensures
            r == self@.sending,
            sending_for_cursor(self@),
    {
        proof {
            use_type_invariant(self);
        }
        self.sending
    }

    /// At a tick of the interval: the block from which to start gathering, if
    /// no gathering is running.
    pub fn start_gather(&mut self) -> (from_block: Option<u64>)
        ensures
            (final(self)@, from_block) == start_gather_step(old(self)@),
            sending_for_cursor(final(self)@),
    {
        proof {
            use_type_invariant(&*self);
        }
        if self.gather_in_flight {
            None
        } else {
            self.gather_in_flight = true;
            Some(self.gather_from_block)
        }
    }

    /// At a tick of the interval, with the latest block of the local chain:
    /// the local block whose messages to send, if no sending is running and
    /// the local chain has reached the cursor.
    pub fn start_send(&mut self, local_latest: u64) -> (block: Option<u64>)
        ensures
            (final(self)@, block) == start_send_step(old(self)@, local_latest),
            sending_for_cursor(final(self)@),
    {
        proof {
            use_type_invariant(&*self);
        }
        if self.sending.is_some() || self.send_from_block > local_latest {
            None
        } else {
            self.sending = Some(self.send_from_block);
            Some(self.send_from_block)
        }
    }

    /// Takes in how a poll of the gathering work ended.
    pub fn gather_polled(&mut self, p: GatherPoll) -> (step: PollStep)
        requires
            gather_poll_fits(old(self)@, p),
        ensures
            (final(self)@, step) == gather_polled_step(old(self)@, p),
            sending_for_cursor(final(self)@),
    {
        proof {
            use_type_invariant(&*self);
        }
        if !self.gather_in_flight {
            return PollStep::Continue;
        }
        match p {
            GatherPoll::Pending => PollStep::Continue,
            GatherPoll::Gathered { last_block, msg_count } => {
                self.gather_from_block = last_block + 1;
                self.gather_in_flight = false;
                PollStep::Ready(MessagingOutcome::Gather { lastest_block: last_block, msg_count })
            },
            GatherPoll::Failed => {
                self.gather_in_flight = false;
                PollStep::ReturnPending
            },
        }
    }

    /// Takes in how a poll of the sending work ended; `Some` is an outcome to
    /// hand out, `None` ends the poll without one.
    pub fn send_polled(&mut self, p: SendPoll) -> (outcome: Option<MessagingOutcome>)
        requires
            send_poll_fits(old(self)@, p),
        ensures
            (final(self)@, outcome) == send_polled_step(old(self)@, p),
            sending_for_cursor(final(self)@),
    {
        proof {
            use_type_invariant(&*self);
        }
        if self.sending.is_none() {
            return None;
        }
        match p {
            SendPoll::Pending => None,
            SendPoll::Settled { block_num, msg_count } => {
                self.sending = None;
                self.send_from_block = block_num + 1;
                Some(MessagingOutcome::Send { block_num, msg_count })
            },
            SendPoll::NotSettled => {
                self.sending = None;
                None
            },
            SendPoll::Failed => {
                self.sending = None;
                self.send_from_block = self.send_from_block + 1;
                None
            },
        }
    }
}

/// One thing that happens to the service: a tick of the interval (with the
/// latest block of the local chain), or a poll of the gathering or of the
/// sending work.
#[derive(Clone, Copy, Debug, PartialEq, Eq, Structural)]
pub enum ServiceEvent {
    Tick { local_latest: u64 },
    GatherPolled(GatherPoll),
    SendPolled(SendPoll),
}

/// The state after an event, and the outcome it hands out, if any.
pub open spec fn event_step(s: ServiceState, e: ServiceEvent) -> (ServiceState, Option<MessagingOutcome>) {
    match e {
        ServiceEvent::Tick { local_latest } => (start_send_step(start_gather_step(s).0, local_latest).0, None),
        ServiceEvent::GatherPolled(p) => {
            let (t, step) = gather_polled_step(s, p);
            (t, match step {
                PollStep::Ready(o) => Some(o),
                _ => None,
            })
        },
        ServiceEvent::SendPolled(p) => send_polled_step(s, p),
    }
}

pub open spec fn event_fits(s: ServiceState, e: ServiceEvent) -> bool {
    match e {
        ServiceEvent::Tick { .. } => true,
        ServiceEvent::GatherPolled(p) => gather_poll_fits(s, p),
        ServiceEvent::SendPolled(p) => send_poll_fits(s, p),
    }
}

/// The state after a run of events and the outcomes handed out, in order.
pub open spec fn run(s: ServiceState, events: Seq<ServiceEvent>) -> (ServiceState, Seq<MessagingOutcome>)
    decreases events.len(),
{
    if events.len() == 0 {
        (s, Seq::empty())
    } else {
        let (t, outs) = run(s, events.drop_last());
        let (u, o) = event_step(t, events.last());
        (u, match o {
            Some(x) => outs.push(x),
            None => outs,
        })
    }
}

/// Every event of the run is one the service can take in where it comes.
pub open spec fn run_fits(s: ServiceState, events: Seq<ServiceEvent>) -> bool
    decreases events.len(),
{
    events.len() == 0 || (run_fits(s, events.drop_last()) && event_fits(run(s, events.drop_last()).0, events.last()))
}

/// The local blocks of the sending outcomes, in order.
pub open spec fn sent_blocks(outs: Seq<MessagingOutcome>) -> Seq<u64>
    decreases outs.len(),
{
    if outs.len() == 0 {
        Seq::empty()
    } else {
        let rest = sent_blocks(outs.drop_last());
        match outs.last() {
            MessagingOutcome::Send { block_num, .. } => rest.push(block_num),
            _ => rest,
        }
    }
}

/// Some tick of the run saw the local chain at block `b` or beyond.
pub open spec fn ticked_past(events: Seq<ServiceEvent>, b: u64) -> bool {
    exists|i: int| 0 <= i < events.len() && (#[trigger] events[i] matches ServiceEvent::Tick { local_latest } && b <= local_latest)
}

/// The run has no failed sending.
pub open spec fn no_failed_send(events: Seq<ServiceEvent>) -> bool {
    forall|i: int| 0 <= i < events.len() ==> #[trigger] events[i] != ServiceEvent::SendPolled(SendPoll::Failed)
}

/// Law: over any run of ticks and polls in which no sending fails, starting
/// from a state whose running sending, if any, is for the cursor block, the
/// sending outcomes carry the local blocks `s0, s0 + 1, s0 + 2, ...` in this
/// order, where `s0` is the sending cursor at the start: no block is sent
/// twice and none is skipped; the cursor ends one past the last of them; and
/// each of those blocks was running at the start or had been reached by the
/// local chain at some tick of the run.
pub proof fn lemma_run_sends_consecutive_blocks(s: ServiceState, events: Seq<ServiceEvent>)
    requires
        sending_for_cursor(s),
        run_fits(s, events),
        no_failed_send(events),
    ensures
        run(s, events).0.send_from_block >= s.send_from_block,
        sent_blocks(run(s, events).1) =~= Seq::new(
            (run(s, events).0.send_from_block - s.send_from_block) as nat,
            |i: int| (s.send_from_block + i) as u64,
        ),
        run(s, events).0.sending matches Some(b) ==> b == run(s, events).0.send_from_block
            && (ticked_past(events, b) || s.sending == Some(b)),
        forall|j: int| 0 <= j < sent_blocks(run(s, events).1).len() ==>
            ticked_past(events, #[trigger] sent_blocks(run(s, events).1)[j]) || s.sending == Some(sent_blocks(run(s, events).1)[j]),
    decreases events.len(),
{
    if events.len() > 0 {
        let pre = events.drop_last();
        assert forall|i: int| 0 <= i < pre.len() implies #[trigger] pre[i] != ServiceEvent::SendPolled(SendPoll::Failed) by {
            assert(pre[i] == events[i]);
        }
        lemma_run_sends_consecutive_blocks(s, pre);
        let (t, outs) = run(s, pre);
        let e = events.last();
        assert(e == events[events.len() - 1]);
        let (u, o) = event_step(t, e);
        let outs2 = run(s, events).1;
        assert forall|b: u64| ticked_past(pre, b) implies ticked_past(events, b) by {
            let i = choose|i: int| 0 <= i < pre.len() && (#[trigger] pre[i] matches ServiceEvent::Tick { local_latest } && b <= local_latest);
            assert(events[i] == pre[i]);
        }
        match o {
            Some(x) => {
                assert(outs2 == outs.push(x));
                assert(outs.push(x).drop_last() == outs);
            },
            None => {},
        }
        match e {
            ServiceEvent::Tick { local_latest } => {
                if u.sending is Some && t.sending is None {
                    assert(events[events.len() - 1] == e);
                    assert(ticked_past(events, u.send_from_block));
                }
            },
            _ => {},
        }
        assert forall|j: int| 0 <= j < sent_blocks(outs2).len() implies
            ticked_past(events, #[trigger] sent_blocks(outs2)[j]) || s.sending == Some(sent_blocks(outs2)[j]) by {
            if j < sent_blocks(outs).len() {
                assert(sent_blocks(outs2)[j] == sent_blocks(outs)[j]);
            }
        }
    }
}

/// The settlement blocks reached by the gathering outcomes, in order.
pub open spec fn gathered_blocks(outs: Seq<MessagingOutcome>) -> Seq<u64>
    decreases outs.len(),
{
    if outs.len() == 0 {
        Seq::empty()
    } else {
        let rest = gathered_blocks(outs.drop_last());
        match outs.last() {
            MessagingOutcome::Gather { lastest_block, .. } => rest.push(lastest_block),
            _ => rest,
        }
    }
}

/// Every gathering of the run reports a block no earlier than the one
/// before its start (the block before the gathering cursor).
pub open spec fn gather_reports_fit(s: ServiceState, events: Seq<ServiceEvent>) -> bool
    decreases events.len(),
{
    events.len() == 0 || {
        &&& gather_reports_fit(s, events.drop_last())
        &&& run(s, events.drop_last()).0.gather_in_flight ==> (events.last() matches ServiceEvent::GatherPolled(
            GatherPoll::Gathered { last_block, .. },
        ) ==> last_block + 1 >= run(s, events.drop_last()).0.gather_from_block)
    }
}

/// Law: over any run of ticks and polls in which each gathering reports a
/// block no earlier than the one before its start, the gathering cursor never
/// moves back; the blocks reported by the gathering outcomes never decrease;
/// and after each of them the cursor, from which the next gathering starts,
/// is the block after it, so no settlement block is gathered twice.
pub proof fn lemma_run_gathers_forward(s: ServiceState, events: Seq<ServiceEvent>)
    requires
        run_fits(s, events),
        gather_reports_fit(s, events),
    ensures
        run(s, events).0.gather_from_block >= s.gather_from_block,
        forall|i: int, j: int| 0 <= i < j < gathered_blocks(run(s, events).1).len()
            ==> gathered_blocks(run(s, events).1)[i] <= gathered_blocks(run(s, events).1)[j],
        forall|i: int| 0 <= i < gathered_blocks(run(s, events).1).len()
            ==> #[trigger] gathered_blocks(run(s, events).1)[i] + 1 >= s.gather_from_block
                && gathered_blocks(run(s, events).1)[i] < run(s, events).0.gather_from_block,
        gathered_blocks(run(s, events).1).len() > 0
            ==> run(s, events).0.gather_from_block == gathered_blocks(run(s, events).1).last() + 1,
    decreases events.len(),
{
    if events.len() > 0 {
        let pre = events.drop_last();
        lemma_run_gathers_forward(s, pre);
        let (t, outs) = run(s, pre);
        let e = events.last();
        let (u, o) = event_step(t, e);
        let outs2 = run(s, events).1;
        match o {
            Some(x) => {
                assert(outs2 == outs.push(x));
                assert(outs.push(x).drop_last() == outs);
            },
            None => {},
        }
        let g = gathered_blocks(outs);
        let g2 = gathered_blocks(outs2);
        if g2.len() > g.len() {
            assert(g2 == g.push(g2.last()));
        } else {
            assert(g2 == g);
        }
    }
}

/// Law: at most one gathering runs at a time. A tick starts one exactly when
/// none is running, from the gathering cursor, and a second tick before it
/// ends starts nothing and changes nothing.
pub proof fn lemma_one_gathering_at_a_time(s: ServiceState)
    ensures
        start_gather_step(s).1 is Some <==> !s.gather_in_flight,
        start_gather_step(s).1 matches Some(b) ==> b == s.gather_from_block,
        start_gather_step(s).0.gather_in_flight,
        start_gather_step(start_gather_step(s).0) == (start_gather_step(s).0, None::<u64>),
{
}

/// Law: at most one sending runs at a time, and a sending only starts for a
/// block that the local chain has reached, namely the sending cursor.
pub proof fn lemma_one_sending_within_local_chain(s: ServiceState, local_latest: u64, later_latest: u64)
    ensures
        start_send_step(s, local_latest).1 is Some <==> (s.sending is None && s.send_from_block <= local_latest),
        start_send_step(s, local_latest).1 matches Some(b) ==> b == s.send_from_block && b <= local_latest,
        start_send_step(s, local_latest).1 is Some ==>
            start_send_step(start_send_step(s, local_latest).0, later_latest) == (start_send_step(s, local_latest).0, None::<u64>),
{
}

/// Law: a gathering that reports the settlement block it reached moves the
/// gathering cursor to the block after it and hands out that outcome; the
/// sending side is left as it was.
pub proof fn lemma_gathering_resumes_after_reported_block(s: ServiceState, last_block: u64, msg_count: usize)
    requires
        s.gather_in_flight,
        last_block < u64::MAX,
    ensures
        ({
            let (t, step) = gather_polled_step(s, GatherPoll::Gathered { last_block, msg_count });
            &&& t.gather_from_block == last_block + 1
            &&& !t.gather_in_flight
            &&& step == PollStep::Ready(MessagingOutcome::Gather { lastest_block: last_block, msg_count })
            &&& t.send_from_block == s.send_from_block
            &&& t.sending == s.sending
        }),
{
}

/// Law: a failed gathering keeps the cursor, so the next tick gathers again
/// from the same block.
pub proof fn lemma_failed_gathering_is_retried(s: ServiceState)
    requires
        !s.gather_in_flight,
    ensures
        ({
            let (started, from) = start_gather_step(s);
            let (after, step) = gather_polled_step(started, GatherPoll::Failed);
            &&& step == PollStep::ReturnPending
            &&& after == s
            &&& start_gather_step(after).1 == from
        }),
{
}

/// Law: each sending round settles the block it started for at most once:
/// when it reports that block settled, or when it fails, the sending cursor
/// moves on by exactly one block; when the block had no receipts yet, the
/// cursor stays and the same block is tried at the next tick.
pub proof fn lemma_sending_moves_one_block(s: ServiceState, local_latest: u64, msg_count: usize, later_latest: u64)
    requires
        s.sending is None,
        s.send_from_block <= local_latest,
        s.send_from_block < u64::MAX,
    ensures
        ({
            let (started, block) = start_send_step(s, local_latest);
            let b = s.send_from_block;
            let (settled, out) = send_polled_step(started, SendPoll::Settled { block_num: b, msg_count });
            let (failed, none) = send_polled_step(started, SendPoll::Failed);
            let (unsettled, nothing) = send_polled_step(started, SendPoll::NotSettled);
            &&& block == Some(b)
            &&& started.sending == Some(b)
            &&& settled.send_from_block == b + 1 && settled.sending is None
            &&& out == Some(MessagingOutcome::Send { block_num: b, msg_count })
            &&& failed.send_from_block == b + 1 && failed.sending is None && none is None
            &&& unsettled == s && nothing is None
            &&& start_send_step(unsettled, later_latest).1 == (if b <= later_latest { Some(b) } else { None })
        }),
{
}

/// Law: polling one side never changes the other side.
pub proof fn lemma_sides_are_independent(s: ServiceState, g: GatherPoll, p: SendPoll, local_latest: u64)
    ensures
        gather_polled_step(s, g).0.send_from_block == s.send_from_block,
        gather_polled_step(s, g).0.sending == s.sending,
        send_polled_step(s, p).0.gather_from_block == s.gather_from_block,
        send_polled_step(s, p).0.gather_in_flight == s.gather_in_flight,
        start_gather_step(s).0.send_from_block == s.send_from_block,
        start_gather_step(s).0.sending == s.sending,
        start_send_step(s, local_latest).0.gather_from_block == s.gather_from_block,
        start_send_step(s, local_latest).0.gather_in_flight == s.gather_in_flight,
{
}

} // verus!
