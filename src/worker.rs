use vstd::prelude::*;
use crate::backoff::{BACKOFF_MAX_RETRIES, backoff_ms, calculate_backoff};

verus! {

/// Where a relay worker stands in its connection lifecycle.
#[derive(PartialEq, Eq, Structural, Clone, Copy, Debug)]
pub enum WorkerPhase {
    /// A new protocol client and event loop are being built.
    Connecting,
    /// The configured topics are being subscribed to.
    Subscribing,
    /// The publish task runs and the event loop is polled.
    Connected,
    /// Waiting out the reconnection delay.
    BackoffWait,
    /// The worker gave up; its task ends.
    Terminated,
}

/// What happened since the worker's last step.
#[derive(PartialEq, Eq, Structural, Clone, Copy, Debug)]
pub enum WorkerEvent {
    /// The client and event loop were built.
    ClientCreated,
    /// Every topic was handed to the client.
    Subscribed,
    /// The broker acknowledged the connection.
    ConnAck,
    /// The broker delivered an application message.
    MessageReceived,
    /// Polling the event loop failed.
    PollFailed,
    /// The reconnection delay is over.
    DelayElapsed,
}

/// What the worker's runtime must do next.
#[derive(PartialEq, Eq, Structural, Clone, Copy, Debug)]
pub enum WorkerAction {
    /// Build a new client and event loop.
    Connect,
    /// Subscribe to every configured topic, at most once delivery.
    Subscribe,
    /// Start the publish task, then poll the event loop.
    StartPublisherAndPoll,
    /// Poll the event loop again.
    Poll,
    /// Hand the received message to the forwarder, then poll again.
    ForwardAndPoll,
    /// Cancel the publish task and sleep this many milliseconds.
    AbortPublisherAndWait(u64),
    /// Cancel the publish task, if one runs, and end the worker task.
    Stop,
    /// The event does not apply in this phase: nothing to do.
    Ignore,
}

/// A worker's phase and its count of consecutive failed connection attempts.
#[derive(PartialEq, Eq, Structural, Clone, Copy, Debug)]
pub struct WorkerState {
    pub phase: WorkerPhase,
    pub retries: u32,
}

/// The transition function of a worker.
pub open spec fn next(s: WorkerState, e: WorkerEvent) -> (WorkerState, WorkerAction) {
    match (s.phase, e) {
        (WorkerPhase::Terminated, _) => (s, WorkerAction::Stop),
        (WorkerPhase::Connecting, WorkerEvent::ClientCreated) =>
            (WorkerState { phase: WorkerPhase::Subscribing, ..s }, WorkerAction::Subscribe),
        (WorkerPhase::Subscribing, WorkerEvent::Subscribed) =>
            (WorkerState { phase: WorkerPhase::Connected, ..s }, WorkerAction::StartPublisherAndPoll),
        (WorkerPhase::Connected, WorkerEvent::ConnAck) =>
            (WorkerState { phase: WorkerPhase::Connected, retries: 0 }, WorkerAction::Poll),
        (WorkerPhase::Connected, WorkerEvent::MessageReceived) => (s, WorkerAction::ForwardAndPoll),
        (WorkerPhase::Connected, WorkerEvent::PollFailed) =>
            if s.retries >= BACKOFF_MAX_RETRIES {
                (WorkerState { phase: WorkerPhase::Terminated, ..s }, WorkerAction::Stop)
            } else {
                (
                    WorkerState { phase: WorkerPhase::BackoffWait, ..s },
                    WorkerAction::AbortPublisherAndWait(backoff_ms(s.retries as nat) as u64),
                )
            },
        (WorkerPhase::BackoffWait, WorkerEvent::DelayElapsed) =>
            (WorkerState { phase: WorkerPhase::Connecting, retries: (s.retries + 1) as u32 }, WorkerAction::Connect),
        _ => (s, WorkerAction::Ignore),
    }
}

/// The state reached from `s` through `events`, in order.
pub open spec fn run(s: WorkerState, events: Seq<WorkerEvent>) -> WorkerState
    decreases events.len(),
{
    if events.len() == 0 {
        s
    } else {
        next(run(s, events.drop_last()), events.last()).0
    }
}

/// One connection attempt that fails before the broker acknowledges it,
/// followed by the reconnection delay.
pub open spec fn failed_cycle() -> Seq<WorkerEvent> {
    seq![WorkerEvent::ClientCreated, WorkerEvent::Subscribed, WorkerEvent::PollFailed, WorkerEvent::DelayElapsed]
}

/// `k` failed cycles in a row.
pub open spec fn failed_cycles(k: nat) -> Seq<WorkerEvent>
    decreases k,
{
    if k == 0 {
        Seq::empty()
    } else {
        failed_cycles((k - 1) as nat) + failed_cycle()
    }
}

impl WorkerState {
    /// A freshly spawned worker: connecting, with no failure counted.
    pub open spec fn initial_spec() -> WorkerState {
        WorkerState { phase: WorkerPhase::Connecting, retries: 0 }
    }

    /// The retry count never passes the cap, and stays below it while waiting.
    pub open spec fn wf(self) -> bool {
        &&& self.retries <= BACKOFF_MAX_RETRIES
        &&& self.phase == WorkerPhase::BackoffWait ==> self.retries < BACKOFF_MAX_RETRIES
    }

    /// A freshly spawned worker: connecting, with no failure counted.
    pub fn initial() -> (r: WorkerState)
        ensures
            r == WorkerState::initial_spec(),
            r.wf(),
    {
        WorkerState { phase: WorkerPhase::Connecting, retries: 0 }
    }

    /// Whether the worker has ended for good.
    pub fn is_terminated(&self) -> (r: bool)
        ensures
            r == (self.phase == WorkerPhase::Terminated),
    {
        self.phase == WorkerPhase::Terminated
    }

    /// Takes one event: the next state, and what the runtime must do.
    pub fn step(&self, e: WorkerEvent) -> (r: (WorkerState, WorkerAction))
        requires
            self.wf(),
        ensures
            r == next(*self, e),
            r.0.wf(),
    {
        let s = *self;
        match (s.phase, e) {
            (WorkerPhase::Terminated, _) => (s, WorkerAction::Stop),
            (WorkerPhase::Connecting, WorkerEvent::ClientCreated) =>
                (WorkerState { phase: WorkerPhase::Subscribing, retries: s.retries }, WorkerAction::Subscribe),
            (WorkerPhase::Subscribing, WorkerEvent::Subscribed) =>
                (WorkerState { phase: WorkerPhase::Connected, retries: s.retries }, WorkerAction::StartPublisherAndPoll),
            (WorkerPhase::Connected, WorkerEvent::ConnAck) =>
                (WorkerState { phase: WorkerPhase::Connected, retries: 0 }, WorkerAction::Poll),
            (WorkerPhase::Connected, WorkerEvent::MessageReceived) => (s, WorkerAction::ForwardAndPoll),
            (WorkerPhase::Connected, WorkerEvent::PollFailed) => {
                if s.retries >= BACKOFF_MAX_RETRIES {
                    (WorkerState { phase: WorkerPhase::Terminated, retries: s.retries }, WorkerAction::Stop)
                } else {
                    let delay = calculate_backoff(s.retries);
                    (WorkerState { phase: WorkerPhase::BackoffWait, retries: s.retries }, WorkerAction::AbortPublisherAndWait(delay))
                }
            },
            (WorkerPhase::BackoffWait, WorkerEvent::DelayElapsed) =>
                (WorkerState { phase: WorkerPhase::Connecting, retries: s.retries + 1 }, WorkerAction::Connect),
            _ => (s, WorkerAction::Ignore),
        }
    }
}

proof fn lemma_run_append(s: WorkerState, a: Seq<WorkerEvent>, b: Seq<WorkerEvent>)
    ensures
        run(s, a + b) == run(run(s, a), b),
    decreases b.len(),
{
    if b.len() == 0 {
        assert(a + b =~= a);
    } else {
        lemma_run_append(s, a, b.drop_last());
        assert((a + b).drop_last() =~= a + b.drop_last());
        assert((a + b).last() == b.last());
    }
}

proof fn lemma_run_push(s: WorkerState, a: Seq<WorkerEvent>, e: WorkerEvent)
    ensures
        run(s, a.push(e)) == next(run(s, a), e).0,
{
    assert(a.push(e).drop_last() =~= a);
}

proof fn lemma_failed_cycles(k: nat)
    requires
        k <= BACKOFF_MAX_RETRIES,
    ensures
        run(WorkerState { phase: WorkerPhase::Connecting, retries: 0 }, failed_cycles(k))
            == (WorkerState { phase: WorkerPhase::Connecting, retries: k as u32 }),
    decreases k,
{
    let init = WorkerState { phase: WorkerPhase::Connecting, retries: 0 };
    if k == 0 {
        assert(run(init, failed_cycles(0)) == init);
    } else {
        lemma_failed_cycles((k - 1) as nat);
        lemma_run_append(init, failed_cycles((k - 1) as nat), failed_cycle());
        let mid = WorkerState { phase: WorkerPhase::Connecting, retries: (k - 1) as u32 };
        let e0 = Seq::<WorkerEvent>::empty();
        let e1 = e0.push(WorkerEvent::ClientCreated);
        let e2 = e1.push(WorkerEvent::Subscribed);
        let e3 = e2.push(WorkerEvent::PollFailed);
        let e4 = e3.push(WorkerEvent::DelayElapsed);
        assert(e4 =~= failed_cycle());
        lemma_run_push(mid, e0, WorkerEvent::ClientCreated);
        lemma_run_push(mid, e1, WorkerEvent::Subscribed);
        lemma_run_push(mid, e2, WorkerEvent::PollFailed);
        lemma_run_push(mid, e3, WorkerEvent::DelayElapsed);
    }
}

/// A worker gives up after the retry cap: a fresh worker whose connection
/// attempts keep failing before the broker acknowledges them is, after as
/// many failed attempts and delays as the cap, back to connecting with the
/// cap counted; its next failed attempt ends it with no further delay, and
/// an ended worker stays ended whatever happens next.
pub proof fn lemma_retry_cap_terminates(rest: Seq<WorkerEvent>)
    ensures
        run(WorkerState::initial_spec(), failed_cycles(BACKOFF_MAX_RETRIES as nat))
            == (WorkerState { phase: WorkerPhase::Connecting, retries: BACKOFF_MAX_RETRIES }),
        run(
            WorkerState::initial_spec(),
            failed_cycles(BACKOFF_MAX_RETRIES as nat)
                + seq![WorkerEvent::ClientCreated, WorkerEvent::Subscribed, WorkerEvent::PollFailed] + rest,
        ).phase == WorkerPhase::Terminated,
{
    let init = WorkerState::initial_spec();
    let cap = failed_cycles(BACKOFF_MAX_RETRIES as nat);
    let last = seq![WorkerEvent::ClientCreated, WorkerEvent::Subscribed, WorkerEvent::PollFailed];
    lemma_failed_cycles(BACKOFF_MAX_RETRIES as nat);
    lemma_run_append(init, cap, last);
    let at_cap = WorkerState { phase: WorkerPhase::Connecting, retries: BACKOFF_MAX_RETRIES };
    let e0 = Seq::<WorkerEvent>::empty();
    let e1 = e0.push(WorkerEvent::ClientCreated);
    let e2 = e1.push(WorkerEvent::Subscribed);
    let e3 = e2.push(WorkerEvent::PollFailed);
    assert(e3 =~= last);
    lemma_run_push(at_cap, e0, WorkerEvent::ClientCreated);
    lemma_run_push(at_cap, e1, WorkerEvent::Subscribed);
    lemma_run_push(at_cap, e2, WorkerEvent::PollFailed);
    let ended = run(at_cap, last);
    assert(ended.phase == WorkerPhase::Terminated);
    lemma_run_append(init, cap + last, rest);
    lemma_terminated_absorbs(ended, rest);
}

/// An ended worker stays ended.
pub proof fn lemma_terminated_absorbs(s: WorkerState, events: Seq<WorkerEvent>)
    requires
        s.phase == WorkerPhase::Terminated,
    ensures
        run(s, events) == s,
    decreases events.len(),
{
    if events.len() > 0 {
        lemma_terminated_absorbs(s, events.drop_last());
    }
}

} // verus!
