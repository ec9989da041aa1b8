//! The reconciliation loop as a state machine: from its state and what the
//! provider (or the clock, or the owner) just did, it decides the next state,
//! the write to make on the store, and what to do next.
use vstd::prelude::*;
use crate::backoff::BackoffPolicy;
use crate::store::{overlay, writes_of, Store};

verus! {

/// Where the loop stands.
#[derive(Clone, Copy, Debug, PartialEq, Eq, Structural)]
pub enum Phase {
    /// The bulk fetch is in flight.
    Priming,
    /// The subscription is open and its updates are being applied.
    Streaming,
    /// A fetch failed; waiting before the next one.
    RecoveringFetch,
    /// The subscription failed or ended; waiting before opening it again.
    RecoveringStream,
    /// Shut down; nothing is written any more.
    Stopped,
}

/// What happened since the last decision.
#[derive(Debug)]
pub enum Event {
    /// The bulk fetch returned this snapshot.
    Fetched(Vec<(String, u64)>),
    /// The bulk fetch failed.
    FetchFailed,
    /// The subscription yielded this key and value.
    Update(String, u64),
    /// The subscription yielded a failure, or ended.
    StreamFailed,
    /// The backoff delay is over.
    BackoffElapsed,
    /// The owner asked the loop to stop.
    Cancelled,
}

/// What the loop is to do next.
#[derive(Clone, Copy, Debug, PartialEq, Eq, Structural)]
pub enum Action {
    /// Call the bulk fetch.
    Fetch,
    /// Open the subscription and wait for its first element.
    Subscribe,
    /// Wait for the next element of the open subscription.
    Next,
    /// Wait this many milliseconds.
    Wait(u64),
    /// The event was not one that the current phase waits for: carry on
    /// with the previous action.
    Keep,
    /// Stop: release the subscription and end the loop.
    Stop,
}

/// The loop's state: its phase, the failures in a row of each source, and
/// the retry policy.
#[derive(Clone, Copy, Debug, PartialEq, Eq, Structural)]
pub struct Reconciler {
    pub phase: Phase,
    pub fetch_failures: u32,
    pub stream_failures: u32,
    pub policy: BackoffPolicy,
}

/// One more failure in a row, stopping at the largest count.
pub open spec fn bumped(n: u32) -> u32 {
    if n < u32::MAX { (n + 1) as u32 } else { n }
}

/// The state after `e`.
pub open spec fn next_state(r: Reconciler, e: Event) -> Reconciler {
    match (r.phase, e) {
        (Phase::Stopped, _) => r,
        (_, Event::Cancelled) => Reconciler { phase: Phase::Stopped, ..r },
        (Phase::Priming, Event::Fetched(_)) => Reconciler { phase: Phase::Streaming, fetch_failures: 0, ..r },
        (Phase::Priming, Event::FetchFailed) => Reconciler {
            phase: Phase::RecoveringFetch,
            fetch_failures: bumped(r.fetch_failures),
            ..r
        },
        (Phase::RecoveringFetch, Event::BackoffElapsed) => Reconciler { phase: Phase::Priming, ..r },
        (Phase::Streaming, Event::Update(_, _)) => Reconciler { stream_failures: 0, ..r },
        (Phase::Streaming, Event::StreamFailed) => Reconciler {
            phase: Phase::RecoveringStream,
            stream_failures: bumped(r.stream_failures),
            ..r
        },
        (Phase::RecoveringStream, Event::BackoffElapsed) => Reconciler { phase: Phase::Streaming, ..r },
        _ => r,
    }
}

/// The store after `e`: the snapshot is merged only while priming, an
/// update is applied only while streaming, and nothing else writes.
pub open spec fn next_store(r: Reconciler, m: Map<Seq<char>, u64>, e: Event) -> Map<Seq<char>, u64> {
    match (r.phase, e) {
        (Phase::Priming, Event::Fetched(s)) => overlay(m, writes_of(s@)),
        (Phase::Streaming, Event::Update(k, v)) => m.insert(k@, v),
        _ => m,
    }
}

/// What to do after `e`; `jitter` places a backoff delay in its window.
pub open spec fn next_action(r: Reconciler, e: Event, jitter: u64) -> Action {
    match (r.phase, e) {
        (Phase::Stopped, _) => Action::Stop,
        (_, Event::Cancelled) => Action::Stop,
        (Phase::Priming, Event::Fetched(_)) => Action::Subscribe,
        (Phase::Priming, Event::FetchFailed) => Action::Wait(
            r.policy.delay(r.fetch_failures as nat, jitter) as u64,
        ),
        (Phase::RecoveringFetch, Event::BackoffElapsed) => Action::Fetch,
        (Phase::Streaming, Event::Update(_, _)) => Action::Next,
        (Phase::Streaming, Event::StreamFailed) => Action::Wait(
            r.policy.delay(r.stream_failures as nat, jitter) as u64,
        ),
        (Phase::RecoveringStream, Event::BackoffElapsed) => Action::Subscribe,
        _ => Action::Keep,
    }
}

/// The state after the events of `es`, in order.
pub open spec fn run_state(r: Reconciler, es: Seq<Event>) -> Reconciler
    decreases es.len(),
{
    if es.len() == 0 {
        r
    } else {
        next_state(run_state(r, es.drop_last()), es.last())
    }
}

/// The store after the events of `es`, in order, from state `r` and store `m`.
pub open spec fn run_store(r: Reconciler, m: Map<Seq<char>, u64>, es: Seq<Event>) -> Map<Seq<char>, u64>
    decreases es.len(),
{
    if es.len() == 0 {
        m
    } else {
        next_store(run_state(r, es.drop_last()), run_store(r, m, es.drop_last()), es.last())
    }
}

/// The events that a subscription yielding `u` hands the loop.
pub open spec fn updates(u: Seq<(String, u64)>) -> Seq<Event> {
    u.map_values(|p: (String, u64)| Event::Update(p.0, p.1))
}

/// Running one event is one step.
proof fn lemma_run_one(r: Reconciler, m: Map<Seq<char>, u64>, e: Event)
    ensures
        run_state(r, seq![e]) == next_state(r, e),
        run_store(r, m, seq![e]) == next_store(r, m, e),
{
    let es = seq![e];
    assert(es.drop_last() =~= Seq::<Event>::empty());
    assert(run_state(r, es.drop_last()) == r);
    assert(run_store(r, m, es.drop_last()) == m);
    assert(es.last() == e);
}

/// Running `p` then `q` is running `p + q`.
pub proof fn lemma_run_append(r: Reconciler, m: Map<Seq<char>, u64>, p: Seq<Event>, q: Seq<Event>)
    ensures
        run_state(r, p + q) == run_state(run_state(r, p), q),
        run_store(r, m, p + q) == run_store(run_state(r, p), run_store(r, m, p), q),
    decreases q.len(),
{
    if q.len() == 0 {
        assert(p + q =~= p);
    } else {
        assert((p + q).drop_last() =~= p + q.drop_last());
        assert((p + q).last() == q.last());
        lemma_run_append(r, m, p, q.drop_last());
    }
}

/// While streaming, a run of updates overlays them on the store in the
/// order in which they arrived, and the loop keeps streaming.
pub proof fn lemma_stream_overlays(r: Reconciler, m: Map<Seq<char>, u64>, u: Seq<(String, u64)>)
    requires
        r.phase == Phase::Streaming,
    ensures
        run_state(r, updates(u)).phase == Phase::Streaming,
        run_store(r, m, updates(u)) == overlay(m, writes_of(u)),
    decreases u.len(),
{
    if u.len() > 0 {
        assert(updates(u).drop_last() =~= updates(u.drop_last()));
        assert(writes_of(u).drop_last() =~= writes_of(u.drop_last()));
        lemma_stream_overlays(r, m, u.drop_last());
    }
}

/// Merge ordering: once the priming fetch has returned snapshot `s`, the
/// updates `u` that the subscription yields are applied in arrival order, so
/// the store is the snapshot overlaid by the updates, a later write of a key
/// winning over the snapshot and over every earlier update.
pub proof fn lemma_merge_order(r: Reconciler, m: Map<Seq<char>, u64>, s: Vec<(String, u64)>, u: Seq<(String, u64)>)
    requires
        r.phase == Phase::Priming,
    ensures
        run_state(r, seq![Event::Fetched(s)] + updates(u)).phase == Phase::Streaming,
        run_store(r, m, seq![Event::Fetched(s)] + updates(u)) == overlay(overlay(m, writes_of(s@)), writes_of(u)),
{
    let first = seq![Event::Fetched(s)];
    lemma_run_one(r, m, Event::Fetched(s));
    lemma_run_append(r, m, first, updates(u));
    lemma_stream_overlays(run_state(r, first), run_store(r, m, first), u);
}

/// `k` failed fetches, each followed by its backoff.
pub open spec fn failed_fetches(k: nat) -> Seq<Event>
    decreases k,
{
    if k == 0 {
        Seq::empty()
    } else {
        failed_fetches((k - 1) as nat) + seq![Event::FetchFailed, Event::BackoffElapsed]
    }
}

proof fn lemma_failed_fetches_write_nothing(r: Reconciler, m: Map<Seq<char>, u64>, k: nat)
    requires
        r.phase == Phase::Priming,
    ensures
        run_state(r, failed_fetches(k)).phase == Phase::Priming,
        run_state(r, failed_fetches(k)).stream_failures == r.stream_failures,
        run_state(r, failed_fetches(k)).policy == r.policy,
        run_store(r, m, failed_fetches(k)) == m,
    decreases k,
{
    if k > 0 {
        let p = failed_fetches((k - 1) as nat);
        let q = seq![Event::FetchFailed, Event::BackoffElapsed];
        lemma_failed_fetches_write_nothing(r, m, (k - 1) as nat);
        let r1 = run_state(r, p);
        lemma_run_append(r, m, p, q);
        lemma_run_append(r1, m, seq![Event::FetchFailed], seq![Event::BackoffElapsed]);
        assert(seq![Event::FetchFailed] + seq![Event::BackoffElapsed] =~= q);
        lemma_run_one(r1, m, Event::FetchFailed);
        lemma_run_one(next_state(r1, Event::FetchFailed), m, Event::BackoffElapsed);
    }
}

/// A priming fetch that fails `k` times before it returns snapshot `s` leaves
/// the loop and the store as a fetch that returned `s` at once would.
pub proof fn lemma_fetch_retry_idempotent(r: Reconciler, m: Map<Seq<char>, u64>, s: Vec<(String, u64)>, k: nat)
    requires
        r.phase == Phase::Priming,
    ensures
        run_state(r, failed_fetches(k) + seq![Event::Fetched(s)]) == run_state(r, seq![Event::Fetched(s)]),
        run_store(r, m, failed_fetches(k) + seq![Event::Fetched(s)]) == run_store(r, m, seq![Event::Fetched(s)]),
{
    let last = seq![Event::Fetched(s)];
    lemma_failed_fetches_write_nothing(r, m, k);
    lemma_run_append(r, m, failed_fetches(k), last);
    lemma_run_one(r, m, Event::Fetched(s));
    lemma_run_one(run_state(r, failed_fetches(k)), m, Event::Fetched(s));
}

/// Once stopped, the loop stays stopped and writes nothing, whatever comes.
pub proof fn lemma_stopped_is_final(r: Reconciler, m: Map<Seq<char>, u64>, es: Seq<Event>)
    requires
        r.phase == Phase::Stopped,
    ensures
        run_state(r, es) == r,
        run_store(r, m, es) == m,
    decreases es.len(),
{
    if es.len() > 0 {
        lemma_stopped_is_final(r, m, es.drop_last());
    }
}

/// After a cancellation, from any state, no event that follows (an in-flight
/// fetch or update included) changes the store.
pub proof fn lemma_no_write_after_cancel(r: Reconciler, m: Map<Seq<char>, u64>, es: Seq<Event>)
    ensures
        run_store(r, m, seq![Event::Cancelled] + es) == m,
{
    let first = seq![Event::Cancelled];
    lemma_run_one(r, m, Event::Cancelled);
    lemma_run_append(r, m, first, es);
    lemma_stopped_is_final(run_state(r, first), run_store(r, m, first), es);
}

/// Whether `p` is a phase before the first snapshot merge.
pub open spec fn before_merge(p: Phase) -> bool {
    p == Phase::Priming || p == Phase::RecoveringFetch
}

/// The snapshot merge comes before any update: until a fetch returns, no
/// event (an update included) writes to the store, and the loop does not
/// reach the streaming phase.
pub proof fn lemma_nothing_written_before_merge(r: Reconciler, m: Map<Seq<char>, u64>, es: Seq<Event>)
    requires
        before_merge(r.phase),
        forall|i: int| 0 <= i < es.len() ==> !(es[i] is Fetched),
    ensures
        before_merge(run_state(r, es).phase) || run_state(r, es).phase == Phase::Stopped,
        run_store(r, m, es) == m,
    decreases es.len(),
{
    if es.len() > 0 {
        let p = es.drop_last();
        assert forall|i: int| 0 <= i < p.len() implies !(p[i] is Fetched) by {
            assert(p[i] == es[i]);
        }
        lemma_nothing_written_before_merge(r, m, p);
        assert(!(es[es.len() - 1] is Fetched));
    }
}

/// Backoff bounds as the loop counts failures: the delay after one more
/// failure in a row (the count stopping at its largest value) is never
/// shorter than the one before, whatever jitter each drew, and no delay
/// exceeds the ceiling.
pub proof fn lemma_consecutive_retry_delays(policy: BackoffPolicy, n: u32, j1: u64, j2: u64)
    ensures
        0 <= policy.delay(n as nat, j1) <= policy.delay(bumped(n) as nat, j2) <= policy.ceiling_ms,
{
    policy.lemma_delay_window(n as nat, j1);
    policy.lemma_delay_window(bumped(n) as nat, j2);
    policy.lemma_upper_monotone(n as nat);
    if n < u32::MAX {
        policy.lemma_delays_ordered_and_bounded(n as nat, j1, j2);
    } else {
        policy.lemma_delay_settled(n as nat, j1, j2);
    }
}

impl Reconciler {
    /// A loop about to make its first fetch.
    pub fn new(policy: BackoffPolicy) -> (r: Reconciler)
        ensures
            r.phase == Phase::Priming,
            r.fetch_failures == 0,
            r.stream_failures == 0,
            r.policy == policy,
    {
        Reconciler { phase: Phase::Priming, fetch_failures: 0, stream_failures: 0, policy }
    }

    /// What the loop does first.
    pub fn start(&self) -> (a: Action)
        ensures
            a == (if self.phase == Phase::Stopped { Action::Stop } else { Action::Fetch }),
    {
        if self.phase == Phase::Stopped {
            Action::Stop
        } else {
            Action::Fetch
        }
    }

    /// Takes `event`, makes its write on `store`, and says what to do next.
    pub fn step(&mut self, store: &mut Store, event: Event, jitter: u64) -> (a: Action)
        requires
            old(store).wf(),
        ensures
            final(store).wf(),
            *final(self) == next_state(*old(self), event),
            final(store)@ == next_store(*old(self), old(store)@, event),
            a == next_action(*old(self), event, jitter),
    {
        proof {
            self.policy.lemma_delay_window(self.fetch_failures as nat, jitter);
            self.policy.lemma_delay_window(self.stream_failures as nat, jitter);
            self.policy.lemma_upper_monotone(self.fetch_failures as nat);
            self.policy.lemma_upper_monotone(self.stream_failures as nat);
        }
        match (self.phase, event) {
            (Phase::Stopped, _) => Action::Stop,
            (_, Event::Cancelled) => {
                self.phase = Phase::Stopped;
                Action::Stop
            },
            (Phase::Priming, Event::Fetched(snapshot)) => {
                store.upsert_many(&snapshot);
                self.phase = Phase::Streaming;
                self.fetch_failures = 0;
                Action::Subscribe
            },
            (Phase::Priming, Event::FetchFailed) => {
                let d = self.policy.delay_ms(self.fetch_failures, jitter);
                self.phase = Phase::RecoveringFetch;
                if self.fetch_failures < u32::MAX {
                    self.fetch_failures = self.fetch_failures + 1;
                }
                Action::Wait(d)
            },
            (Phase::RecoveringFetch, Event::BackoffElapsed) => {
                self.phase = Phase::Priming;
                Action::Fetch
            },
            (Phase::Streaming, Event::Update(key, value)) => {
                store.upsert_one(key, value);
                self.stream_failures = 0;
                Action::Next
            },
            (Phase::Streaming, Event::StreamFailed) => {
                let d = self.policy.delay_ms(self.stream_failures, jitter);
                self.phase = Phase::RecoveringStream;
                if self.stream_failures < u32::MAX {
                    self.stream_failures = self.stream_failures + 1;
                }
                Action::Wait(d)
            },
            (Phase::RecoveringStream, Event::BackoffElapsed) => {
                self.phase = Phase::Streaming;
                Action::Subscribe
            },
            _ => Action::Keep,
        }
    }
}

} // verus!
