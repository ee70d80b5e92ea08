//! The monitoring supervisor: the slot that holds at most one periodic
//! monitoring task, and the reconciliation of a tick's probe results into the
//! host registry.

use vstd::prelude::*;
use tokio::sync::oneshot::{Receiver, Sender};
use crate::probe::Outcome;
use crate::registry::{flag_of, marked, HostEntry, HostRegistry};
use crate::text::push_text;

verus! {

/// The periodic task that occupies the slot: the chat that started it, to
/// which notifications go, and the tick interval captured when it started.
#[derive(Clone, Copy, PartialEq, Eq, Structural, Debug)]
pub struct MonitoringTask {
    pub owner: i64,
    pub interval_secs: u64,
}

/// Why a start request was refused.
#[derive(Clone, Copy, PartialEq, Eq, Structural, Debug)]
pub enum StartError {
    AlreadyRunning,
}

/// Why a stop request failed.
#[derive(Clone, Copy, PartialEq, Eq, Structural, Debug)]
pub enum StopError {
    /// The slot is empty.
    NotRunning,
    /// The task could not take the signal: its receiving half is gone.
    SignalRejected,
}

/// What wakes the periodic loop.
#[derive(Clone, Copy, PartialEq, Eq, Structural, Debug)]
pub enum LoopEvent {
    /// The cancellation channel resolved: a signal came, or the sender is gone.
    Cancelled,
    /// The interval timer elapsed.
    TimerElapsed,
}

/// What the periodic loop does next.
#[derive(Clone, Copy, PartialEq, Eq, Structural, Debug)]
pub enum LoopStep {
    /// Leave the loop, without a last tick, and release the slot.
    Exit,
    /// Run one tick, then wait again.
    Tick,
}

/// A request to the task slot.
pub enum SlotRequest {
    /// Start the periodic task for a chat, with a tick interval.
    Start { chat: i64, interval_secs: u64 },
    /// Send the task its cancellation signal.
    Stop,
    /// Empty the slot: the last step of the periodic loop.
    Release,
}

/// The supervisor of the one periodic monitoring task. Its slot is empty
/// (idle) or holds the task that runs; a task whose cancellation was already
/// requested stays in the slot until the loop releases it.
pub struct Supervisor {
    task: Option<MonitoringTask>,
    cancel: Option<Sender<()>>,
}

/// One probe result of a tick: the host, and the verdict on it.
#[derive(Clone, Debug, PartialEq, Eq)]
pub struct TickResult {
    pub host: String,
    pub outcome: Outcome,
}

/// The slot after a request. A start fills an empty slot and leaves an
/// occupied one as it is; a stop never changes the slot; a release empties it.
pub open spec fn slot_after(slot: Option<MonitoringTask>, request: SlotRequest) -> Option<
    MonitoringTask,
> {
    match request {
        SlotRequest::Start { chat, interval_secs } => match slot {
            Some(task) => Some(task),
            None => Some(MonitoringTask { owner: chat, interval_secs }),
        },
        SlotRequest::Stop => slot,
        SlotRequest::Release => None,
    }
}

/// Whether a request is a start that the slot grants.
pub open spec fn grants(slot: Option<MonitoringTask>, request: SlotRequest) -> bool {
    request is Start && slot is None
}

/// How many starts are granted when the requests are served in order.
pub open spec fn starts_granted(slot: Option<MonitoringTask>, requests: Seq<SlotRequest>) -> nat
    decreases requests.len(),
{
    if requests.len() == 0 {
        0
    } else {
        let first: nat = if grants(slot, requests[0]) {
            1
        } else {
            0
        };
        first + starts_granted(slot_after(slot, requests[0]), requests.drop_first())
    }
}

/// The slot after the requests were served in order.
pub open spec fn slot_after_all(slot: Option<MonitoringTask>, requests: Seq<SlotRequest>)
    -> Option<MonitoringTask>
    decreases requests.len(),
{
    if requests.len() == 0 {
        slot
    } else {
        slot_after_all(slot_after(slot, requests[0]), requests.drop_first())
    }
}

/// The hostnames flagged online, in order: the hosts that a tick probes.
pub open spec fn online_names(v: Seq<(Seq<char>, bool)>) -> Seq<Seq<char>>
    decreases v.len(),
{
    if v.len() == 0 {
        Seq::empty()
    } else if v.last().1 {
        online_names(v.drop_last()).push(v.last().0)
    } else {
        online_names(v.drop_last())
    }
}

/// The notification for a host found unreachable: a fixed label, then the raw
/// diagnostic of the probe.
pub open spec fn offline_notice(detail: Seq<char>) -> Seq<char> {
    "HOST OFFLINE -> STDOUT "@ + detail
}

/// The registry after one probe result: a reachable host leaves it as it is,
/// an unreachable one is marked offline.
pub open spec fn after_probe(v: Seq<(Seq<char>, bool)>, host: Seq<char>, reachable: bool) -> Seq<
    (Seq<char>, bool),
> {
    if reachable {
        v
    } else {
        marked(v, host, false)
    }
}

/// The registry after the probe results of a tick, taken in order.
pub open spec fn after_tick(v: Seq<(Seq<char>, bool)>, results: Seq<(Seq<char>, bool)>) -> Seq<
    (Seq<char>, bool),
>
    decreases results.len(),
{
    if results.len() == 0 {
        v
    } else {
        after_probe(after_tick(v, results.drop_last()), results.last().0, results.last().1)
    }
}

/// The probe results of a tick as pairs of hostname and reachability.
pub open spec fn tick_view(results: Seq<TickResult>) -> Seq<(Seq<char>, bool)> {
    Seq::new(results.len(), |i: int| (results[i].host@, results[i].outcome.reachable))
}

/// The notifications of a tick: one for each unreachable result, in order.
pub open spec fn tick_notices(results: Seq<TickResult>) -> Seq<Seq<char>>
    decreases results.len(),
{
    if results.len() == 0 {
        Seq::empty()
    } else if results.last().outcome.reachable {
        tick_notices(results.drop_last())
    } else {
        tick_notices(results.drop_last()).push(offline_notice(results.last().outcome.detail@))
    }
}

/// The sending half of a one-shot channel of tokio. Its contents are opaque.
#[verifier::external_type_specification]
#[verifier::external_body]
#[verifier::reject_recursive_types(T)]
pub struct ExSender<T>(tokio::sync::oneshot::Sender<T>);

/// The receiving half of a one-shot channel of tokio. Its contents are opaque.
#[verifier::external_type_specification]
#[verifier::external_body]
#[verifier::reject_recursive_types(T)]
pub struct ExReceiver<T>(tokio::sync::oneshot::Receiver<T>);

/// What awaiting the receiving half gives when the sender is gone. Declared
/// because the receiving half names it; the library never looks at one.
#[verifier::external_type_specification]
#[verifier::external_body]
pub struct ExRecvError(tokio::sync::oneshot::error::RecvError);

/// Makes a one-shot channel, by `tokio::sync::oneshot::channel`. Nothing is
/// claimed of the two halves.
#[verifier::external_body]
fn cancel_channel() -> (halves: (Sender<()>, Receiver<()>)) {
    tokio::sync::oneshot::channel()
}

/// Sends the cancellation signal, by `Sender::send`, and tells whether it was
/// accepted. That depends on whether the receiving half is still alive, so
/// nothing is claimed of the answer.
#[verifier::external_body]
fn send_cancel(tx: Sender<()>) -> (accepted: bool) {
    tx.send(()).is_ok()
}

impl Supervisor {
    /// The task in the slot, if any.
    pub closed spec fn slot(&self) -> Option<MonitoringTask> {
        self.task
    }

    /// Whether the task in the slot can still be sent its cancellation signal.
    pub closed spec fn armed(&self) -> bool {
        self.cancel is Some
    }

    /// The invariant of every supervisor: only an occupied slot is armed.
    #[verifier::type_invariant]
    pub open spec fn wf(&self) -> bool {
        self.armed() ==> self.slot() is Some
    }

    /// An idle supervisor.
    pub fn new() -> (s: Supervisor)
        ensures
            s.wf(),
            s.slot() is None,
            !s.armed(),
    {
        Supervisor { task: None, cancel: None }
    }

    /// Whether the slot is occupied.
    pub fn is_running(&self) -> (b: bool)
        ensures
            b == (self.slot() is Some),
    {
        self.task.is_some()
    }

    /// The task in the slot, if any.
    pub fn current(&self) -> (task: Option<MonitoringTask>)
        ensures
            task == self.slot(),
    {
        self.task
    }

    /// Asks to start the periodic task for `chat`, with the tick interval as
    /// it is now. An occupied slot refuses: nothing changes. An empty slot
    /// takes the task and hands out the receiving half of its cancellation
    /// channel, for the loop to wait on.
    pub fn start(&mut self, chat: i64, interval_secs: u64) -> (res: Result<Receiver<()>, StartError>)
        ensures
            final(self).wf(),
            final(self).slot() == slot_after(
                old(self).slot(),
                SlotRequest::Start { chat, interval_secs },
            ),
            res is Ok <==> grants(old(self).slot(), SlotRequest::Start { chat, interval_secs }),
            res is Err ==> res == Err::<Receiver<()>, StartError>(StartError::AlreadyRunning)
                && *final(self) == *old(self),
            res is Ok ==> final(self).armed(),
    {
        proof {
            use_type_invariant(&*self);
        }
        if self.task.is_some() {
            return Err(StartError::AlreadyRunning);
        }
        let (tx, rx) = cancel_channel();
        self.task = Some(MonitoringTask { owner: chat, interval_secs });
        self.cancel = Some(tx);
        Ok(rx)
    }

    /// Asks to stop the periodic task. An empty slot refuses. Otherwise the
    /// cancellation signal is sent, unless it was sent before, and the answer
    /// says whether the task took it. The slot stays occupied either way: the
    /// loop releases it when it has left.
    pub fn stop(&mut self) -> (res: Result<(), StopError>)
        ensures
            final(self).wf(),
            final(self).slot() == slot_after(old(self).slot(), SlotRequest::Stop),
            !final(self).armed(),
            old(self).slot() is None <==> res == Err::<(), StopError>(StopError::NotRunning),
            old(self).slot() is Some && !old(self).armed() ==> res is Ok,
            res is Err ==> res == Err::<(), StopError>(StopError::NotRunning) || res == Err::<
                (),
                StopError,
            >(StopError::SignalRejected),
    {
        proof {
            use_type_invariant(&*self);
        }
        if self.task.is_none() {
            return Err(StopError::NotRunning);
        }
        let mut cancel: Option<Sender<()>> = None;
        core::mem::swap(&mut self.cancel, &mut cancel);
        match cancel {
            Some(tx) => stop_verdict(send_cancel(tx)),
            None => Ok(()),
        }
    }

    /// Empties the slot. The periodic loop calls this as its last step, on
    /// whichever path it leaves.
    pub fn release(&mut self)
        ensures
            final(self).wf(),
            final(self).slot() == slot_after(old(self).slot(), SlotRequest::Release),
            !final(self).armed(),
    {
        self.cancel = None;
        self.task = None;
    }
}

/// What a stop request answers once the signal was sent: done if the task
/// took it, an error if it could not.
pub fn stop_verdict(accepted: bool) -> (res: Result<(), StopError>)
    ensures
        accepted ==> res is Ok,
        !accepted ==> res == Err::<(), StopError>(StopError::SignalRejected),
{
    if accepted {
        Ok(())
    } else {
        Err(StopError::SignalRejected)
    }
}

/// What the periodic loop does on an event: a cancellation ends it at once,
/// an elapsed timer runs a tick.
pub fn next_step(event: LoopEvent) -> (step: LoopStep)
    ensures
        step == (match event {
            LoopEvent::Cancelled => LoopStep::Exit,
            LoopEvent::TimerElapsed => LoopStep::Tick,
        }),
{
    match event {
        LoopEvent::Cancelled => LoopStep::Exit,
        LoopEvent::TimerElapsed => LoopStep::Tick,
    }
}

/// The hosts that a tick probes: those of the snapshot that are flagged
/// online. Hosts flagged offline are left alone.
pub fn tick_targets(snapshot: &Vec<HostEntry>) -> (targets: Vec<String>)
    ensures
        targets.deep_view() == online_names(snapshot.deep_view()),
{
    let mut targets: Vec<String> = Vec::new();
    let mut i: usize = 0;
    assert(snapshot.deep_view().take(0) == Seq::<(Seq<char>, bool)>::empty());
    while i < snapshot.len()
        invariant
            i <= snapshot.len(),
            targets.deep_view() == online_names(snapshot.deep_view().take(i as int)),
        decreases snapshot.len() - i,
    {
        let ghost done = snapshot.deep_view().take(i as int);
        let ghost next = snapshot.deep_view().take(i + 1);
        proof {
            assert(next.drop_last() == done);
            assert(next.last() == snapshot@[i as int].deep_view());
        }
        if snapshot[i].online {
            let ghost before = targets.deep_view();
            targets.push(snapshot[i].hostname.clone());
            assert(targets.deep_view() == before.push(snapshot@[i as int].hostname@));
        }
        i += 1;
    }
    assert(snapshot.deep_view().take(snapshot.len() as int) == snapshot.deep_view());
    targets
}

/// Takes one probe result of a tick into the registry. A reachable host
/// changes nothing and gives no notification. An unreachable host is marked
/// offline, and the one notification for it is handed back.
pub fn record_outcome(registry: &mut HostRegistry, host: &str, outcome: &Outcome) -> (notice:
    Option<String>)
    ensures
        final(registry).wf(),
        final(registry)@ == after_probe(old(registry)@, host@, outcome.reachable),
        outcome.reachable ==> notice is None && final(registry)@ == old(registry)@,
        !outcome.reachable ==> notice is Some && notice->0@ == offline_notice(outcome.detail@),
{
    proof {
        use_type_invariant(&*registry);
    }
    if outcome.reachable {
        None
    } else {
        registry.mark(host, false);
        let mut notice = String::new();
        push_text(&mut notice, "HOST OFFLINE -> STDOUT ");
        push_text(&mut notice, outcome.detail.as_str());
        Some(notice)
    }
}

/// Takes the probe results of a tick into the registry, one after another,
/// and hands back the notifications to send: one for each unreachable host.
pub fn reconcile(registry: &mut HostRegistry, results: &Vec<TickResult>) -> (notices: Vec<String>)
    ensures
        final(registry).wf(),
        final(registry)@ == after_tick(old(registry)@, tick_view(results@)),
        notices.deep_view() == tick_notices(results@),
{
    let mut notices: Vec<String> = Vec::new();
    let mut i: usize = 0;
    assert(tick_view(results@).take(0) == Seq::<(Seq<char>, bool)>::empty());
    assert(results@.take(0) == Seq::<TickResult>::empty());
    while i < results.len()
        invariant
            i <= results.len(),
            registry@ == after_tick(old(registry)@, tick_view(results@).take(i as int)),
            notices.deep_view() == tick_notices(results@.take(i as int)),
        decreases results.len() - i,
    {
        proof {
            let done = tick_view(results@).take(i as int);
            let next = tick_view(results@).take(i + 1);
            assert(next.drop_last() == done);
            assert(next.last() == (results@[i as int].host@, results@[i as int].outcome.reachable));
            assert(results@.take(i + 1).drop_last() == results@.take(i as int));
            assert(results@.take(i + 1).last() == results@[i as int]);
        }
        let notice = record_outcome(registry, results[i].host.as_str(), &results[i].outcome);
        match notice {
            Some(text) => {
                let ghost before = notices.deep_view();
                notices.push(text);
                assert(notices.deep_view() == before.push(text@));
            },
            None => {},
        }
        i += 1;
    }
    proof {
        use_type_invariant(&*registry);
        assert(tick_view(results@).take(results.len() as int) == tick_view(results@));
        assert(results@.take(results.len() as int) == results@);
    }
    notices
}

/// A tick changes no flag but to offline, and registers or drops no host.
pub proof fn lemma_tick_keeps_names(v: Seq<(Seq<char>, bool)>, results: Seq<(Seq<char>, bool)>)
    ensures
        crate::registry::names(after_tick(v, results)) == crate::registry::names(v),
    decreases results.len(),
{
    if results.len() > 0 {
        lemma_tick_keeps_names(v, results.drop_last());
        let before = after_tick(v, results.drop_last());
        assert(crate::registry::names(after_probe(before, results.last().0, results.last().1))
            == crate::registry::names(before));
    }
}

/// A tick registers or drops no host.
pub proof fn lemma_tick_has_host(
    v: Seq<(Seq<char>, bool)>,
    results: Seq<(Seq<char>, bool)>,
    host: Seq<char>,
)
    ensures
        crate::registry::has_host(after_tick(v, results), host) == crate::registry::has_host(
            v,
            host,
        ),
{
    lemma_tick_keeps_names(v, results);
    let w = after_tick(v, results);
    let nv = crate::registry::names(v);
    let nw = crate::registry::names(w);
    assert(nv.len() == v.len() && nw.len() == w.len());
    if crate::registry::has_host(v, host) {
        let k = choose|k: int| 0 <= k < v.len() && (#[trigger] v[k]).0 == host;
        assert(nv[k] == host);
        assert(nw[k] == host);
        assert(w[k].0 == host);
    }
    if crate::registry::has_host(w, host) {
        let k = choose|k: int| 0 <= k < w.len() && (#[trigger] w[k]).0 == host;
        assert(nw[k] == host);
        assert(nv[k] == host);
        assert(v[k].0 == host);
    }
}

/// Only registered hosts are among the hosts that a tick probes.
pub proof fn lemma_online_names_registered(v: Seq<(Seq<char>, bool)>, host: Seq<char>)
    ensures
        online_names(v).contains(host) ==> crate::registry::has_host(v, host),
    decreases v.len(),
{
    if v.len() > 0 && online_names(v).contains(host) {
        let init = v.drop_last();
        let names = online_names(v);
        let k = choose|k: int| 0 <= k < names.len() && names[k] == host;
        lemma_online_names_registered(init, host);
        if v.last().1 && k == names.len() - 1 {
            assert(v[v.len() - 1].0 == host);
        } else {
            assert(online_names(init)[k] == host);
            let m = choose|m: int| 0 <= m < init.len() && (#[trigger] init[m]).0 == host;
            assert(v[m].0 == host);
        }
    }
}

/// Between two releases exactly one start is granted, however many starts
/// and stops are requested and in whatever order. Requests that hold no
/// release grant at most one start: none when the slot was occupied before,
/// in which case the slot keeps its task, and exactly one when the slot was
/// empty and a start is among them, after which the slot is occupied.
pub proof fn one_start_between_releases(slot: Option<MonitoringTask>, requests: Seq<SlotRequest>)
    requires
        forall|i: int| 0 <= i < requests.len() ==> !(#[trigger] requests[i] is Release),
    ensures
        starts_granted(slot, requests) <= 1,
        slot is Some ==> starts_granted(slot, requests) == 0 && slot_after_all(slot, requests)
            == slot,
        slot is None && (exists|i: int| 0 <= i < requests.len() && #[trigger] requests[i] is Start)
            ==> starts_granted(slot, requests) == 1,
        starts_granted(slot, requests) == 1 ==> slot_after_all(slot, requests) is Some,
    decreases requests.len(),
{
    if requests.len() > 0 {
        let rest = requests.drop_first();
        assert forall|i: int| 0 <= i < rest.len() implies !(#[trigger] rest[i] is Release) by {
            assert(rest[i] == requests[i + 1]);
        }
        assert(!(requests[0] is Release));
        one_start_between_releases(slot_after(slot, requests[0]), rest);
        if slot is None && requests[0] is Stop {
            if exists|i: int| 0 <= i < requests.len() && #[trigger] requests[i] is Start {
                let i = choose|i: int| 0 <= i < requests.len() && #[trigger] requests[i] is Start;
                assert(rest[i - 1] == requests[i]);
                assert(rest[i - 1] is Start);
            }
        }
    }
}

/// A host whose probes of a tick all found it reachable keeps the flag it had:
/// the tick does not mark it offline.
pub proof fn reachable_host_keeps_flag(
    v: Seq<(Seq<char>, bool)>,
    results: Seq<(Seq<char>, bool)>,
    host: Seq<char>,
)
    requires
        forall|i: int| 0 <= i < results.len() && (#[trigger] results[i]).0 == host ==> results[i].1,
    ensures
        flag_of(after_tick(v, results), host) == flag_of(v, host),
    decreases results.len(),
{
    if results.len() > 0 {
        let init = results.drop_last();
        assert forall|i: int| 0 <= i < init.len() && (#[trigger] init[i]).0 == host implies init[i].1 by {
            assert(init[i] == results[i]);
        }
        reachable_host_keeps_flag(v, init, host);
        let last = results[results.len() - 1];
        if !last.1 {
            crate::registry::lemma_marked_other(after_tick(v, init), last.0, false, host);
        }
    }
}

/// A registered host that a probe of the tick found unreachable is offline
/// after the tick.
pub proof fn unreachable_host_is_offline(
    v: Seq<(Seq<char>, bool)>,
    results: Seq<(Seq<char>, bool)>,
    at: int,
)
    requires
        0 <= at < results.len(),
        !results[at].1,
        crate::registry::has_host(v, results[at].0),
    ensures
        flag_of(after_tick(v, results), results[at].0) == Some(false),
    decreases results.len(),
{
    let host = results[at].0;
    let init = results.drop_last();
    let before = after_tick(v, init);
    let last = results[results.len() - 1];
    lemma_tick_has_host(v, init, host);
    if at == results.len() - 1 {
        crate::registry::lemma_marked_same(before, host, false);
    } else {
        assert(init[at] == results[at]);
        unreachable_host_is_offline(v, init, at);
        if !last.1 {
            if last.0 == host {
                crate::registry::lemma_marked_same(before, host, false);
            } else {
                crate::registry::lemma_marked_other(before, last.0, false, host);
            }
        }
    }
}

/// A host that is flagged offline is not among the hosts that a tick probes:
/// once a host was found unreachable and notified, no later tick probes or
/// notifies it again while its flag stays as it is.
pub proof fn offline_host_is_not_probed(v: Seq<(Seq<char>, bool)>, host: Seq<char>)
    requires
        crate::registry::distinct(v),
        flag_of(v, host) == Some(false),
    ensures
        !online_names(v).contains(host),
    decreases v.len(),
{
    if v.len() > 0 {
        let init = v.drop_last();
        let last = v[v.len() - 1];
        assert(crate::registry::distinct(init)) by {
            assert forall|a: int, b: int| 0 <= a < b < init.len() implies (#[trigger] init[a]).0 != (
            #[trigger] init[b]).0 by {
                assert(init[a] == v[a] && init[b] == v[b]);
            }
        }
        lemma_online_names_registered(init, host);
        if crate::registry::has_host(init, host) {
            let k = choose|k: int| 0 <= k < init.len() && (#[trigger] init[k]).0 == host;
            assert(v[k] == init[k]);
            crate::registry::lemma_flag_of(v, k);
            crate::registry::lemma_flag_of(init, k);
            offline_host_is_not_probed(init, host);
            assert(v[k].0 != v[v.len() - 1].0);
        } else {
            if last.0 == host {
                crate::registry::lemma_flag_of(v, v.len() - 1);
            } else {
                assert(!crate::registry::has_host(v, host)) by {
                    if crate::registry::has_host(v, host) {
                        let k = choose|k: int| 0 <= k < v.len() && (#[trigger] v[k]).0 == host;
                        assert(init[k].0 == host);
                    }
                }
                crate::registry::lemma_flag_of_absent(v, host);
            }
        }
        if online_names(v).contains(host) {
            let names = online_names(v);
            let k = choose|k: int| 0 <= k < names.len() && names[k] == host;
            if last.1 && k == names.len() - 1 {
                assert(last.0 == host);
            } else {
                assert(online_names(init)[k] == host);
            }
        }
    }
}

/// Two probe results of a tick may be taken into the registry in either
/// order: the registry ends up the same, so no update is lost whether the
/// hosts of a tick are handled one after another or side by side.
pub proof fn probe_results_commute(
    v: Seq<(Seq<char>, bool)>,
    first: (Seq<char>, bool),
    second: (Seq<char>, bool),
)
    ensures
        after_probe(after_probe(v, first.0, first.1), second.0, second.1) == after_probe(
            after_probe(v, second.0, second.1),
            first.0,
            first.1,
        ),
{
    let a = after_probe(after_probe(v, first.0, first.1), second.0, second.1);
    let b = after_probe(after_probe(v, second.0, second.1), first.0, first.1);
    assert(a =~= b);
}

} // verus!
