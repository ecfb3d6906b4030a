//! The health forwarder: a state machine that decides, one event at a time,
//! whether to probe the watched process, run the health check, forward a
//! liveness notification, sleep for one tick, or stop.
use vstd::prelude::*;
use libc::pid_t;

verus! {

/// What running the health check command gave.
#[derive(Clone, Copy, Debug, PartialEq, Eq, Structural)]
pub enum HealthStatus {
    /// It ran and exited successfully.
    Passed,
    /// It ran and exited with a failure status.
    Failed,
    /// It could not be started.
    NotLaunched,
}

/// The result of the action that the forwarder asked for last.
#[derive(Clone, Copy, Debug, PartialEq, Eq, Structural)]
pub enum Event {
    /// The existence probe of the watched process: whether it exists.
    Probed(bool),
    /// The health check ran, or could not be started.
    HealthChecked(HealthStatus),
    /// The liveness notification: whether it was delivered.
    Notified(bool),
    /// One tick has passed.
    Slept,
}

/// Why the forwarder stopped.
#[derive(Clone, Copy, Debug, PartialEq, Eq, Structural)]
pub enum Outcome {
    /// The watched process is gone: a normal end.
    WatchedGone,
    /// The health check command could not be started.
    HealthCheckUnavailable,
    /// The notification channel reported a failure.
    NotifyFailed,
}

/// What the forwarder asks its runner to do next.
#[derive(Clone, Copy, Debug, PartialEq, Eq, Structural)]
pub enum Action {
    /// Probe whether the process with this identifier exists.
    Probe(pid_t),
    /// Run the health check command to completion.
    RunHealthCheck,
    /// Send a liveness notification on behalf of this process.
    Notify(pid_t),
    /// Sleep for this many microseconds.
    Sleep(u64),
    /// Stop, for this reason.
    Exit(Outcome),
}

impl Outcome {
    /// Whether the forwarder's process should exit with a success status.
    pub fn is_success(self) -> (r: bool)
        ensures
            r == (self == Outcome::WatchedGone),
    {
        match self {
            Outcome::WatchedGone => true,
            _ => false,
        }
    }
}

/// The forwarder: the process it watches, its tick, and the action it
/// waits on.
#[derive(Clone, Copy, Debug, PartialEq, Eq, Structural)]
pub struct Forwarder {
    pub pid: pid_t,
    pub tick_usec: u64,
    pub pending: Action,
}

/// The action that follows `pending` once `e` is its result. An event that
/// does not answer the pending action changes nothing, and a stopped
/// forwarder stays stopped.
pub open spec fn next_action(pid: pid_t, tick_usec: u64, pending: Action, e: Event) -> Action {
    match (pending, e) {
        (Action::Probe(_), Event::Probed(false)) => Action::Exit(Outcome::WatchedGone),
        (Action::Probe(_), Event::Probed(true)) => Action::RunHealthCheck,
        (Action::RunHealthCheck, Event::HealthChecked(HealthStatus::Passed)) => Action::Notify(pid),
        (Action::RunHealthCheck, Event::HealthChecked(HealthStatus::Failed)) => Action::Sleep(
            tick_usec,
        ),
        (Action::RunHealthCheck, Event::HealthChecked(HealthStatus::NotLaunched)) => Action::Exit(
            Outcome::HealthCheckUnavailable,
        ),
        (Action::Notify(_), Event::Notified(true)) => Action::Sleep(tick_usec),
        (Action::Notify(_), Event::Notified(false)) => Action::Exit(Outcome::NotifyFailed),
        (Action::Sleep(_), Event::Slept) => Action::Probe(pid),
        _ => pending,
    }
}

/// The forwarder after event `e`.
pub open spec fn step(f: Forwarder, e: Event) -> Forwarder {
    Forwarder { pending: next_action(f.pid, f.tick_usec, f.pending, e), ..f }
}

/// The forwarder after the events `es`, in order.
pub open spec fn state_after(f: Forwarder, es: Seq<Event>) -> Forwarder
    decreases es.len(),
{
    if es.len() == 0 {
        f
    } else {
        state_after(step(f, es[0]), es.drop_first())
    }
}

/// The actions that the forwarder asks for after each of the events `es`.
pub open spec fn run(f: Forwarder, es: Seq<Event>) -> Seq<Action>
    decreases es.len(),
{
    if es.len() == 0 {
        Seq::empty()
    } else {
        seq![step(f, es[0]).pending] + run(step(f, es[0]), es.drop_first())
    }
}

/// A forwarder as it starts: it probes the watched process first.
pub open spec fn started(pid: pid_t, tick_usec: u64) -> Forwarder {
    Forwarder { pid, tick_usec, pending: Action::Probe(pid) }
}

/// Relies on nix::sys::signal::kill with no signal, which only checks that a
/// signal could be delivered to `pid` and affects no process. The answer
/// depends on the system, so nothing is stated of it.
#[verifier::external_body]
fn signal_deliverable(pid: pid_t) -> bool {
    nix::sys::signal::kill(nix::unistd::Pid::from_raw(pid), None).is_ok()
}

impl Forwarder {
    /// A forwarder for the process `pid` that polls every `tick_usec`
    /// microseconds. Its first action is a probe, before any sleep.
    pub fn new(pid: pid_t, tick_usec: u64) -> (f: Forwarder)
        ensures
            f == started(pid, tick_usec),
    {
        Forwarder { pid, tick_usec, pending: Action::Probe(pid) }
    }

    /// Takes the result of the pending action and returns the next one.
    pub fn advance(&mut self, e: Event) -> (a: Action)
        ensures
            *final(self) == step(*old(self), e),
            a == final(self).pending,
    {
        let next = match (self.pending, e) {
            (Action::Probe(_), Event::Probed(false)) => Action::Exit(Outcome::WatchedGone),
            (Action::Probe(_), Event::Probed(true)) => Action::RunHealthCheck,
            (Action::RunHealthCheck, Event::HealthChecked(HealthStatus::Passed)) => Action::Notify(
                self.pid,
            ),
            (Action::RunHealthCheck, Event::HealthChecked(HealthStatus::Failed)) => Action::Sleep(
                self.tick_usec,
            ),
            (Action::RunHealthCheck, Event::HealthChecked(HealthStatus::NotLaunched)) => {
                Action::Exit(Outcome::HealthCheckUnavailable)
            },
            (Action::Notify(_), Event::Notified(true)) => Action::Sleep(self.tick_usec),
            (Action::Notify(_), Event::Notified(false)) => Action::Exit(Outcome::NotifyFailed),
            (Action::Sleep(_), Event::Slept) => Action::Probe(self.pid),
            _ => self.pending,
        };
        self.pending = next;
        next
    }

    /// Performs a pending probe of the watched process and takes its
    /// result: afterwards the forwarder runs the health check or stops, as
    /// the probe found the process or not. Without a pending probe nothing
    /// changes.
    pub fn probe_watched(&mut self) -> (a: Action)
        ensures
            old(self).pending is Probe ==> (*final(self) == step(*old(self), Event::Probed(true))
                || *final(self) == step(*old(self), Event::Probed(false))),
            !(old(self).pending is Probe) ==> *final(self) == *old(self),
            a == final(self).pending,
    {
        match self.pending {
            Action::Probe(p) => {
                let alive = signal_deliverable(p);
                self.advance(Event::Probed(alive))
            },
            _ => self.pending,
        }
    }
}

/// The events of one tick in which the watched process exists, the health
/// check passes and the notification is delivered.
pub open spec fn healthy_tick() -> Seq<Event> {
    seq![
        Event::Probed(true),
        Event::HealthChecked(HealthStatus::Passed),
        Event::Notified(true),
        Event::Slept,
    ]
}

/// The actions that answer the events of one healthy tick.
pub open spec fn healthy_tick_actions(pid: pid_t, tick_usec: u64) -> Seq<Action> {
    seq![Action::RunHealthCheck, Action::Notify(pid), Action::Sleep(tick_usec), Action::Probe(pid)]
}

/// `s` written `n` times in a row.
pub open spec fn repeated<A>(s: Seq<A>, n: nat) -> Seq<A>
    decreases n,
{
    if n == 0 {
        Seq::empty()
    } else {
        s + repeated(s, (n - 1) as nat)
    }
}

/// How many liveness notifications `acts` asks for.
pub open spec fn notify_count(acts: Seq<Action>) -> nat
    decreases acts.len(),
{
    if acts.len() == 0 {
        0
    } else {
        (if acts[0] is Notify {
            1nat
        } else {
            0nat
        }) + notify_count(acts.drop_first())
    }
}

proof fn lemma_run_append(f: Forwarder, a: Seq<Event>, b: Seq<Event>)
    ensures
        run(f, a + b) == run(f, a) + run(state_after(f, a), b),
        state_after(f, a + b) == state_after(state_after(f, a), b),
    decreases a.len(),
{
    if a.len() == 0 {
        assert(a + b =~= b);
        assert(run(f, a) + run(f, b) =~= run(f, b));
    } else {
        let g = step(f, a[0]);
        assert((a + b).drop_first() =~= a.drop_first() + b);
        assert((a + b)[0] == a[0]);
        lemma_run_append(g, a.drop_first(), b);
        assert(run(f, a + b) =~= run(f, a) + run(state_after(f, a), b));
    }
}

proof fn lemma_run_len(f: Forwarder, es: Seq<Event>)
    ensures
        run(f, es).len() == es.len(),
    decreases es.len(),
{
    if es.len() > 0 {
        lemma_run_len(step(f, es[0]), es.drop_first());
    }
}

proof fn lemma_notify_count_append(a: Seq<Action>, b: Seq<Action>)
    ensures
        notify_count(a + b) == notify_count(a) + notify_count(b),
    decreases a.len(),
{
    if a.len() == 0 {
        assert(a + b =~= b);
    } else {
        assert((a + b).drop_first() =~= a.drop_first() + b);
        assert((a + b)[0] == a[0]);
        lemma_notify_count_append(a.drop_first(), b);
    }
}

proof fn lemma_stopped_stays(f: Forwarder, es: Seq<Event>)
    requires
        f.pending is Exit,
    ensures
        forall|i: int| 0 <= i < es.len() ==> #[trigger] run(f, es)[i] == f.pending,
        run(f, es).len() == es.len(),
    decreases es.len(),
{
    if es.len() > 0 {
        assert(step(f, es[0]) == f);
        lemma_stopped_stays(f, es.drop_first());
        assert forall|i: int| 0 <= i < es.len() implies #[trigger] run(f, es)[i] == f.pending by {
            if i > 0 {
                assert(run(f, es)[i] == run(f, es.drop_first())[i - 1]);
            }
        }
    }
}

/// A watched process that is already gone when the forwarder starts stops
/// it at its first probe: whatever follows, it asks for nothing but to stop,
/// so the health check never runs and no notification is sent.
pub proof fn gone_at_start_stops_at_once(pid: pid_t, tick_usec: u64, es: Seq<Event>)
    requires
        es.len() > 0,
        es[0] == Event::Probed(false),
    ensures
        run(started(pid, tick_usec), es).len() == es.len(),
        forall|i: int|
            0 <= i < es.len() ==> #[trigger] run(started(pid, tick_usec), es)[i] == Action::Exit(
                Outcome::WatchedGone,
            ),
{
    let f = started(pid, tick_usec);
    let g = step(f, es[0]);
    lemma_stopped_stays(g, es.drop_first());
    assert forall|i: int| 0 <= i < es.len() implies #[trigger] run(f, es)[i] == Action::Exit(
        Outcome::WatchedGone,
    ) by {
        if i > 0 {
            assert(run(f, es)[i] == run(g, es.drop_first())[i - 1]);
        }
    }
}

/// While the health check fails, no notification is ever asked for; and
/// while, besides, the watched process exists and the check can be started,
/// the forwarder never stops.
pub proof fn failing_health_check_never_notifies(f: Forwarder, es: Seq<Event>)
    requires
        !(f.pending is Notify),
        forall|i: int|
            0 <= i < es.len() ==> #[trigger] es[i] != Event::HealthChecked(HealthStatus::Passed),
    ensures
        forall|i: int| 0 <= i < es.len() ==> !(#[trigger] run(f, es)[i] is Notify),
        !(f.pending is Exit) && (forall|i: int|
            0 <= i < es.len() ==> #[trigger] es[i] != Event::Probed(false) && es[i]
                != Event::HealthChecked(HealthStatus::NotLaunched)) ==> forall|i: int|
            0 <= i < es.len() ==> !(#[trigger] run(f, es)[i] is Exit),
    decreases es.len(),
{
    if es.len() > 0 {
        let g = step(f, es[0]);
        let rest = es.drop_first();
        assert forall|i: int| 0 <= i < rest.len() implies #[trigger] rest[i]
            != Event::HealthChecked(HealthStatus::Passed) by {
            assert(rest[i] == es[i + 1]);
        }
        failing_health_check_never_notifies(g, rest);
        lemma_run_len(g, rest);
        assert forall|i: int| 0 <= i < es.len() implies !(#[trigger] run(f, es)[i] is Notify) by {
            if i > 0 {
                assert(run(f, es)[i] == run(g, rest)[i - 1]);
            }
        }
        if !(f.pending is Exit) && (forall|i: int|
            0 <= i < es.len() ==> #[trigger] es[i] != Event::Probed(false) && es[i]
                != Event::HealthChecked(HealthStatus::NotLaunched)) {
            assert forall|i: int| 0 <= i < rest.len() implies #[trigger] rest[i] != Event::Probed(
                false,
            ) && rest[i] != Event::HealthChecked(HealthStatus::NotLaunched) by {
                assert(rest[i] == es[i + 1]);
            }
            assert(es[0] != Event::Probed(false));
            assert(es[0] != Event::HealthChecked(HealthStatus::NotLaunched));
            assert forall|i: int| 0 <= i < es.len() implies !(#[trigger] run(f, es)[i] is Exit) by {
                if i > 0 {
                    assert(run(f, es)[i] == run(g, rest)[i - 1]);
                }
            }
        }
    }
}

proof fn lemma_healthy_ticks(pid: pid_t, tick_usec: u64, n: nat)
    ensures
        run(started(pid, tick_usec), repeated(healthy_tick(), n)) == repeated(
            healthy_tick_actions(pid, tick_usec),
            n,
        ),
        state_after(started(pid, tick_usec), repeated(healthy_tick(), n)) == started(
            pid,
            tick_usec,
        ),
        notify_count(repeated(healthy_tick_actions(pid, tick_usec), n)) == n,
    decreases n,
{
    let f = started(pid, tick_usec);
    if n == 0 {
        assert(notify_count(Seq::<Action>::empty()) == 0);
    } else {
        let t = healthy_tick();
        let ta = healthy_tick_actions(pid, tick_usec);
        lemma_healthy_ticks(pid, tick_usec, (n - 1) as nat);
        lemma_run_append(f, t, repeated(t, (n - 1) as nat));
        let s1 = step(f, t[0]);
        let s2 = step(s1, t[1]);
        let s3 = step(s2, t[2]);
        let s4 = step(s3, t[3]);
        assert(t.drop_first().drop_first().drop_first().drop_first() =~= Seq::<Event>::empty());
        assert(run(f, t) =~= ta) by {
            reveal_with_fuel(run, 5);
            assert(t.drop_first()[0] == t[1]);
            assert(t.drop_first().drop_first()[0] == t[2]);
            assert(t.drop_first().drop_first().drop_first()[0] == t[3]);
        }
        assert(state_after(f, t) == f) by {
            reveal_with_fuel(state_after, 5);
            assert(t.drop_first()[0] == t[1]);
            assert(t.drop_first().drop_first()[0] == t[2]);
            assert(t.drop_first().drop_first().drop_first()[0] == t[3]);
        }
        lemma_notify_count_append(ta, repeated(ta, (n - 1) as nat));
        assert(notify_count(ta) == 1) by {
            reveal_with_fuel(notify_count, 5);
            assert(ta.drop_first()[0] == ta[1]);
            assert(ta.drop_first().drop_first()[0] == ta[2]);
            assert(ta.drop_first().drop_first().drop_first()[0] == ta[3]);
            assert(ta.drop_first().drop_first().drop_first().drop_first() =~= Seq::<Action>::empty());
        }
    }
}

/// With a watched process that lives for `n` ticks and a health check that
/// passes, the forwarder asks for exactly one notification per tick, each
/// on behalf of the watched process, and stops at the first probe that
/// finds the process gone.
pub proof fn healthy_ticks_notify_once_each(pid: pid_t, tick_usec: u64, n: nat)
    ensures
        ({
            let acts = run(started(pid, tick_usec), repeated(healthy_tick(), n) + seq![Event::Probed(false)]);
            &&& acts == repeated(healthy_tick_actions(pid, tick_usec), n) + seq![
                Action::Exit(Outcome::WatchedGone),
            ]
            &&& notify_count(acts) == n
            &&& forall|i: int| 0 <= i < acts.len() && (#[trigger] acts[i] is Notify) ==> acts[i] == Action::Notify(pid)
        }),
{
    let f = started(pid, tick_usec);
    let es = repeated(healthy_tick(), n);
    let last = seq![Event::Probed(false)];
    lemma_healthy_ticks(pid, tick_usec, n);
    lemma_run_append(f, es, last);
    assert(run(f, last) =~= seq![Action::Exit(Outcome::WatchedGone)]) by {
        reveal_with_fuel(run, 2);
        assert(last.drop_first() =~= Seq::<Event>::empty());
    }
    let tail = seq![Action::Exit(Outcome::WatchedGone)];
    lemma_notify_count_append(repeated(healthy_tick_actions(pid, tick_usec), n), tail);
    assert(notify_count(tail) == 0) by {
        reveal_with_fuel(notify_count, 2);
        assert(tail.drop_first() =~= Seq::<Action>::empty());
    }
    lemma_repeated_notifies_pid(pid, tick_usec, n);
}

proof fn lemma_repeated_notifies_pid(pid: pid_t, tick_usec: u64, n: nat)
    ensures
        forall|i: int|
            0 <= i < repeated(healthy_tick_actions(pid, tick_usec), n).len() && (
            #[trigger] repeated(healthy_tick_actions(pid, tick_usec), n)[i] is Notify) ==> repeated(
                healthy_tick_actions(pid, tick_usec),
                n,
            )[i] == Action::Notify(pid),
    decreases n,
{
    if n > 0 {
        let ta = healthy_tick_actions(pid, tick_usec);
        let r = repeated(ta, (n - 1) as nat);
        lemma_repeated_notifies_pid(pid, tick_usec, (n - 1) as nat);
        assert forall|i: int| 0 <= i < (ta + r).len() && (#[trigger] (ta + r)[i] is Notify) implies (ta
            + r)[i] == Action::Notify(pid) by {
            if i >= 4 {
                assert((ta + r)[i] == r[i - 4]);
            }
        }
    }
}

} // verus!
