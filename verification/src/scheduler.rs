//! The timers of the health checks: which of them are due at a given
//! instant, and the health record each of them feeds.
//!
//! The scheduler holds no clock and starts no probe. Its caller polls it
//! with the current time, carries out the probes of the timers that fired,
//! and reports each outcome back.

use crate::duration::Interval;
use crate::health::{
    HealthCheckResult,
    HealthCheckResultView,
    HealthRecord,
    HealthStatus,
    ProbeRequest,
    probe_request,
};
use crate::model::{BackendView, Configuration, all_schedulable};
use vstd::prelude::*;

verus! {

/// Names one health check: the position of its backend in the
/// configuration, and its own position among the checks of that backend.
#[derive(Debug, PartialEq, Eq, Structural, Clone, Copy)]
pub struct CheckId {
    pub backend: usize,
    pub check: usize,
}

/// A recurring timer. All times are in milliseconds.
#[derive(Debug, PartialEq, Eq, Structural, Clone, Copy)]
pub struct Timer {
    pub id: CheckId,
    /// Time between two firings.
    pub period_ms: u64,
    /// Instant from which the timer fires next. It may lie beyond the
    /// instants that a clock can show; the timer then fires no more.
    pub next_due_ms: u128,
}

/// A registered check: its timer and its health record.
#[derive(Debug, PartialEq, Eq, Structural, Clone, Copy)]
pub struct Slot {
    pub timer: Timer,
    pub record: HealthRecord,
}

/// The instant one period after `from_ms`.
pub open spec fn due_after(from_ms: u64, period_ms: u64) -> u128 {
    (from_ms + period_ms) as u128
}

impl Timer {
    /// Whether the timer fires when polled at `now_ms`.
    pub open spec fn is_due(self, now_ms: u64) -> bool {
        self.next_due_ms <= now_ms
    }

    /// The timer once it has fired: it is due again one period after the
    /// instant it was due, not after the instant it was polled.
    pub open spec fn rearmed(self) -> Timer {
        Timer { next_due_ms: (self.next_due_ms + self.period_ms) as u128, ..self }
    }

    /// The timer after a poll at `now_ms`.
    pub open spec fn polled(self, now_ms: u64) -> Timer {
        if self.is_due(now_ms) {
            self.rearmed()
        } else {
            self
        }
    }

    /// The timer after one poll at each of the given instants, in order.
    pub open spec fn polled_at_all(self, polls: Seq<u64>) -> Timer
        decreases polls.len(),
    {
        if polls.len() == 0 {
            self
        } else {
            self.polled_at_all(polls.drop_last()).polled(polls.last())
        }
    }

    /// How often the timer fires when polled at each of the given instants,
    /// in order.
    pub open spec fn firings(self, polls: Seq<u64>) -> nat
        decreases polls.len(),
    {
        if polls.len() == 0 {
            0
        } else {
            let earlier = polls.drop_last();
            self.firings(earlier) + if self.polled_at_all(earlier).is_due(polls.last()) {
                1nat
            } else {
                0nat
            }
        }
    }
}

impl Slot {
    /// The slot of a check registered at `now_ms`: its first probe is due one
    /// interval later, and nothing is known of its health.
    pub open spec fn fresh(id: CheckId, interval: Interval, now_ms: u64) -> Slot {
        Slot {
            timer: Timer {
                id,
                period_ms: interval.spec_millis() as u64,
                next_due_ms: due_after(now_ms, interval.spec_millis() as u64),
            },
            record: HealthRecord::initial(),
        }
    }

    /// The slot once a probe outcome is taken into its record; the timer is
    /// left alone.
    pub open spec fn recorded(self, outcome: HealthCheckResultView, threshold: u64) -> Slot {
        Slot { record: self.record.after(outcome, threshold), ..self }
    }

    /// The slot after a poll at `now_ms`; polling leaves the record alone.
    pub open spec fn polled(self, now_ms: u64) -> Slot {
        Slot { timer: self.timer.polled(now_ms), ..self }
    }
}

/// Positions of the timers that are due at `now_ms`, in rising order.
pub open spec fn due_indices(slots: Seq<Slot>, now_ms: u64) -> Seq<usize>
    decreases slots.len(),
{
    if slots.len() == 0 {
        Seq::empty()
    } else {
        let earlier = due_indices(slots.drop_last(), now_ms);
        if slots.last().timer.is_due(now_ms) {
            earlier.push((slots.len() - 1) as usize)
        } else {
            earlier
        }
    }
}

/// The slots of the checks of one backend, in the order of its checks.
pub open spec fn backend_slots(backend: BackendView, position: int, now_ms: u64) -> Seq<Slot> {
    Seq::new(
        backend.health.len(),
        |j: int|
            Slot::fresh(
                CheckId { backend: position as usize, check: j as usize },
                backend.health[j].interval,
                now_ms,
            ),
    )
}

/// The slots of all checks of a configuration registered at `now_ms`:
/// backend by backend, and within a backend check by check.
pub open spec fn registered_slots(backends: Seq<BackendView>, now_ms: u64) -> Seq<Slot>
    decreases backends.len(),
{
    if backends.len() == 0 {
        Seq::empty()
    } else {
        registered_slots(backends.drop_last(), now_ms) + backend_slots(
            backends.last(),
            backends.len() - 1,
            now_ms,
        )
    }
}

/// A [`Scheduler`] as a mathematical value.
pub struct SchedulerView {
    /// The registered checks, in the order of their registration.
    pub slots: Seq<Slot>,
    /// Number of failures in a row that makes a check unhealthy.
    pub threshold: u64,
    /// Whether polling still fires timers.
    pub running: bool,
}

/// Owns one timer and one health record per registered check.
#[derive(Debug, Clone)]
pub struct Scheduler {
    slots: Vec<Slot>,
    threshold: u64,
    running: bool,
}

impl View for Scheduler {
    type V = SchedulerView;

    closed spec fn view(&self) -> SchedulerView {
        SchedulerView { slots: self.slots@, threshold: self.threshold, running: self.running }
    }
}

fn due_after_ms(from_ms: u64, period_ms: u64) -> (r: u128)
    ensures
        r == due_after(from_ms, period_ms),
{
    from_ms as u128 + period_ms as u128
}

impl Scheduler {
    /// A running scheduler without any check.
    pub fn new(threshold: u64) -> (r: Scheduler)
        ensures
            r@ == (SchedulerView { slots: Seq::empty(), threshold, running: true }),
    {
        Scheduler { slots: Vec::new(), threshold, running: true }
    }

    /// Registers a check at `now_ms` and returns its position.
    pub fn register(&mut self, id: CheckId, interval: Interval, now_ms: u64) -> (index: usize)
        requires
            interval.wf(),
        ensures
            index == old(self)@.slots.len(),
            final(self)@ == (SchedulerView {
                slots: old(self)@.slots.push(Slot::fresh(id, interval, now_ms)),
                ..old(self)@
            }),
    {
        let period_ms = interval.to_millis();
        let index = self.slots.len();
        self.slots.push(
            Slot {
                timer: Timer { id, period_ms, next_due_ms: due_after_ms(now_ms, period_ms) },
                record: HealthRecord::new(),
            },
        );
        index
    }

    /// A running scheduler with one timer for every check of every backend,
    /// all registered at `now_ms`.
    pub fn start(config: &Configuration, now_ms: u64, threshold: u64) -> (r: Scheduler)
        requires
            all_schedulable(config@),
        ensures
            r@ == (SchedulerView {
                slots: registered_slots(config@, now_ms),
                threshold,
                running: true,
            }),
    {
        let mut scheduler = Scheduler::new(threshold);
        let mut b: usize = 0;
        while b < config.backends.len()
            invariant
                b <= config.backends@.len(),
                all_schedulable(config@),
                scheduler@ == (SchedulerView {
                    slots: registered_slots(config@.take(b as int), now_ms),
                    threshold,
                    running: true,
                }),
            decreases config.backends@.len() - b,
        {
            let backend = &config.backends[b];
            let ghost before = scheduler@.slots;
            let ghost view = config@[b as int];
            assert(view == backend@);
            assert(view.wf());
            let mut c: usize = 0;
            while c < backend.health.len()
                invariant
                    c <= backend.health@.len(),
                    view == backend@,
                    view.wf(),
                    scheduler@ == (SchedulerView {
                        slots: before + backend_slots(view, b as int, now_ms).take(c as int),
                        threshold,
                        running: true,
                    }),
                decreases backend.health@.len() - c,
            {
                let check = &backend.health[c];
                assert(view.health[c as int] == check@);
                assert(view.health[c as int].wf());
                let ghost whole = backend_slots(view, b as int, now_ms);
                scheduler.register(CheckId { backend: b, check: c }, check.interval, now_ms);
                assert(whole.take(c + 1) =~= whole.take(c as int).push(whole[c as int]));
                assert(scheduler@.slots =~= before + whole.take(c + 1));
                c = c + 1;
            }
            proof {
                let whole = backend_slots(view, b as int, now_ms);
                assert(whole.take(c as int) =~= whole);
                let upto = config@.take(b + 1);
                assert(upto.drop_last() =~= config@.take(b as int));
                assert(upto.last() == view);
            }
            b = b + 1;
        }
        assert(config@.take(b as int) =~= config@);
        scheduler
    }

    /// Number of registered checks.
    pub fn len(&self) -> (r: usize)
        ensures
            r == self@.slots.len(),
    {
        self.slots.len()
    }

    /// Whether polling still fires timers.
    pub fn is_running(&self) -> (r: bool)
        ensures
            r == self@.running,
    {
        self.running
    }

    /// Number of failures in a row that makes a check unhealthy.
    pub fn threshold(&self) -> (r: u64)
        ensures
            r == self@.threshold,
    {
        self.threshold
    }

    /// The timer at `index`, if there is one.
    pub fn timer(&self, index: usize) -> (r: Option<Timer>)
        ensures
            r == if index < self@.slots.len() {
                Some(self@.slots[index as int].timer)
            } else {
                None
            },
    {
        if index < self.slots.len() {
            Some(self.slots[index].timer)
        } else {
            None
        }
    }

    /// The health record of the check at `index`, if there is one.
    pub fn record(&self, index: usize) -> (r: Option<HealthRecord>)
        ensures
            r == if index < self@.slots.len() {
                Some(self@.slots[index as int].record)
            } else {
                None
            },
    {
        if index < self.slots.len() {
            Some(self.slots[index].record)
        } else {
            None
        }
    }

    /// The state of every check, in the order of registration.
    pub fn snapshot(&self) -> (r: Vec<Slot>)
        ensures
            r@ == self@.slots,
    {
        self.slots.clone()
    }

    /// Fires the timers that are due at `now_ms` and returns their
    /// positions in rising order.
    ///
    /// A timer that fired is due again one period after the instant it was
    /// due. Whether a timer fires depends on that timer and on `now_ms`
    /// alone: no other check, and no probe that is still under way, has a
    /// part in it. Once the scheduler is shut down nothing fires.
    pub fn poll(&mut self, now_ms: u64) -> (fired: Vec<usize>)
        ensures
            old(self)@.running ==> fired@ == due_indices(old(self)@.slots, now_ms) && final(self)@
                == (SchedulerView {
                slots: old(self)@.slots.map_values(|s: Slot| s.polled(now_ms)),
                ..old(self)@
            }),
            !old(self)@.running ==> fired@.len() == 0 && final(self)@ == old(self)@,
    {
        let mut fired: Vec<usize> = Vec::new();
        if !self.running {
            return fired;
        }
        let ghost before = self.slots@;
        let n = self.slots.len();
        let mut i: usize = 0;
        while i < n
            invariant
                i <= n,
                n == before.len(),
                self.slots@.len() == n,
                self.threshold == old(self).threshold,
                self.running == old(self).running,
                forall|j: int| 0 <= j < i ==> self.slots@[j] == (#[trigger] before[j]).polled(now_ms),
                forall|j: int| i <= j < n ==> self.slots@[j] == #[trigger] before[j],
                fired@ == due_indices(before.take(i as int), now_ms),
            decreases n - i,
        {
            let slot = self.slots[i];
            proof {
                let upto = before.take(i + 1);
                assert(upto.drop_last() =~= before.take(i as int));
                assert(upto.last() == before[i as int]);
            }
            if slot.timer.next_due_ms <= now_ms as u128 {
                let timer = Timer {
                    id: slot.timer.id,
                    period_ms: slot.timer.period_ms,
                    next_due_ms: slot.timer.next_due_ms + slot.timer.period_ms as u128,
                };
                self.slots.set(i, Slot { timer, record: slot.record });
                fired.push(i);
            }
            i = i + 1;
        }
        proof {
            assert(before.take(n as int) =~= before);
            assert(self.slots@ =~= before.map_values(|s: Slot| s.polled(now_ms)));
        }
        fired
    }

    /// Takes the outcome of a probe into the record of the check at `index`
    /// and says whether there is such a check. The timers are left alone,
    /// and outcomes are taken after a shutdown too.
    pub fn complete(&mut self, index: usize, outcome: &HealthCheckResult) -> (known: bool)
        ensures
            known == (index < old(self)@.slots.len()),
            known ==> final(self)@ == (SchedulerView {
                slots: old(self)@.slots.update(
                    index as int,
                    old(self)@.slots[index as int].recorded(outcome@, old(self)@.threshold),
                ),
                ..old(self)@
            }),
            !known ==> final(self)@ == old(self)@,
    {
        if index < self.slots.len() {
            let slot = self.slots[index];
            let mut record = slot.record;
            record.record(outcome, self.threshold);
            self.slots.set(index, Slot { timer: slot.timer, record });
            true
        } else {
            false
        }
    }

    /// Stops the scheduler: later polls fire nothing.
    pub fn shutdown(&mut self)
        ensures
            final(self)@ == (SchedulerView { running: false, ..old(self)@ }),
    {
        self.running = false;
    }
}

/// Whether `id` names a check of one of the backends.
pub open spec fn names_check(backends: Seq<BackendView>, id: CheckId) -> bool {
    id.backend < backends.len() && id.check < backends[id.backend as int].health.len()
}

impl Configuration {
    /// Prepares the probe of the check that `id` names, if there is such a
    /// check: the probe of that check against the host of its backend.
    pub fn request(&self, id: CheckId) -> (r: Option<ProbeRequest>)
        ensures
            r is Some <==> names_check(self@, id),
            r matches Some(request) ==> request@ == probe_request(
                self@[id.backend as int].host,
                self@[id.backend as int].health[id.check as int],
            ),
    {
        if id.backend < self.backends.len() {
            let backend = &self.backends[id.backend];
            assert(self@[id.backend as int] == backend@);
            if id.check < backend.health.len() {
                let check = &backend.health[id.check];
                assert(backend@.health[id.check as int] == check@);
                return Some(check.request(backend.host.as_str()));
            }
        }
        None
    }
}

/// The positions that a poll returns are those of the due timers, each once
/// and in rising order.
pub proof fn lemma_due_indices(slots: Seq<Slot>, now_ms: u64)
    requires
        slots.len() <= usize::MAX,
    ensures
        forall|k: int|
            0 <= k < due_indices(slots, now_ms).len() ==> {
                let i = #[trigger] due_indices(slots, now_ms)[k];
                i < slots.len() && slots[i as int].timer.is_due(now_ms)
            },
        forall|k: int, l: int|
            0 <= k < l < due_indices(slots, now_ms).len() ==> #[trigger] due_indices(
                slots,
                now_ms,
            )[k] < #[trigger] due_indices(slots, now_ms)[l],
        forall|i: int|
            0 <= i < slots.len() && (#[trigger] slots[i]).timer.is_due(now_ms) ==> due_indices(
                slots,
                now_ms,
            ).contains(i as usize),
    decreases slots.len(),
{
    if slots.len() > 0 {
        let earlier = slots.drop_last();
        lemma_due_indices(earlier, now_ms);
        let found = due_indices(slots, now_ms);
        let before = due_indices(earlier, now_ms);
        assert forall|i: int|
            0 <= i < slots.len() && (#[trigger] slots[i]).timer.is_due(now_ms) implies found.contains(
            i as usize,
        ) by {
            if i < slots.len() - 1 {
                assert(earlier[i] == slots[i]);
                let k = choose|k: int| 0 <= k < before.len() && before[k] == i as usize;
                assert(found[k] == i as usize);
            } else {
                assert(found[found.len() - 1] == i as usize);
            }
        }
        assert forall|k: int| 0 <= k < found.len() implies {
            let i = #[trigger] found[k];
            i < slots.len() && slots[i as int].timer.is_due(now_ms)
        } by {
            if k < before.len() {
                assert(found[k] == before[k]);
                assert(earlier[before[k] as int] == slots[before[k] as int]);
            }
        }
        assert forall|k: int, l: int| 0 <= k < l < found.len() implies #[trigger] found[k]
            < #[trigger] found[l] by {
            assert(found[k] == before[k]);
            if l < before.len() {
                assert(found[l] == before[l]);
            }
        }
    }
}

/// Whether a timer fires at a poll, and what becomes of it, is settled by
/// that timer and the instant of the poll: two schedulers that hold the same
/// timer at a position treat it alike, whatever their other checks are and
/// whatever their health records hold.
pub proof fn lemma_firing_is_independent(a: Seq<Slot>, b: Seq<Slot>, i: int, now_ms: u64)
    requires
        a.len() <= usize::MAX,
        b.len() <= usize::MAX,
        0 <= i < a.len(),
        i < b.len(),
        a[i].timer == b[i].timer,
    ensures
        due_indices(a, now_ms).contains(i as usize) <==> due_indices(b, now_ms).contains(i as usize),
        due_indices(a, now_ms).contains(i as usize) <==> a[i].timer.is_due(now_ms),
        a[i].polled(now_ms).timer == b[i].polled(now_ms).timer,
{
    lemma_due_indices(a, now_ms);
    lemma_due_indices(b, now_ms);
    let in_a = due_indices(a, now_ms);
    let in_b = due_indices(b, now_ms);
    if in_a.contains(i as usize) {
        let k = choose|k: int| 0 <= k < in_a.len() && in_a[k] == i as usize;
        assert(a[in_a[k] as int].timer.is_due(now_ms));
    }
    if in_b.contains(i as usize) {
        let k = choose|k: int| 0 <= k < in_b.len() && in_b[k] == i as usize;
        assert(b[in_b[k] as int].timer.is_due(now_ms));
    }
}

/// Polls are regular for a timer set at `start_ms` when time never runs
/// backwards and no two polls in a row, nor the start and the first poll,
/// lie more than one period apart.
pub open spec fn regular_polls(start_ms: u64, period_ms: u64, polls: Seq<u64>) -> bool {
    &&& polls.len() > 0 ==> start_ms <= polls[0] <= start_ms + period_ms
    &&& forall|i: int|
        0 < i < polls.len() ==> polls[i - 1] <= #[trigger] polls[i] <= polls[i - 1] + period_ms
}

/// Under regular polling a timer fires exactly once for every full period
/// that has passed since it was set: no firing is skipped and none comes
/// twice.
pub proof fn lemma_fires_once_per_period(id: CheckId, start_ms: u64, period_ms: u64, polls: Seq<u64>)
    requires
        period_ms > 0,
        polls.len() > 0,
        regular_polls(start_ms, period_ms, polls),
    ensures
        ({
            let timer = Timer {
                id,
                period_ms,
                next_due_ms: due_after(start_ms, period_ms),
            };
            &&& timer.firings(polls) == (polls.last() - start_ms) / (period_ms as int)
            &&& timer.polled_at_all(polls).next_due_ms == start_ms + (timer.firings(polls) + 1)
                * period_ms
            &&& timer.polled_at_all(polls).next_due_ms > polls.last()
        }),
{
    let timer = Timer { id, period_ms, next_due_ms: due_after(start_ms, period_ms) };
    lemma_regular_polling(timer, start_ms, polls);
    let count = timer.firings(polls) as int;
    let elapsed = polls.last() - start_ms;
    let p = period_ms as int;
    assert(count == elapsed / p) by (nonlinear_arith)
        requires
            p > 0,
            count >= 0,
            count * p <= elapsed < (count + 1) * p,
    ;
}

/// The state of a regularly polled timer after its last poll.
proof fn lemma_regular_polling(timer: Timer, start_ms: u64, polls: Seq<u64>)
    requires
        timer.period_ms > 0,
        timer.next_due_ms == due_after(start_ms, timer.period_ms),
        regular_polls(start_ms, timer.period_ms, polls),
    ensures
        ({
            let last = if polls.len() == 0 {
                start_ms
            } else {
                polls.last()
            };
            let count = timer.firings(polls);
            &&& timer.polled_at_all(polls).period_ms == timer.period_ms
            &&& timer.polled_at_all(polls).next_due_ms == start_ms + (count + 1) * timer.period_ms
            &&& start_ms + count * timer.period_ms <= last < start_ms + (count + 1)
                * timer.period_ms
        }),
    decreases polls.len(),
{
    let p = timer.period_ms as int;
    if polls.len() == 0 {
        assert((0 + 1) * p == p) by (nonlinear_arith);
        assert(0 * p == 0) by (nonlinear_arith);
    } else {
        let earlier = polls.drop_last();
        assert(regular_polls(start_ms, timer.period_ms, earlier)) by {
            if earlier.len() > 0 {
                assert(earlier[0] == polls[0]);
            }
            assert forall|i: int| 0 < i < earlier.len() implies earlier[i - 1] <= #[trigger] earlier[i]
                <= earlier[i - 1] + timer.period_ms by {
                assert(earlier[i] == polls[i]);
                assert(earlier[i - 1] == polls[i - 1]);
            }
        }
        if earlier.len() > 0 {
            assert(earlier.last() == polls[polls.len() - 2]);
            assert(polls[polls.len() - 2] <= polls[polls.len() - 1]);
        }
        lemma_regular_polling(timer, start_ms, earlier);
        let count = timer.firings(earlier) as int;
        assert((count + 2) * p == (count + 1) * p + p) by (nonlinear_arith);
        assert((count + 1) * p == count * p + p) by (nonlinear_arith);
    }
}

/// Number of checks of all backends together.
pub open spec fn check_count(backends: Seq<BackendView>) -> nat
    decreases backends.len(),
{
    if backends.len() == 0 {
        0
    } else {
        check_count(backends.drop_last()) + backends.last().health.len()
    }
}

/// Registering a configuration gives as many timers as it has checks.
pub proof fn lemma_one_timer_per_check(backends: Seq<BackendView>, now_ms: u64)
    ensures
        registered_slots(backends, now_ms).len() == check_count(backends),
    decreases backends.len(),
{
    if backends.len() > 0 {
        lemma_one_timer_per_check(backends.drop_last(), now_ms);
    }
}

/// Every check has a timer of its own, which stands after those of the
/// checks before it. Its period is the interval of the check, its first
/// firing is one period after the registration, and the health of the check
/// is not known yet.
pub proof fn lemma_timer_of_check(backends: Seq<BackendView>, now_ms: u64, b: int, c: int)
    requires
        0 <= b < backends.len(),
        0 <= c < backends[b].health.len(),
    ensures
        check_count(backends.take(b)) + c < registered_slots(backends, now_ms).len(),
        registered_slots(backends, now_ms)[check_count(backends.take(b)) + c] == Slot::fresh(
            CheckId { backend: b as usize, check: c as usize },
            backends[b].health[c].interval,
            now_ms,
        ),
    decreases backends.len(),
{
    let earlier = backends.drop_last();
    let before = registered_slots(earlier, now_ms);
    let added = backend_slots(backends.last(), backends.len() - 1, now_ms);
    lemma_one_timer_per_check(earlier, now_ms);
    if b < backends.len() - 1 {
        assert(earlier[b] == backends[b]);
        assert(earlier.take(b) =~= backends.take(b));
        lemma_timer_of_check(earlier, now_ms, b, c);
        let at = check_count(backends.take(b)) + c;
        assert((before + added)[at] == before[at]);
    } else {
        assert(backends.take(b) =~= earlier);
        assert((before + added)[before.len() + c] == added[c]);
    }
}

/// Until the first interval of a check has passed since the registration,
/// its timer does not fire, a poll leaves its slot as it is, and its health
/// is not known: no failure is counted and no probe has been asked for.
pub proof fn lemma_quiet_before_first_interval(
    backends: Seq<BackendView>,
    start_ms: u64,
    b: int,
    c: int,
    now_ms: u64,
)
    requires
        0 <= b < backends.len(),
        0 <= c < backends[b].health.len(),
        check_count(backends) <= usize::MAX,
        now_ms < start_ms + backends[b].health[c].interval.spec_millis(),
    ensures
        ({
            let at = check_count(backends.take(b)) + c;
            let slots = registered_slots(backends, start_ms);
            &&& at < slots.len()
            &&& !slots[at].timer.is_due(now_ms)
            &&& !due_indices(slots, now_ms).contains(at as usize)
            &&& slots[at].polled(now_ms) == slots[at]
            &&& slots[at].record.status == HealthStatus::Unknown
            &&& slots[at].record.consecutive_failures == 0
            &&& slots[at].record.last_checked_ms is None
        }),
{
    let at = check_count(backends.take(b)) + c;
    let slots = registered_slots(backends, start_ms);
    lemma_timer_of_check(backends, start_ms, b, c);
    lemma_one_timer_per_check(backends, start_ms);
    lemma_millis_in_range(backends[b].health[c].interval);
    lemma_due_indices(slots, now_ms);
    let found = due_indices(slots, now_ms);
    if found.contains(at as usize) {
        let k = choose|k: int| 0 <= k < found.len() && found[k] == at as usize;
        assert(slots[found[k] as int].timer.is_due(now_ms));
    }
}

/// The length of a positive interval in milliseconds is positive and fits
/// in 64 bits.
pub proof fn lemma_millis_in_range(interval: Interval)
    ensures
        interval.spec_millis() <= u64::MAX,
        interval.wf() ==> interval.spec_millis() > 0,
{
    let v = interval.value as nat;
    let m = interval.unit.spec_millis();
    assert(v * m <= 0xffff_ffff * 3_600_000) by (nonlinear_arith)
        requires
            v <= 0xffff_ffff,
            m <= 3_600_000,
    ;
    assert(v > 0 ==> v * m > 0) by (nonlinear_arith)
        requires
            m >= 1,
    ;
}

} // verus!
