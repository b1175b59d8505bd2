//! The state of one simulated host and the tick that moves it on.

use crate::metric::{Metric, METRIC_COUNT, SCALE};
use crate::walk::{
    burst_millionths, gain_tenths, lemma_bounded_drift, next_value, stepped, Draws,
};
use vstd::prelude::*;

verus! {

/// Whether a host runs normally or is overloaded.
#[derive(Clone, Copy, Debug, PartialEq, Eq, Structural)]
pub enum Status {
    Normal,
    Overloaded,
}

/// A host as the contracts see it.
pub struct HostView {
    /// The last value reported for each metric that was reported at all.
    pub last_values: Map<Metric, int>,
    pub status: Status,
    /// The instant, in milliseconds, before which the host stays silent.
    pub failure_until: Option<int>,
}

impl HostView {
    /// A host that has reported nothing yet.
    pub open spec fn fresh() -> HostView {
        HostView { last_values: Map::empty(), status: Status::Normal, failure_until: None }
    }

    /// Every value on record lies in the range of its metric.
    pub open spec fn wf(self) -> bool {
        forall|m: Metric| #[trigger]
            self.last_values.contains_key(m) ==> m.admits(self.last_values[m])
    }

    /// The host is in an outage at `now`.
    pub open spec fn down_at(self, now: int) -> bool {
        self.failure_until matches Some(until) && now < until
    }

    /// The value the next step of a metric starts from: the last one reported,
    /// or the metric's baseline.
    pub open spec fn previous(self, metric: Metric) -> int {
        if self.last_values.contains_key(metric) {
            self.last_values[metric]
        } else {
            metric.baseline_spec()
        }
    }

    /// The status under which a host that is not in an outage takes its tick:
    /// a host that comes back from an outage starts again as normal.
    pub open spec fn status_in_force(self) -> Status {
        if self.failure_until is Some {
            Status::Normal
        } else {
            self.status
        }
    }

    /// The value that a host which is not in an outage reports on its tick.
    pub open spec fn reading(self, metric: Metric, draws: Draws) -> int {
        stepped(
            metric,
            self.previous(metric),
            draws.step as int,
            self.status_in_force() == Status::Overloaded,
            draws.onset,
        )
    }

    /// The host after the tick of a host that is not in an outage.
    pub open spec fn after(self, metric: Metric, now: int, draws: Draws) -> HostView {
        HostView {
            last_values: self.last_values.insert(metric, self.reading(metric, draws)),
            status: if draws.onset is Some {
                Status::Overloaded
            } else {
                self.status_in_force()
            },
            failure_until: match draws.outage {
                Some(length) => Some(deadline(now, length as int)),
                None => None,
            },
        }
    }
}

impl HostView {
    /// One tick: the host afterwards, and the value it reports, if any. A host
    /// in an outage stays as it is and reports nothing.
    pub open spec fn tick(self, metric: Metric, now: int, draws: Draws) -> (HostView, Option<int>) {
        if self.down_at(now) {
            (self, None)
        } else {
            (self.after(metric, now, draws), Some(self.reading(metric, draws)))
        }
    }

    /// Every value a host reports lies in the range of its metric, and a host
    /// that kept its values in range goes on doing so.
    pub proof fn lemma_tick_in_range(self, metric: Metric, now: int, draws: Draws)
        ensures
            metric.admits(self.reading(metric, draws)),
            0 <= self.reading(metric, draws),
            metric.is_share() ==> self.reading(metric, draws) <= 100 * SCALE,
            metric == Metric::CpuTemp ==> 20 * SCALE <= self.reading(metric, draws) <= 100
                * SCALE,
            self.wf() ==> self.tick(metric, now, draws).0.wf(),
    {
        if self.wf() && !self.down_at(now) {
            let next = self.after(metric, now, draws);
            assert forall|m: Metric| #[trigger] next.last_values.contains_key(m) implies m.admits(
                next.last_values[m],
            ) by {
                if m != metric {
                    assert(self.last_values.contains_key(m));
                }
            }
        }
    }

    /// From one reading of a metric to the next, a host's value never jumps:
    /// it falls to no less than nine tenths of the one before (less the one
    /// unit that rounding may cost) and rises to no more than 1.1 times it,
    /// times 1.3 where the host is overloaded, times the factor of an overload
    /// that starts; so always to less than 2.145 times it.
    pub proof fn lemma_tick_drift(self, metric: Metric, draws: Draws)
        requires
            self.wf(),
            draws.valid(),
        ensures
            metric.admits(self.previous(metric)),
            9 * self.previous(metric) < 10 * (self.reading(metric, draws) + 1),
            self.reading(metric, draws) * 100 * SCALE <= self.previous(metric) * 11 * gain_tenths(
                self.status_in_force() == Status::Overloaded,
            ) * burst_millionths(draws.onset),
            1000 * self.reading(metric, draws) <= 2145 * self.previous(metric),
    {
        if self.last_values.contains_key(metric) {
            assert(metric.admits(self.last_values[metric]));
        }
        lemma_bounded_drift(
            metric,
            self.previous(metric),
            draws.step as int,
            self.status_in_force() == Status::Overloaded,
            draws.onset,
        );
    }

    /// Two readings of a metric in a row, with whatever the host reports of
    /// other metrics in between left aside: the second starts from the first,
    /// and lies within the same bounds of it.
    pub proof fn lemma_successive_readings(
        self,
        metric: Metric,
        now: int,
        first: Draws,
        later: int,
        second: Draws,
    )
        requires
            self.wf(),
            first.valid(),
            second.valid(),
            !self.down_at(now),
            !self.after(metric, now, first).down_at(later),
        ensures
            self.after(metric, now, first).previous(metric) == self.reading(metric, first),
            9 * self.reading(metric, first) < 10 * (self.after(metric, now, first).reading(
                metric,
                second,
            ) + 1),
            1000 * self.after(metric, now, first).reading(metric, second) <= 2145 * self.reading(
                metric,
                first,
            ),
    {
        self.lemma_tick_in_range(metric, now, first);
        self.after(metric, now, first).lemma_tick_drift(metric, second);
    }

    /// While its outage lasts a host reports nothing, whatever is asked of it
    /// and whatever is drawn, and stays as it is.
    pub proof fn lemma_silent_in_outage(self, until: int, metric: Metric, now: int, draws: Draws)
        requires
            self.failure_until == Some(until),
            now < until,
        ensures
            self.tick(metric, now, draws) == (self, None::<int>),
    {
    }

    /// The first tick at or after the end of an outage finds the host normal:
    /// its value is not amplified, though the host was overloaded when the
    /// outage began, and afterwards the host is overloaded only if an overload
    /// starts on that very tick.
    pub proof fn lemma_normal_after_outage(self, until: int, metric: Metric, now: int, draws: Draws)
        requires
            self.failure_until == Some(until),
            until <= now,
        ensures
            self.tick(metric, now, draws).1 == Some(
                stepped(metric, self.previous(metric), draws.step as int, false, draws.onset),
            ),
            self.tick(metric, now, draws).0.status == if draws.onset is Some {
                Status::Overloaded
            } else {
                Status::Normal
            },
            draws.outage is None ==> self.tick(metric, now, draws).0.failure_until is None,
    {
    }

    /// An outage that starts at `now` ends no earlier than ten seconds and no
    /// later than thirty seconds after it, and until then the host is silent.
    pub proof fn lemma_outage_length(self, metric: Metric, now: int, draws: Draws)
        requires
            !self.down_at(now),
            draws.valid(),
            draws.outage is Some,
            now + 30_000 <= i64::MAX,
        ensures
            self.tick(metric, now, draws).0.failure_until == Some(now + draws.outage->0),
            forall|later: int|
                now <= later < now + 10_000 ==> #[trigger] self.tick(metric, now, draws).0.down_at(
                    later,
                ),
            !self.tick(metric, now, draws).0.down_at(now + 30_000),
    {
    }

    /// The first reading of a share on a host that has reported nothing lies
    /// within ten percent of fifty, unless an overload starts on that very
    /// tick.
    pub proof fn lemma_first_share_reading(metric: Metric, now: int, draws: Draws)
        requires
            metric.is_share(),
            draws.valid(),
            draws.onset is None,
        ensures
            HostView::fresh().tick(metric, now, draws).1 matches Some(v) && 45 * SCALE <= v <= 55
                * SCALE,
    {
        let host = HostView::fresh();
        host.lemma_tick_drift(metric, draws);
        assert(host.previous(metric) == 50 * SCALE);
        let v = host.reading(metric, draws);
        assert(gain_tenths(false) == 10 && burst_millionths(None) == 1_000_000);
        assert(host.previous(metric) * 11 * 10 * 1_000_000 == 110_000_000 * host.previous(metric))
            by (nonlinear_arith);
        assert(v * 100 * SCALE == 100_000_000 * v) by (nonlinear_arith);
    }
}

/// The end of an outage of the given length that starts at `now`, kept within
/// what a timestamp can hold.
pub open spec fn deadline(now: int, length: int) -> int {
    if now + length <= i64::MAX {
        now + length
    } else {
        i64::MAX as int
    }
}

/// Puts a value on record in the given slot.
fn put(values: &mut Vec<Option<i64>>, slot: usize, value: i64)
    requires
        slot < old(values)@.len(),
    ensures
        final(values)@ == old(values)@.update(slot as int, Some(value)),
    no_unwind
{
    values[slot] = Some(value);
}

/// One simulated host.
pub struct HostState {
    last_values: Vec<Option<i64>>,
    status: Status,
    failure_until: Option<i64>,
}

impl View for HostState {
    type V = HostView;

    closed spec fn view(&self) -> HostView {
        HostView {
            last_values: Map::new(
                |m: Metric| self.last_values@[m.slot()] is Some,
                |m: Metric| self.last_values@[m.slot()]->0 as int,
            ),
            status: self.status,
            failure_until: match self.failure_until {
                Some(until) => Some(until as int),
                None => None,
            },
        }
    }
}

impl HostState {
    #[verifier::type_invariant]
    spec fn inv(self) -> bool {
        &&& self.last_values@.len() == METRIC_COUNT
        &&& forall|i: int|
            0 <= i < METRIC_COUNT ==> (#[trigger] self.last_values@[i] matches Some(v)
                ==> Metric::at(i).admits(v as int))
    }

    /// What the record holds is in range, said of the view.
    proof fn lemma_view_wf(self)
        requires
            self.inv(),
        ensures
            self@.wf(),
    {
        assert forall|m: Metric| #[trigger] self@.last_values.contains_key(m) implies m.admits(
            self@.last_values[m],
        ) by {
            assert(self.last_values@[m.slot()] is Some);
            assert(Metric::at(m.slot()) == m);
        }
    }

    /// A host that has reported nothing yet.
    pub fn new() -> (host: HostState)
        ensures
            host@ == HostView::fresh(),
    {
        let mut last_values: Vec<Option<i64>> = Vec::new();
        let mut i: usize = 0;
        while i < METRIC_COUNT
            invariant
                i <= METRIC_COUNT,
                last_values@.len() == i,
                forall|k: int| 0 <= k < i ==> last_values@[k] is None,
            decreases METRIC_COUNT - i,
        {
            last_values.push(None);
            i += 1;
        }
        let host = HostState { last_values, status: Status::Normal, failure_until: None };
        assert(host@.last_values =~= Map::empty());
        host
    }

    pub fn status(&self) -> (s: Status)
        ensures
            s == self@.status,
    {
        self.status
    }

    pub fn failure_until(&self) -> (until: Option<i64>)
        ensures
            until is Some == self@.failure_until is Some,
            until matches Some(t) ==> self@.failure_until == Some(t as int),
    {
        self.failure_until
    }

    /// The last value reported for the metric, if there is one.
    pub fn last_value(&self, metric: Metric) -> (v: Option<i64>)
        ensures
            v is Some == self@.last_values.contains_key(metric),
            v matches Some(x) ==> self@.last_values[metric] == x && metric.admits(x as int),
            self@.wf(),
    {
        proof {
            use_type_invariant(self);
            self.lemma_view_wf();
        }
        let v: Option<i64> = self.last_values[metric.index()];
        proof {
            if v is Some {
                assert(self@.last_values.contains_key(metric));
            }
        }
        v
    }

    /// Whether the host is in an outage at `now`.
    pub fn is_down(&self, now: i64) -> (down: bool)
        ensures
            down == self@.down_at(now as int),
    {
        match self.failure_until {
            Some(until) => now < until,
            None => false,
        }
    }

    /// Takes the host through one tick for one metric.
    ///
    /// A host in an outage reports nothing and stays as it is. Any other host
    /// reports the next value of the metric and keeps it on record; a host
    /// whose outage has ended starts again as normal. The draws say whether an
    /// overload or an outage starts on this tick.
    pub fn tick(&mut self, metric: Metric, now: i64, draws: Draws) -> (r: Option<i64>)
        requires
            draws.valid(),
        ensures
            final(self)@ == old(self)@.tick(metric, now as int, draws).0,
            r is None <==> old(self)@.down_at(now as int),
            r matches Some(v) ==> v == old(self)@.reading(metric, draws) && metric.admits(v as int),
            final(self)@.wf(),
    {
        proof {
            use_type_invariant(&*self);
        }
        let recovering: bool = match self.failure_until {
            Some(until) => {
                if now < until {
                    proof {
                        self.lemma_view_wf();
                    }
                    return None;
                }
                true
            },
            None => false,
        };
        let slot: usize = metric.index();
        assert(Metric::at(slot as int) == metric);
        let prev: i64 = match self.last_values[slot] {
            Some(v) => v,
            None => metric.baseline(),
        };
        let amplified: bool = !recovering && self.status == Status::Overloaded;
        let value: i64 = next_value(metric, prev, draws.step, amplified, draws.onset);
        let status: Status = if draws.onset.is_some() {
            Status::Overloaded
        } else if recovering {
            Status::Normal
        } else {
            self.status
        };
        let failure_until: Option<i64> = match draws.outage {
            Some(length) => Some(
                if now > i64::MAX - length {
                    i64::MAX
                } else {
                    now + length
                },
            ),
            None => None,
        };
        put(&mut self.last_values, slot, value);
        self.status = status;
        self.failure_until = failure_until;
        proof {
            assert(self@.last_values =~= old(self)@.last_values.insert(
                metric,
                old(self)@.reading(metric, draws),
            ));
            assert(self@ == old(self)@.after(metric, now as int, draws));
            use_type_invariant(&*self);
            self.lemma_view_wf();
        }
        Some(value)
    }
}

} // verus!
