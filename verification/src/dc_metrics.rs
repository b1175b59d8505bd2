//! The generator of one zone: a fixed set of hosts, and one reading per call.

use crate::host::{HostState, HostView};
use crate::metric::{Metric, METRIC_COUNT};
use crate::reading::{
    host_id, host_label, lemma_host_labels_differ, record_text, Reading, ReadingView, ServerMetric,
};
use crate::source::{fresh_event_id, is_event_id, now_millis, random_below, random_chance};
use crate::walk::{Draws, ONSET_END, ONSET_MIN, OUTAGE_END, OUTAGE_MIN, STEP_LIMIT};
use vstd::prelude::*;

verus! {

/// An overload starts on one tick in this many.
pub const ONSET_ODDS: u32 = 20;

/// An outage starts on one tick in this many.
pub const OUTAGE_ODDS: u32 = 100;

/// A zone as the contracts see it: its name and its hosts, in their order.
pub struct ZoneView {
    pub zone: Seq<char>,
    pub hosts: Seq<HostView>,
}

impl ZoneView {
    /// Every host of the zone keeps its values in range.
    pub open spec fn wf(self) -> bool {
        forall|i: int| 0 <= i < self.hosts.len() ==> (#[trigger] self.hosts[i]).wf()
    }

    /// The number of hosts among the first `end` that are not in an outage at
    /// `now`.
    pub open spec fn live_before(self, now: int, end: int) -> nat
        decreases end,
    {
        if end <= 0 {
            0
        } else {
            self.live_before(now, end - 1) + if self.hosts[end - 1].down_at(now) {
                0nat
            } else {
                1nat
            }
        }
    }

    /// The number of hosts that are not in an outage at `now`.
    pub open spec fn live_count(self, now: int) -> nat {
        self.live_before(now, self.hosts.len() as int)
    }

    /// Host `host` is the one that `rank` live hosts come before: it is not in
    /// an outage at `now`, and exactly `rank` of the hosts before it are not.
    pub open spec fn is_live_at_rank(self, now: int, rank: nat, host: int) -> bool {
        &&& 0 <= host < self.hosts.len()
        &&& !self.hosts[host].down_at(now)
        &&& self.live_before(now, host) == rank
    }

    /// The live host that `rank` live hosts come before.
    pub open spec fn live_host(self, now: int, rank: nat) -> int {
        choose|host: int| self.is_live_at_rank(now, rank, host)
    }

    /// The reading that host `host` gives at `now`, under the given name.
    pub open spec fn reading_of(
        self,
        host: int,
        metric: Metric,
        now: int,
        draws: Draws,
        event_id: Seq<char>,
    ) -> ReadingView {
        ReadingView {
            event_id,
            host_id: host_label(host as nat),
            zone: self.zone,
            timestamp: now,
            metric,
            value: self.hosts[host].reading(metric, draws),
        }
    }

    /// The zone after host `host` has reported at `now`: that host has moved
    /// on, every other host is as it was.
    pub open spec fn after_report(self, host: int, metric: Metric, now: int, draws: Draws)
        -> ZoneView {
        ZoneView {
            zone: self.zone,
            hosts: self.hosts.update(host, self.hosts[host].after(metric, now, draws)),
        }
    }

    /// The zone goes over to `next` by one reading of one of its hosts that is
    /// not in an outage, for some draws in their ranges.
    pub open spec fn yields(self, next: ZoneView, reading: ReadingView) -> bool {
        exists|host: int, draws: Draws|
            #![trigger self.after_report(host, reading.metric, reading.timestamp, draws)]
            {
                &&& 0 <= host < self.hosts.len()
                &&& draws.valid()
                &&& !self.hosts[host].down_at(reading.timestamp)
                &&& reading == self.reading_of(
                    host,
                    reading.metric,
                    reading.timestamp,
                    draws,
                    reading.event_id,
                )
                &&& next == self.after_report(host, reading.metric, reading.timestamp, draws)
            }
    }

    /// The count of live hosts grows with the range it is taken over, by at
    /// most one per host.
    pub proof fn lemma_live_before_grows(self, now: int, from: int, to: int)
        requires
            0 <= from <= to,
        ensures
            self.live_before(now, from) <= self.live_before(now, to) <= self.live_before(
                now,
                from,
            ) + (to - from),
        decreases to - from,
    {
        if from < to {
            self.lemma_live_before_grows(now, from, to - 1);
        }
    }
}

impl ZoneView {
    /// At most one host has a given number of live hosts before it and is live
    /// itself.
    pub proof fn lemma_live_rank_unique(self, now: int, rank: nat, a: int, b: int)
        requires
            self.is_live_at_rank(now, rank, a),
            self.is_live_at_rank(now, rank, b),
        ensures
            a == b,
    {
        if a < b {
            self.lemma_live_before_grows(now, a + 1, b);
        } else if b < a {
            self.lemma_live_before_grows(now, b + 1, a);
        }
    }

    /// A rank picks a live host exactly when it is below the number of live
    /// hosts.
    pub proof fn lemma_live_rank_in_reach(self, now: int, rank: nat, host: int)
        requires
            self.is_live_at_rank(now, rank, host),
        ensures
            rank < self.live_count(now),
            self.live_host(now, rank) == host,
    {
        self.lemma_live_before_grows(now, host + 1, self.hosts.len() as int);
        self.lemma_live_rank_unique(now, rank, host, self.live_host(now, rank));
    }
}

impl ZoneView {
    /// A host in an outage is passed over: whatever reading the zone gives at
    /// that time, it is another host's, and the host in the outage stays as it
    /// is.
    pub proof fn lemma_outage_is_passed_over(self, next: ZoneView, reading: ReadingView, host: int)
        requires
            0 <= host < self.hosts.len(),
            self.hosts[host].down_at(reading.timestamp),
            self.yields(next, reading),
        ensures
            next.hosts[host] == self.hosts[host],
            reading.host_id != host_label(host as nat),
    {
        let (other, draws) = choose|other: int, draws: Draws|
            #![trigger self.after_report(other, reading.metric, reading.timestamp, draws)]
            {
                &&& 0 <= other < self.hosts.len()
                &&& draws.valid()
                &&& !self.hosts[other].down_at(reading.timestamp)
                &&& reading == self.reading_of(
                    other,
                    reading.metric,
                    reading.timestamp,
                    draws,
                    reading.event_id,
                )
                &&& next == self.after_report(other, reading.metric, reading.timestamp, draws)
            };
        lemma_host_labels_differ(other as nat, host as nat);
    }

    /// A reading changes one host and nothing else: the zone keeps its name
    /// and its number of hosts, the value read lies in the range of its
    /// metric, and a zone whose hosts kept their values in range goes on doing
    /// so.
    pub proof fn lemma_yields_keeps_shape(self, next: ZoneView, reading: ReadingView)
        requires
            self.yields(next, reading),
        ensures
            next.zone == self.zone,
            next.hosts.len() == self.hosts.len(),
            reading.zone == self.zone,
            reading.metric.admits(reading.value),
            self.wf() ==> next.wf(),
    {
        let (host, draws) = choose|host: int, draws: Draws|
            #![trigger self.after_report(host, reading.metric, reading.timestamp, draws)]
            {
                &&& 0 <= host < self.hosts.len()
                &&& draws.valid()
                &&& !self.hosts[host].down_at(reading.timestamp)
                &&& reading == self.reading_of(
                    host,
                    reading.metric,
                    reading.timestamp,
                    draws,
                    reading.event_id,
                )
                &&& next == self.after_report(host, reading.metric, reading.timestamp, draws)
            };
        self.hosts[host].lemma_tick_in_range(reading.metric, reading.timestamp, draws);
    }
}

impl ZoneView {
    /// Some host of the zone has no outage on record: at every instant the
    /// zone has a host to report.
    pub open spec fn has_steady_host(self) -> bool {
        exists|host: int|
            0 <= host < self.hosts.len() && (#[trigger] self.hosts[host]).failure_until is None
    }

    /// A zone with a host that has no outage on record has a live host at
    /// every instant.
    pub proof fn lemma_steady_host_is_live(self, now: int)
        requires
            self.has_steady_host(),
        ensures
            self.live_count(now) > 0,
    {
        let host = choose|host: int|
            0 <= host < self.hosts.len() && (#[trigger] self.hosts[host]).failure_until is None;
        self.lemma_live_before_grows(now, host + 1, self.hosts.len() as int);
    }
}

/// Takes from the random source what one tick needs: a step within the limit
/// either way, with one chance in twenty the factor of an overload, and with
/// one chance in a hundred the length of an outage.
fn draw() -> (draws: Draws)
    ensures
        draws.valid(),
{
    let step: u64 = random_below(2 * (STEP_LIMIT as u64) + 1);
    let onset: Option<u64> = if random_chance(1, ONSET_ODDS) {
        Some(random_below((ONSET_END - ONSET_MIN) as u64))
    } else {
        None
    };
    let outage: Option<u64> = if random_chance(1, OUTAGE_ODDS) {
        Some(random_below((OUTAGE_END - OUTAGE_MIN) as u64))
    } else {
        None
    };
    Draws::from_raw(step, onset, outage)
}

/// The generator of one zone.
pub struct ServerMetricsGenerator {
    zone: String,
    servers: usize,
    hosts: Vec<HostState>,
}

impl View for ServerMetricsGenerator {
    type V = ZoneView;

    closed spec fn view(&self) -> ZoneView {
        ZoneView {
            zone: self.zone@,
            hosts: Seq::new(self.hosts@.len(), |i: int| self.hosts@[i]@),
        }
    }
}

impl ServerMetricsGenerator {
    #[verifier::type_invariant]
    spec fn inv(self) -> bool {
        self.hosts@.len() == self.servers
    }

    /// A zone of the given name with `servers` hosts, none of which has
    /// reported anything yet.
    pub fn new(zone: String, servers: usize) -> (generator: Self)
        ensures
            generator@.zone == zone@,
            generator@.hosts.len() == servers,
            forall|i: int| 0 <= i < servers ==> generator@.hosts[i] == HostView::fresh(),
    {
        let mut hosts: Vec<HostState> = Vec::new();
        let mut i: usize = 0;
        while i < servers
            invariant
                i <= servers,
                hosts@.len() == i,
                forall|k: int| 0 <= k < i ==> (#[trigger] hosts@[k])@ == HostView::fresh(),
            decreases servers - i,
        {
            hosts.push(HostState::new());
            i += 1;
        }
        ServerMetricsGenerator { zone, servers, hosts }
    }

    /// The number of hosts in the zone.
    pub fn servers(&self) -> (count: usize)
        ensures
            count == self@.hosts.len(),
    {
        proof {
            use_type_invariant(self);
        }
        self.servers
    }

    /// The name of the zone.
    pub fn zone(&self) -> (name: &str)
        ensures
            name@ == self@.zone,
    {
        self.zone.as_str()
    }

    /// The host at a position in the zone.
    pub fn host(&self, index: usize) -> (host: &HostState)
        requires
            index < self@.hosts.len(),
        ensures
            host@ == self@.hosts[index as int],
    {
        &self.hosts[index]
    }

    /// Counts the hosts that are not in an outage at `now`.
    pub fn live_hosts(&self, now: i64) -> (count: usize)
        ensures
            count == self@.live_count(now as int),
    {
        let mut count: usize = 0;
        let mut i: usize = 0;
        while i < self.hosts.len()
            invariant
                i <= self.hosts@.len(),
                count <= i,
                count == self@.live_before(now as int, i as int),
            decreases self.hosts@.len() - i,
        {
            if !self.hosts[i].is_down(now) {
                count += 1;
            }
            i += 1;
        }
        count
    }

    /// Finds the live host that `rank` live hosts come before, if there are
    /// more than `rank` live hosts.
    pub fn locate(&self, now: i64, rank: usize) -> (found: Option<usize>)
        ensures
            found is Some <==> rank < self@.live_count(now as int),
            found matches Some(host) ==> self@.is_live_at_rank(now as int, rank as nat, host as int),
    {
        let mut seen: usize = 0;
        let mut i: usize = 0;
        while i < self.hosts.len()
            invariant
                i <= self.hosts@.len(),
                seen <= i,
                seen <= rank,
                seen == self@.live_before(now as int, i as int),
            decreases self.hosts@.len() - i,
        {
            if !self.hosts[i].is_down(now) {
                if seen == rank {
                    proof {
                        self@.lemma_live_before_grows(
                            now as int,
                            i + 1,
                            self@.hosts.len() as int,
                        );
                    }
                    return Some(i);
                }
                seen += 1;
            }
            i += 1;
        }
        None
    }

    /// Takes the host at `host` through one tick and gives its reading.
    ///
    /// A host in an outage gives none, and the zone stays as it is. Any other
    /// host reports the next value of the metric under the given identifier
    /// and moves on; every other host stays as it is.
    pub fn reading_at(
        &mut self,
        host: usize,
        metric: Metric,
        now: i64,
        draws: Draws,
        event_id: String,
    ) -> (r: Option<Reading>)
        requires
            host < old(self)@.hosts.len(),
            draws.valid(),
        ensures
            final(self)@.zone == old(self)@.zone,
            final(self)@.hosts.len() == old(self)@.hosts.len(),
            r is None <==> old(self)@.hosts[host as int].down_at(now as int),
            r is None ==> final(self)@ == old(self)@,
            r matches Some(reading) ==> reading@ == old(self)@.reading_of(
                host as int,
                metric,
                now as int,
                draws,
                event_id@,
            ) && final(self)@ == old(self)@.after_report(host as int, metric, now as int, draws)
                && metric.admits(reading.value as int),
    {
        proof {
            use_type_invariant(&*self);
        }
        let ticked: Option<i64> = self.hosts[host].tick(metric, now, draws);
        match ticked {
            Some(value) => {
                proof {
                    assert(self@.hosts =~= old(self)@.hosts.update(
                        host as int,
                        old(self)@.hosts[host as int].after(metric, now as int, draws),
                    ));
                }
                let zone: String = self.zone.clone();
                Some(Reading { event_id, host_id: host_id(host), zone, timestamp: now, metric, value })
            },
            None => {
                proof {
                    assert(self@.hosts =~= old(self)@.hosts);
                }
                None
            },
        }
    }

    /// Gives the reading of the live host that `rank` live hosts come before.
    ///
    /// Where the zone has no more than `rank` live hosts at `now` there is no
    /// reading, and the zone stays as it is.
    pub fn emit(
        &mut self,
        now: i64,
        rank: usize,
        metric: Metric,
        draws: Draws,
        event_id: String,
    ) -> (r: Option<Reading>)
        requires
            draws.valid(),
        ensures
            final(self)@.zone == old(self)@.zone,
            final(self)@.hosts.len() == old(self)@.hosts.len(),
            r is Some <==> rank < old(self)@.live_count(now as int),
            r is None ==> final(self)@ == old(self)@,
            r matches Some(reading) ==> {
                let host = old(self)@.live_host(now as int, rank as nat);
                &&& old(self)@.is_live_at_rank(now as int, rank as nat, host)
                &&& reading@ == old(self)@.reading_of(host, metric, now as int, draws, event_id@)
                &&& final(self)@ == old(self)@.after_report(host, metric, now as int, draws)
                &&& metric.admits(reading.value as int)
            },
    {
        match self.locate(now, rank) {
            Some(host) => {
                proof {
                    self@.lemma_live_rank_in_reach(now as int, rank as nat, host as int);
                }
                self.reading_at(host, metric, now, draws, event_id)
            },
            None => None,
        }
    }

    /// Gives the reading of the zone at `now`: of a host picked evenly among
    /// those that are not in an outage then, for a metric picked evenly from
    /// the catalog.
    ///
    /// There is a reading exactly where some host is not in an outage at
    /// `now`; where none is, the zone stays as it is.
    pub fn next_reading_at(&mut self, now: i64) -> (r: Option<Reading>)
        ensures
            final(self)@.zone == old(self)@.zone,
            final(self)@.hosts.len() == old(self)@.hosts.len(),
            r is Some <==> old(self)@.live_count(now as int) > 0,
            r is None ==> final(self)@ == old(self)@,
            r matches Some(reading) ==> reading.timestamp == now && old(self)@.yields(
                final(self)@,
                reading@,
            ) && reading.metric.admits(reading.value as int) && is_event_id(reading.event_id@),
    {
        let live: usize = self.live_hosts(now);
        if live == 0 {
            return None;
        }
        let rank: usize = random_below(live as u64) as usize;
        let metric: Metric = Metric::from_index(random_below(METRIC_COUNT as u64) as usize);
        let draws: Draws = draw();
        let event_id: String = fresh_event_id();
        let r: Option<Reading> = self.emit(now, rank, metric, draws, event_id);
        proof {
            let reading = r->0;
            let host = old(self)@.live_host(now as int, rank as nat);
            assert(self@ == old(self)@.after_report(
                host,
                reading@.metric,
                reading@.timestamp,
                draws,
            ));
        }
        r
    }

    /// Gives the next reading of the zone: of a host picked evenly among those
    /// that are not in an outage, for a metric picked evenly from the catalog,
    /// at the time the clock shows.
    ///
    /// There is no reading only where every host is in an outage at that
    /// time; the zone then stays as it is. A zone with a host that has no
    /// outage on record always gives one.
    pub fn next_reading(&mut self) -> (r: Option<Reading>)
        ensures
            final(self)@.zone == old(self)@.zone,
            final(self)@.hosts.len() == old(self)@.hosts.len(),
            r is None ==> final(self)@ == old(self)@,
            r is None ==> exists|now: int| #[trigger] old(self)@.live_count(now) == 0,
            old(self)@.has_steady_host() ==> r is Some,
            old(self)@.hosts.len() == 0 ==> r is None,
            r matches Some(reading) ==> old(self)@.yields(final(self)@, reading@)
                && reading.metric.admits(reading.value as int) && is_event_id(reading.event_id@),
    {
        let now: i64 = now_millis();
        proof {
            if old(self)@.has_steady_host() {
                old(self)@.lemma_steady_host_is_live(now as int);
            }
        }
        let r: Option<Reading> = self.next_reading_at(now);
        proof {
            if r is None {
                assert(old(self)@.live_count(now as int) == 0);
            }
        }
        r
    }

    /// Gives the next reading of the zone as a record ready to be sent.
    ///
    /// There is none only where every host is in an outage at the time the
    /// clock shows; the zone then stays as it is. A zone with a host that has
    /// no outage on record always gives one.
    pub fn next(&mut self) -> (r: Option<ServerMetric>)
        ensures
            final(self)@.zone == old(self)@.zone,
            final(self)@.hosts.len() == old(self)@.hosts.len(),
            r is None ==> final(self)@ == old(self)@,
            r is None ==> exists|now: int| #[trigger] old(self)@.live_count(now) == 0,
            old(self)@.has_steady_host() ==> r is Some,
            old(self)@.hosts.len() == 0 ==> r is None,
            r matches Some(sent) ==> exists|reading: ReadingView|
                {
                    &&& #[trigger] old(self)@.yields(final(self)@, reading)
                    &&& sent.message@ == record_text(reading)
                    &&& sent.host_id@ == reading.host_id
                    &&& reading.metric.admits(reading.value)
                    &&& is_event_id(reading.event_id)
                },
    {
        match self.next_reading() {
            Some(reading) => {
                let message: String = reading.to_json();
                proof {
                    assert(old(self)@.yields(self@, reading@));
                }
                Some(ServerMetric { message, host_id: reading.host_id })
            },
            None => None,
        }
    }
}

} // verus!
