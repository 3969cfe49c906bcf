use crate::snapshot::{names_unique, rows_view, to_map, CounterSnapshot, Row};
use std::time::Instant;
use vstd::prelude::*;

verus! {

/// Nanoseconds in one second.
pub const NANOS_PER_SEC: u64 = 1_000_000_000;

#[verifier::external_type_specification]
#[verifier::external_body]
pub struct ExInstant(std::time::Instant);

/// Relies on std::time::Instant::now: a reading of the monotonic clock.
/// Nothing is promised of the value read.
pub assume_specification[ std::time::Instant::now ]() -> std::time::Instant;

/// The time from `earlier` to `later`, as `saturating_duration_since`
/// gives it: a function of the two readings alone.
pub uninterp spec fn span_of(later: std::time::Instant, earlier: std::time::Instant) -> std::time::Duration;

/// The whole nanoseconds of a duration, as `as_nanos` gives them.
pub uninterp spec fn nanos_of(d: std::time::Duration) -> u128;

/// Relies on std::time::Instant::saturating_duration_since: the time from
/// `earlier` to `this` (zero when `earlier` is the later one), which depends
/// on the two readings alone.
pub assume_specification[ std::time::Instant::saturating_duration_since ](
    this: &std::time::Instant,
    earlier: std::time::Instant,
) -> (r: std::time::Duration)
    ensures
        r == span_of(*this, earlier),
;

/// Relies on core::time::Duration::as_nanos: the whole nanoseconds of a
/// duration, which depend on the duration alone.
pub assume_specification[ core::time::Duration::as_nanos ](d: &core::time::Duration) -> (r: u128)
    ensures
        r == nanos_of(*d),
;

/// `n` capped at `u64::MAX`.
pub open spec fn capped(n: u128) -> u64 {
    if n > u64::MAX {
        u64::MAX
    } else {
        n as u64
    }
}

/// Nanoseconds from the reading `stamp` to the reading `now`, capped.
pub open spec fn elapsed_nanos(now: Instant, stamp: Instant) -> u64 {
    capped(nanos_of(span_of(now, stamp)))
}

/// Per-second rate of a counter that went from `prev` to `curr` over
/// `nanos` nanoseconds: the increase (zero when the counter went down)
/// times one second over the interval, rounded down and capped at `u64::MAX`.
pub open spec fn rate_spec(prev: u64, curr: u64, nanos: nat) -> u64 {
    if curr <= prev || nanos == 0 {
        0
    } else {
        let q = (curr - prev) * (NANOS_PER_SEC as int) / (nanos as int);
        if q > u64::MAX {
            u64::MAX
        } else {
            q as u64
        }
    }
}

/// Rates for the names of `curr`, in its order, that `prev` also holds.
pub open spec fn rates_spec(prev: Map<Seq<char>, (u64, u64)>, curr: Seq<Row>, nanos: nat) -> Seq<
    Row,
>
    decreases curr.len(),
{
    if curr.len() == 0 {
        Seq::empty()
    } else {
        let r = rates_spec(prev, curr.drop_last(), nanos);
        let e = curr.last();
        if prev.contains_key(e.0) {
            r.push((e.0, rate_spec(prev[e.0].0, e.1, nanos), rate_spec(prev[e.0].1, e.2, nanos)))
        } else {
            r
        }
    }
}

/// One update of a series: the rates it reports and the snapshot it keeps.
/// With no time elapsed nothing is reported and the old snapshot is kept.
pub open spec fn advance(prev: Seq<Row>, curr: Seq<Row>, nanos: nat) -> (Seq<Row>, Seq<Row>) {
    if nanos == 0 {
        (Seq::empty(), prev)
    } else {
        (rates_spec(to_map(prev), curr, nanos), curr)
    }
}

/// Names that `rates_spec` reports.
pub open spec fn reports(rows: Seq<Row>, k: Seq<char>) -> bool {
    exists|j: int| 0 <= j < rows.len() && rows[j].0 == k
}

/// A name is reported exactly when the previous snapshot and the current
/// one both hold it.
pub proof fn lemma_reported_names(
    prev: Map<Seq<char>, (u64, u64)>,
    curr: Seq<Row>,
    nanos: nat,
    k: Seq<char>,
)
    ensures
        reports(rates_spec(prev, curr, nanos), k) <==> (prev.contains_key(k) && reports(curr, k)),
    decreases curr.len(),
{
    if curr.len() > 0 {
        let d = curr.drop_last();
        lemma_reported_names(prev, d, nanos, k);
        let r = rates_spec(prev, d, nanos);
        let rr = rates_spec(prev, curr, nanos);
        if reports(rr, k) {
            let j = choose|j: int| 0 <= j < rr.len() && rr[j].0 == k;
            if j < r.len() {
                assert(r[j].0 == k);
                let i = choose|i: int| 0 <= i < d.len() && d[i].0 == k;
                assert(curr[i].0 == k);
            } else {
                assert(curr[curr.len() - 1].0 == k);
            }
        }
        if prev.contains_key(k) && reports(curr, k) {
            let i = choose|i: int| 0 <= i < curr.len() && curr[i].0 == k;
            if i < d.len() {
                assert(d[i].0 == k);
                let j = choose|j: int| 0 <= j < r.len() && r[j].0 == k;
                assert(rr[j].0 == k);
            } else {
                assert(rr[rr.len() - 1].0 == k);
            }
        }
    }
}

/// A device seen for the first time is not reported by that update, and is
/// reported by the next one that also holds it (each update with time
/// elapsed).
pub proof fn lemma_new_device_reported_next_time(
    prev: Seq<Row>,
    first: Seq<Row>,
    second: Seq<Row>,
    n1: nat,
    n2: nat,
    k: Seq<char>,
)
    requires
        !to_map(prev).contains_key(k),
        reports(first, k),
        reports(second, k),
        n1 > 0,
        n2 > 0,
    ensures
        !reports(advance(prev, first, n1).0, k),
        reports(advance(advance(prev, first, n1).1, second, n2).0, k),
{
    lemma_reported_names(to_map(prev), first, n1, k);
    let i = choose|i: int| 0 <= i < first.len() && first[i].0 == k;
    crate::snapshot::lemma_to_map_dom(first, k);
    lemma_reported_names(to_map(first), second, n2, k);
}

/// A counter that went down (or stayed) yields a rate of zero, never a
/// negative or wrapped value.
pub proof fn lemma_decrease_is_zero(prev: u64, curr: u64, nanos: nat)
    requires
        curr <= prev,
    ensures
        rate_spec(prev, curr, nanos) == 0,
{
}

/// Updates with no time elapsed report nothing and keep the previous
/// snapshot, so a later update with time elapsed measures from that
/// snapshot and not from the readings that were passed in between.
pub proof fn lemma_zero_elapsed_keeps_previous(
    prev: Seq<Row>,
    a: Seq<Row>,
    b: Seq<Row>,
    c: Seq<Row>,
    nanos: nat,
)
    requires
        nanos > 0,
    ensures
        advance(prev, a, 0) == (Seq::<Row>::empty(), prev),
        advance(advance(prev, a, 0).1, b, 0) == (Seq::<Row>::empty(), prev),
        advance(advance(advance(prev, a, 0).1, b, 0).1, c, nanos) == (
            rates_spec(to_map(prev), c, nanos),
            c,
        ),
{
}

/// Per-second rate of one counter over `nanos` nanoseconds.
pub fn rate(prev: u64, curr: u64, nanos: u64) -> (r: u64)
    requires
        nanos > 0,
    ensures
        r == rate_spec(prev, curr, nanos as nat),
{
    let delta = curr.saturating_sub(prev);
    assert(delta as u128 * 1_000_000_000u128 <= 0xffff_ffff_ffff_ffffu128 * 1_000_000_000u128)
        by (nonlinear_arith);
    let q: u128 = (delta as u128) * (NANOS_PER_SEC as u128) / (nanos as u128);
    if q > u64::MAX as u128 {
        u64::MAX
    } else {
        q as u64
    }
}

/// Rates of every counter pair of `current` whose name `previous` also
/// holds, over an interval of `elapsed_nanos` nanoseconds.
pub fn rates_between(previous: &CounterSnapshot, current: &CounterSnapshot, elapsed_nanos: u64) -> (r:
    Vec<(String, u64, u64)>)
    requires
        previous.wf(),
        elapsed_nanos > 0,
    ensures
        rows_view(r@) == rates_spec(previous.counters(), current@, elapsed_nanos as nat),
{
    let mut out: Vec<(String, u64, u64)> = Vec::new();
    let n = current.len();
    let mut i: usize = 0;
    while i < n
        invariant
            previous.wf(),
            elapsed_nanos > 0,
            n == current@.len(),
            0 <= i <= n,
            rows_view(out@) == rates_spec(
                previous.counters(),
                current@.subrange(0, i as int),
                elapsed_nanos as nat,
            ),
        decreases n - i,
    {
        let ghost before = out@;
        let (name, curr_a, curr_b) = current.entry(i);
        let ghost sub = current@.subrange(0, i + 1);
        assert(sub.drop_last() =~= current@.subrange(0, i as int));
        match previous.get(&name) {
            Some((prev_a, prev_b)) => {
                let ra = rate(prev_a, curr_a, elapsed_nanos);
                let rb = rate(prev_b, curr_b, elapsed_nanos);
                out.push((name, ra, rb));
                assert(rows_view(out@) =~= rows_view(before).push((name@, ra, rb)));
            },
            None => {},
        }
        i = i + 1;
    }
    assert(current@.subrange(0, n as int) =~= current@);
    out
}

/// Turns cumulative network and disk counters into per-second rates.
///
/// Each series keeps its own previous snapshot and its own time of last
/// update, so updating one never shortens the interval of the other.
pub struct RateTracker {
    prev_network: CounterSnapshot,
    prev_disk: CounterSnapshot,
    network_stamp: Instant,
    disk_stamp: Instant,
}

impl RateTracker {
    pub closed spec fn network_previous(&self) -> Seq<Row> {
        self.prev_network@
    }

    pub closed spec fn disk_previous(&self) -> Seq<Row> {
        self.prev_disk@
    }

    pub closed spec fn network_stamp(&self) -> Instant {
        self.network_stamp
    }

    pub closed spec fn disk_stamp(&self) -> Instant {
        self.disk_stamp
    }

    pub open spec fn wf(&self) -> bool {
        names_unique(self.network_previous()) && names_unique(self.disk_previous())
    }

    pub fn new() -> (r: Self)
        ensures
            r.wf(),
            r.network_previous() == Seq::<Row>::empty(),
            r.disk_previous() == Seq::<Row>::empty(),
    {
        let now = Instant::now();
        RateTracker {
            prev_network: CounterSnapshot::new(),
            prev_disk: CounterSnapshot::new(),
            network_stamp: now,
            disk_stamp: now,
        }
    }

    /// Network rates over an interval of `elapsed_nanos` nanoseconds that
    /// the caller measured. With no time elapsed nothing is reported and
    /// nothing changes; otherwise `current` becomes the previous snapshot.
    pub fn network_rates_over(&mut self, current: &CounterSnapshot, elapsed_nanos: u64) -> (r: Vec<
        (String, u64, u64),
    >)
        requires
            old(self).wf(),
            current.wf(),
        ensures
            final(self).wf(),
            (rows_view(r@), final(self).network_previous()) == advance(
                old(self).network_previous(),
                current@,
                elapsed_nanos as nat,
            ),
            final(self).disk_previous() == old(self).disk_previous(),
            final(self).network_stamp() == old(self).network_stamp(),
            final(self).disk_stamp() == old(self).disk_stamp(),
    {
        if elapsed_nanos == 0 {
            let r: Vec<(String, u64, u64)> = Vec::new();
            assert(rows_view(r@) =~= Seq::<Row>::empty());
            return r;
        }
        let r = rates_between(&self.prev_network, current, elapsed_nanos);
        self.prev_network = current.duplicate();
        r
    }

    /// Disk rates over an interval of `elapsed_nanos` nanoseconds that the
    /// caller measured, with the same rules as the network series.
    pub fn disk_rates_over(&mut self, current: &CounterSnapshot, elapsed_nanos: u64) -> (r: Vec<
        (String, u64, u64),
    >)
        requires
            old(self).wf(),
            current.wf(),
        ensures
            final(self).wf(),
            (rows_view(r@), final(self).disk_previous()) == advance(
                old(self).disk_previous(),
                current@,
                elapsed_nanos as nat,
            ),
            final(self).network_previous() == old(self).network_previous(),
            final(self).network_stamp() == old(self).network_stamp(),
            final(self).disk_stamp() == old(self).disk_stamp(),
    {
        if elapsed_nanos == 0 {
            let r: Vec<(String, u64, u64)> = Vec::new();
            assert(rows_view(r@) =~= Seq::<Row>::empty());
            return r;
        }
        let r = rates_between(&self.prev_disk, current, elapsed_nanos);
        self.prev_disk = current.duplicate();
        r
    }

    /// Network rates over the time since the last network update that
    /// reported, read from the clock.
    pub fn update_network_rates(&mut self, current: &CounterSnapshot) -> (r: Vec<
        (String, u64, u64),
    >)
        requires
            old(self).wf(),
            current.wf(),
        ensures
            final(self).wf(),
            exists|now: Instant|
                {
                    let n = #[trigger] elapsed_nanos(now, old(self).network_stamp());
                    &&& (rows_view(r@), final(self).network_previous()) == advance(
                        old(self).network_previous(),
                        current@,
                        n as nat,
                    )
                    &&& final(self).network_stamp() == if n > 0 {
                        now
                    } else {
                        old(self).network_stamp()
                    }
                },
            final(self).disk_previous() == old(self).disk_previous(),
            final(self).disk_stamp() == old(self).disk_stamp(),
    {
        let now = Instant::now();
        let nanos = saturate(now.saturating_duration_since(self.network_stamp).as_nanos());
        let r = self.network_rates_over(current, nanos);
        if nanos != 0 {
            self.network_stamp = now;
        }
        assert(nanos == elapsed_nanos(now, old(self).network_stamp()));
        r
    }

    /// Disk rates over the time since the last disk update that reported,
    /// read from the clock.
    pub fn update_disk_rates(&mut self, current: &CounterSnapshot) -> (r: Vec<(String, u64, u64)>)
        requires
            old(self).wf(),
            current.wf(),
        ensures
            final(self).wf(),
            exists|now: Instant|
                {
                    let n = #[trigger] elapsed_nanos(now, old(self).disk_stamp());
                    &&& (rows_view(r@), final(self).disk_previous()) == advance(
                        old(self).disk_previous(),
                        current@,
                        n as nat,
                    )
                    &&& final(self).disk_stamp() == if n > 0 {
                        now
                    } else {
                        old(self).disk_stamp()
                    }
                },
            final(self).network_previous() == old(self).network_previous(),
            final(self).network_stamp() == old(self).network_stamp(),
    {
        let now = Instant::now();
        let nanos = saturate(now.saturating_duration_since(self.disk_stamp).as_nanos());
        let r = self.disk_rates_over(current, nanos);
        if nanos != 0 {
            self.disk_stamp = now;
        }
        assert(nanos == elapsed_nanos(now, old(self).disk_stamp()));
        r
    }
}

/// `n` capped at `u64::MAX`.
fn saturate(n: u128) -> (r: u64)
    ensures
        r == capped(n),
{
    if n > u64::MAX as u128 {
        u64::MAX
    } else {
        n as u64
    }
}

} // verus!
