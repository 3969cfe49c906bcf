use std::collections::VecDeque;
use vstd::prelude::*;

verus! {

broadcast use vstd::std_specs::vecdeque::group_vec_dequeue_axioms;

/// Default trend deadband, in hundredths of a percentage point: moves of at
/// most one percentage point either way count as flat.
pub const TREND_DEADBAND: u32 = 100;

/// One sample of the tracked metrics.
///
/// Percentages are held in hundredths of a percentage point
/// (`5025` stands for 50.25 %).
#[derive(Clone, Copy, Debug)]
pub struct History {
    pub cpu_usage: u32,
    pub mem_percent_usage: u32,
    pub mem_used_mb: u64,
}

/// Direction of a metric between its two most recent samples.
#[derive(Clone, Copy, Debug, PartialEq, Eq, Structural)]
pub enum Trend {
    /// Fewer than two samples.
    Undetermined,
    Rising,
    Falling,
    Flat,
}

pub open spec fn trend_spec(prev: u32, curr: u32, deadband: u32) -> Trend {
    if curr as int > prev as int + deadband as int {
        Trend::Rising
    } else if (curr as int) < prev as int - deadband as int {
        Trend::Falling
    } else {
        Trend::Flat
    }
}

/// Classifies the move from `prev` to `curr` with a symmetric deadband.
pub fn trend_of(prev: u32, curr: u32, deadband: u32) -> (r: Trend)
    ensures
        r == trend_spec(prev, curr, deadband),
{
    if curr as u64 > prev as u64 + deadband as u64 {
        Trend::Rising
    } else if (curr as u64) + (deadband as u64) < prev as u64 {
        Trend::Falling
    } else {
        Trend::Flat
    }
}

/// The window after inserting `s` into `w` under capacity `max`:
/// the newest `max` of `w` followed by `s`.
pub open spec fn window_after(w: Seq<History>, s: History, max: nat) -> Seq<History> {
    if max == 0 {
        w
    } else {
        let p = w.push(s);
        if p.len() > max {
            p.subrange(p.len() - max, p.len() as int)
        } else {
            p
        }
    }
}

/// The window that results from inserting `samples` in order into an empty
/// tracker of capacity `max`.
pub open spec fn window_of(samples: Seq<History>, max: nat) -> Seq<History>
    decreases samples.len(),
{
    if samples.len() == 0 {
        Seq::empty()
    } else {
        window_after(window_of(samples.drop_last(), max), samples.last(), max)
    }
}

pub open spec fn cpu_values(w: Seq<History>) -> Seq<int> {
    w.map_values(|h: History| h.cpu_usage as int)
}

pub open spec fn mem_values(w: Seq<History>) -> Seq<int> {
    w.map_values(|h: History| h.mem_percent_usage as int)
}

/// Sum of a sequence of integers.
pub open spec fn total(s: Seq<int>) -> int
    decreases s.len(),
{
    if s.len() == 0 {
        0
    } else {
        total(s.drop_last()) + s.last()
    }
}

/// Floor of the arithmetic mean; `None` for an empty sequence.
pub open spec fn mean(s: Seq<int>) -> Option<int> {
    if s.len() == 0 {
        None
    } else {
        Some(total(s) / (s.len() as int))
    }
}

/// `m` is the largest element of `s`.
pub open spec fn is_max(s: Seq<int>, m: int) -> bool {
    &&& exists|i: int| 0 <= i < s.len() && s[i] == m
    &&& forall|i: int| 0 <= i < s.len() ==> s[i] <= m
}

/// Trend between the last two elements of `s`.
pub open spec fn last_trend(s: Seq<int>, deadband: u32) -> Trend {
    if s.len() < 2 {
        Trend::Undetermined
    } else {
        trend_spec(s[s.len() - 2] as u32, s[s.len() - 1] as u32, deadband)
    }
}

/// Whatever samples are added, the window never holds more than its
/// capacity, and it is exactly the newest `max` samples (all of them when
/// fewer were added), in the order they were added.
pub proof fn lemma_window_keeps_newest(samples: Seq<History>, max: nat)
    ensures
        window_of(samples, max).len() <= max,
        window_of(samples, max) == samples.subrange(
            samples.len() - (if samples.len() < max {
                samples.len() as int
            } else {
                max as int
            }),
            samples.len() as int,
        ),
    decreases samples.len(),
{
    let n = samples.len() as int;
    let keep = if n < max {
        n
    } else {
        max as int
    };
    if n == 0 {
        assert(samples.subrange(0, 0) =~= Seq::<History>::empty());
    } else {
        let d = samples.drop_last();
        lemma_window_keeps_newest(d, max);
        let w = window_of(d, max);
        if max == 0 {
            assert(samples.subrange(n, n) =~= w);
        } else {
            let p = w.push(samples.last());
            if d.len() < max {
                assert(w =~= d.subrange(0, d.len() as int));
                assert(p =~= samples);
                assert(samples.subrange(0, n) =~= samples);
            } else {
                assert(p.len() == max + 1);
                assert(p.subrange(p.len() - max, p.len() as int) =~= samples.subrange(
                    n - max,
                    n,
                ));
            }
        }
    }
}

proof fn lemma_total_constant(s: Seq<int>, v: int)
    requires
        forall|i: int| 0 <= i < s.len() ==> s[i] == v,
    ensures
        total(s) == s.len() * v,
    decreases s.len(),
{
    if s.len() > 0 {
        lemma_total_constant(s.drop_last(), v);
        assert(total(s) == (s.len() - 1) * v + v);
        assert((s.len() - 1) * v + v == s.len() * v) by (nonlinear_arith);
    }
}

/// The mean of an empty window is absent; the mean of a window whose
/// samples all carry the same value is that value exactly (in particular
/// the mean of a single sample is its value).
pub proof fn lemma_mean_of_equal_samples(w: Seq<History>, v: u32)
    ensures
        w.len() == 0 ==> mean(cpu_values(w)) is None && mean(mem_values(w)) is None,
        w.len() > 0 && (forall|i: int| 0 <= i < w.len() ==> #[trigger] w[i].cpu_usage == v)
            ==> mean(cpu_values(w)) == Some(v as int),
        w.len() > 0 && (forall|i: int| 0 <= i < w.len() ==> #[trigger] w[i].mem_percent_usage == v)
            ==> mean(mem_values(w)) == Some(v as int),
{
    let n = w.len() as int;
    if n > 0 {
        assert((n * v) / n == v as int) by (nonlinear_arith)
            requires
                n > 0,
        ;
        if forall|i: int| 0 <= i < w.len() ==> #[trigger] w[i].cpu_usage == v {
            lemma_total_constant(cpu_values(w), v as int);
        }
        if forall|i: int| 0 <= i < w.len() ==> #[trigger] w[i].mem_percent_usage == v {
            lemma_total_constant(mem_values(w), v as int);
        }
    }
}

/// Fixed-capacity window of the most recent samples, oldest first.
pub struct HistoryTracker {
    data: VecDeque<History>,
    max_size: usize,
    deadband: u32,
}

impl View for HistoryTracker {
    type V = Seq<History>;

    closed spec fn view(&self) -> Seq<History> {
        self.data@
    }
}

impl HistoryTracker {
    /// The capacity the tracker was made with.
    pub closed spec fn capacity(&self) -> nat {
        self.max_size as nat
    }

    /// The deadband the trends are taken with.
    pub closed spec fn deadband(&self) -> u32 {
        self.deadband
    }

    pub closed spec fn wf(&self) -> bool {
        self.data@.len() <= self.max_size
    }

    /// An empty tracker of capacity `max_size`, with the default deadband.
    pub fn new(max_size: usize) -> (r: Self)
        ensures
            r.wf(),
            r@ == Seq::<History>::empty(),
            r.capacity() == max_size,
            r.deadband() == TREND_DEADBAND,
    {
        Self::with_deadband(max_size, TREND_DEADBAND)
    }

    /// An empty tracker of capacity `max_size` whose trends count moves of
    /// at most `deadband` either way as flat.
    pub fn with_deadband(max_size: usize, deadband: u32) -> (r: Self)
        ensures
            r.wf(),
            r@ == Seq::<History>::empty(),
            r.capacity() == max_size,
            r.deadband() == deadband,
    {
        HistoryTracker { data: VecDeque::with_capacity(max_size), max_size, deadband }
    }

    /// Appends `data`, evicting the oldest sample when the window is full.
    /// A tracker of capacity zero stays empty.
    pub fn add(&mut self, data: History)
        requires
            old(self).wf(),
        ensures
            final(self).wf(),
            final(self).capacity() == old(self).capacity(),
            final(self).deadband() == old(self).deadband(),
            final(self)@ == window_after(old(self)@, data, old(self).capacity()),
            final(self)@.len() <= final(self).capacity(),
    {
        if self.max_size == 0 {
            return;
        }
        if self.data.len() >= self.max_size {
            self.data.pop_front();
        }
        self.data.push_back(data);
        assert(self.data@ =~= window_after(old(self)@, data, old(self).capacity()));
    }

    /// Number of samples in the window.
    pub fn len(&self) -> (r: usize)
        ensures
            r == self@.len(),
    {
        self.data.len()
    }

    /// The `i`-th sample of the window, oldest first.
    pub fn sample(&self, i: usize) -> (r: History)
        requires
            i < self@.len(),
        ensures
            r == self@[i as int],
    {
        self.data[i]
    }

    pub fn has_data(&self) -> (r: bool)
        ensures
            r == (self@.len() > 0),
    {
        self.data.len() != 0
    }

    /// Mean CPU usage over the window, rounded down.
    pub fn cpu_avg(&self) -> (r: Option<u32>)
        ensures
            r.is_some() == (self@.len() > 0),
            r.is_some() ==> mean(cpu_values(self@)) == Some(r.unwrap() as int),
    {
        self.avg_of(true)
    }

    /// Mean memory usage over the window, rounded down.
    pub fn mem_avg(&self) -> (r: Option<u32>)
        ensures
            r.is_some() == (self@.len() > 0),
            r.is_some() ==> mean(mem_values(self@)) == Some(r.unwrap() as int),
    {
        self.avg_of(false)
    }

    fn avg_of(&self, cpu: bool) -> (r: Option<u32>)
        ensures
            ({
                let vals = if cpu {
                    cpu_values(self@)
                } else {
                    mem_values(self@)
                };
                &&& r.is_some() == (vals.len() > 0)
                &&& r.is_some() ==> mean(vals) == Some(r.unwrap() as int)
            }),
    {
        let ghost vals = if cpu {
            cpu_values(self@)
        } else {
            mem_values(self@)
        };
        let n = self.data.len();
        if n == 0 {
            return None;
        }
        let mut sum: u128 = 0;
        let mut i: usize = 0;
        while i < n
            invariant
                n == self.data@.len(),
                vals.len() == n,
                0 <= i <= n,
                sum == total(vals.subrange(0, i as int)),
                sum <= i * 0xffff_ffffu128,
                forall|j: int| 0 <= j < n ==> 0 <= #[trigger] vals[j] <= 0xffff_ffff,
                forall|j: int|
                    0 <= j < n ==> #[trigger] vals[j] == (if cpu {
                        self.data@[j].cpu_usage
                    } else {
                        self.data@[j].mem_percent_usage
                    }) as int,
            decreases n - i,
        {
            let v: u32 = if cpu {
                self.data[i].cpu_usage
            } else {
                self.data[i].mem_percent_usage
            };
            assert(vals.subrange(0, i + 1).drop_last() =~= vals.subrange(0, i as int));
            assert(i * 0xffff_ffffu128 + 0xffff_ffffu128 == (i + 1) * 0xffff_ffffu128)
                by (nonlinear_arith);
            assert(i < 0x1_0000_0000_0000_0000);
            assert((i + 1) * 0xffff_ffffu128 <= 0x1_0000_0000_0000_0000 * 0xffff_ffffu128)
                by (nonlinear_arith)
                requires
                    i + 1 <= 0x1_0000_0000_0000_0000,
            ;
            sum = sum + v as u128;
            i = i + 1;
        }
        assert(vals.subrange(0, n as int) =~= vals);
        assert(sum / (n as u128) <= 0xffff_ffff) by (nonlinear_arith)
            requires
                sum <= n * 0xffff_ffffu128,
                n > 0,
        ;
        Some((sum / (n as u128)) as u32)
    }
    /// Largest CPU usage in the window.
    pub fn cpu_max(&self) -> (r: Option<u32>)
        ensures
            r.is_some() == (self@.len() > 0),
            r.is_some() ==> is_max(cpu_values(self@), r.unwrap() as int),
    {
        self.max_of(true)
    }

    /// Largest memory usage in the window.
    pub fn mem_max(&self) -> (r: Option<u32>)
        ensures
            r.is_some() == (self@.len() > 0),
            r.is_some() ==> is_max(mem_values(self@), r.unwrap() as int),
    {
        self.max_of(false)
    }

    fn max_of(&self, cpu: bool) -> (r: Option<u32>)
        ensures
            ({
                let vals = if cpu {
                    cpu_values(self@)
                } else {
                    mem_values(self@)
                };
                &&& r.is_some() == (vals.len() > 0)
                &&& r.is_some() ==> is_max(vals, r.unwrap() as int)
            }),
    {
        let ghost vals = if cpu {
            cpu_values(self@)
        } else {
            mem_values(self@)
        };
        let n = self.data.len();
        let mut best: Option<u32> = None;
        let mut i: usize = 0;
        while i < n
            invariant
                n == self.data@.len(),
                vals.len() == n,
                0 <= i <= n,
                best.is_some() == (i > 0),
                best.is_some() ==> is_max(vals.subrange(0, i as int), best.unwrap() as int),
                forall|j: int|
                    0 <= j < n ==> #[trigger] vals[j] == (if cpu {
                        self.data@[j].cpu_usage
                    } else {
                        self.data@[j].mem_percent_usage
                    }) as int,
            decreases n - i,
        {
            let v: u32 = if cpu {
                self.data[i].cpu_usage
            } else {
                self.data[i].mem_percent_usage
            };
            let ghost pre = vals.subrange(0, i as int);
            let ghost post = vals.subrange(0, i + 1);
            best = match best {
                Some(b) if b >= v => Some(b),
                _ => Some(v),
            };
            proof {
                let m = best.unwrap() as int;
                assert(post[i as int] == vals[i as int]);
                if m == vals[i as int] {
                    assert(post[i as int] == m);
                } else {
                    let k = choose|k: int| 0 <= k < pre.len() && pre[k] == m;
                    assert(post[k] == m);
                }
                assert forall|j: int| 0 <= j < post.len() implies post[j] <= m by {
                    if j < i {
                        assert(post[j] == pre[j]);
                    }
                }
            }
            i = i + 1;
        }
        assert(vals.subrange(0, n as int) =~= vals);
        best
    }

    /// Direction of CPU usage between the two most recent samples.
    pub fn cpu_trend(&self) -> (r: Trend)
        ensures
            r == last_trend(cpu_values(self@), self.deadband()),
    {
        self.trend_by(true)
    }

    /// Direction of memory usage between the two most recent samples.
    pub fn mem_trend(&self) -> (r: Trend)
        ensures
            r == last_trend(mem_values(self@), self.deadband()),
    {
        self.trend_by(false)
    }

    fn trend_by(&self, cpu: bool) -> (r: Trend)
        ensures
            r == last_trend(
                if cpu {
                    cpu_values(self@)
                } else {
                    mem_values(self@)
                },
                self.deadband(),
            ),
    {
        let n = self.data.len();
        if n < 2 {
            return Trend::Undetermined;
        }
        let prev = &self.data[n - 2];
        let curr = &self.data[n - 1];
        if cpu {
            trend_of(prev.cpu_usage, curr.cpu_usage, self.deadband)
        } else {
            trend_of(prev.mem_percent_usage, curr.mem_percent_usage, self.deadband)
        }
    }
}

} // verus!
