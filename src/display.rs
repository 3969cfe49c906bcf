use crate::history::Trend;
use crate::monitor::{share, share_spec};
use vstd::prelude::*;
use vstd::set_lib::{lemma_int_range, lemma_len_subset, set_int_range};
use vstd::string::StringSliceAdditionalSpecFns;
use vstd::utf8::is_char_boundary;

verus! {

/// Processor use above which the reading is critical (hundredths of a
/// percentage point).
pub const CPU_CRITICAL: u32 = 8000;

/// Processor use above which the reading is a warning.
pub const CPU_WARNING: u32 = 6000;

/// Memory or disk use above which the reading is critical.
pub const MEM_CRITICAL: u32 = 8500;

/// Memory or disk use above which the reading is a warning.
pub const MEM_WARNING: u32 = 7000;

/// How alarming a usage reading is.
#[derive(Clone, Copy, Debug, PartialEq, Eq, Structural)]
pub enum Severity {
    Normal,
    Warning,
    Critical,
}

pub open spec fn severity_spec(usage: u32, warning: u32, critical: u32) -> Severity {
    if usage > critical {
        Severity::Critical
    } else if usage > warning {
        Severity::Warning
    } else {
        Severity::Normal
    }
}

/// Band of `usage`: critical above `critical`, else a warning above
/// `warning`, else normal.
pub fn severity(usage: u32, warning: u32, critical: u32) -> (r: Severity)
    ensures
        r == severity_spec(usage, warning, critical),
{
    if usage > critical {
        Severity::Critical
    } else if usage > warning {
        Severity::Warning
    } else {
        Severity::Normal
    }
}

pub fn cpu_severity(usage: u32) -> (r: Severity)
    ensures
        r == severity_spec(usage, CPU_WARNING, CPU_CRITICAL),
{
    severity(usage, CPU_WARNING, CPU_CRITICAL)
}

pub fn memory_severity(usage: u32) -> (r: Severity)
    ensures
        r == severity_spec(usage, MEM_WARNING, MEM_CRITICAL),
{
    severity(usage, MEM_WARNING, MEM_CRITICAL)
}

pub open spec fn trend_symbol(t: Trend) -> Seq<char> {
    match t {
        Trend::Undetermined => ""@,
        Trend::Rising => "\u{2197}"@,
        Trend::Falling => "\u{2198}"@,
        Trend::Flat => "\u{2192}"@,
    }
}

/// The arrow shown for a trend; empty when it is undetermined.
pub fn trend_arrow(t: Trend) -> (r: &'static str)
    ensures
        r@ == trend_symbol(t),
{
    match t {
        Trend::Undetermined => "",
        Trend::Rising => "\u{2197}",
        Trend::Falling => "\u{2198}",
        Trend::Flat => "\u{2192}",
    }
}

/// Bytes in one gibibyte.
pub const BYTES_PER_GB: u64 = 1024 * 1024 * 1024;

/// Space of one disk in whole gibibytes, and the share in use in
/// hundredths of a percentage point.
#[derive(Clone, Copy, Debug, PartialEq, Eq, Structural)]
pub struct DiskUsage {
    pub used_gb: u64,
    pub total_gb: u64,
    pub used_percent: u32,
}

/// Usage of a disk from its total and available space in bytes. Both are
/// counted in whole gibibytes first, and the available ones may not
/// outnumber the total ones; a disk under one gibibyte shows no use.
pub fn disk_usage(total_bytes: u64, available_bytes: u64) -> (r: DiskUsage)
    requires
        available_bytes / BYTES_PER_GB <= total_bytes / BYTES_PER_GB,
    ensures
        r.total_gb == total_bytes / BYTES_PER_GB,
        r.used_gb == r.total_gb - available_bytes / BYTES_PER_GB,
        r.used_percent == if r.total_gb > 0 {
            share_spec(r.used_gb, r.total_gb)
        } else {
            0
        },
{
    let total_gb = total_bytes / BYTES_PER_GB;
    let available_gb = available_bytes / BYTES_PER_GB;
    let used_gb = total_gb - available_gb;
    let used_percent = if total_gb > 0 {
        share(used_gb, total_gb)
    } else {
        0
    };
    DiskUsage { used_gb, total_gb, used_percent }
}

/// A rate in bytes per second as whole kibibytes per second.
pub fn kib_per_sec(rate: u64) -> (r: u64)
    ensures
        r == rate / 1024,
{
    rate / 1024
}

/// Longest process name shown whole, in bytes.
pub const NAME_WIDTH: usize = 25;

/// Bytes at most kept of a longer name, before the ellipsis.
pub const NAME_KEEP: usize = 22;

/// Where to cut a process name for display: `None` when it fits in
/// `NAME_WIDTH` bytes, else the last character boundary at or before
/// `NAME_KEEP`.
pub fn name_cut(name: &str) -> (r: Option<usize>)
    ensures
        r is None <==> name.len() <= NAME_WIDTH,
        r matches Some(c) ==> {
            &&& c <= NAME_KEEP
            &&& is_char_boundary(name.spec_bytes(), c as int)
            &&& forall|d: int| c < d <= NAME_KEEP ==> !is_char_boundary(name.spec_bytes(), d)
        },
{
    if name.len() <= NAME_WIDTH {
        return None;
    }
    proof {
        vstd::utf8::encode_utf8_valid_utf8(name@);
    }
    let mut cut: usize = NAME_KEEP;
    while !name.is_char_boundary(cut)
        invariant
            cut <= NAME_KEEP,
            vstd::utf8::valid_utf8(name.spec_bytes()),
            forall|d: int| cut < d <= NAME_KEEP ==> !is_char_boundary(name.spec_bytes(), d),
        decreases cut,
    {
        assert(cut != 0);
        cut = cut - 1;
    }
    Some(cut)
}

/// `a` comes before `b` when ranking by processor use: higher use first,
/// and the earlier entry first among equal use.
pub open spec fn ranks_before(cpu: Seq<u32>, a: int, b: int) -> bool {
    cpu[a] > cpu[b] || (cpu[a] == cpu[b] && a < b)
}

/// `top` holds the first `top.len()` indices of `cpu` in ranking order.
pub open spec fn is_ranking_prefix(cpu: Seq<u32>, top: Seq<usize>) -> bool {
    &&& forall|i: int| 0 <= i < top.len() ==> top[i] < cpu.len()
    &&& forall|a: int, b: int|
        0 <= a < b < top.len() ==> ranks_before(cpu, #[trigger] top[a] as int, #[trigger] top[b] as int)
    &&& forall|j: int|
        0 <= j < cpu.len() && !(#[trigger] top.contains(j as usize)) && top.len() > 0 ==> ranks_before(
            cpu,
            top.last() as int,
            j,
        )
}

/// Indices of the `k` entries with the highest processor use, highest
/// first; among equal use the earlier entry comes first.
pub fn top_by_cpu(cpu: &Vec<u32>, k: usize) -> (r: Vec<usize>)
    ensures
        r@.len() == if k < cpu@.len() {
            k as int
        } else {
            cpu@.len() as int
        },
        is_ranking_prefix(cpu@, r@),
{
    let n = cpu.len();
    let mut top: Vec<usize> = Vec::new();
    while top.len() < k && top.len() < n
        invariant
            n == cpu@.len(),
            top@.len() <= k,
            top@.len() <= n,
            is_ranking_prefix(cpu@, top@),
        decreases n - top@.len(),
    {
        let ghost old_top = top@;
        let mut best: Option<usize> = None;
        let mut j: usize = 0;
        while j < n
            invariant
                n == cpu@.len(),
                top@ == old_top,
                0 <= j <= n,
                match best {
                    Some(b) => {
                        &&& b < j
                        &&& !top@.contains(b)
                        &&& forall|t: int|
                            0 <= t < j && !(#[trigger] top@.contains(t as usize)) && t != b
                                ==> ranks_before(cpu@, b as int, t)
                    },
                    None => forall|t: int| 0 <= t < j ==> #[trigger] top@.contains(t as usize),
                },
                is_ranking_prefix(cpu@, top@),
            decreases n - j,
        {
            let candidate = if top.len() == 0 {
                true
            } else {
                let last = top[top.len() - 1];
                cpu[last] > cpu[j] || (cpu[last] == cpu[j] && last < j)
            };
            if candidate {
                proof {
                    if top@.contains(j) {
                        let p = choose|p: int| 0 <= p < top@.len() && top@[p] == j;
                        if p < top@.len() - 1 {
                            assert(ranks_before(cpu@, top@[p] as int, top@[top@.len() - 1] as int));
                        }
                        assert(false);
                    }
                }
                let better = match best {
                    None => true,
                    Some(b) => cpu[j] > cpu[b] || (cpu[j] == cpu[b] && j < b),
                };
                if better {
                    best = Some(j);
                }
            } else {
                proof {
                    let jj: int = j as int;
                    if !top@.contains(jj as usize) {
                        assert(ranks_before(cpu@, top@.last() as int, jj));
                        assert(false);
                    }
                }
            }
            j = j + 1;
        }
        match best {
            Some(b) => {
                top.push(b);
                proof {
                    let nt = top@;
                    assert(nt.last() == b);
                    assert forall|t: int| 0 <= t < n && !(#[trigger] nt.contains(t as usize))
                        implies ranks_before(cpu@, b as int, t) by {
                        if old_top.contains(t as usize) {
                            let p = choose|p: int| 0 <= p < old_top.len() && old_top[p] == t as usize;
                            assert(nt[p] == t as usize);
                        }
                        if t == b {
                            assert(nt[nt.len() - 1] == b);
                        }
                    }
                    assert forall|a: int, c: int| 0 <= a < c < nt.len() implies ranks_before(
                        cpu@,
                        #[trigger] nt[a] as int,
                        #[trigger] nt[c] as int,
                    ) by {
                        if c == nt.len() - 1 {
                            let bb: int = b as int;
                            assert(nt[a] == old_top[a]);
                            assert(!old_top.contains(bb as usize));
                            assert(ranks_before(cpu@, old_top.last() as int, bb));
                            if a < old_top.len() - 1 {
                                assert(ranks_before(
                                    cpu@,
                                    old_top[a] as int,
                                    old_top[old_top.len() - 1] as int,
                                ));
                            }
                        } else {
                            assert(nt[a] == old_top[a]);
                            assert(nt[c] == old_top[c]);
                        }
                    }
                    assert forall|i: int| 0 <= i < nt.len() implies nt[i] < cpu@.len() by {
                        if i < old_top.len() {
                            assert(nt[i] == old_top[i]);
                        }
                    }
                }
            },
            None => {
                proof {
                    let s = old_top.map_values(|x: usize| x as int);
                    assert(set_int_range(0, n as int).subset_of(s.to_set())) by {
                        assert forall|t: int| set_int_range(0, n as int).contains(t) implies s.to_set().contains(t) by {
                            assert(top@.contains(t as usize));
                            let p = choose|p: int| 0 <= p < old_top.len() && old_top[p] == t as usize;
                            assert(s[p] == t);
                        }
                    }
                    lemma_int_range(0, n as int);
                    s.lemma_cardinality_of_set();
                    lemma_len_subset(set_int_range(0, n as int), s.to_set());
                }
                assert(false);
            },
        }
    }
    top
}

} // verus!
