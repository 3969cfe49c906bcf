use crate::history::History;
use vstd::prelude::*;

verus! {

/// Bytes in one mebibyte.
pub const BYTES_PER_MB: u64 = 1024 * 1024;

/// One reading of processor and memory use.
///
/// Percentages are in hundredths of a percentage point.
#[derive(Clone, Copy, Debug)]
pub struct SystemData {
    pub cpu_usage: u32,
    pub mem_used_mb: u64,
    pub total_mem_mb: u64,
    pub mem_percent: u32,
}

/// `part` as a share of `whole`, in hundredths of a percentage point,
/// rounded down and capped at `u32::MAX`.
pub open spec fn share_spec(part: u64, whole: u64) -> u32 {
    let q = part * 10000 / (whole as int);
    if q > u32::MAX {
        u32::MAX
    } else {
        q as u32
    }
}

/// `part` as a share of `whole`, in hundredths of a percentage point.
pub fn share(part: u64, whole: u64) -> (r: u32)
    requires
        whole > 0,
    ensures
        r == share_spec(part, whole),
{
    assert(part as u128 * 10000u128 <= 0xffff_ffff_ffff_ffffu128 * 10000u128) by (nonlinear_arith);
    let q: u128 = (part as u128) * 10000u128 / (whole as u128);
    if q > u32::MAX as u128 {
        u32::MAX
    } else {
        q as u32
    }
}

/// Builds a reading from the processor use and the used and total memory
/// in bytes. Memory is counted in whole mebibytes, and its percentage is
/// taken over those; a total under one mebibyte has no percentage.
pub fn collect_system_data(cpu_usage: u32, used_bytes: u64, total_bytes: u64) -> (r: SystemData)
    requires
        total_bytes >= BYTES_PER_MB,
    ensures
        r.cpu_usage == cpu_usage,
        r.mem_used_mb == used_bytes / BYTES_PER_MB,
        r.total_mem_mb == total_bytes / BYTES_PER_MB,
        r.total_mem_mb > 0,
        r.mem_percent == share_spec(r.mem_used_mb, r.total_mem_mb),
{
    let mem_used_mb = used_bytes / BYTES_PER_MB;
    let total_mem_mb = total_bytes / BYTES_PER_MB;
    SystemData { cpu_usage, mem_used_mb, total_mem_mb, mem_percent: share(mem_used_mb, total_mem_mb) }
}

/// The history sample of a reading.
pub fn system_data_to_history(data: &SystemData) -> (r: History)
    ensures
        r.cpu_usage == data.cpu_usage,
        r.mem_used_mb == data.mem_used_mb,
        r.mem_percent_usage == data.mem_percent,
{
    History {
        cpu_usage: data.cpu_usage,
        mem_used_mb: data.mem_used_mb,
        mem_percent_usage: data.mem_percent,
    }
}

} // verus!
