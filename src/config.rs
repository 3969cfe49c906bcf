use vstd::prelude::*;

verus! {

/// Refresh interval used when none is given, in milliseconds.
pub const DEFAULT_INTERVAL_MS: u64 = 200;

/// Run-time options of the dashboard.
#[derive(Clone, Copy, Debug, PartialEq, Eq, Structural)]
pub struct Config {
    /// Refresh interval in milliseconds.
    pub interval: u64,
    /// Leave out the network section.
    pub no_network: bool,
    /// Leave out the disk sections.
    pub no_disk: bool,
}

impl Default for Config {
    fn default() -> (r: Config)
        ensures
            r.interval == DEFAULT_INTERVAL_MS,
            !r.no_network,
            !r.no_disk,
    {
        Config { interval: DEFAULT_INTERVAL_MS, no_network: false, no_disk: false }
    }
}

} // verus!
