//! Removal of clicks and crackle: which stretches of a recording to repair, how
//! often and how. The signal processing itself happens outside; what it measured
//! comes in as flags, as regions or as double-precision bit patterns.
pub mod bursts;
pub mod frames;
pub mod regions;
pub mod v1;
pub mod v21;
pub mod windows;

use vstd::prelude::*;

verus! {

#[derive(Debug, Clone, Copy, PartialEq, Eq, Structural)]
pub enum CleanupMode {
    Off,
    DeclickAr,
    DeclickMedian,
    Decrackle,
}

/// Presets that older projects still name.
#[derive(Debug, Clone, Copy, PartialEq, Eq, Structural)]
pub enum RetiredCleanupPreset {
    Light,
    Archival,
}

/// How the samples of a region are replaced.
#[derive(Debug, Clone, Copy, PartialEq, Eq, Structural)]
pub enum RepairMode {
    Ar,
    Median,
}

/// Which defect the repair is tuned for.
#[derive(Debug, Clone, Copy, PartialEq, Eq, Structural)]
pub enum RepairTuning {
    Click,
    Crackle,
}

/// Settings of the residual detector; `z_hi`, `z_lo` and `edge_rms_mult` are
/// double-precision bit patterns.
#[derive(Debug, Clone, Copy, PartialEq, Eq, Structural)]
pub struct ResidualDetectParams {
    pub mad_window: usize,
    pub z_hi: u64,
    pub z_lo: u64,
    pub edge_rms_mult: u64,
    pub max_click_samples: usize,
    pub pad_samples: usize,
}

/// `n`, or the next number if `n` is even.
pub open spec fn odd_from(n: int) -> int {
    if n % 2 == 0 {
        n + 1
    } else {
        n
    }
}

/// `n` limited to the range from `low` to `high`.
pub open spec fn limited(n: int, low: int, high: int) -> int {
    if n < low {
        low
    } else if n > high {
        high
    } else {
        n
    }
}

/// The larger of two numbers.
pub open spec fn larger(a: int, b: int) -> int {
    if a < b {
        b
    } else {
        a
    }
}

pub(crate) fn limit(n: usize, low: usize, high: usize) -> (limited_n: usize)
    requires
        low <= high,
    ensures
        limited_n == limited(n as int, low as int, high as int),
{
    if n < low {
        low
    } else if n > high {
        high
    } else {
        n
    }
}

pub(crate) fn at_least(n: usize, low: usize) -> (raised: usize)
    ensures
        raised == larger(n as int, low as int),
{
    if n < low {
        low
    } else {
        n
    }
}

/// `window` made odd: one larger if it is even, but not beyond `limit`; a limit of
/// 0 counts as 1.
pub open spec fn odd_fit(window: int, limit: int) -> int {
    if odd_from(window) <= limit {
        odd_from(window)
    } else if limit <= 0 {
        1
    } else if limit % 2 == 0 {
        limit - 1
    } else {
        limit
    }
}

/// The odd window length that comes closest to `window` from above, or else fits
/// into `limit` samples.
pub fn odd_window(window: usize, limit: usize) -> (odd: usize)
    ensures
        odd == odd_fit(window as int, limit as int),
{
    if window < limit || (window == limit && window % 2 == 1) {
        if window % 2 == 0 {
            window + 1
        } else {
            window
        }
    } else if limit == 0 {
        1
    } else if limit % 2 == 0 {
        limit - 1
    } else {
        limit
    }
}

/// A window is odd, and no longer than the limit unless that is 0; below the limit
/// it is at most one longer than asked for.
pub proof fn law_odd_window(window: int, limit: int)
    requires
        0 <= window,
        0 <= limit,
    ensures
        odd_fit(window, limit) % 2 == 1,
        0 < limit ==> odd_fit(window, limit) <= limit,
        window < limit ==> window <= odd_fit(window, limit) <= window + 1,
        window % 2 == 1 && window <= limit ==> odd_fit(window, limit) == window,
        0 < limit <= window ==> limit - 1 <= odd_fit(window, limit),
        limit == 0 ==> odd_fit(window, limit) == 1,
{
}

} // verus!
