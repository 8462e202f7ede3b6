//! The metrics that every iteration reports: wall time and the resource-usage
//! delta over the measured command, and the CPU share of the wall time.

use vstd::prelude::*;
use crate::rusage::Rusage;

verus! {

/// The kernel-reported metrics of one measured command.
#[derive(Debug, Clone, Copy, PartialEq, Eq, Structural)]
pub struct KernelMetrics {
    /// Wall-clock duration in microseconds.
    pub wall_time: u64,
    /// User CPU time in microseconds.
    pub user_time: i64,
    /// System CPU time in microseconds.
    pub system_time: i64,
    /// Growth of the peak resident set size.
    pub max_res_size: i64,
}

/// Gathers the metrics of a command that ran for `wall_time` microseconds
/// and used `data` (the delta of two samples around it).
pub fn get_kernel_metrics(wall_time: u64, data: Rusage) -> (r: KernelMetrics)
    ensures
        r.wall_time == wall_time,
        r.user_time == data.user_time,
        r.system_time == data.system_time,
        r.max_res_size == data.max_res_size,
{
    KernelMetrics {
        wall_time,
        user_time: data.user_time,
        system_time: data.system_time,
        max_res_size: data.max_res_size,
    }
}

impl KernelMetrics {
    /// The CPU time as a percentage of the wall time, as the exact fraction
    /// `(user + system) * 100 / wall`: the numerator, then the denominator.
    pub fn cpu_pct_parts(&self) -> (r: (i128, i128))
        ensures
            r.0 == (self.user_time + self.system_time) * 100,
            r.1 == self.wall_time,
    {
        let cpu: i128 = self.user_time as i128 + self.system_time as i128;
        (cpu * 100, self.wall_time as i128)
    }
}

} // verus!
