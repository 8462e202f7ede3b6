//! Cumulative resource usage of the reaped children of this process, and the
//! difference between two samples of it.

use vstd::prelude::*;

verus! {

/// Microseconds in one second.
pub const MICROS_PER_SEC: i64 = 1_000_000;

/// One sample of the usage counters: CPU times in microseconds, the peak
/// resident set size as the kernel reports it (kilobytes on Linux).
#[derive(Debug, Clone, Copy, PartialEq, Eq, Structural)]
pub struct Rusage {
    pub user_time: i64,
    pub system_time: i64,
    pub max_res_size: i64,
}

/// A time of `sec` seconds and `usec` microseconds, in microseconds.
pub open spec fn micros_of(sec: int, usec: int) -> int {
    sec * 1_000_000 + usec
}

pub open spec fn fits_i64(x: int) -> bool {
    i64::MIN <= x <= i64::MAX
}

/// Relies on nix::sys::resource::getrusage with `RUSAGE_CHILDREN`: the
/// counters of the terminated and waited-for children, as user seconds and
/// microseconds, system seconds and microseconds, and the peak resident size;
/// `None` where the call fails. What the counters hold depends on the machine,
/// so nothing is stated of them.
#[verifier::external_body]
fn children_usage() -> (r: Option<(i64, i64, i64, i64, i64)>) {
    nix::sys::resource::getrusage(nix::sys::resource::UsageWho::RUSAGE_CHILDREN).ok().map(
        |u| {
            let (user, system) = (u.user_time(), u.system_time());
            (user.tv_sec() as i64, user.tv_usec() as i64, system.tv_sec() as i64,
                system.tv_usec() as i64, u.max_rss() as i64)
        },
    )
}

/// Converts a time of `sec` seconds and `usec` microseconds to microseconds;
/// `None` where the result does not fit in an `i64`.
pub fn ms_from_timeval(sec: i64, usec: i64) -> (r: Option<i64>)
    ensures
        fits_i64(micros_of(sec as int, usec as int)) ==> r == Some(
            micros_of(sec as int, usec as int) as i64,
        ),
        !fits_i64(micros_of(sec as int, usec as int)) ==> r is None,
{
    assert(i64::MIN * 1_000_000 <= sec * 1_000_000 <= i64::MAX * 1_000_000) by (nonlinear_arith)
        requires
            i64::MIN <= sec <= i64::MAX,
    ;
    let total: i128 = sec as i128 * MICROS_PER_SEC as i128 + usec as i128;
    if i64::MIN as i128 <= total && total <= i64::MAX as i128 {
        Some(total as i64)
    } else {
        None
    }
}

impl Rusage {
    /// The usage described by raw counters as the kernel reports them;
    /// `None` where a time does not fit in an `i64` of microseconds.
    pub fn from_counters(
        user_sec: i64,
        user_usec: i64,
        system_sec: i64,
        system_usec: i64,
        max_rss: i64,
    ) -> (r: Option<Rusage>)
        ensures
            fits_i64(micros_of(user_sec as int, user_usec as int)) && fits_i64(
                micros_of(system_sec as int, system_usec as int),
            ) <==> r is Some,
            r matches Some(u) ==> u.user_time == micros_of(user_sec as int, user_usec as int)
                && u.system_time == micros_of(system_sec as int, system_usec as int)
                && u.max_res_size == max_rss,
    {
        let user_time = ms_from_timeval(user_sec, user_usec);
        let system_time = ms_from_timeval(system_sec, system_usec);
        match (user_time, system_time) {
            (Some(user_time), Some(system_time)) => Some(
                Rusage { user_time, system_time, max_res_size: max_rss },
            ),
            _ => None,
        }
    }

    /// Samples the usage of the reaped children of this process now; `None`
    /// where the kernel refuses, or a time does not fit.
    pub fn new() -> (r: Option<Rusage>) {
        match children_usage() {
            Some((user_sec, user_usec, system_sec, system_usec, max_rss)) => Rusage::from_counters(
                user_sec,
                user_usec,
                system_sec,
                system_usec,
                max_rss,
            ),
            None => None,
        }
    }

    pub open spec fn delta_fits(self, earlier: Rusage) -> bool {
        fits_i64(self.user_time - earlier.user_time) && fits_i64(
            self.system_time - earlier.system_time,
        ) && fits_i64(self.max_res_size - earlier.max_res_size)
    }

    /// The componentwise difference `self - earlier`.
    pub open spec fn spec_delta(self, earlier: Rusage) -> Rusage {
        Rusage {
            user_time: (self.user_time - earlier.user_time) as i64,
            system_time: (self.system_time - earlier.system_time) as i64,
            max_res_size: (self.max_res_size - earlier.max_res_size) as i64,
        }
    }

    /// The usage between the sample `earlier` and this later one,
    /// componentwise; `None` where a difference does not fit in an `i64`.
    pub fn sub(self, earlier: Rusage) -> (r: Option<Rusage>)
        ensures
            self.delta_fits(earlier) <==> r is Some,
            r matches Some(d) ==> d == self.spec_delta(earlier),
    {
        match (
            self.user_time.checked_sub(earlier.user_time),
            self.system_time.checked_sub(earlier.system_time),
            self.max_res_size.checked_sub(earlier.max_res_size),
        ) {
            (Some(user_time), Some(system_time), Some(max_res_size)) => Some(
                Rusage { user_time, system_time, max_res_size },
            ),
            _ => None,
        }
    }
}

/// Counters of a cumulative source only grow: between two samples of it,
/// `earlier` no larger than `later` in each component.
pub open spec fn grows_to(earlier: Rusage, later: Rusage) -> bool {
    0 <= earlier.user_time <= later.user_time && 0 <= earlier.system_time <= later.system_time
        && 0 <= earlier.max_res_size <= later.max_res_size
}

/// Between two samples of a cumulative source the difference always exists,
/// has no negative component, and added to the earlier sample gives the
/// later one back.
pub proof fn lemma_delta_of_growing_source(earlier: Rusage, later: Rusage)
    requires
        grows_to(earlier, later),
    ensures
        later.delta_fits(earlier),
        later.spec_delta(earlier).user_time >= 0,
        later.spec_delta(earlier).system_time >= 0,
        later.spec_delta(earlier).max_res_size >= 0,
        earlier.user_time + later.spec_delta(earlier).user_time == later.user_time,
        earlier.system_time + later.spec_delta(earlier).system_time == later.system_time,
        earlier.max_res_size + later.spec_delta(earlier).max_res_size == later.max_res_size,
{
}

/// Deltas over consecutive windows of one cumulative source add up to the
/// delta over the whole span: no usage is counted twice or lost.
pub proof fn lemma_deltas_add_up(a: Rusage, b: Rusage, c: Rusage)
    requires
        grows_to(a, b),
        grows_to(b, c),
    ensures
        c.delta_fits(a),
        b.spec_delta(a).user_time + c.spec_delta(b).user_time == c.spec_delta(a).user_time,
        b.spec_delta(a).system_time + c.spec_delta(b).system_time == c.spec_delta(
            a,
        ).system_time,
{
}

} // verus!
