//! What the runtimes of several engines report of their workers, added up.
use crate::metrics;
use vstd::prelude::*;

verus! {

/// What runtimes report of their workers. What cannot be told of several runtimes
/// together is left out. Counts stop at the largest number. Durations are in
/// nanoseconds.
#[derive(Clone, Copy, Debug, PartialEq, Eq, Structural)]
pub struct AggRuntimeMetrics {
    pub workers_count: usize,
    pub total_park_count: u64,
    pub max_park_count: u64,
    pub min_park_count: u64,
    pub total_noop_count: u64,
    pub max_noop_count: u64,
    pub min_noop_count: u64,
    pub total_steal_count: u64,
    pub max_steal_count: u64,
    pub min_steal_count: u64,
    pub total_steal_operations: u64,
    pub max_steal_operations: u64,
    pub min_steal_operations: u64,
    pub num_remote_schedules: u64,
    pub total_local_schedule_count: u64,
    pub max_local_schedule_count: u64,
    pub min_local_schedule_count: u64,
    pub total_overflow_count: u64,
    pub max_overflow_count: u64,
    pub min_overflow_count: u64,
    pub total_polls_count: u64,
    pub max_polls_count: u64,
    pub min_polls_count: u64,
    pub total_busy_duration: u128,
    pub max_busy_duration: u128,
    pub min_busy_duration: u128,
    pub injection_queue_depth: usize,
    pub total_local_queue_depth: usize,
    pub max_local_queue_depth: usize,
    pub min_local_queue_depth: usize,
    pub budget_forced_yield_count: u64,
    pub io_driver_ready_count: u64,
}

/// The greater of two numbers.
pub open spec fn greater(a: int, b: int) -> int {
    if a < b {
        b
    } else {
        a
    }
}

/// The lesser of two numbers.
pub open spec fn lesser(a: int, b: int) -> int {
    if b < a {
        b
    } else {
        a
    }
}

/// What two groups of runtimes report together: totals are added, the greatest
/// and the least are those of both groups. The least depths of the local queues
/// are added.
pub open spec fn sum(a: AggRuntimeMetrics, b: AggRuntimeMetrics) -> AggRuntimeMetrics {
    AggRuntimeMetrics {
        workers_count: metrics::capped_usize(a.workers_count + b.workers_count),
        total_park_count: metrics::capped_u64(a.total_park_count + b.total_park_count),
        max_park_count: greater(a.max_park_count as int, b.max_park_count as int) as u64,
        min_park_count: lesser(a.min_park_count as int, b.min_park_count as int) as u64,
        total_noop_count: metrics::capped_u64(a.total_noop_count + b.total_noop_count),
        max_noop_count: greater(a.max_noop_count as int, b.max_noop_count as int) as u64,
        min_noop_count: lesser(a.min_noop_count as int, b.min_noop_count as int) as u64,
        total_steal_count: metrics::capped_u64(a.total_steal_count + b.total_steal_count),
        max_steal_count: greater(a.max_steal_count as int, b.max_steal_count as int) as u64,
        min_steal_count: lesser(a.min_steal_count as int, b.min_steal_count as int) as u64,
        total_steal_operations: metrics::capped_u64(a.total_steal_operations + b.total_steal_operations),
        max_steal_operations: greater(a.max_steal_operations as int, b.max_steal_operations as int) as u64,
        min_steal_operations: lesser(a.min_steal_operations as int, b.min_steal_operations as int) as u64,
        num_remote_schedules: metrics::capped_u64(a.num_remote_schedules + b.num_remote_schedules),
        total_local_schedule_count: metrics::capped_u64(a.total_local_schedule_count + b.total_local_schedule_count),
        max_local_schedule_count: greater(a.max_local_schedule_count as int, b.max_local_schedule_count as int) as u64,
        min_local_schedule_count: lesser(a.min_local_schedule_count as int, b.min_local_schedule_count as int) as u64,
        total_overflow_count: metrics::capped_u64(a.total_overflow_count + b.total_overflow_count),
        max_overflow_count: greater(a.max_overflow_count as int, b.max_overflow_count as int) as u64,
        min_overflow_count: lesser(a.min_overflow_count as int, b.min_overflow_count as int) as u64,
        total_polls_count: metrics::capped_u64(a.total_polls_count + b.total_polls_count),
        max_polls_count: greater(a.max_polls_count as int, b.max_polls_count as int) as u64,
        min_polls_count: lesser(a.min_polls_count as int, b.min_polls_count as int) as u64,
        total_busy_duration: metrics::capped_u128(a.total_busy_duration + b.total_busy_duration),
        max_busy_duration: greater(a.max_busy_duration as int, b.max_busy_duration as int) as u128,
        min_busy_duration: lesser(a.min_busy_duration as int, b.min_busy_duration as int) as u128,
        injection_queue_depth: metrics::capped_usize(a.injection_queue_depth + b.injection_queue_depth),
        total_local_queue_depth: metrics::capped_usize(a.total_local_queue_depth + b.total_local_queue_depth),
        max_local_queue_depth: greater(a.max_local_queue_depth as int, b.max_local_queue_depth as int) as usize,
        min_local_queue_depth: metrics::capped_usize(a.min_local_queue_depth + b.min_local_queue_depth),
        budget_forced_yield_count: metrics::capped_u64(a.budget_forced_yield_count + b.budget_forced_yield_count),
        io_driver_ready_count: metrics::capped_u64(a.io_driver_ready_count + b.io_driver_ready_count),
    }
}

/// The greater of two numbers.
fn max_u64(a: u64, b: u64) -> (r: u64)
    ensures
        r == greater(a as int, b as int),
{
    if a < b {
        b
    } else {
        a
    }
}

/// The lesser of two numbers.
fn min_u64(a: u64, b: u64) -> (r: u64)
    ensures
        r == lesser(a as int, b as int),
{
    if b < a {
        b
    } else {
        a
    }
}

/// The greater of two numbers.
fn max_u128(a: u128, b: u128) -> (r: u128)
    ensures
        r == greater(a as int, b as int),
{
    if a < b {
        b
    } else {
        a
    }
}

/// The lesser of two numbers.
fn min_u128(a: u128, b: u128) -> (r: u128)
    ensures
        r == lesser(a as int, b as int),
{
    if b < a {
        b
    } else {
        a
    }
}

/// The greater of two numbers.
fn max_usize(a: usize, b: usize) -> (r: usize)
    ensures
        r == greater(a as int, b as int),
{
    if a < b {
        b
    } else {
        a
    }
}

/// What no runtime reports.
pub open spec fn nothing() -> AggRuntimeMetrics {
    AggRuntimeMetrics {
        workers_count: 0,
        total_park_count: 0,
        max_park_count: 0,
        min_park_count: 0,
        total_noop_count: 0,
        max_noop_count: 0,
        min_noop_count: 0,
        total_steal_count: 0,
        max_steal_count: 0,
        min_steal_count: 0,
        total_steal_operations: 0,
        max_steal_operations: 0,
        min_steal_operations: 0,
        num_remote_schedules: 0,
        total_local_schedule_count: 0,
        max_local_schedule_count: 0,
        min_local_schedule_count: 0,
        total_overflow_count: 0,
        max_overflow_count: 0,
        min_overflow_count: 0,
        total_polls_count: 0,
        max_polls_count: 0,
        min_polls_count: 0,
        total_busy_duration: 0,
        max_busy_duration: 0,
        min_busy_duration: 0,
        injection_queue_depth: 0,
        total_local_queue_depth: 0,
        max_local_queue_depth: 0,
        min_local_queue_depth: 0,
        budget_forced_yield_count: 0,
        io_driver_ready_count: 0,
    }
}

impl Default for AggRuntimeMetrics {
    fn default() -> (m: AggRuntimeMetrics)
        ensures
            m == nothing(),
    {
        AggRuntimeMetrics {
            workers_count: 0,
            total_park_count: 0,
            max_park_count: 0,
            min_park_count: 0,
            total_noop_count: 0,
            max_noop_count: 0,
            min_noop_count: 0,
            total_steal_count: 0,
            max_steal_count: 0,
            min_steal_count: 0,
            total_steal_operations: 0,
            max_steal_operations: 0,
            min_steal_operations: 0,
            num_remote_schedules: 0,
            total_local_schedule_count: 0,
            max_local_schedule_count: 0,
            min_local_schedule_count: 0,
            total_overflow_count: 0,
            max_overflow_count: 0,
            min_overflow_count: 0,
            total_polls_count: 0,
            max_polls_count: 0,
            min_polls_count: 0,
            total_busy_duration: 0,
            max_busy_duration: 0,
            min_busy_duration: 0,
            injection_queue_depth: 0,
            total_local_queue_depth: 0,
            max_local_queue_depth: 0,
            min_local_queue_depth: 0,
            budget_forced_yield_count: 0,
            io_driver_ready_count: 0,
        }
    }
}

impl AggRuntimeMetrics {
    /// What both groups of runtimes report together.
    pub fn add(self, other: AggRuntimeMetrics) -> (r: AggRuntimeMetrics)
        ensures
            r == sum(self, other),
    {
        AggRuntimeMetrics {
            workers_count: self.workers_count.saturating_add(other.workers_count),
            total_park_count: self.total_park_count.saturating_add(other.total_park_count),
            max_park_count: max_u64(self.max_park_count, other.max_park_count),
            min_park_count: min_u64(self.min_park_count, other.min_park_count),
            total_noop_count: self.total_noop_count.saturating_add(other.total_noop_count),
            max_noop_count: max_u64(self.max_noop_count, other.max_noop_count),
            min_noop_count: min_u64(self.min_noop_count, other.min_noop_count),
            total_steal_count: self.total_steal_count.saturating_add(other.total_steal_count),
            max_steal_count: max_u64(self.max_steal_count, other.max_steal_count),
            min_steal_count: min_u64(self.min_steal_count, other.min_steal_count),
            total_steal_operations: self.total_steal_operations.saturating_add(other.total_steal_operations),
            max_steal_operations: max_u64(self.max_steal_operations, other.max_steal_operations),
            min_steal_operations: min_u64(self.min_steal_operations, other.min_steal_operations),
            num_remote_schedules: self.num_remote_schedules.saturating_add(other.num_remote_schedules),
            total_local_schedule_count: self.total_local_schedule_count.saturating_add(other.total_local_schedule_count),
            max_local_schedule_count: max_u64(self.max_local_schedule_count, other.max_local_schedule_count),
            min_local_schedule_count: min_u64(self.min_local_schedule_count, other.min_local_schedule_count),
            total_overflow_count: self.total_overflow_count.saturating_add(other.total_overflow_count),
            max_overflow_count: max_u64(self.max_overflow_count, other.max_overflow_count),
            min_overflow_count: min_u64(self.min_overflow_count, other.min_overflow_count),
            total_polls_count: self.total_polls_count.saturating_add(other.total_polls_count),
            max_polls_count: max_u64(self.max_polls_count, other.max_polls_count),
            min_polls_count: min_u64(self.min_polls_count, other.min_polls_count),
            total_busy_duration: self.total_busy_duration.saturating_add(other.total_busy_duration),
            max_busy_duration: max_u128(self.max_busy_duration, other.max_busy_duration),
            min_busy_duration: min_u128(self.min_busy_duration, other.min_busy_duration),
            injection_queue_depth: self.injection_queue_depth.saturating_add(other.injection_queue_depth),
            total_local_queue_depth: self.total_local_queue_depth.saturating_add(other.total_local_queue_depth),
            max_local_queue_depth: max_usize(self.max_local_queue_depth, other.max_local_queue_depth),
            min_local_queue_depth: self.min_local_queue_depth.saturating_add(other.min_local_queue_depth),
            budget_forced_yield_count: self.budget_forced_yield_count.saturating_add(other.budget_forced_yield_count),
            io_driver_ready_count: self.io_driver_ready_count.saturating_add(other.io_driver_ready_count),
        }
    }
}

/// In which order groups of runtimes are added does not matter.
pub proof fn law_sum_commutes(a: AggRuntimeMetrics, b: AggRuntimeMetrics)
    ensures
        sum(a, b) == sum(b, a),
{
}

/// In which way groups of runtimes are grouped does not matter.
pub proof fn law_sum_associates(
    a: AggRuntimeMetrics,
    b: AggRuntimeMetrics,
    c: AggRuntimeMetrics,
)
    ensures
        sum(sum(a, b), c) == sum(a, sum(b, c)),
{
}

/// The reports of a runtime of which nothing is reported.
#[derive(Debug)]
pub struct DummyMetricsIter;

impl DummyMetricsIter {
    /// The next report: there is none.
    pub fn next(&mut self) -> (r: Option<AggRuntimeMetrics>)
        ensures
            r is None,
    {
        None
    }
}

/// The totals of two groups are added, as far as they fit.
pub proof fn law_totals_are_added(a: AggRuntimeMetrics, b: AggRuntimeMetrics)
    ensures
        ({
            let s = sum(a, b);
            &&& a.total_park_count + b.total_park_count <= u64::MAX ==> s.total_park_count == a.total_park_count + b.total_park_count
            &&& a.total_park_count + b.total_park_count > u64::MAX ==> s.total_park_count == u64::MAX
            &&& a.total_noop_count + b.total_noop_count <= u64::MAX ==> s.total_noop_count == a.total_noop_count + b.total_noop_count
            &&& a.total_noop_count + b.total_noop_count > u64::MAX ==> s.total_noop_count == u64::MAX
            &&& a.total_steal_count + b.total_steal_count <= u64::MAX ==> s.total_steal_count == a.total_steal_count + b.total_steal_count
            &&& a.total_steal_count + b.total_steal_count > u64::MAX ==> s.total_steal_count == u64::MAX
            &&& a.total_steal_operations + b.total_steal_operations <= u64::MAX ==> s.total_steal_operations == a.total_steal_operations + b.total_steal_operations
            &&& a.total_steal_operations + b.total_steal_operations > u64::MAX ==> s.total_steal_operations == u64::MAX
            &&& a.num_remote_schedules + b.num_remote_schedules <= u64::MAX ==> s.num_remote_schedules == a.num_remote_schedules + b.num_remote_schedules
            &&& a.num_remote_schedules + b.num_remote_schedules > u64::MAX ==> s.num_remote_schedules == u64::MAX
            &&& a.total_local_schedule_count + b.total_local_schedule_count <= u64::MAX ==> s.total_local_schedule_count == a.total_local_schedule_count + b.total_local_schedule_count
            &&& a.total_local_schedule_count + b.total_local_schedule_count > u64::MAX ==> s.total_local_schedule_count == u64::MAX
            &&& a.total_overflow_count + b.total_overflow_count <= u64::MAX ==> s.total_overflow_count == a.total_overflow_count + b.total_overflow_count
            &&& a.total_overflow_count + b.total_overflow_count > u64::MAX ==> s.total_overflow_count == u64::MAX
            &&& a.total_polls_count + b.total_polls_count <= u64::MAX ==> s.total_polls_count == a.total_polls_count + b.total_polls_count
            &&& a.total_polls_count + b.total_polls_count > u64::MAX ==> s.total_polls_count == u64::MAX
            &&& a.budget_forced_yield_count + b.budget_forced_yield_count <= u64::MAX ==> s.budget_forced_yield_count == a.budget_forced_yield_count + b.budget_forced_yield_count
            &&& a.budget_forced_yield_count + b.budget_forced_yield_count > u64::MAX ==> s.budget_forced_yield_count == u64::MAX
            &&& a.io_driver_ready_count + b.io_driver_ready_count <= u64::MAX ==> s.io_driver_ready_count == a.io_driver_ready_count + b.io_driver_ready_count
            &&& a.io_driver_ready_count + b.io_driver_ready_count > u64::MAX ==> s.io_driver_ready_count == u64::MAX
            &&& a.workers_count + b.workers_count <= usize::MAX ==> s.workers_count == a.workers_count + b.workers_count
            &&& a.workers_count + b.workers_count > usize::MAX ==> s.workers_count == usize::MAX
            &&& a.injection_queue_depth + b.injection_queue_depth <= usize::MAX ==> s.injection_queue_depth == a.injection_queue_depth + b.injection_queue_depth
            &&& a.injection_queue_depth + b.injection_queue_depth > usize::MAX ==> s.injection_queue_depth == usize::MAX
            &&& a.total_local_queue_depth + b.total_local_queue_depth <= usize::MAX ==> s.total_local_queue_depth == a.total_local_queue_depth + b.total_local_queue_depth
            &&& a.total_local_queue_depth + b.total_local_queue_depth > usize::MAX ==> s.total_local_queue_depth == usize::MAX
            &&& a.min_local_queue_depth + b.min_local_queue_depth <= usize::MAX ==> s.min_local_queue_depth == a.min_local_queue_depth + b.min_local_queue_depth
            &&& a.min_local_queue_depth + b.min_local_queue_depth > usize::MAX ==> s.min_local_queue_depth == usize::MAX
            &&& a.total_busy_duration + b.total_busy_duration <= u128::MAX ==> s.total_busy_duration == a.total_busy_duration + b.total_busy_duration
            &&& a.total_busy_duration + b.total_busy_duration > u128::MAX ==> s.total_busy_duration == u128::MAX
        }),
{
}

/// The greatest of two groups is no less than that of either and is that of one of them,
/// and the least is no greater than that of either and is that of one of them.
pub proof fn law_extremes_are_those_of_both(a: AggRuntimeMetrics, b: AggRuntimeMetrics)
    ensures
        ({
            let s = sum(a, b);
            &&& s.max_park_count >= a.max_park_count && s.max_park_count >= b.max_park_count
            &&& s.max_park_count == a.max_park_count || s.max_park_count == b.max_park_count
            &&& s.max_noop_count >= a.max_noop_count && s.max_noop_count >= b.max_noop_count
            &&& s.max_noop_count == a.max_noop_count || s.max_noop_count == b.max_noop_count
            &&& s.max_steal_count >= a.max_steal_count && s.max_steal_count >= b.max_steal_count
            &&& s.max_steal_count == a.max_steal_count || s.max_steal_count == b.max_steal_count
            &&& s.max_steal_operations >= a.max_steal_operations && s.max_steal_operations >= b.max_steal_operations
            &&& s.max_steal_operations == a.max_steal_operations || s.max_steal_operations == b.max_steal_operations
            &&& s.max_local_schedule_count >= a.max_local_schedule_count && s.max_local_schedule_count >= b.max_local_schedule_count
            &&& s.max_local_schedule_count == a.max_local_schedule_count || s.max_local_schedule_count == b.max_local_schedule_count
            &&& s.max_overflow_count >= a.max_overflow_count && s.max_overflow_count >= b.max_overflow_count
            &&& s.max_overflow_count == a.max_overflow_count || s.max_overflow_count == b.max_overflow_count
            &&& s.max_polls_count >= a.max_polls_count && s.max_polls_count >= b.max_polls_count
            &&& s.max_polls_count == a.max_polls_count || s.max_polls_count == b.max_polls_count
            &&& s.max_busy_duration >= a.max_busy_duration && s.max_busy_duration >= b.max_busy_duration
            &&& s.max_busy_duration == a.max_busy_duration || s.max_busy_duration == b.max_busy_duration
            &&& s.max_local_queue_depth >= a.max_local_queue_depth && s.max_local_queue_depth >= b.max_local_queue_depth
            &&& s.max_local_queue_depth == a.max_local_queue_depth || s.max_local_queue_depth == b.max_local_queue_depth
            &&& s.min_park_count <= a.min_park_count && s.min_park_count <= b.min_park_count
            &&& s.min_park_count == a.min_park_count || s.min_park_count == b.min_park_count
            &&& s.min_noop_count <= a.min_noop_count && s.min_noop_count <= b.min_noop_count
            &&& s.min_noop_count == a.min_noop_count || s.min_noop_count == b.min_noop_count
            &&& s.min_steal_count <= a.min_steal_count && s.min_steal_count <= b.min_steal_count
            &&& s.min_steal_count == a.min_steal_count || s.min_steal_count == b.min_steal_count
            &&& s.min_steal_operations <= a.min_steal_operations && s.min_steal_operations <= b.min_steal_operations
            &&& s.min_steal_operations == a.min_steal_operations || s.min_steal_operations == b.min_steal_operations
            &&& s.min_local_schedule_count <= a.min_local_schedule_count && s.min_local_schedule_count <= b.min_local_schedule_count
            &&& s.min_local_schedule_count == a.min_local_schedule_count || s.min_local_schedule_count == b.min_local_schedule_count
            &&& s.min_overflow_count <= a.min_overflow_count && s.min_overflow_count <= b.min_overflow_count
            &&& s.min_overflow_count == a.min_overflow_count || s.min_overflow_count == b.min_overflow_count
            &&& s.min_polls_count <= a.min_polls_count && s.min_polls_count <= b.min_polls_count
            &&& s.min_polls_count == a.min_polls_count || s.min_polls_count == b.min_polls_count
            &&& s.min_busy_duration <= a.min_busy_duration && s.min_busy_duration <= b.min_busy_duration
            &&& s.min_busy_duration == a.min_busy_duration || s.min_busy_duration == b.min_busy_duration
        }),
{
}

} // verus!
