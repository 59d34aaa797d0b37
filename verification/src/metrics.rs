//! What the runtimes report of themselves, added up.
use vstd::prelude::*;

verus! {

// ---------------------------------------------------------------------------
// Adding up
// ---------------------------------------------------------------------------

/// A sum of `u64`, which stops at the largest.
pub open spec fn capped_u64(n: int) -> u64 {
    if n > u64::MAX {
        u64::MAX
    } else {
        n as u64
    }
}

/// A sum of `usize`, which stops at the largest.
pub open spec fn capped_usize(n: int) -> usize {
    if n > usize::MAX {
        usize::MAX
    } else {
        n as usize
    }
}

/// A sum of durations in nanoseconds, which stops at the largest.
pub open spec fn capped_u128(n: int) -> u128 {
    if n > u128::MAX {
        u128::MAX
    } else {
        n as u128
    }
}

/// A value that follows another one slowly: four parts of what it was, and one
/// part of the other.
pub open spec fn followed(old_value: int, new_value: int) -> int {
    (4 * old_value + new_value) / 5
}

/// Splits a sum before it is divided by 5.
proof fn lemma_followed(a: int, b: int)
    requires
        0 <= a,
        0 <= b,
    ensures
        followed(a, b) == 4 * (a / 5) + b / 5 + (4 * (a % 5) + b % 5) / 5,
        0 <= followed(a, b),
        followed(a, b) <= a || followed(a, b) <= b,
        a <= followed(a, b) || b <= followed(a, b),
{
}

/// A number of items that follows another one slowly.
fn follow_usize(a: usize, b: usize) -> (r: usize)
    ensures
        r == followed(a as int, b as int),
{
    proof {
        lemma_followed(a as int, b as int);
    }
    let rest: usize = (4 * (a % 5) + b % 5) / 5;
    4 * (a / 5) + b / 5 + rest
}

/// A duration that follows another one slowly.
fn follow_u128(a: u128, b: u128) -> (r: u128)
    ensures
        r == followed(a as int, b as int),
{
    proof {
        lemma_followed(a as int, b as int);
    }
    let rest: u128 = (4 * (a % 5) + b % 5) / 5;
    4 * (a / 5) + b / 5 + rest
}

// ---------------------------------------------------------------------------
// Samples
// ---------------------------------------------------------------------------

/// What a runtime reports of one of its workers. Durations are in nanoseconds.
#[derive(Clone, Copy, Debug, PartialEq, Eq, Structural)]
pub struct WorkerSample {
    pub total_busy_duration: u128,
    pub park_count: u64,
    pub park_unpark_count: u64,
    pub local_queue_depth: usize,
    pub noop_count: u64,
    pub steal_count: u64,
    pub steal_operations: u64,
    pub poll_count: u64,
    pub local_schedule_count: u64,
    pub overflow_count: u64,
    pub mean_poll_time: u128,
}

/// What a runtime reports of itself.
#[derive(Clone, Debug)]
pub struct RuntimeSample {
    pub num_alive_tasks: usize,
    pub global_queue_depth: usize,
    pub spawned_tasks_count: u64,
    pub budget_forced_yield_count: u64,
    pub io_driver_fd_registered_count: u64,
    pub io_driver_fd_deregistered_count: u64,
    pub io_driver_ready_count: u64,
    pub workers: Vec<WorkerSample>,
}

/// The figures of a worker that are added up.
#[derive(Clone, Copy, Debug, PartialEq, Eq, Structural)]
pub enum Figure {
    TotalBusyDuration,
    ParkCount,
    ParkUnparkCount,
    LocalQueueDepth,
    NoopCount,
    StealCount,
    StealOperations,
    PollCount,
    LocalScheduleCount,
    OverflowCount,
    MeanPollTime,
}

/// A figure of a worker.
pub open spec fn figure(w: WorkerSample, f: Figure) -> int {
    match f {
        Figure::TotalBusyDuration => w.total_busy_duration as int,
        Figure::ParkCount => w.park_count as int,
        Figure::ParkUnparkCount => w.park_unpark_count as int,
        Figure::LocalQueueDepth => w.local_queue_depth as int,
        Figure::NoopCount => w.noop_count as int,
        Figure::StealCount => w.steal_count as int,
        Figure::StealOperations => w.steal_operations as int,
        Figure::PollCount => w.poll_count as int,
        Figure::LocalScheduleCount => w.local_schedule_count as int,
        Figure::OverflowCount => w.overflow_count as int,
        Figure::MeanPollTime => w.mean_poll_time as int,
    }
}

/// The sum of a figure over the workers.
pub open spec fn sum_of(workers: Seq<WorkerSample>, f: Figure) -> int
    decreases workers.len(),
{
    if workers.len() == 0 {
        0
    } else {
        sum_of(workers.drop_last(), f) + figure(workers.last(), f)
    }
}

/// A sum of figures is not negative.
proof fn lemma_sum_of(workers: Seq<WorkerSample>, f: Figure)
    ensures
        0 <= sum_of(workers, f),
    decreases workers.len(),
{
    if workers.len() > 0 {
        lemma_sum_of(workers.drop_last(), f);
    }
}

// ---------------------------------------------------------------------------
// Metrics
// ---------------------------------------------------------------------------

/// What one or more runtimes report of themselves. Counts stop at the largest
/// number. Durations are in nanoseconds.
#[derive(Clone, Copy, Debug, PartialEq, Eq, Structural)]
pub struct Metrics {
    num_workers: usize,
    num_alive_tasks: usize,
    global_queue_depth: usize,
    worker_total_busy_duration: u128,
    worker_park_count: u64,
    worker_park_unpark_count: u64,
    worker_local_queue_depth: usize,
    spawned_tasks_count: u64,
    budget_forced_yield_count: u64,
    worker_noop_count: u64,
    worker_steal_count: u64,
    worker_steal_operations: u64,
    worker_poll_count: u64,
    worker_local_schedule_count: u64,
    worker_overflow_count: u64,
    worker_mean_poll_time: u128,
    io_driver_fd_registered_count: u64,
    io_driver_fd_deregistered_count: u64,
    io_driver_ready_count: u64,
}

/// `Metrics`, as mathematical values.
pub struct MetricsView {
    pub num_workers: usize,
    pub num_alive_tasks: usize,
    pub global_queue_depth: usize,
    pub worker_total_busy_duration: u128,
    pub worker_park_count: u64,
    pub worker_park_unpark_count: u64,
    pub worker_local_queue_depth: usize,
    pub spawned_tasks_count: u64,
    pub budget_forced_yield_count: u64,
    pub worker_noop_count: u64,
    pub worker_steal_count: u64,
    pub worker_steal_operations: u64,
    pub worker_poll_count: u64,
    pub worker_local_schedule_count: u64,
    pub worker_overflow_count: u64,
    pub worker_mean_poll_time: u128,
    pub io_driver_fd_registered_count: u64,
    pub io_driver_fd_deregistered_count: u64,
    pub io_driver_ready_count: u64,
}

impl View for Metrics {
    type V = MetricsView;

    closed spec fn view(&self) -> MetricsView {
        MetricsView {
            num_workers: self.num_workers,
            num_alive_tasks: self.num_alive_tasks,
            global_queue_depth: self.global_queue_depth,
            worker_total_busy_duration: self.worker_total_busy_duration,
            worker_park_count: self.worker_park_count,
            worker_park_unpark_count: self.worker_park_unpark_count,
            worker_local_queue_depth: self.worker_local_queue_depth,
            spawned_tasks_count: self.spawned_tasks_count,
            budget_forced_yield_count: self.budget_forced_yield_count,
            worker_noop_count: self.worker_noop_count,
            worker_steal_count: self.worker_steal_count,
            worker_steal_operations: self.worker_steal_operations,
            worker_poll_count: self.worker_poll_count,
            worker_local_schedule_count: self.worker_local_schedule_count,
            worker_overflow_count: self.worker_overflow_count,
            worker_mean_poll_time: self.worker_mean_poll_time,
            io_driver_fd_registered_count: self.io_driver_fd_registered_count,
            io_driver_fd_deregistered_count: self.io_driver_fd_deregistered_count,
            io_driver_ready_count: self.io_driver_ready_count,
        }
    }
}

/// What a runtime reports: the figures of its workers are added up, and the mean
/// poll time is the mean over the workers.
pub open spec fn metrics_of(s: RuntimeSample) -> MetricsView {
    let w = s.workers@;
    MetricsView {
        num_workers: w.len() as usize,
        num_alive_tasks: s.num_alive_tasks,
        global_queue_depth: s.global_queue_depth,
        worker_total_busy_duration: capped_u128(sum_of(w, Figure::TotalBusyDuration)),
        worker_park_count: capped_u64(sum_of(w, Figure::ParkCount)),
        worker_park_unpark_count: capped_u64(sum_of(w, Figure::ParkUnparkCount)),
        worker_local_queue_depth: capped_usize(sum_of(w, Figure::LocalQueueDepth)),
        spawned_tasks_count: s.spawned_tasks_count,
        budget_forced_yield_count: s.budget_forced_yield_count,
        worker_noop_count: capped_u64(sum_of(w, Figure::NoopCount)),
        worker_steal_count: capped_u64(sum_of(w, Figure::StealCount)),
        worker_steal_operations: capped_u64(sum_of(w, Figure::StealOperations)),
        worker_poll_count: capped_u64(sum_of(w, Figure::PollCount)),
        worker_local_schedule_count: capped_u64(sum_of(w, Figure::LocalScheduleCount)),
        worker_overflow_count: capped_u64(sum_of(w, Figure::OverflowCount)),
        worker_mean_poll_time: if w.len() == 0 {
            0
        } else {
            (capped_u128(sum_of(w, Figure::MeanPollTime)) as int / w.len() as int) as u128
        },
        io_driver_fd_registered_count: s.io_driver_fd_registered_count,
        io_driver_fd_deregistered_count: s.io_driver_fd_deregistered_count,
        io_driver_ready_count: s.io_driver_ready_count,
    }
}

/// What two groups of runtimes report together: counts are added. The local queue
/// depth and the mean poll time of the first follow those of the second.
pub open spec fn aggregated(a: MetricsView, b: MetricsView) -> MetricsView {
    MetricsView {
        num_workers: capped_usize(a.num_workers + b.num_workers),
        num_alive_tasks: capped_usize(a.num_alive_tasks + b.num_alive_tasks),
        global_queue_depth: capped_usize(a.global_queue_depth + b.global_queue_depth),
        worker_total_busy_duration: capped_u128(
            a.worker_total_busy_duration + b.worker_total_busy_duration,
        ),
        worker_park_count: capped_u64(a.worker_park_count + b.worker_park_count),
        worker_park_unpark_count: capped_u64(
            a.worker_park_unpark_count + b.worker_park_unpark_count,
        ),
        worker_local_queue_depth: followed(
            a.worker_local_queue_depth as int,
            b.worker_local_queue_depth as int,
        ) as usize,
        spawned_tasks_count: capped_u64(a.spawned_tasks_count + b.spawned_tasks_count),
        budget_forced_yield_count: capped_u64(
            a.budget_forced_yield_count + b.budget_forced_yield_count,
        ),
        worker_noop_count: capped_u64(a.worker_noop_count + b.worker_noop_count),
        worker_steal_count: capped_u64(a.worker_steal_count + b.worker_steal_count),
        worker_steal_operations: capped_u64(a.worker_steal_operations + b.worker_steal_operations),
        worker_poll_count: capped_u64(a.worker_poll_count + b.worker_poll_count),
        worker_local_schedule_count: capped_u64(
            a.worker_local_schedule_count + b.worker_local_schedule_count,
        ),
        worker_overflow_count: capped_u64(a.worker_overflow_count + b.worker_overflow_count),
        worker_mean_poll_time: followed(
            a.worker_mean_poll_time as int,
            b.worker_mean_poll_time as int,
        ) as u128,
        io_driver_fd_registered_count: capped_u64(
            a.io_driver_fd_registered_count + b.io_driver_fd_registered_count,
        ),
        io_driver_fd_deregistered_count: capped_u64(
            a.io_driver_fd_deregistered_count + b.io_driver_fd_deregistered_count,
        ),
        io_driver_ready_count: capped_u64(a.io_driver_ready_count + b.io_driver_ready_count),
    }
}

/// What no runtime reports.
pub open spec fn no_metrics() -> MetricsView {
    MetricsView {
        num_workers: 0,
        num_alive_tasks: 0,
        global_queue_depth: 0,
        worker_total_busy_duration: 0,
        worker_park_count: 0,
        worker_park_unpark_count: 0,
        worker_local_queue_depth: 0,
        spawned_tasks_count: 0,
        budget_forced_yield_count: 0,
        worker_noop_count: 0,
        worker_steal_count: 0,
        worker_steal_operations: 0,
        worker_poll_count: 0,
        worker_local_schedule_count: 0,
        worker_overflow_count: 0,
        worker_mean_poll_time: 0,
        io_driver_fd_registered_count: 0,
        io_driver_fd_deregistered_count: 0,
        io_driver_ready_count: 0,
    }
}

impl Default for Metrics {
    fn default() -> (m: Metrics)
        ensures
            m@ == no_metrics(),
    {
        Metrics {
            num_workers: 0,
            num_alive_tasks: 0,
            global_queue_depth: 0,
            worker_total_busy_duration: 0,
            worker_park_count: 0,
            worker_park_unpark_count: 0,
            worker_local_queue_depth: 0,
            spawned_tasks_count: 0,
            budget_forced_yield_count: 0,
            worker_noop_count: 0,
            worker_steal_count: 0,
            worker_steal_operations: 0,
            worker_poll_count: 0,
            worker_local_schedule_count: 0,
            worker_overflow_count: 0,
            worker_mean_poll_time: 0,
            io_driver_fd_registered_count: 0,
            io_driver_fd_deregistered_count: 0,
            io_driver_ready_count: 0,
        }
    }
}

/// The sums of the figures of the workers, each up to the largest number.
pub open spec fn sums_to(w: Seq<WorkerSample>, t: WorkerSample) -> bool {
    &&& t.total_busy_duration == capped_u128(sum_of(w, Figure::TotalBusyDuration))
    &&& t.park_count == capped_u64(sum_of(w, Figure::ParkCount))
    &&& t.park_unpark_count == capped_u64(sum_of(w, Figure::ParkUnparkCount))
    &&& t.local_queue_depth == capped_usize(sum_of(w, Figure::LocalQueueDepth))
    &&& t.noop_count == capped_u64(sum_of(w, Figure::NoopCount))
    &&& t.steal_count == capped_u64(sum_of(w, Figure::StealCount))
    &&& t.steal_operations == capped_u64(sum_of(w, Figure::StealOperations))
    &&& t.poll_count == capped_u64(sum_of(w, Figure::PollCount))
    &&& t.local_schedule_count == capped_u64(sum_of(w, Figure::LocalScheduleCount))
    &&& t.overflow_count == capped_u64(sum_of(w, Figure::OverflowCount))
    &&& t.mean_poll_time == capped_u128(sum_of(w, Figure::MeanPollTime))
}

/// Adds up the figures of the workers.
fn add_up(workers: &Vec<WorkerSample>) -> (t: WorkerSample)
    ensures
        sums_to(workers@, t),
{
    let mut t = WorkerSample {
        total_busy_duration: 0,
        park_count: 0,
        park_unpark_count: 0,
        local_queue_depth: 0,
        noop_count: 0,
        steal_count: 0,
        steal_operations: 0,
        poll_count: 0,
        local_schedule_count: 0,
        overflow_count: 0,
        mean_poll_time: 0,
    };
    let mut i: usize = 0;
    assert(workers@.take(0).len() == 0);
    while i < workers.len()
        invariant
            i <= workers.len(),
            sums_to(workers@.take(i as int), t),
        decreases workers.len() - i,
    {
        let w: WorkerSample = workers[i];
        proof {
            let before = workers@.take(i as int);
            let after = workers@.take(i + 1);
            assert(after.drop_last() == before);
            assert(after.last() == w);
            lemma_sum_of(before, Figure::TotalBusyDuration);
            lemma_sum_of(before, Figure::ParkCount);
            lemma_sum_of(before, Figure::ParkUnparkCount);
            lemma_sum_of(before, Figure::LocalQueueDepth);
            lemma_sum_of(before, Figure::NoopCount);
            lemma_sum_of(before, Figure::StealCount);
            lemma_sum_of(before, Figure::StealOperations);
            lemma_sum_of(before, Figure::PollCount);
            lemma_sum_of(before, Figure::LocalScheduleCount);
            lemma_sum_of(before, Figure::OverflowCount);
            lemma_sum_of(before, Figure::MeanPollTime);
        }
        t = WorkerSample {
            total_busy_duration: t.total_busy_duration.saturating_add(w.total_busy_duration),
            park_count: t.park_count.saturating_add(w.park_count),
            park_unpark_count: t.park_unpark_count.saturating_add(w.park_unpark_count),
            local_queue_depth: t.local_queue_depth.saturating_add(w.local_queue_depth),
            noop_count: t.noop_count.saturating_add(w.noop_count),
            steal_count: t.steal_count.saturating_add(w.steal_count),
            steal_operations: t.steal_operations.saturating_add(w.steal_operations),
            poll_count: t.poll_count.saturating_add(w.poll_count),
            local_schedule_count: t.local_schedule_count.saturating_add(w.local_schedule_count),
            overflow_count: t.overflow_count.saturating_add(w.overflow_count),
            mean_poll_time: t.mean_poll_time.saturating_add(w.mean_poll_time),
        };
        i += 1;
    }
    assert(workers@.take(workers@.len() as int) == workers@);
    t
}

impl Metrics {
    /// What a runtime reports of itself.
    pub fn new(sample: &RuntimeSample) -> (m: Metrics)
        ensures
            m@ == metrics_of(*sample),
    {
        let t = add_up(&sample.workers);
        let n: usize = sample.workers.len();
        let mean: u128 = if n > 0 {
            t.mean_poll_time / (n as u128)
        } else {
            0
        };
        Metrics {
            num_workers: n,
            num_alive_tasks: sample.num_alive_tasks,
            global_queue_depth: sample.global_queue_depth,
            worker_total_busy_duration: t.total_busy_duration,
            worker_park_count: t.park_count,
            worker_park_unpark_count: t.park_unpark_count,
            worker_local_queue_depth: t.local_queue_depth,
            spawned_tasks_count: sample.spawned_tasks_count,
            budget_forced_yield_count: sample.budget_forced_yield_count,
            worker_noop_count: t.noop_count,
            worker_steal_count: t.steal_count,
            worker_steal_operations: t.steal_operations,
            worker_poll_count: t.poll_count,
            worker_local_schedule_count: t.local_schedule_count,
            worker_overflow_count: t.overflow_count,
            worker_mean_poll_time: mean,
            io_driver_fd_registered_count: sample.io_driver_fd_registered_count,
            io_driver_fd_deregistered_count: sample.io_driver_fd_deregistered_count,
            io_driver_ready_count: sample.io_driver_ready_count,
        }
    }

    /// Adds what another group of runtimes reports.
    pub fn aggregate(&mut self, other: &Metrics)
        ensures
            final(self)@ == aggregated(old(self)@, other@),
    {
        let m = Metrics {
            num_workers: self.num_workers.saturating_add(other.num_workers),
            num_alive_tasks: self.num_alive_tasks.saturating_add(other.num_alive_tasks),
            global_queue_depth: self.global_queue_depth.saturating_add(other.global_queue_depth),
            worker_total_busy_duration: self.worker_total_busy_duration.saturating_add(
                other.worker_total_busy_duration,
            ),
            worker_park_count: self.worker_park_count.saturating_add(other.worker_park_count),
            worker_park_unpark_count: self.worker_park_unpark_count.saturating_add(
                other.worker_park_unpark_count,
            ),
            worker_local_queue_depth: follow_usize(
                self.worker_local_queue_depth,
                other.worker_local_queue_depth,
            ),
            spawned_tasks_count: self.spawned_tasks_count.saturating_add(
                other.spawned_tasks_count,
            ),
            budget_forced_yield_count: self.budget_forced_yield_count.saturating_add(
                other.budget_forced_yield_count,
            ),
            worker_noop_count: self.worker_noop_count.saturating_add(other.worker_noop_count),
            worker_steal_count: self.worker_steal_count.saturating_add(other.worker_steal_count),
            worker_steal_operations: self.worker_steal_operations.saturating_add(
                other.worker_steal_operations,
            ),
            worker_poll_count: self.worker_poll_count.saturating_add(other.worker_poll_count),
            worker_local_schedule_count: self.worker_local_schedule_count.saturating_add(
                other.worker_local_schedule_count,
            ),
            worker_overflow_count: self.worker_overflow_count.saturating_add(
                other.worker_overflow_count,
            ),
            worker_mean_poll_time: follow_u128(
                self.worker_mean_poll_time,
                other.worker_mean_poll_time,
            ),
            io_driver_fd_registered_count: self.io_driver_fd_registered_count.saturating_add(
                other.io_driver_fd_registered_count,
            ),
            io_driver_fd_deregistered_count: self.io_driver_fd_deregistered_count.saturating_add(
                other.io_driver_fd_deregistered_count,
            ),
            io_driver_ready_count: self.io_driver_ready_count.saturating_add(
                other.io_driver_ready_count,
            ),
        };
        *self = m;
    }

    /// The number of workers.
    pub fn num_workers(&self) -> (n: usize)
        ensures
            n == self@.num_workers,
    {
        self.num_workers
    }

    /// The number of tasks that are not over.
    pub fn num_alive_tasks(&self) -> (n: usize)
        ensures
            n == self@.num_alive_tasks,
    {
        self.num_alive_tasks
    }

    /// The number of tasks in the global queues.
    pub fn global_queue_depth(&self) -> (n: usize)
        ensures
            n == self@.global_queue_depth,
    {
        self.global_queue_depth
    }

    /// For how long the workers were busy, in nanoseconds.
    pub fn worker_total_busy_duration(&self) -> (n: u128)
        ensures
            n == self@.worker_total_busy_duration,
    {
        self.worker_total_busy_duration
    }

    /// How often workers were parked.
    pub fn worker_park_count(&self) -> (n: u64)
        ensures
            n == self@.worker_park_count,
    {
        self.worker_park_count
    }

    /// How often workers were parked and unparked.
    pub fn worker_park_unpark_count(&self) -> (n: u64)
        ensures
            n == self@.worker_park_unpark_count,
    {
        self.worker_park_unpark_count
    }

    /// The number of tasks in the local queues.
    pub fn worker_local_queue_depth(&self) -> (n: usize)
        ensures
            n == self@.worker_local_queue_depth,
    {
        self.worker_local_queue_depth
    }

    /// The number of tasks that were spawned.
    pub fn spawned_tasks_count(&self) -> (n: u64)
        ensures
            n == self@.spawned_tasks_count,
    {
        self.spawned_tasks_count
    }

    /// How often tasks had to yield.
    pub fn budget_forced_yield_count(&self) -> (n: u64)
        ensures
            n == self@.budget_forced_yield_count,
    {
        self.budget_forced_yield_count
    }

    /// How often workers woke up for nothing.
    pub fn worker_noop_count(&self) -> (n: u64)
        ensures
            n == self@.worker_noop_count,
    {
        self.worker_noop_count
    }

    /// The number of tasks that workers took from each other.
    pub fn worker_steal_count(&self) -> (n: u64)
        ensures
            n == self@.worker_steal_count,
    {
        self.worker_steal_count
    }

    /// How often workers took tasks from each other.
    pub fn worker_steal_operations(&self) -> (n: u64)
        ensures
            n == self@.worker_steal_operations,
    {
        self.worker_steal_operations
    }

    /// How often tasks were polled.
    pub fn worker_poll_count(&self) -> (n: u64)
        ensures
            n == self@.worker_poll_count,
    {
        self.worker_poll_count
    }

    /// How often tasks were put into local queues.
    pub fn worker_local_schedule_count(&self) -> (n: u64)
        ensures
            n == self@.worker_local_schedule_count,
    {
        self.worker_local_schedule_count
    }

    /// How often local queues overflowed.
    pub fn worker_overflow_count(&self) -> (n: u64)
        ensures
            n == self@.worker_overflow_count,
    {
        self.worker_overflow_count
    }

    /// The mean time of a poll, in nanoseconds.
    pub fn worker_mean_poll_time(&self) -> (n: u128)
        ensures
            n == self@.worker_mean_poll_time,
    {
        self.worker_mean_poll_time
    }

    /// How many file descriptors were registered.
    pub fn io_driver_fd_registered_count(&self) -> (n: u64)
        ensures
            n == self@.io_driver_fd_registered_count,
    {
        self.io_driver_fd_registered_count
    }

    /// How many file descriptors were deregistered.
    pub fn io_driver_fd_deregistered_count(&self) -> (n: u64)
        ensures
            n == self@.io_driver_fd_deregistered_count,
    {
        self.io_driver_fd_deregistered_count
    }

    /// How many events made file descriptors ready.
    pub fn io_driver_ready_count(&self) -> (n: u64)
        ensures
            n == self@.io_driver_ready_count,
    {
        self.io_driver_ready_count
    }

    /// The number of file descriptors that are watched.
    pub fn active_fds(&self) -> (n: u64)
        ensures
            n == (if self@.io_driver_fd_registered_count > self@.io_driver_fd_deregistered_count {
                self@.io_driver_fd_registered_count - self@.io_driver_fd_deregistered_count
            } else {
                0
            }),
    {
        self.io_driver_fd_registered_count.saturating_sub(self.io_driver_fd_deregistered_count)
    }
}

/// The local queue depth and the mean poll time of several runtimes lie between
/// those that they come from.
pub proof fn law_followed_values_lie_between(a: MetricsView, b: MetricsView)
    ensures
        ({
            let m = aggregated(a, b);
            &&& a.worker_local_queue_depth <= m.worker_local_queue_depth
                <= b.worker_local_queue_depth || b.worker_local_queue_depth
                <= m.worker_local_queue_depth <= a.worker_local_queue_depth
            &&& a.worker_mean_poll_time <= m.worker_mean_poll_time <= b.worker_mean_poll_time
                || b.worker_mean_poll_time <= m.worker_mean_poll_time <= a.worker_mean_poll_time
        }),
{
    lemma_followed(a.worker_local_queue_depth as int, b.worker_local_queue_depth as int);
    lemma_followed(a.worker_mean_poll_time as int, b.worker_mean_poll_time as int);
}

/// The order in which runtimes are added does not matter to what is counted.
pub proof fn law_counts_commute(a: MetricsView, b: MetricsView)
    ensures
        aggregated(a, b) == (MetricsView {
            worker_local_queue_depth: aggregated(a, b).worker_local_queue_depth,
            worker_mean_poll_time: aggregated(a, b).worker_mean_poll_time,
            ..aggregated(b, a)
        }),
{
}

/// What two groups of runtimes count is added, as far as it fits. Of what is not counted,
/// the depth of the local queues and the mean time of a poll, four parts stay and one part
/// is that of the second group.
pub proof fn law_counts_are_added(a: MetricsView, b: MetricsView)
    ensures
        ({
            let s = aggregated(a, b);
            &&& a.worker_park_count + b.worker_park_count <= u64::MAX ==> s.worker_park_count == a.worker_park_count + b.worker_park_count
            &&& a.worker_park_count + b.worker_park_count > u64::MAX ==> s.worker_park_count == u64::MAX
            &&& a.worker_park_unpark_count + b.worker_park_unpark_count <= u64::MAX ==> s.worker_park_unpark_count == a.worker_park_unpark_count + b.worker_park_unpark_count
            &&& a.worker_park_unpark_count + b.worker_park_unpark_count > u64::MAX ==> s.worker_park_unpark_count == u64::MAX
            &&& a.spawned_tasks_count + b.spawned_tasks_count <= u64::MAX ==> s.spawned_tasks_count == a.spawned_tasks_count + b.spawned_tasks_count
            &&& a.spawned_tasks_count + b.spawned_tasks_count > u64::MAX ==> s.spawned_tasks_count == u64::MAX
            &&& a.budget_forced_yield_count + b.budget_forced_yield_count <= u64::MAX ==> s.budget_forced_yield_count == a.budget_forced_yield_count + b.budget_forced_yield_count
            &&& a.budget_forced_yield_count + b.budget_forced_yield_count > u64::MAX ==> s.budget_forced_yield_count == u64::MAX
            &&& a.worker_noop_count + b.worker_noop_count <= u64::MAX ==> s.worker_noop_count == a.worker_noop_count + b.worker_noop_count
            &&& a.worker_noop_count + b.worker_noop_count > u64::MAX ==> s.worker_noop_count == u64::MAX
            &&& a.worker_steal_count + b.worker_steal_count <= u64::MAX ==> s.worker_steal_count == a.worker_steal_count + b.worker_steal_count
            &&& a.worker_steal_count + b.worker_steal_count > u64::MAX ==> s.worker_steal_count == u64::MAX
            &&& a.worker_steal_operations + b.worker_steal_operations <= u64::MAX ==> s.worker_steal_operations == a.worker_steal_operations + b.worker_steal_operations
            &&& a.worker_steal_operations + b.worker_steal_operations > u64::MAX ==> s.worker_steal_operations == u64::MAX
            &&& a.worker_poll_count + b.worker_poll_count <= u64::MAX ==> s.worker_poll_count == a.worker_poll_count + b.worker_poll_count
            &&& a.worker_poll_count + b.worker_poll_count > u64::MAX ==> s.worker_poll_count == u64::MAX
            &&& a.worker_local_schedule_count + b.worker_local_schedule_count <= u64::MAX ==> s.worker_local_schedule_count == a.worker_local_schedule_count + b.worker_local_schedule_count
            &&& a.worker_local_schedule_count + b.worker_local_schedule_count > u64::MAX ==> s.worker_local_schedule_count == u64::MAX
            &&& a.worker_overflow_count + b.worker_overflow_count <= u64::MAX ==> s.worker_overflow_count == a.worker_overflow_count + b.worker_overflow_count
            &&& a.worker_overflow_count + b.worker_overflow_count > u64::MAX ==> s.worker_overflow_count == u64::MAX
            &&& a.io_driver_fd_registered_count + b.io_driver_fd_registered_count <= u64::MAX ==> s.io_driver_fd_registered_count == a.io_driver_fd_registered_count + b.io_driver_fd_registered_count
            &&& a.io_driver_fd_registered_count + b.io_driver_fd_registered_count > u64::MAX ==> s.io_driver_fd_registered_count == u64::MAX
            &&& a.io_driver_fd_deregistered_count + b.io_driver_fd_deregistered_count <= u64::MAX ==> s.io_driver_fd_deregistered_count == a.io_driver_fd_deregistered_count + b.io_driver_fd_deregistered_count
            &&& a.io_driver_fd_deregistered_count + b.io_driver_fd_deregistered_count > u64::MAX ==> s.io_driver_fd_deregistered_count == u64::MAX
            &&& a.io_driver_ready_count + b.io_driver_ready_count <= u64::MAX ==> s.io_driver_ready_count == a.io_driver_ready_count + b.io_driver_ready_count
            &&& a.io_driver_ready_count + b.io_driver_ready_count > u64::MAX ==> s.io_driver_ready_count == u64::MAX
            &&& a.num_workers + b.num_workers <= usize::MAX ==> s.num_workers == a.num_workers + b.num_workers
            &&& a.num_workers + b.num_workers > usize::MAX ==> s.num_workers == usize::MAX
            &&& a.num_alive_tasks + b.num_alive_tasks <= usize::MAX ==> s.num_alive_tasks == a.num_alive_tasks + b.num_alive_tasks
            &&& a.num_alive_tasks + b.num_alive_tasks > usize::MAX ==> s.num_alive_tasks == usize::MAX
            &&& a.global_queue_depth + b.global_queue_depth <= usize::MAX ==> s.global_queue_depth == a.global_queue_depth + b.global_queue_depth
            &&& a.global_queue_depth + b.global_queue_depth > usize::MAX ==> s.global_queue_depth == usize::MAX
            &&& a.worker_total_busy_duration + b.worker_total_busy_duration <= u128::MAX ==> s.worker_total_busy_duration == a.worker_total_busy_duration + b.worker_total_busy_duration
            &&& a.worker_total_busy_duration + b.worker_total_busy_duration > u128::MAX ==> s.worker_total_busy_duration == u128::MAX
            &&& 5 * s.worker_local_queue_depth <= 4 * a.worker_local_queue_depth
                + b.worker_local_queue_depth < 5 * s.worker_local_queue_depth + 5
            &&& 5 * s.worker_mean_poll_time <= 4 * a.worker_mean_poll_time + b.worker_mean_poll_time < 5
                * s.worker_mean_poll_time + 5
        }),
{
    lemma_followed(a.worker_local_queue_depth as int, b.worker_local_queue_depth as int);
    lemma_followed(a.worker_mean_poll_time as int, b.worker_mean_poll_time as int);
}

/// One more worker adds what it counts to what a runtime counts, as far as it fits, and
/// changes nothing that is not counted by workers.
pub proof fn law_each_worker_counts(s: RuntimeSample, t: RuntimeSample, w: WorkerSample)
    requires
        t.workers@ == s.workers@.push(w),
    ensures
        ({
            let m = metrics_of(s);
            let n = metrics_of(t);
            &&& m.worker_park_count + w.park_count <= u64::MAX ==> n.worker_park_count == m.worker_park_count + w.park_count
            &&& m.worker_park_count + w.park_count > u64::MAX ==> n.worker_park_count == u64::MAX
            &&& m.worker_park_unpark_count + w.park_unpark_count <= u64::MAX ==> n.worker_park_unpark_count == m.worker_park_unpark_count + w.park_unpark_count
            &&& m.worker_park_unpark_count + w.park_unpark_count > u64::MAX ==> n.worker_park_unpark_count == u64::MAX
            &&& m.worker_local_queue_depth + w.local_queue_depth <= usize::MAX ==> n.worker_local_queue_depth == m.worker_local_queue_depth + w.local_queue_depth
            &&& m.worker_local_queue_depth + w.local_queue_depth > usize::MAX ==> n.worker_local_queue_depth == usize::MAX
            &&& m.worker_noop_count + w.noop_count <= u64::MAX ==> n.worker_noop_count == m.worker_noop_count + w.noop_count
            &&& m.worker_noop_count + w.noop_count > u64::MAX ==> n.worker_noop_count == u64::MAX
            &&& m.worker_steal_count + w.steal_count <= u64::MAX ==> n.worker_steal_count == m.worker_steal_count + w.steal_count
            &&& m.worker_steal_count + w.steal_count > u64::MAX ==> n.worker_steal_count == u64::MAX
            &&& m.worker_steal_operations + w.steal_operations <= u64::MAX ==> n.worker_steal_operations == m.worker_steal_operations + w.steal_operations
            &&& m.worker_steal_operations + w.steal_operations > u64::MAX ==> n.worker_steal_operations == u64::MAX
            &&& m.worker_poll_count + w.poll_count <= u64::MAX ==> n.worker_poll_count == m.worker_poll_count + w.poll_count
            &&& m.worker_poll_count + w.poll_count > u64::MAX ==> n.worker_poll_count == u64::MAX
            &&& m.worker_local_schedule_count + w.local_schedule_count <= u64::MAX ==> n.worker_local_schedule_count == m.worker_local_schedule_count + w.local_schedule_count
            &&& m.worker_local_schedule_count + w.local_schedule_count > u64::MAX ==> n.worker_local_schedule_count == u64::MAX
            &&& m.worker_overflow_count + w.overflow_count <= u64::MAX ==> n.worker_overflow_count == m.worker_overflow_count + w.overflow_count
            &&& m.worker_overflow_count + w.overflow_count > u64::MAX ==> n.worker_overflow_count == u64::MAX
            &&& m.worker_total_busy_duration + w.total_busy_duration <= u128::MAX ==> n.worker_total_busy_duration == m.worker_total_busy_duration + w.total_busy_duration
            &&& m.worker_total_busy_duration + w.total_busy_duration > u128::MAX ==> n.worker_total_busy_duration == u128::MAX
        }),
{
    let before = s.workers@;
    assert(before.push(w).drop_last() == before);
    assert(before.push(w).last() == w);
    lemma_sum_of(before, Figure::TotalBusyDuration);
    lemma_sum_of(before, Figure::ParkCount);
    lemma_sum_of(before, Figure::ParkUnparkCount);
    lemma_sum_of(before, Figure::LocalQueueDepth);
    lemma_sum_of(before, Figure::NoopCount);
    lemma_sum_of(before, Figure::StealCount);
    lemma_sum_of(before, Figure::StealOperations);
    lemma_sum_of(before, Figure::PollCount);
    lemma_sum_of(before, Figure::LocalScheduleCount);
    lemma_sum_of(before, Figure::OverflowCount);
}

/// A runtime without workers counts nothing of them. What it reports of itself stays.
pub proof fn law_what_a_runtime_reports(s: RuntimeSample)
    requires
        s.workers@.len() <= usize::MAX,
    ensures
        ({
            let m = metrics_of(s);
            &&& m.num_workers == s.workers@.len()
            &&& m.num_alive_tasks == s.num_alive_tasks
            &&& m.global_queue_depth == s.global_queue_depth
            &&& m.spawned_tasks_count == s.spawned_tasks_count
            &&& m.budget_forced_yield_count == s.budget_forced_yield_count
            &&& m.io_driver_fd_registered_count == s.io_driver_fd_registered_count
            &&& m.io_driver_fd_deregistered_count == s.io_driver_fd_deregistered_count
            &&& m.io_driver_ready_count == s.io_driver_ready_count
            &&& s.workers@.len() == 0 ==> {
                &&& m.worker_park_count == 0
                &&& m.worker_park_unpark_count == 0
                &&& m.worker_local_queue_depth == 0
                &&& m.worker_noop_count == 0
                &&& m.worker_steal_count == 0
                &&& m.worker_steal_operations == 0
                &&& m.worker_poll_count == 0
                &&& m.worker_local_schedule_count == 0
                &&& m.worker_overflow_count == 0
                &&& m.worker_total_busy_duration == 0
                &&& m.worker_mean_poll_time == 0
            }
        }),
{
}

/// The mean time of a poll is the mean over the workers, rounded down.
pub proof fn law_mean_is_over_the_workers(s: RuntimeSample)
    requires
        s.workers@.len() > 0,
        s.workers@.fold_left(0, |n: int, w: WorkerSample| n + w.mean_poll_time) <= u128::MAX,
    ensures
        ({
            let total = s.workers@.fold_left(0, |n: int, w: WorkerSample| n + w.mean_poll_time);
            let mean = metrics_of(s).worker_mean_poll_time as int;
            mean * s.workers@.len() <= total < mean * s.workers@.len() + s.workers@.len()
        }),
{
    lemma_fold_of_means(s.workers@);
    lemma_sum_of(s.workers@, Figure::MeanPollTime);
    let total = sum_of(s.workers@, Figure::MeanPollTime);
    let n = s.workers@.len() as int;
    vstd::arithmetic::div_mod::lemma_fundamental_div_mod(total, n);
    vstd::arithmetic::div_mod::lemma_mod_bound(total, n);
    let q = total / n;
    vstd::arithmetic::div_mod::lemma_div_is_ordered_by_denominator(total, 1, n);
    assert(0 <= q <= total) by {
        vstd::arithmetic::div_mod::lemma_div_pos_is_pos(total, n);
        vstd::arithmetic::div_mod::lemma_div_basics(total);
    }
    assert(q * n == n * q) by (nonlinear_arith);
}

proof fn lemma_fold_of_means(w: Seq<WorkerSample>)
    ensures
        w.fold_left(0, |n: int, w: WorkerSample| n + w.mean_poll_time) == sum_of(
            w,
            Figure::MeanPollTime,
        ),
    decreases w.len(),
{
    reveal_with_fuel(Seq::fold_left, 2);
    if w.len() > 0 {
        lemma_fold_of_means(w.drop_last());
    }
}

} // verus!
