//! Engines, their reports and their metrics.
use plumbrs::engine::metrics::{AggRuntimeMetrics, DummyMetricsIter};
use plumbrs::engine::{
    csv_header, csv_row, error_cell, gather, instances, plan_runtime, rate, report, share, start_line, tally, total,
    Meter,
};
use plumbrs::metrics::{Metrics, RuntimeSample, WorkerSample};
use plumbrs::options::Options;
use plumbrs::stats::{RealtimeStats, Statistics};

#[test]
fn engines_share_the_threads() {
    let mut opts = Options::default();
    opts.threads = 4;
    opts.connections = 100;
    assert_eq!(instances(&opts), 4);
    assert_eq!(
        start_line(&opts),
        "4 single-threaded tokio runtimes started (100 total connections, 25 per thread)"
    );
    opts.multithreaded = Some(2);
    assert_eq!(instances(&opts), 2);
    assert_eq!(
        start_line(&opts),
        "2 multi-threaded/2 tokio runtimes started (100 total connections, 25 per thread)"
    );
    opts.threads = 1;
    opts.multithreaded = None;
    assert_eq!(
        start_line(&opts),
        "1 single-threaded tokio runtime started (100 total connections, 100 per thread)"
    );
}

#[test]
fn engines_share_the_connections() {
    let a = share(0, 10, 3);
    let b = share(1, 10, 3);
    let c = share(2, 10, 3);
    assert_eq!((a.base, a.connections), (0, 3));
    assert_eq!((b.base, b.connections), (3, 3));
    assert_eq!((c.base, c.connections), (6, 3));
}

#[test]
fn runtimes_have_usual_settings() {
    let mut opts = Options::default();
    let p = plan_runtime(3, &opts);
    assert!(!p.multi);
    assert_eq!(p.worker_threads, 1);
    assert_eq!(p.global_queue_interval, 31);
    assert_eq!(p.event_interval, 61);
    assert_eq!(p.max_io_events_per_tick, 1024);
    assert_eq!(p.thread_name, "plumbr-3/s");
    opts.multithreaded = Some(4);
    opts.event_interval = Some(7);
    let p = plan_runtime(10, &opts);
    assert!(p.multi);
    assert_eq!(p.worker_threads, 4);
    assert_eq!(p.global_queue_interval, 61);
    assert_eq!(p.event_interval, 7);
    assert_eq!(p.thread_name, "plumbr-10/m");
}

#[test]
fn rates_are_per_second() {
    assert_eq!(rate(10, 2_000_000), 5);
    assert_eq!(rate(1, 3_000_000), 0);
    assert_eq!(rate(u64::MAX, 1), u64::MAX);
}

#[test]
fn runs_are_reported() {
    let rt = RealtimeStats::default();
    let mut a = Statistics::new(false);
    a.inc_ok(&rt);
    a.inc_ok(&rt);
    a.set_http_status(404, &rt);
    let mut b = Statistics::new(false);
    b.set_http_status(404, &rt);
    b.set_http_status(301, &rt);
    b.set_error("timed out", &rt);
    let sum = total(vec![a, b]);
    let r = report(&sum, 500_000);
    assert_eq!(r.ok, 2);
    assert_eq!(r.ok_rate, 4);
    assert_eq!(r.status_3xx, 1);
    assert_eq!(r.status_4xx, 2);
    assert_eq!(r.status_5xx, 0);
    assert_eq!(r.errors, 1);
    let mut statuses = r.statuses.clone();
    statuses.sort_unstable();
    assert_eq!(statuses, vec![(301, 1, 2), (404, 2, 4)]);
    assert_eq!(r.error_rates, vec![("timed out".to_string(), 2)]);
    let (ok, fail, err) = gather(&vec![rt]);
    assert_eq!((ok, fail, err), (2, 3, 1));
    assert_eq!(tally(&vec![(1, 2, 3), (10, 20, u64::MAX)]), (11, 22, u64::MAX));
}

#[test]
fn runs_are_reported_in_a_row() {
    let rt = RealtimeStats::default();
    let mut s = Statistics::new(true);
    s.inc_conn();
    s.set_http_status(200, &rt);
    s.set_http_status(503, &rt);
    s.record_latency(10);
    s.record_latency(30);
    let r = report(&s, 1_000_000);
    let latency = s.latency.as_ref().map(|l| l.summary());
    assert_eq!(csv_row(&r, s.conn(), latency), "1,0,0,1,0,1,1,10,10,30,30,30");
    assert_eq!(csv_row(&r, s.conn(), None), "1,0,0,1,0,1,1,,,,,");
    assert_eq!(csv_header().split(',').count(), 12);
}

#[test]
fn long_errors_are_cut() {
    let short = error_cell("abc");
    assert_eq!(short.len(), 42);
    assert_eq!(short.trim_end(), "abc");
    let long = "x".repeat(50);
    assert_eq!(error_cell(&long), format!("{}...", "x".repeat(42)));
    let exact = "y".repeat(42);
    assert_eq!(error_cell(&exact), exact);
    let wide = "\u{e9}".repeat(30);
    assert_eq!(error_cell(&wide), format!("{}...", "\u{e9}".repeat(21)));
}

#[test]
fn the_meter_turns() {
    let mut m = Meter::new();
    assert_eq!(m.line(1, 2, 3), "\r\u{280b} Stats: ok: 1/sec, fail: 2/sec, err: 3/sec");
    for _ in 1..10 {
        m.line(0, 0, 0);
    }
    assert_eq!(m.place, 0);
    assert!(m.line(0, 0, 0).starts_with("\r\u{280b}"));
}

fn worker(n: u64) -> WorkerSample {
    WorkerSample {
        total_busy_duration: n as u128 * 1000,
        park_count: n,
        park_unpark_count: 2 * n,
        local_queue_depth: n as usize,
        noop_count: n,
        steal_count: n,
        steal_operations: n,
        poll_count: n,
        local_schedule_count: n,
        overflow_count: n,
        mean_poll_time: n as u128 * 10,
    }
}

fn sample(workers: Vec<WorkerSample>) -> RuntimeSample {
    RuntimeSample {
        num_alive_tasks: 5,
        global_queue_depth: 6,
        spawned_tasks_count: 7,
        budget_forced_yield_count: 8,
        io_driver_fd_registered_count: 9,
        io_driver_fd_deregistered_count: 4,
        io_driver_ready_count: 11,
        workers,
    }
}

#[test]
fn metrics_of_the_workers_are_added() {
    let m = Metrics::new(&sample(vec![worker(1), worker(2)]));
    assert_eq!(m.num_workers(), 2);
    assert_eq!(m.num_alive_tasks(), 5);
    assert_eq!(m.global_queue_depth(), 6);
    assert_eq!(m.worker_total_busy_duration(), 3000);
    assert_eq!(m.worker_park_count(), 3);
    assert_eq!(m.worker_park_unpark_count(), 6);
    assert_eq!(m.worker_local_queue_depth(), 3);
    assert_eq!(m.spawned_tasks_count(), 7);
    assert_eq!(m.budget_forced_yield_count(), 8);
    assert_eq!(m.worker_noop_count(), 3);
    assert_eq!(m.worker_steal_count(), 3);
    assert_eq!(m.worker_steal_operations(), 3);
    assert_eq!(m.worker_poll_count(), 3);
    assert_eq!(m.worker_local_schedule_count(), 3);
    assert_eq!(m.worker_overflow_count(), 3);
    assert_eq!(m.worker_mean_poll_time(), 15);
    assert_eq!(m.io_driver_fd_registered_count(), 9);
    assert_eq!(m.io_driver_fd_deregistered_count(), 4);
    assert_eq!(m.io_driver_ready_count(), 11);
    assert_eq!(m.active_fds(), 5);
    assert_eq!(Metrics::new(&sample(vec![])).worker_mean_poll_time(), 0);
}

#[test]
fn metrics_of_runtimes_are_aggregated() {
    let mut m = Metrics::new(&sample(vec![worker(10)]));
    m.aggregate(&Metrics::new(&sample(vec![worker(20)])));
    assert_eq!(m.num_workers(), 2);
    assert_eq!(m.worker_park_count(), 30);
    // Four parts of 10 and one part of 20.
    assert_eq!(m.worker_local_queue_depth(), 12);
    assert_eq!(m.worker_mean_poll_time(), 120);
    let mut none = Metrics::default();
    none.aggregate(&Metrics::new(&sample(vec![worker(u64::MAX)])));
    none.aggregate(&Metrics::new(&sample(vec![worker(0)])));
    assert_eq!(none.worker_park_count(), u64::MAX);
}

#[test]
fn runtime_metrics_of_engines_are_added() {
    let mut a = AggRuntimeMetrics::default();
    a.workers_count = 1;
    a.total_park_count = 5;
    a.max_park_count = 5;
    a.min_park_count = 2;
    a.min_local_queue_depth = 3;
    let mut b = AggRuntimeMetrics::default();
    b.workers_count = 2;
    b.total_park_count = 7;
    b.max_park_count = 4;
    b.min_park_count = 1;
    b.min_local_queue_depth = 4;
    let c = a.add(b);
    assert_eq!(c.workers_count, 3);
    assert_eq!(c.total_park_count, 12);
    assert_eq!(c.max_park_count, 5);
    assert_eq!(c.min_park_count, 1);
    assert_eq!(c.min_local_queue_depth, 7);
    assert_eq!(c, b.add(a));
    assert_eq!(a.add(b).add(c), a.add(b.add(c)));
    assert!(DummyMetricsIter.next().is_none());
}

#[test]
fn counters_of_all_engines_are_added_up_and_set_back() {
    let engines = vec![RealtimeStats::default(), RealtimeStats::default()];
    let mut s = Statistics::new(false);
    s.inc_ok(&engines[0]);
    s.inc_ok(&engines[1]);
    s.set_http_status(404, &engines[1]);
    s.set_error("reset", &engines[0]);
    s.inc_ok(&engines[1]);
    assert_eq!(gather(&engines), (3, 1, 1));
    assert_eq!(gather(&engines), (0, 0, 0));
    assert_eq!(gather(&Vec::new()), (0, 0, 0));
}
