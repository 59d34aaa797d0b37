//! The engines of a run: how many there are, how the connections are shared out
//! among them, and what is reported at the end.
use crate::options;
use crate::options::Options;
use crate::stats;
use crate::stats::{LatencySummary, RealtimeStats, Statistics};
use crate::text;
use std::collections::HashMap;
use vstd::prelude::*;

pub mod metrics;

verus! {

// ---------------------------------------------------------------------------
// Engines
// ---------------------------------------------------------------------------

/// The number of threads of an engine.
pub open spec fn engine_threads(opts: Options) -> usize {
    match opts.multithreaded {
        Some(n) => n,
        None => 1,
    }
}

/// The number of engines.
pub open spec fn engine_count(opts: Options) -> int {
    opts.threads as int / engine_threads(opts) as int
}

/// The number of engines.
pub fn instances(opts: &Options) -> (n: usize)
    requires
        engine_threads(*opts) > 0,
    ensures
        n == engine_count(*opts),
{
    let each: usize = match opts.multithreaded {
        Some(n) => n,
        None => 1,
    };
    opts.threads / each
}

/// The line that is shown when the engines start.
pub open spec fn start_text(opts: Options) -> Seq<char> {
    text::decimal(engine_count(opts) as nat) + " "@ + (match opts.multithreaded {
        None => "single-threaded"@,
        Some(n) => "multi-threaded/"@ + text::decimal(n as nat),
    }) + " tokio runtime"@ + (if opts.threads > 1 {
        "s"@
    } else {
        ""@
    }) + " started ("@ + text::decimal(opts.connections as nat) + " total connections, "@
        + text::decimal((opts.connections / opts.threads) as nat) + " per thread)"@
}

/// The line that is shown when the engines start.
pub fn start_line(opts: &Options) -> (s: String)
    requires
        engine_threads(*opts) > 0,
        opts.threads > 0,
    ensures
        s@ == start_text(*opts),
{
    let mut s = text::decimal_string(instances(opts) as u64);
    s.append(" ");
    match opts.multithreaded {
        None => {
            s.append("single-threaded");
        },
        Some(n) => {
            let mut m = "multi-threaded/".to_string();
            m.append(text::decimal_string(n as u64).as_str());
            s.append(m.as_str());
        },
    }
    s.append(" tokio runtime");
    if opts.threads > 1 {
        s.append("s");
    } else {
        s.append("");
    }
    s.append(" started (");
    s.append(text::decimal_string(opts.connections as u64).as_str());
    s.append(" total connections, ");
    s.append(text::decimal_string((opts.connections / opts.threads) as u64).as_str());
    s.append(" per thread)");
    s
}

/// The share of an engine: the number of its connections, and how many stand
/// before its first.
#[derive(Clone, Copy, Debug, PartialEq, Eq, Structural)]
pub struct Share {
    pub connections: usize,
    pub base: usize,
}

/// The share of the engine with a number: every engine has as many connections.
pub open spec fn share_of(id: int, connections: int, engines: int) -> (int, int) {
    (connections / engines, id * (connections / engines))
}

/// The share of the engine with a number.
pub fn share(id: usize, connections: usize, engines: usize) -> (s: Share)
    requires
        id < engines,
    ensures
        s.connections == share_of(id as int, connections as int, engines as int).0,
        s.base == share_of(id as int, connections as int, engines as int).1,
{
    let each: usize = connections / engines;
    proof {
        law_shares_do_not_overlap(id as int, engines as int, connections as int, engines as int);
    }
    Share { connections: each, base: id * each }
}

/// The connections of an engine stand before those of every engine that follows,
/// and all of them are within the number that was asked for.
pub proof fn law_shares_do_not_overlap(id: int, other: int, connections: int, engines: int)
    requires
        0 <= id < other <= engines,
        0 <= connections,
    ensures
        ({
            let (n, base) = share_of(id, connections, engines);
            &&& 0 <= base
            &&& base + n <= share_of(other, connections, engines).1 <= connections
        }),
{
    let n = connections / engines;
    assert(n >= 0 && n * engines <= connections) by (nonlinear_arith)
        requires
            n == connections / engines,
            engines > 0,
            connections >= 0,
    ;
    assert(0 <= id * n && id * n + n <= other * n && other * n <= engines * n) by (nonlinear_arith)
        requires
            0 <= id < other <= engines,
            n >= 0,
    ;
    assert(engines * n == n * engines) by (nonlinear_arith);
}

/// The settings of the runtime of an engine.
#[derive(Clone, Debug)]
pub struct RuntimePlan {
    /// The tasks run on more threads than the one that waits for them.
    pub multi: bool,
    pub worker_threads: usize,
    pub global_queue_interval: u32,
    pub event_interval: u32,
    pub max_io_events_per_tick: usize,
    pub disable_lifo_slot: bool,
    pub thread_name: String,
}

/// A value that was given, or the one that is meant where none was.
pub open spec fn given_or<T>(given: Option<T>, usual: T) -> T {
    match given {
        Some(v) => v,
        None => usual,
    }
}

/// The name of the threads of an engine.
pub open spec fn thread_name(id: usize, multi: bool) -> Seq<char> {
    "plumbr-"@ + text::decimal(id as nat) + (if multi {
        "/m"@
    } else {
        "/s"@
    })
}

/// The settings of the runtime of an engine: what was not given is what suits a
/// runtime on one thread, or on several.
pub fn plan_runtime(id: usize, opts: &Options) -> (p: RuntimePlan)
    ensures
        p.multi == (opts.multithreaded is Some),
        p.worker_threads == engine_threads(*opts),
        p.global_queue_interval == given_or(
            opts.global_queue_interval,
            if p.multi {
                61u32
            } else {
                31u32
            },
        ),
        p.event_interval == given_or(opts.event_interval, 61u32),
        p.max_io_events_per_tick == given_or(opts.max_io_events_per_tick, 1024usize),
        p.disable_lifo_slot == (p.multi && opts.disable_lifo_slot),
        p.thread_name@ == thread_name(id, p.multi),
{
    let (multi, worker_threads): (bool, usize) = match opts.multithreaded {
        Some(n) => (true, n),
        None => (false, 1),
    };
    let mut name = "plumbr-".to_string();
    name.append(text::decimal_string(id as u64).as_str());
    if multi {
        name.append("/m");
    } else {
        name.append("/s");
    }
    RuntimePlan {
        multi,
        worker_threads,
        global_queue_interval: match opts.global_queue_interval {
            Some(v) => v,
            None => if multi {
                61
            } else {
                31
            },
        },
        event_interval: match opts.event_interval {
            Some(v) => v,
            None => 61,
        },
        max_io_events_per_tick: match opts.max_io_events_per_tick {
            Some(v) => v,
            None => 1024,
        },
        disable_lifo_slot: multi && opts.disable_lifo_slot,
        thread_name: name,
    }
}

// ---------------------------------------------------------------------------
// Adding up
// ---------------------------------------------------------------------------

/// The statistics of all.
pub open spec fn total_of(list: Seq<Statistics>) -> stats::StatisticsView
    decreases list.len(),
{
    if list.len() == 0 {
        stats::no_statistics(false)
    } else {
        stats::both(total_of(list.drop_last()), list.last()@)
    }
}

/// Adds up the statistics of tasks, or of engines.
pub fn total(list: Vec<Statistics>) -> (r: Statistics)
    requires
        forall|i: int| 0 <= i < list@.len() ==> (#[trigger] list@[i]).wf(),
    ensures
        r.wf(),
        r@ == total_of(list@),
{
    let ghost all = list@;
    let ghost mut k: int = 0;
    let mut rest = list;
    let mut sum = Statistics::new(false);
    assert(all.take(0) == Seq::<Statistics>::empty());
    assert(all.skip(0) == all);
    while rest.len() > 0
        invariant
            0 <= k <= all.len(),
            rest@ == all.skip(k),
            forall|j: int| 0 <= j < all.len() ==> (#[trigger] all[j]).wf(),
            sum.wf(),
            sum@ == total_of(all.take(k)),
        decreases rest@.len(),
    {
        let s = rest.remove(0);
        proof {
            assert(s == all[k]);
            assert(rest@ == all.skip(k + 1));
            assert(all.take(k + 1).drop_last() == all.take(k));
            k = k + 1;
        }
        sum = sum.add(s);
    }
    assert(all.take(k) == all);
    sum
}

/// How much of something there was in a second, where there was `n` of it in a
/// time in microseconds.
pub open spec fn rate_of(n: u64, micros: u64) -> u64 {
    stats::capped((n as nat * 1_000_000) / micros as nat)
}

/// How much of something there was in a second. The rate stops at the largest
/// number.
pub fn rate(n: u64, micros: u64) -> (r: u64)
    requires
        micros > 0,
    ensures
        r == rate_of(n, micros),
{
    let all: u128 = (n as u128) * 1_000_000;
    let r: u128 = all / (micros as u128);
    if r > u64::MAX as u128 {
        u64::MAX
    } else {
        r as u64
    }
}

// ---------------------------------------------------------------------------
// The report
// ---------------------------------------------------------------------------

/// What is reported at the end of a run.
#[derive(Clone, Debug)]
pub struct Report {
    pub ok: u64,
    pub status_3xx: u64,
    pub status_4xx: u64,
    pub status_5xx: u64,
    pub errors: u64,
    pub ok_rate: u64,
    /// The other status codes, in no particular order: the code, how often it came,
    /// and how often in a second.
    pub statuses: Vec<(u16, u64, u64)>,
    /// The errors: the text, and how often it came in a second.
    pub error_rates: Vec<(String, u64)>,
}

/// Whether a list holds each status code once, with its count and its rate.
pub open spec fn lists_statuses(
    list: Seq<(u16, u64, u64)>,
    status: Map<u16, u64>,
    micros: u64,
) -> bool {
    &&& forall|i: int, j: int|
        0 <= i < j < list.len() ==> (#[trigger] list[i]).0 != (#[trigger] list[j]).0
    &&& forall|i: int|
        0 <= i < list.len() ==> {
            let (code, n, per) = #[trigger] list[i];
            status.dom().contains(code) && n == status[code] && per == rate_of(n, micros)
        }
    &&& forall|code: u16| #[trigger]
        status.dom().contains(code) ==> is_listed(list, code)
}

/// Whether a list holds a status code.
pub open spec fn is_listed(list: Seq<(u16, u64, u64)>, code: u16) -> bool {
    exists|i: int| 0 <= i < list.len() && (#[trigger] list[i]).0 == code
}

/// Whether a list holds the errors, in their order, with their rates.
pub open spec fn lists_errors(
    list: Seq<(String, u64)>,
    errors: Seq<(String, u64)>,
    micros: u64,
) -> bool {
    &&& list.len() == errors.len()
    &&& forall|i: int|
        0 <= i < list.len() ==> (#[trigger] list[i]).0@ == errors[i].0@ && list[i].1 == rate_of(
            errors[i].1,
            micros,
        )
}

/// Lists the status codes with their rates.
fn list_statuses(status: &HashMap<u16, u64>, micros: u64) -> (list: Vec<(u16, u64, u64)>)
    requires
        micros > 0,
    ensures
        lists_statuses(list@, status@, micros),
{
    broadcast use vstd::std_specs::hash::group_hash_axioms;

    let mut list: Vec<(u16, u64, u64)> = Vec::new();
    for code in it: status.keys()
        invariant
            micros > 0,
            it.seq().unref().to_set() == status@.dom(),
            it.seq().no_duplicates(),
            list@.len() == it.index(),
            forall|i: int|
                0 <= i < it.index() ==> (#[trigger] list@[i]).0 == *it.seq()[i],
            forall|i: int|
                0 <= i < it.index() ==> {
                    let (code, n, per) = #[trigger] list@[i];
                    status@.dom().contains(code) && n == status@[code] && per == rate_of(n, micros)
                },
            forall|i: int, j: int|
                0 <= i < j < list@.len() ==> (#[trigger] list@[i]).0 != (#[trigger] list@[j]).0,
            forall|c: u16| #[trigger]
                status@.dom().contains(c) ==> is_listed(list@, c) || exists|i: int|
                    it.index() <= i < it.seq().len() && *#[trigger] it.seq()[i] == c,
    {
        let ghost before = list@;
        assert(it.seq().unref()[it.index() as int] == *code);
        assert(it.seq().unref().to_set().contains(*code));
        let n: u64 = match status.get(code) {
            Some(v) => *v,
            None => 0,
        };
        list.push((*code, n, rate(n, micros)));
        proof {
            assert forall|c: u16| #[trigger] status@.dom().contains(c) implies is_listed(list@, c)
                || exists|i: int|
                it.index() + 1 <= i < it.seq().len() && *#[trigger] it.seq()[i] == c by {
                if is_listed(before, c) {
                    let i = choose|i: int| 0 <= i < before.len() && (#[trigger] before[i]).0 == c;
                    assert(list@[i].0 == c);
                } else if c == *code {
                    assert(list@[before.len() as int].0 == c);
                }
            }
        }
    }
    list
}

/// Lists the errors with their rates.
fn list_errors(errors: &Vec<(String, u64)>, micros: u64) -> (list: Vec<(String, u64)>)
    requires
        micros > 0,
    ensures
        lists_errors(list@, errors@, micros),
{
    let mut list: Vec<(String, u64)> = Vec::new();
    let mut i: usize = 0;
    while i < errors.len()
        invariant
            micros > 0,
            i <= errors.len(),
            lists_errors(list@, errors@.take(i as int), micros),
        decreases errors.len() - i,
    {
        list.push((errors[i].0.clone(), rate(errors[i].1, micros)));
        i += 1;
    }
    assert(errors@.take(errors@.len() as int) == errors@);
    list
}

/// What is reported at the end of a run that took a time in microseconds.
pub fn report(total: &Statistics, micros: u64) -> (r: Report)
    requires
        total.wf(),
        micros > 0,
    ensures
        r.ok == total@.ok,
        r.status_3xx == stats::capped(stats::codes_sum(total@.status, 300, 400)),
        r.status_4xx == stats::capped(stats::codes_sum(total@.status, 400, 500)),
        r.status_5xx == stats::capped(stats::codes_sum(total@.status, 500, 600)),
        r.errors == stats::capped(stats::counts_sum(total@.err, total@.err.dom())),
        r.ok_rate == rate_of(total@.ok, micros),
        lists_statuses(r.statuses@, total@.status, micros),
        exists|errors: Seq<(String, u64)>|
            stats::distinct_texts(errors) && #[trigger] stats::text_counts(errors) == total@.err
                && lists_errors(r.error_rates@, errors, micros),
{
    let errors = total.errors_map();
    let ghost list = errors@;
    let error_rates = list_errors(errors, micros);
    assert(stats::text_counts(list) == total@.err);
    Report {
        ok: total.ok(),
        status_3xx: total.status_3xx(),
        status_4xx: total.status_4xx(),
        status_5xx: total.status_5xx(),
        errors: total.errors(),
        ok_rate: rate(total.ok(), micros),
        statuses: list_statuses(total.http_status(), micros),
        error_rates,
    }
}

/// Figures as one line, parted by commas. A figure that is not known leaves its
/// place empty.
pub open spec fn row_of(figures: Seq<Option<u64>>) -> Seq<char>
    decreases figures.len(),
{
    if figures.len() == 0 {
        Seq::empty()
    } else {
        let cell = match figures.last() {
            Some(n) => text::decimal(n as nat),
            None => Seq::empty(),
        };
        if figures.len() == 1 {
            cell
        } else {
            row_of(figures.drop_last()) + ","@ + cell
        }
    }
}

/// Figures as one line.
fn write_row(figures: &Vec<Option<u64>>) -> (s: String)
    ensures
        s@ == row_of(figures@),
{
    let mut s = String::new();
    let mut i: usize = 0;
    assert(figures@.take(0).len() == 0);
    while i < figures.len()
        invariant
            i <= figures.len(),
            s@ == row_of(figures@.take(i as int)),
        decreases figures.len() - i,
    {
        let ghost next = figures@.take(i + 1);
        assert(next.drop_last() == figures@.take(i as int));
        if i > 0 {
            s.append(",");
        }
        match figures[i] {
            Some(n) => {
                s.append(text::decimal_string(n).as_str());
            },
            None => {},
        }
        assert(s@ == row_of(next));
        i += 1;
    }
    assert(figures@.take(figures@.len() as int) == figures@);
    s
}

/// The names of the figures in a row.
pub open spec fn csv_names() -> Seq<char> {
    "ok,3xx,4xx,5xx,errors,connections,ok_per_sec,lat_min,lat_p50,lat_p95,lat_p99,lat_max"@
}

/// The figures in a row: what was counted, and the latencies in microseconds where
/// they were recorded.
pub open spec fn csv_figures(r: Report, conn: u64, latency: Option<LatencySummary>) -> Seq<
    Option<u64>,
> {
    let counts = seq![
        Some(r.ok),
        Some(r.status_3xx),
        Some(r.status_4xx),
        Some(r.status_5xx),
        Some(r.errors),
        Some(conn),
        Some(r.ok_rate),
    ];
    match latency {
        Some(l) => counts + seq![Some(l.min), Some(l.p50), Some(l.p95), Some(l.p99), Some(l.max)],
        None => counts + seq![None, None, None, None, None],
    }
}

/// The names of the figures in a row.
pub fn csv_header() -> (s: &'static str)
    ensures
        s@ == csv_names(),
{
    "ok,3xx,4xx,5xx,errors,connections,ok_per_sec,lat_min,lat_p50,lat_p95,lat_p99,lat_max"
}

/// What is reported at the end of a run, as one line. `conn` is the number of
/// connections.
pub fn csv_row(r: &Report, conn: u64, latency: Option<LatencySummary>) -> (s: String)
    ensures
        s@ == row_of(csv_figures(*r, conn, latency)),
{
    let mut figures: Vec<Option<u64>> = Vec::new();
    figures.push(Some(r.ok));
    figures.push(Some(r.status_3xx));
    figures.push(Some(r.status_4xx));
    figures.push(Some(r.status_5xx));
    figures.push(Some(r.errors));
    figures.push(Some(conn));
    figures.push(Some(r.ok_rate));
    match latency {
        Some(l) => {
            figures.push(Some(l.min));
            figures.push(Some(l.p50));
            figures.push(Some(l.p95));
            figures.push(Some(l.p99));
            figures.push(Some(l.max));
        },
        None => {
            figures.push(None);
            figures.push(None);
            figures.push(None);
            figures.push(None);
            figures.push(None);
        },
    }
    assert(figures@ == csv_figures(*r, conn, latency));
    write_row(&figures)
}

/// The number of bytes of a character.
pub open spec fn char_bytes(c: char) -> int {
    let n = c as u32;
    if n <= 0x7f {
        1
    } else if n <= 0x7ff {
        2
    } else if n <= 0xffff {
        3
    } else {
        4
    }
}

/// The number of bytes of a text.
pub open spec fn text_bytes(s: Seq<char>) -> int
    decreases s.len(),
{
    if s.len() == 0 {
        0
    } else {
        text_bytes(s.drop_last()) + char_bytes(s.last())
    }
}

/// The room for the text of an error, in bytes.
pub const ERROR_ROOM: usize = 42;

/// The number of characters of a text that have room together.
pub open spec fn room_for(s: Seq<char>) -> int
    decreases s.len(),
{
    if text_bytes(s) <= ERROR_ROOM {
        s.len() as int
    } else {
        room_for(s.drop_last())
    }
}

/// A text, and as many spaces as it takes to make it as long as the room.
pub open spec fn padded(s: Seq<char>) -> Seq<char> {
    if s.len() >= ERROR_ROOM {
        s
    } else {
        s + Seq::new((ERROR_ROOM - s.len()) as nat, |i: int| ' ')
    }
}

/// The text of an error as it is reported: what has no room is cut off.
pub open spec fn error_text(s: Seq<char>) -> Seq<char> {
    if text_bytes(s) > ERROR_ROOM {
        s.take(room_for(s)) + "..."@
    } else {
        padded(s)
    }
}

/// What has room has no more bytes than there are, and what has more bytes has
/// none.
proof fn lemma_room(s: Seq<char>, k: int)
    requires
        0 <= k <= s.len(),
        text_bytes(s.take(k)) <= ERROR_ROOM,
        k < s.len() ==> text_bytes(s.take(k + 1)) > ERROR_ROOM,
    ensures
        room_for(s) == k,
        k < s.len() <==> text_bytes(s) > ERROR_ROOM,
    decreases s.len(),
{
    if k == s.len() {
        assert(s.take(k) == s);
    } else {
        lemma_grows(s, k + 1);
        let front = s.drop_last();
        assert(front.take(k) == s.take(k));
        if k < front.len() {
            assert(front.take(k + 1) == s.take(k + 1));
        }
        lemma_room(front, k);
    }
}

/// The beginning of a text has no more bytes than the whole.
proof fn lemma_grows(s: Seq<char>, k: int)
    requires
        0 <= k <= s.len(),
    ensures
        text_bytes(s.take(k)) <= text_bytes(s),
    decreases s.len(),
{
    if k == s.len() {
        assert(s.take(k) == s);
    } else {
        assert(s.drop_last().take(k) == s.take(k));
        lemma_grows(s.drop_last(), k);
    }
}

/// The text of an error as it is reported.
pub fn error_cell(shown: &str) -> (s: String)
    ensures
        s@ == error_text(shown@),
{
    let v = text::chars_of(shown);
    let mut s = String::new();
    let mut used: usize = 0;
    let mut i: usize = 0;
    assert(v@.take(0) == Seq::<char>::empty());
    while i < v.len()
        invariant
            i <= v.len(),
            v@ == shown@,
            used == text_bytes(v@.take(i as int)),
            used <= ERROR_ROOM,
            i <= used,
            s@ == v@.take(i as int),
        decreases v.len() - i,
    {
        let c: char = v[i];
        let code: u32 = c as u32;
        let n: usize = if code <= 0x7f {
            1
        } else if code <= 0x7ff {
            2
        } else if code <= 0xffff {
            3
        } else {
            4
        };
        assert(v@.take(i + 1).drop_last() == v@.take(i as int));
        assert(v@.take(i + 1).last() == c);
        if used + n > ERROR_ROOM {
            proof {
                lemma_room(v@, i as int);
            }
            s.append("...");
            return s;
        }
        used += n;
        s.push(c);
        i += 1;
    }
    proof {
        lemma_room(v@, v@.len() as int);
        assert(v@.take(v@.len() as int) == v@);
    }
    let mut k: usize = v.len();
    assert(s@ == v@ + Seq::new((k - v@.len()) as nat, |i: int| ' '));
    while k < ERROR_ROOM
        invariant
            v@.len() <= k,
            v@.len() <= ERROR_ROOM ==> k <= ERROR_ROOM,
            s@ == v@ + Seq::new((k - v@.len()) as nat, |i: int| ' '),
        decreases ERROR_ROOM - k,
    {
        s.push(' ');
        k += 1;
        assert(s@ == v@ + Seq::new((k - v@.len()) as nat, |i: int| ' '));
    }
    assert(s@ == padded(v@));
    s
}

// ---------------------------------------------------------------------------
// The meter
// ---------------------------------------------------------------------------

/// The number of pictures of the spinner.
pub const SPINNER_LEN: usize = 10;

/// A picture of the spinner.
pub open spec fn spinner(i: usize) -> Seq<char> {
    match i {
        0 => "⠋"@,
        1 => "⠙"@,
        2 => "⠹"@,
        3 => "⠸"@,
        4 => "⠼"@,
        5 => "⠴"@,
        6 => "⠦"@,
        7 => "⠧"@,
        8 => "⠇"@,
        _ => "⠏"@,
    }
}

/// The line that is shown while a run goes on.
pub open spec fn meter_text(i: usize, ok: u64, fail: u64, err: u64) -> Seq<char> {
    "\r"@ + spinner(i) + " Stats: ok: "@ + text::decimal(ok as nat) + "/sec, fail: "@
        + text::decimal(fail as nat) + "/sec, err: "@ + text::decimal(err as nat) + "/sec"@
}

/// Shows how a run goes on.
#[derive(Clone, Copy, Debug, PartialEq, Eq, Structural)]
pub struct Meter {
    /// The next picture of the spinner.
    pub place: usize,
}

impl Meter {
    /// A meter that was not shown yet.
    pub fn new() -> (m: Meter)
        ensures
            m.place == 0,
    {
        Meter { place: 0 }
    }

    /// The line to show, and the next picture of the spinner.
    pub fn line(&mut self, ok: u64, fail: u64, err: u64) -> (s: String)
        requires
            old(self).place < SPINNER_LEN,
        ensures
            s@ == meter_text(old(self).place, ok, fail, err),
            final(self).place == (old(self).place + 1) % SPINNER_LEN as int,
    {
        let picture = match self.place {
            0 => "⠋",
            1 => "⠙",
            2 => "⠹",
            3 => "⠸",
            4 => "⠼",
            5 => "⠴",
            6 => "⠦",
            7 => "⠧",
            8 => "⠇",
            _ => "⠏",
        };
        self.place = (self.place + 1) % SPINNER_LEN;
        let mut s = "\r".to_string();
        s.append(picture);
        s.append(" Stats: ok: ");
        s.append(text::decimal_string(ok).as_str());
        s.append("/sec, fail: ");
        s.append(text::decimal_string(fail).as_str());
        s.append("/sec, err: ");
        s.append(text::decimal_string(err).as_str());
        s.append("/sec");
        s
    }
}

/// The sum of the figures of the engines at one place of a reading, which stops at
/// the largest number.
pub open spec fn readings_sum(readings: Seq<(u64, u64, u64)>, place: int) -> nat
    decreases readings.len(),
{
    if readings.len() == 0 {
        0
    } else {
        let last = readings.last();
        readings_sum(readings.drop_last(), place) + (if place == 0 {
            last.0 as nat
        } else if place == 1 {
            last.1 as nat
        } else {
            last.2 as nat
        })
    }
}

/// Adds up what was read of the counters of the engines: successes, other
/// responses and errors.
pub fn tally(readings: &Vec<(u64, u64, u64)>) -> (r: (u64, u64, u64))
    ensures
        r.0 == stats::capped(readings_sum(readings@, 0)),
        r.1 == stats::capped(readings_sum(readings@, 1)),
        r.2 == stats::capped(readings_sum(readings@, 2)),
{
    let mut ok: u64 = 0;
    let mut fail: u64 = 0;
    let mut err: u64 = 0;
    let mut i: usize = 0;
    while i < readings.len()
        invariant
            i <= readings.len(),
            ok == stats::capped(readings_sum(readings@.take(i as int), 0)),
            fail == stats::capped(readings_sum(readings@.take(i as int), 1)),
            err == stats::capped(readings_sum(readings@.take(i as int), 2)),
        decreases readings.len() - i,
    {
        let (a, b, c) = readings[i];
        assert(readings@.take(i + 1).drop_last() == readings@.take(i as int));
        ok = ok.saturating_add(a);
        fail = fail.saturating_add(b);
        err = err.saturating_add(c);
        i += 1;
    }
    assert(readings@.take(readings@.len() as int) == readings@);
    (ok, fail, err)
}

/// Whether `readings` is what can be read of the counters of the engines, one
/// reading of each, in their order.
pub open spec fn all_read_out(engines: Seq<RealtimeStats>, readings: Seq<(u64, u64, u64)>) -> bool {
    &&& readings.len() == engines.len()
    &&& forall|i: int|
        0 <= i < engines.len() ==> stats::read_out(engines[i], #[trigger] readings[i])
}

/// Whether `r` is the sum of what was read of the counters of the engines.
pub open spec fn sums_up(readings: Seq<(u64, u64, u64)>, r: (u64, u64, u64)) -> bool {
    &&& r.0 == stats::capped(readings_sum(readings, 0))
    &&& r.1 == stats::capped(readings_sum(readings, 1))
    &&& r.2 == stats::capped(readings_sum(readings, 2))
}

/// Reads the counters of all engines, sets them back to 0 and adds up what was
/// read. Which numbers were read is not known here: the tasks add to the counters
/// meanwhile.
pub fn gather(engines: &Vec<RealtimeStats>) -> (r: (u64, u64, u64))
    ensures
        exists|readings: Seq<(u64, u64, u64)>|
            all_read_out(engines@, readings) && #[trigger] sums_up(readings, r),
{
    let mut readings: Vec<(u64, u64, u64)> = Vec::new();
    let mut i: usize = 0;
    while i < engines.len()
        invariant
            i <= engines.len(),
            readings.len() == i,
            forall|j: int| 0 <= j < i ==> stats::read_out(engines@[j], #[trigger] readings@[j]),
        decreases engines.len() - i,
    {
        readings.push(engines[i].take());
        i += 1;
    }
    let r = tally(&readings);
    assert(all_read_out(engines@, readings@) && sums_up(readings@, r));
    r
}

// ---------------------------------------------------------------------------
// What holds of the figures of a run
// ---------------------------------------------------------------------------

/// The successes and the connections of a run are those of all its parts together,
/// and stop at the largest number.
pub proof fn law_total_is_the_sum(list: Seq<Statistics>)
    ensures
        ({
            let ok = list.fold_left(0nat, |sum: nat, s: Statistics| sum + s@.ok as nat);
            let conn = list.fold_left(0nat, |sum: nat, s: Statistics| sum + s@.conn as nat);
            &&& total_of(list).ok == (if ok <= u64::MAX {
                ok
            } else {
                u64::MAX as nat
            })
            &&& total_of(list).conn == (if conn <= u64::MAX {
                conn
            } else {
                u64::MAX as nat
            })
        }),
    decreases list.len(),
{
    if list.len() > 0 {
        law_total_is_the_sum(list.drop_last());
    }
}

/// What the parts of a run have counted by status code and by text is found in the
/// whole: a part more adds its count of a code and of a text to what was there.
pub proof fn law_total_grows_with_each_part(
    list: Seq<Statistics>,
    s: Statistics,
    code: u16,
    t: Seq<char>,
)
    ensures
        ({
            let before = total_of(list);
            let after = total_of(list.push(s));
            let code_sum = (if before.status.dom().contains(code) {
                before.status[code] as nat
            } else {
                0
            }) + (if s@.status.dom().contains(code) {
                s@.status[code] as nat
            } else {
                0
            });
            let text_sum = (if before.err.dom().contains(t) {
                before.err[t] as nat
            } else {
                0
            }) + (if s@.err.dom().contains(t) {
                s@.err[t] as nat
            } else {
                0
            });
            &&& after.status.dom().contains(code) <==> before.status.dom().contains(code)
                || s@.status.dom().contains(code)
            &&& after.status.dom().contains(code) && code_sum <= u64::MAX ==> after.status[code]
                == code_sum
            &&& after.err.dom().contains(t) <==> before.err.dom().contains(t)
                || s@.err.dom().contains(t)
            &&& after.err.dom().contains(t) && text_sum <= u64::MAX ==> after.err[t] == text_sum
            &&& after.idle == before.idle + s@.idle
            &&& after.latency is Some <==> before.latency is Some || s@.latency is Some
        }),
        total_of(Seq::<Statistics>::empty()).status == Map::<u16, u64>::empty(),
        total_of(Seq::<Statistics>::empty()).err == Map::<Seq<char>, u64>::empty(),
{
    assert(list.push(s).drop_last() == list);
}

/// A rate is what there was in a second: in the time that was measured it makes no
/// more than there was, and one more in a second would make more.
pub proof fn law_rate_is_per_second(n: u64, micros: u64)
    requires
        micros > 0,
        n as nat * 1_000_000 < micros as nat * 0x1_0000_0000_0000_0000,
    ensures
        rate_of(n, micros) * micros <= n * 1_000_000,
        n * 1_000_000 < (rate_of(n, micros) + 1) * micros,
        micros == 1_000_000 ==> rate_of(n, micros) == n,
{
    let all = (n as nat * 1_000_000) as int;
    let m = micros as int;
    let q = all / m;
    vstd::arithmetic::div_mod::lemma_fundamental_div_mod(all, m);
    vstd::arithmetic::div_mod::lemma_mod_bound(all, m);
    assert(q * m <= all < (q + 1) * m) by (nonlinear_arith)
        requires
            all == m * (all / m) + all % m,
            0 <= all % m < m,
            q == all / m,
    ;
    assert(q < 0x1_0000_0000_0000_0000) by (nonlinear_arith)
        requires
            q * m <= all,
            all < m * 0x1_0000_0000_0000_0000,
            m > 0,
    ;
    if m == 1_000_000 {
        vstd::arithmetic::div_mod::lemma_div_multiples_vanish(n as int, 1_000_000);
        assert(all == 1_000_000 * n);
    }
}

/// Engines share the threads and the connections out evenly: what is left over of
/// the connections is less than the number of engines, and each engine starts where
/// the one before it ends.
pub proof fn law_shares_are_even(id: int, connections: int, engines: int)
    requires
        0 <= id,
        0 <= connections,
        0 < engines,
    ensures
        ({
            let (n, base) = share_of(id, connections, engines);
            &&& n * engines <= connections < (n + 1) * engines
            &&& share_of(0, connections, engines).1 == 0
            &&& share_of(id + 1, connections, engines) == (n, base + n)
        }),
{
    let n = connections / engines;
    assert(n * engines <= connections < (n + 1) * engines && 0 * n == 0 && (id + 1) * n == id * n
        + n) by (nonlinear_arith)
        requires
            n == connections / engines,
            engines > 0,
            connections >= 0,
    ;
}

/// The engines have all the threads: as many engines as there are groups of
/// threads, and one for each thread where no group is asked for.
pub proof fn law_engines_have_the_threads(opts: Options)
    ensures
        opts.multithreaded is None ==> engine_count(opts) == opts.threads,
        opts.multithreaded matches Some(n) ==> n > 0 ==> engine_count(opts) * n <= opts.threads
            < (engine_count(opts) + 1) * n,
        opts.multithreaded matches Some(n) ==> n > 0 && opts.threads % n == 0 ==> engine_count(opts)
            * n == opts.threads,
{
    match opts.multithreaded {
        Some(n) => {
            if n > 0 {
                let t = opts.threads as int;
                let m = n as int;
                let q = t / m;
                vstd::arithmetic::div_mod::lemma_fundamental_div_mod(t, m);
                vstd::arithmetic::div_mod::lemma_mod_bound(t, m);
                assert(q * m <= t < (q + 1) * m && (t % m == 0 ==> q * m == t)) by (nonlinear_arith)
                    requires
                        t == m * (t / m) + t % m,
                        0 <= t % m < m,
                        q == t / m,
                ;
            }
        },
        None => {
            assert(opts.threads as int / 1 == opts.threads as int);
        },
    }
}

/// The figures of a row stand in the order in which they are named: what was
/// counted, and then the latencies, which are left out where there are none.
pub proof fn law_row_has_a_figure_for_each_name(
    r: Report,
    conn: u64,
    latency: Option<LatencySummary>,
)
    ensures
        ({
            let f = csv_figures(r, conn, latency);
            &&& f.len() == 12
            &&& f[0] == Some(r.ok) && f[1] == Some(r.status_3xx) && f[2] == Some(r.status_4xx)
            &&& f[3] == Some(r.status_5xx) && f[4] == Some(r.errors) && f[5] == Some(conn)
            &&& f[6] == Some(r.ok_rate)
            &&& latency matches Some(l) ==> f[7] == Some(l.min) && f[8] == Some(l.p50) && f[9]
                == Some(l.p95) && f[10] == Some(l.p99) && f[11] == Some(l.max)
            &&& latency is None ==> forall|i: int| 7 <= i < 12 ==> (#[trigger] f[i]) is None
        }),
        csv_names()
            == "ok,3xx,4xx,5xx,errors,connections,ok_per_sec,lat_min,lat_p50,lat_p95,lat_p99,lat_max"@,
{
}

/// A row is made of its figures, in decimal and parted by commas: one figure is
/// written as itself, one that is not known as nothing, and rows are joined by a
/// comma.
pub proof fn law_rows_join(a: Seq<Option<u64>>, b: Seq<Option<u64>>, n: u64)
    requires
        a.len() > 0,
        b.len() > 0,
    ensures
        row_of(seq![Some(n)]) == text::decimal(n as nat),
        row_of(seq![None::<u64>]) == Seq::<char>::empty(),
        row_of(a + b) == row_of(a) + seq![','] + row_of(b),
    decreases b.len(),
{
    reveal_strlit(",");
    assert(","@ == seq![',']);
    let all = a + b;
    assert(all.drop_last() == a + b.drop_last());
    if b.len() == 1 {
        assert(a + b.drop_last() == a);
        assert(row_of(all) == row_of(a) + seq![','] + row_of(b));
    } else {
        law_rows_join(a, b.drop_last(), n);
        assert(row_of(all) == row_of(a) + seq![','] + row_of(b));
    }
}

/// What is shown of an error fits: a text of at most 42 bytes is shown whole, with
/// spaces behind it up to 42 characters, and of a longer one as many characters as
/// have at most 42 bytes, and three dots.
pub proof fn law_error_is_shown(s: Seq<char>)
    ensures
        text_bytes(s) <= 42 ==> error_text(s).len() >= 42 && error_text(s).take(s.len() as int) == s
            && forall|i: int| s.len() <= i < error_text(s).len() ==> #[trigger] error_text(s)[i]
            == ' ',
        text_bytes(s) > 42 ==> exists|k: int|
            #![trigger s.take(k)]
            0 <= k < s.len() && error_text(s) == s.take(k) + seq!['.', '.', '.'] && text_bytes(
                s.take(k),
            ) <= 42 < text_bytes(s.take(k + 1)),
{
    reveal_strlit("...");
    assert("..."@ == seq!['.', '.', '.']);
    lemma_bytes_bound(s);
    if text_bytes(s) > 42 {
        lemma_room_is(s);
        let k = room_for(s);
        assert(error_text(s) == s.take(k) + seq!['.', '.', '.']);
    } else {
        assert(error_text(s).take(s.len() as int) == s);
    }
}

proof fn lemma_bytes_bound(s: Seq<char>)
    ensures
        s.len() <= text_bytes(s) <= 4 * s.len(),
    decreases s.len(),
{
    if s.len() > 0 {
        lemma_bytes_bound(s.drop_last());
    }
}

proof fn lemma_room_is(s: Seq<char>)
    ensures
        0 <= room_for(s) <= s.len(),
        text_bytes(s.take(room_for(s))) <= ERROR_ROOM,
        room_for(s) < s.len() ==> text_bytes(s.take(room_for(s) + 1)) > ERROR_ROOM,
        room_for(s) == s.len() ==> text_bytes(s) <= ERROR_ROOM,
    decreases s.len(),
{
    assert(s.take(s.len() as int) == s);
    if text_bytes(s) > ERROR_ROOM {
        let front = s.drop_last();
        lemma_room_is(front);
        let k = room_for(front);
        assert(front.take(k) == s.take(k));
        if k < front.len() {
            assert(front.take(k + 1) == s.take(k + 1));
        } else {
            assert(s.take(k + 1) == s);
        }
    }
}

/// The number of bytes of a text is that of its encoding in UTF-8.
pub proof fn law_bytes_are_those_of_utf8(s: Seq<char>)
    ensures
        text_bytes(s) == vstd::utf8::encode_utf8(s).len(),
    decreases s.len(),
{
    if s.len() > 0 {
        let front = s.drop_last();
        let last = seq![s.last()];
        law_bytes_are_those_of_utf8(front);
        lemma_encoding_joins(front, last);
        assert(s == front + last);
        assert(last.drop_first() == Seq::<char>::empty());
        assert(last[0] == s.last());
        assert(vstd::utf8::encode_utf8(last.drop_first()).len() == 0);
        assert(vstd::utf8::encode_utf8(last) == vstd::utf8::encode_scalar(last[0] as u32)
            + vstd::utf8::encode_utf8(last.drop_first()));
        let c: char = s.last();
        let n = c as u32;
        vstd::utf8::char_is_scalar(c);
        assert(char_bytes(c) == if n <= 0x7f {
            1int
        } else if n <= 0x7ff {
            2
        } else if n <= 0xffff {
            3
        } else {
            4
        });
        if vstd::utf8::has_width_1_encoding(n) {
            assert(vstd::utf8::encode_scalar(n).len() == 1);
        } else if vstd::utf8::has_width_2_encoding(n) {
            assert(vstd::utf8::encode_scalar(n).len() == 2);
        } else if vstd::utf8::has_width_3_encoding(n) {
            assert(vstd::utf8::encode_scalar(n).len() == 3);
        } else {
            assert(vstd::utf8::encode_scalar(n).len() == 4);
        }
    }
}

proof fn lemma_encoding_joins(a: Seq<char>, b: Seq<char>)
    ensures
        vstd::utf8::encode_utf8(a + b) == vstd::utf8::encode_utf8(a) + vstd::utf8::encode_utf8(b),
    decreases a.len(),
{
    if a.len() == 0 {
        assert(a + b == b);
        assert(vstd::utf8::encode_utf8(a) == Seq::<u8>::empty());
        assert(vstd::utf8::encode_utf8(a) + vstd::utf8::encode_utf8(b)
            == vstd::utf8::encode_utf8(b));
    } else {
        lemma_encoding_joins(a.drop_first(), b);
        assert((a + b).drop_first() == a.drop_first() + b);
        assert((a + b)[0] == a[0]);
        assert(vstd::utf8::encode_utf8(a + b) == vstd::utf8::encode_utf8(a)
            + vstd::utf8::encode_utf8(b));
    }
}

/// What is read of the counters of several engines adds up figure by figure, and
/// stops at the largest number.
pub proof fn law_readings_add_up(readings: Seq<(u64, u64, u64)>)
    ensures
        readings_sum(readings, 0) == readings.fold_left(
            0nat,
            |sum: nat, r: (u64, u64, u64)| sum + r.0 as nat,
        ),
        readings_sum(readings, 1) == readings.fold_left(
            0nat,
            |sum: nat, r: (u64, u64, u64)| sum + r.1 as nat,
        ),
        readings_sum(readings, 2) == readings.fold_left(
            0nat,
            |sum: nat, r: (u64, u64, u64)| sum + r.2 as nat,
        ),
    decreases readings.len(),
{
    if readings.len() > 0 {
        law_readings_add_up(readings.drop_last());
    }
}

/// What is read of the counters is one reading of each engine, from the first to the last.
pub proof fn law_each_engine_is_read(
    engines: Seq<RealtimeStats>,
    readings: Seq<(u64, u64, u64)>,
    i: int,
)
    requires
        all_read_out(engines, readings),
        0 <= i < engines.len(),
    ensures
        readings.len() == engines.len(),
        stats::read_out(engines[i], readings[i]),
{
}

} // verus!
