//! What a run counts: responses by status code, errors by text, connections,
//! idle time and latencies.
use crate::text;
use std::collections::HashMap;
use std::sync::atomic::AtomicU64;
use vstd::multiset::Multiset;
use vstd::prelude::*;

verus! {

// ---------------------------------------------------------------------------
// Latencies
// ---------------------------------------------------------------------------

/// The width of the histogram slot that holds `v`: three significant digits.
pub open spec fn resolution(v: nat) -> nat
    decreases v,
{
    if v < 2048 {
        1
    } else {
        2 * resolution(v / 2)
    }
}

/// The least value of the histogram slot that holds `v`.
pub open spec fn slot(v: nat) -> nat {
    v / resolution(v) * resolution(v)
}

/// The number of microseconds from which on a latency is not recorded.
pub const LATENCY_LIMIT: u64 = 16_777_216;

/// The least latency that a histogram tells from others, in microseconds.
pub const LATENCY_LOW: u64 = 1;

/// The greatest latency that a histogram is made for, in microseconds.
pub const LATENCY_HIGH: u64 = 10_000_000;

/// How many significant digits a histogram keeps.
pub const LATENCY_DIGITS: u8 = 3;

/// A histogram of latencies in microseconds, from `LATENCY_LOW` to `LATENCY_HIGH`,
/// with `LATENCY_DIGITS` significant digits: a `hdrhistogram::Histogram<u64>`.
#[verifier::external_body]
#[derive(Debug)]
pub struct LatencyHistogram {
    inner: hdrhistogram::Histogram<u64>,
}

/// What a histogram holds: for each latency that was recorded, the least value
/// of its slot.
pub uninterp spec fn latency_slots(h: LatencyHistogram) -> Multiset<u64>;

/// `Histogram::new_with_bounds`: nothing is recorded yet. What is said of the other
/// operations holds of histograms with these bounds and this precision.
#[verifier::external_body]
fn new_histogram(low: u64, high: u64, digits: u8) -> (h: LatencyHistogram)
    requires
        low == LATENCY_LOW,
        high == LATENCY_HIGH,
        digits == LATENCY_DIGITS,
    ensures
        latency_slots(h) == Multiset::<u64>::empty(),
{
    let inner = hdrhistogram::Histogram::new_with_bounds(low, high, digits).expect("valid bounds");
    LatencyHistogram { inner }
}

/// `Histogram::len`: how many latencies are recorded.
#[verifier::external_body]
fn recorded(h: &LatencyHistogram) -> (n: u64)
    ensures
        n == latency_slots(*h).len(),
{
    h.inner.len()
}

/// `Histogram::record`: one more latency, unless it is beyond the range. Counts
/// stop at the largest `u64`, so a histogram that holds as many latencies as that
/// is left out.
#[verifier::external_body]
fn record_value(h: &mut LatencyHistogram, v: u64)
    requires
        latency_slots(*old(h)).len() < u64::MAX,
    ensures
        latency_slots(*final(h)) == (if v < LATENCY_LIMIT {
            latency_slots(*old(h)).insert(slot(v as nat) as u64)
        } else {
            latency_slots(*old(h))
        }),
{
    h.inner.record(v).ok();
}

/// `Histogram::add`: the latencies of both. Counts stop at the largest `u64`, so
/// histograms that together hold more latencies than that are left out.
#[verifier::external_body]
fn merge_into(h: &mut LatencyHistogram, other: &LatencyHistogram)
    requires
        latency_slots(*old(h)).len() + latency_slots(*other).len() <= u64::MAX,
    ensures
        latency_slots(*final(h)) == latency_slots(*old(h)).add(latency_slots(*other)),
{
    h.inner.add(&other.inner).ok();
}

/// Whether `r` is the least slot that holds a latency, or 0 where there is none.
pub open spec fn is_least(slots: Multiset<u64>, r: u64) -> bool {
    &&& slots.len() == 0 ==> r == 0
    &&& slots.len() > 0 ==> slots.contains(r)
    &&& forall|v: u64| #[trigger] slots.contains(v) ==> r <= v
}

/// Whether `r` is the last value of the greatest slot that holds a latency, or 0
/// where there is none.
pub open spec fn is_greatest(slots: Multiset<u64>, r: u64) -> bool {
    &&& slots.len() == 0 ==> r == 0
    &&& slots.len() > 0 ==> exists|v: u64| #[trigger]
        slots.contains(v) && r == v + resolution(v as nat) - 1
    &&& forall|v: u64| #[trigger] slots.contains(v) ==> v <= r
}

/// `Histogram::min`: the least slot that holds a latency, or 0.
#[verifier::external_body]
fn least_value(h: &LatencyHistogram) -> (r: u64)
    ensures
        is_least(latency_slots(*h), r),
{
    h.inner.min()
}

/// `Histogram::max`: the last value of the greatest slot that holds a latency, or
/// 0.
#[verifier::external_body]
fn greatest_value(h: &LatencyHistogram) -> (r: u64)
    ensures
        is_greatest(latency_slots(*h), r),
{
    h.inner.max()
}

/// The latency that a percentage of the recorded latencies does not exceed, as
/// `hdrhistogram` computes it.
pub uninterp spec fn latency_at(slots: Multiset<u64>, percent: nat) -> u64;

/// `Histogram::value_at_percentile`. The result depends on what is recorded and
/// the percentage alone.
#[verifier::external_body]
fn value_at(h: &LatencyHistogram, percent: u32) -> (r: u64)
    ensures
        r == latency_at(latency_slots(*h), percent as nat),
{
    h.inner.value_at_percentile(percent.into())
}

/// The bits of the mean latency, as `hdrhistogram` computes it.
pub uninterp spec fn latency_mean(slots: Multiset<u64>) -> u64;

/// `Histogram::mean`, as the bits of the number. The result depends on what is
/// recorded alone.
#[verifier::external_body]
fn mean_bits(h: &LatencyHistogram) -> (r: u64)
    ensures
        r == latency_mean(latency_slots(*h)),
{
    h.inner.mean().to_bits()
}

impl Clone for LatencyHistogram {
    /// `Histogram::clone`: a histogram with the same contents.
    #[verifier::external_body]
    fn clone(&self) -> (r: LatencyHistogram)
        ensures
            latency_slots(r) == latency_slots(*self),
    {
        LatencyHistogram { inner: self.inner.clone() }
    }
}

/// The figures that are reported of the latencies, in microseconds.
#[derive(Clone, Copy, Debug, PartialEq, Eq, Structural)]
pub struct LatencySummary {
    pub min: u64,
    /// The mean, as the bits of a 64-bit floating-point number.
    pub mean: u64,
    pub max: u64,
    pub p50: u64,
    pub p95: u64,
    pub p99: u64,
}

impl LatencyHistogram {
    /// The figures that are reported of the latencies.
    pub fn summary(&self) -> (r: LatencySummary)
        ensures
            r.p50 == latency_at(latency_slots(*self), 50),
            r.p95 == latency_at(latency_slots(*self), 95),
            r.p99 == latency_at(latency_slots(*self), 99),
            r.mean == latency_mean(latency_slots(*self)),
            is_least(latency_slots(*self), r.min),
            is_greatest(latency_slots(*self), r.max),
    {
        LatencySummary {
            min: least_value(self),
            mean: mean_bits(self),
            max: greatest_value(self),
            p50: value_at(self, 50),
            p95: value_at(self, 95),
            p99: value_at(self, 99),
        }
    }
}

// ---------------------------------------------------------------------------
// Counts by key
// ---------------------------------------------------------------------------

/// A count, which stops at the largest `u64`.
pub open spec fn capped(n: nat) -> u64 {
    if n > u64::MAX {
        u64::MAX
    } else {
        n as u64
    }
}

/// The count of a key, 0 where it has none.
pub open spec fn count_of<K>(counts: Map<K, u64>, key: K) -> nat {
    if counts.dom().contains(key) {
        counts[key] as nat
    } else {
        0
    }
}

/// The counts with `n` more for a key.
pub open spec fn counted<K>(counts: Map<K, u64>, key: K, n: nat) -> Map<K, u64> {
    counts.insert(key, capped(count_of(counts, key) + n))
}

/// The counts of both, key by key.
pub open spec fn summed<K>(a: Map<K, u64>, b: Map<K, u64>) -> Map<K, u64> {
    Map::new(
        |key: K| a.dom().contains(key) || b.dom().contains(key),
        |key: K| capped(count_of(a, key) + count_of(b, key)),
    )
}

/// The counts that a list of texts holds.
pub open spec fn text_counts(list: Seq<(String, u64)>) -> Map<Seq<char>, u64>
    decreases list.len(),
{
    if list.len() == 0 {
        Map::empty()
    } else {
        text_counts(list.drop_last()).insert(list.last().0@, list.last().1)
    }
}

/// Whether no text stands in a list twice.
pub open spec fn distinct_texts(list: Seq<(String, u64)>) -> bool {
    forall|i: int, j: int| 0 <= i < j < list.len() ==> list[i].0@ != list[j].0@
}

proof fn lemma_text_counts(list: Seq<(String, u64)>)
    requires
        distinct_texts(list),
    ensures
        forall|i: int|
            0 <= i < list.len() ==> text_counts(list).dom().contains(#[trigger] list[i].0@)
                && text_counts(list)[list[i].0@] == list[i].1,
        forall|key: Seq<char>| #[trigger]
            text_counts(list).dom().contains(key) ==> exists|i: int|
                0 <= i < list.len() && #[trigger] list[i].0@ == key,
    decreases list.len(),
{
    if list.len() > 0 {
        let front = list.drop_last();
        lemma_text_counts(front);
        assert forall|i: int| 0 <= i < list.len() implies text_counts(list).dom().contains(
            #[trigger] list[i].0@,
        ) && text_counts(list)[list[i].0@] == list[i].1 by {
            if i < front.len() {
                assert(front[i].0@ == list[i].0@);
            }
        }
        assert forall|key: Seq<char>| #[trigger]
            text_counts(list).dom().contains(key) implies exists|i: int|
            0 <= i < list.len() && #[trigger] list[i].0@ == key by {
            if key == list.last().0@ {
                assert(list[list.len() - 1].0@ == key);
            } else {
                assert(text_counts(front).dom().contains(key));
                let i = choose|i: int| 0 <= i < front.len() && #[trigger] front[i].0@ == key;
                assert(list[i].0@ == key);
            }
        }
    }
}

/// One entry of a list changed changes the count of its text.
proof fn lemma_text_counts_update(list: Seq<(String, u64)>, i: int, entry: (String, u64))
    requires
        distinct_texts(list),
        0 <= i < list.len(),
        entry.0@ == list[i].0@,
    ensures
        distinct_texts(list.update(i, entry)),
        text_counts(list.update(i, entry)) == text_counts(list).insert(entry.0@, entry.1),
    decreases list.len(),
{
    let after = list.update(i, entry);
    assert forall|a: int, b: int| 0 <= a < b < after.len() implies after[a].0@ != after[b].0@ by {
        assert(after[a].0@ == list[a].0@);
        assert(after[b].0@ == list[b].0@);
    }
    let front = list.drop_last();
    if i == list.len() - 1 {
        assert(after.drop_last() == front);
        assert(text_counts(after) == text_counts(list).insert(entry.0@, entry.1));
    } else {
        lemma_text_counts_update(front, i, entry);
        assert(after.drop_last() == front.update(i, entry));
        assert(list[i].0@ != list.last().0@);
        assert(text_counts(after) == text_counts(list).insert(entry.0@, entry.1));
    }
}

/// Adds to the count of a text.
fn count_text(list: &mut Vec<(String, u64)>, key: &str, n: u64)
    requires
        distinct_texts(old(list)@),
    ensures
        distinct_texts(final(list)@),
        text_counts(final(list)@) == counted(text_counts(old(list)@), key@, n as nat),
{
    let ghost before = list@;
    proof {
        lemma_text_counts(before);
    }
    let mut i: usize = 0;
    while i < list.len()
        invariant
            i <= list.len(),
            list@ == before,
            before == old(list)@,
            distinct_texts(before),
            forall|j: int|
                0 <= j < before.len() ==> text_counts(before).dom().contains(
                    #[trigger] before[j].0@,
                ) && text_counts(before)[before[j].0@] == before[j].1,
            forall|j: int| 0 <= j < i ==> #[trigger] before[j].0@ != key@,
        decreases list.len() - i,
    {
        if text::same_str(list[i].0.as_str(), key) {
            let entry: (String, u64) = (list[i].0.clone(), list[i].1.saturating_add(n));
            proof {
                assert(before[i as int].0@ == key@);
                assert(entry.1 == capped(before[i as int].1 as nat + n as nat));
                lemma_text_counts_update(before, i as int, entry);
            }
            list.set(i, entry);
            return;
        }
        i += 1;
    }
    let entry: (String, u64) = (key.to_string(), n);
    list.push(entry);
    proof {
        assert(!text_counts(before).dom().contains(key@)) by {
            if text_counts(before).dom().contains(key@) {
                let j = choose|j: int| 0 <= j < before.len() && #[trigger] before[j].0@ == key@;
                assert(before[j].0@ != key@);
            }
        }
        assert(list@.drop_last() == before);
        assert forall|a: int, b: int| 0 <= a < b < list@.len() implies list@[a].0@
            != list@[b].0@ by {
            if b == before.len() {
                assert(before[a].0@ != key@);
            }
        }
    }
}

/// Adds counts by text to others.
fn merge_texts(list: &mut Vec<(String, u64)>, other: &Vec<(String, u64)>)
    requires
        distinct_texts(old(list)@),
        distinct_texts(other@),
    ensures
        distinct_texts(final(list)@),
        text_counts(final(list)@) == summed(text_counts(old(list)@), text_counts(other@)),
{
    let ghost mine = text_counts(list@);
    let mut i: usize = 0;
    proof {
        assert(other@.take(0) == Seq::<(String, u64)>::empty());
        assert(mine == summed(mine, Map::<Seq<char>, u64>::empty()));
    }
    while i < other.len()
        invariant
            i <= other.len(),
            distinct_texts(list@),
            distinct_texts(other@),
            text_counts(list@) == summed(mine, text_counts(other@.take(i as int))),
        decreases other.len() - i,
    {
        let ghost done = other@.take(i as int);
        let ghost next = other@.take(i + 1);
        let ghost before = text_counts(list@);
        count_text(list, other[i].0.as_str(), other[i].1);
        proof {
            let key = other@[i as int].0@;
            assert(next.drop_last() == done);
            assert(next.last() == other@[i as int]);
            assert(distinct_texts(done));
            lemma_text_counts(done);
            assert(!text_counts(done).dom().contains(key)) by {
                if text_counts(done).dom().contains(key) {
                    let j = choose|j: int| 0 <= j < done.len() && #[trigger] done[j].0@ == key;
                    assert(other@[j].0@ == key);
                }
            }
            assert(text_counts(next) == text_counts(done).insert(key, other@[i as int].1));
            assert(text_counts(list@) == summed(mine, text_counts(next)));
        }
        i += 1;
    }
    assert(other@.take(other@.len() as int) == other@);
}

/// Adds to the count of a status code.
fn count_code(counts: &mut HashMap<u16, u64>, code: u16, n: u64)
    ensures
        final(counts)@ == counted(old(counts)@, code, n as nat),
{
    broadcast use vstd::std_specs::hash::group_hash_axioms;

    let sum: u64 = match counts.get(&code) {
        Some(v) => v.saturating_add(n),
        None => n,
    };
    counts.insert(code, sum);
}

/// Adds counts by status code to others.
fn merge_codes(counts: &mut HashMap<u16, u64>, other: &HashMap<u16, u64>)
    ensures
        final(counts)@ == summed(old(counts)@, other@),
{
    broadcast use vstd::std_specs::hash::group_hash_axioms;

    let ghost mine = counts@;
    for code in it: other.keys()
        invariant
            it.seq().unref().to_set() == other@.dom(),
            it.seq().no_duplicates(),
            forall|i: int|
                0 <= i < it.index() ==> counts@.dom().contains(*#[trigger] it.seq()[i])
                    && counts@[*it.seq()[i]] == summed(mine, other@)[*it.seq()[i]],
            forall|i: int|
                it.index() <= i < it.seq().len() ==> counts@.dom().contains(
                    *#[trigger] it.seq()[i],
                ) == mine.dom().contains(*it.seq()[i]) && (mine.dom().contains(*it.seq()[i])
                    ==> counts@[*it.seq()[i]] == mine[*it.seq()[i]]),
            forall|c: u16|
                !other@.dom().contains(c) ==> (#[trigger] counts@.dom().contains(c)
                    == mine.dom().contains(c)) && (mine.dom().contains(c) ==> counts@[c]
                    == mine[c]),
    {
        let n: u64 = match other.get(code) {
            Some(v) => *v,
            None => 0,
        };
        count_code(counts, *code, n);
    }
    proof {
        assert(counts@ == summed(mine, other@));
    }
}

// ---------------------------------------------------------------------------
// Figures that are shown while a run goes on
// ---------------------------------------------------------------------------

/// What has happened since the figures were last shown. The counters are shared
/// between the tasks of an engine and the display.
#[derive(Debug)]
pub struct RealtimeStats {
    pub ok: AtomicU64,
    pub fail: AtomicU64,
    pub err: AtomicU64,
}

impl Default for RealtimeStats {
    /// Counters that stand at 0.
    fn default() -> (r: RealtimeStats)
        ensures
            call_ensures(AtomicU64::new, (0u64,), r.ok),
            call_ensures(AtomicU64::new, (0u64,), r.fail),
            call_ensures(AtomicU64::new, (0u64,), r.err),
    {
        RealtimeStats { ok: AtomicU64::new(0), fail: AtomicU64::new(0), err: AtomicU64::new(0) }
    }
}

/// Whether `n` is what `AtomicU64::swap` can give back of a counter that it sets
/// back to 0.
pub open spec fn swapped_out(counter: AtomicU64, n: u64) -> bool {
    call_ensures(
        AtomicU64::swap,
        (&counter, 0u64, std::sync::atomic::Ordering::Relaxed),
        n,
    )
}

/// Whether 1 was added to a counter: `AtomicU64::fetch_add` has given back what it
/// held before.
pub open spec fn counted_up(counter: AtomicU64) -> bool {
    exists|n: u64| #[trigger]
        call_ensures(
            AtomicU64::fetch_add,
            (&counter, 1u64, std::sync::atomic::Ordering::Relaxed),
            n,
        )
}

/// Whether `reading` is what can be read of counters that are set back to 0: the
/// successes, the other responses and the errors.
pub open spec fn read_out(counters: RealtimeStats, reading: (u64, u64, u64)) -> bool {
    &&& swapped_out(counters.ok, reading.0)
    &&& swapped_out(counters.fail, reading.1)
    &&& swapped_out(counters.err, reading.2)
}

impl RealtimeStats {
    /// Reads the counters and sets them back to 0. Each figure is what swapping 0
    /// into its counter gave back. Which number that is, is not known here: other
    /// tasks add to the counters meanwhile.
    pub fn take(&self) -> (r: (u64, u64, u64))
        ensures
            read_out(*self, r),
    {
        let ok: u64 = self.ok.swap(0, std::sync::atomic::Ordering::Relaxed);
        let fail: u64 = self.fail.swap(0, std::sync::atomic::Ordering::Relaxed);
        let err: u64 = self.err.swap(0, std::sync::atomic::Ordering::Relaxed);
        (ok, fail, err)
    }
}

// ---------------------------------------------------------------------------
// The statistics of a task, an engine or a run
// ---------------------------------------------------------------------------

/// What has been counted.
pub struct StatisticsView {
    /// Responses with the status code 200.
    pub ok: u64,
    /// Connections.
    pub conn: u64,
    /// Other responses, by status code.
    pub status: Map<u16, u64>,
    /// Errors, by text.
    pub err: Map<Seq<char>, u64>,
    /// For each engine, how long it was idle and how long it ran, in nanoseconds.
    pub idle: Seq<(u128, u128)>,
    /// The latencies, where they are recorded.
    pub latency: Option<Multiset<u64>>,
}

/// What a task, an engine or a run has counted.
///
/// Counts stop at the largest `u64`.
#[derive(Clone, Debug)]
pub struct Statistics {
    ok: u64,
    conn: u64,
    status: HashMap<u16, u64>,
    err: Vec<(String, u64)>,
    idle: Vec<(u128, u128)>,
    pub latency: Option<LatencyHistogram>,
}

impl View for Statistics {
    type V = StatisticsView;

    closed spec fn view(&self) -> StatisticsView {
        StatisticsView {
            ok: self.ok,
            conn: self.conn,
            status: self.status@,
            err: text_counts(self.err@),
            idle: self.idle@,
            latency: match self.latency {
                Some(h) => Some(latency_slots(h)),
                None => None,
            },
        }
    }
}

/// Statistics in which nothing has been counted.
pub open spec fn no_statistics(with_latency: bool) -> StatisticsView {
    StatisticsView {
        ok: 0,
        conn: 0,
        status: Map::empty(),
        err: Map::empty(),
        idle: Seq::empty(),
        latency: if with_latency {
            Some(Multiset::empty())
        } else {
            None
        },
    }
}

/// The statistics with one more response: 200 is counted apart from the other
/// status codes.
pub open spec fn with_status(s: StatisticsView, code: u16) -> StatisticsView {
    if code == 200 {
        StatisticsView { ok: capped(s.ok as nat + 1), ..s }
    } else {
        StatisticsView { status: counted(s.status, code, 1), ..s }
    }
}

/// The statistics with one more error.
pub open spec fn with_error(s: StatisticsView, text: Seq<char>) -> StatisticsView {
    StatisticsView { err: counted(s.err, text, 1), ..s }
}

/// The statistics with one more response that counts as a success.
pub open spec fn with_ok(s: StatisticsView) -> StatisticsView {
    StatisticsView { ok: capped(s.ok as nat + 1), ..s }
}

/// The statistics with one more connection.
pub open spec fn with_conn(s: StatisticsView) -> StatisticsView {
    StatisticsView { conn: capped(s.conn as nat + 1), ..s }
}

/// The statistics with one more latency, where latencies are recorded, it is
/// within the range and a histogram can count one more.
pub open spec fn with_latency(s: StatisticsView, micros: u64) -> StatisticsView {
    match s.latency {
        Some(slots) => if micros < LATENCY_LIMIT && slots.len() < u64::MAX {
            StatisticsView { latency: Some(slots.insert(slot(micros as nat) as u64)), ..s }
        } else {
            s
        },
        None => s,
    }
}

/// The latencies of both, as far as a histogram can count them.
pub open spec fn latencies_of(
    a: Option<Multiset<u64>>,
    b: Option<Multiset<u64>>,
) -> Option<Multiset<u64>> {
    match (a, b) {
        (Some(x), Some(y)) => if x.len() + y.len() <= u64::MAX {
            Some(x.add(y))
        } else {
            Some(x)
        },
        (Some(x), None) => Some(x),
        (None, y) => y,
    }
}

/// How many latencies there are.
pub open spec fn latencies(s: StatisticsView) -> nat {
    match s.latency {
        Some(slots) => slots.len(),
        None => 0,
    }
}

/// The statistics of both.
pub open spec fn both(a: StatisticsView, b: StatisticsView) -> StatisticsView {
    StatisticsView {
        ok: capped(a.ok as nat + b.ok as nat),
        conn: capped(a.conn as nat + b.conn as nat),
        status: summed(a.status, b.status),
        err: summed(a.err, b.err),
        idle: a.idle + b.idle,
        latency: latencies_of(a.latency, b.latency),
    }
}

/// The sum of the counts of the status codes from `lo` up to `hi`.
pub open spec fn codes_sum(status: Map<u16, u64>, lo: nat, hi: nat) -> nat
    decreases hi,
{
    if hi <= lo {
        0
    } else {
        codes_sum(status, lo, (hi - 1) as nat) + count_of(status, (hi - 1) as u16)
    }
}

/// The sum of the counts of a list of texts.
pub open spec fn texts_sum(list: Seq<(String, u64)>) -> nat
    decreases list.len(),
{
    if list.len() == 0 {
        0
    } else {
        texts_sum(list.drop_last()) + list.last().1 as nat
    }
}

/// The sum of the counts of certain texts.
pub open spec fn counts_sum(counts: Map<Seq<char>, u64>, texts: Set<Seq<char>>) -> nat
    decreases texts.len(),
    when texts.finite()
{
    if texts.len() == 0 {
        0
    } else {
        let t = texts.choose();
        count_of(counts, t) + counts_sum(counts, texts.remove(t))
    }
}

impl Statistics {
    /// Whether no error text is counted in two places.
    pub closed spec fn wf(&self) -> bool {
        distinct_texts(self.err@)
    }

    /// Statistics in which nothing has been counted.
    pub fn new(with_latency: bool) -> (s: Statistics)
        ensures
            s.wf(),
            s@ == no_statistics(with_latency),
    {
        let s = Statistics {
            ok: 0,
            conn: 0,
            status: HashMap::new(),
            err: Vec::new(),
            idle: Vec::new(),
            latency: if with_latency {
                Some(new_histogram(LATENCY_LOW, LATENCY_HIGH, LATENCY_DIGITS))
            } else {
                None
            },
        };
        assert(s@.status == Map::<u16, u64>::empty());
        assert(s@.idle == Seq::<(u128, u128)>::empty());
        s
    }

    /// Counts a response that is a success. 1 is added to the shared counter of
    /// successes as well. What it holds then is not known here: other tasks change
    /// it meanwhile.
    pub fn inc_ok(&mut self, rt: &RealtimeStats)
        requires
            old(self).wf(),
        ensures
            final(self).wf(),
            final(self)@ == with_ok(old(self)@),
            counted_up(rt.ok),
    {
        rt.ok.fetch_add(1, std::sync::atomic::Ordering::Relaxed);
        self.ok = self.ok.saturating_add(1);
    }

    /// Counts a connection.
    pub fn inc_conn(&mut self)
        requires
            old(self).wf(),
        ensures
            final(self).wf(),
            final(self)@ == with_conn(old(self)@),
    {
        self.conn = self.conn.saturating_add(1);
    }

    /// Sets how long the engine was idle, and how long it ran, in nanoseconds.
    pub fn idle_time(&mut self, parked: u128, elapsed: u128)
        requires
            old(self).wf(),
        ensures
            final(self).wf(),
            final(self)@ == (StatisticsView { idle: seq![(parked, elapsed)], ..old(self)@ }),
    {
        let mut idle: Vec<(u128, u128)> = Vec::new();
        idle.push((parked, elapsed));
        assert(idle@ == seq![(parked, elapsed)]);
        self.idle = idle;
    }

    /// The responses with another status code than 200, by status code.
    pub fn http_status(&self) -> (m: &HashMap<u16, u64>)
        ensures
            m@ == self@.status,
    {
        &self.status
    }

    /// The errors, by text: no text stands in the list twice.
    pub fn errors_map(&self) -> (list: &Vec<(String, u64)>)
        requires
            self.wf(),
        ensures
            distinct_texts(list@),
            text_counts(list@) == self@.err,
    {
        &self.err
    }

    /// Counts a response by its status code. 1 is added to the shared counter of
    /// successes, or else of other responses, as well.
    pub fn set_http_status(&mut self, code: u16, rt: &RealtimeStats)
        requires
            old(self).wf(),
        ensures
            final(self).wf(),
            final(self)@ == with_status(old(self)@, code),
            counted_up(
                if code == 200 {
                    rt.ok
                } else {
                    rt.fail
                },
            ),
    {
        if code == 200 {
            rt.ok.fetch_add(1, std::sync::atomic::Ordering::Relaxed);
            self.ok = self.ok.saturating_add(1);
            return;
        }
        rt.fail.fetch_add(1, std::sync::atomic::Ordering::Relaxed);
        count_code(&mut self.status, code, 1);
    }

    /// Counts an error by its text. 1 is added to the shared counter of errors as
    /// well.
    pub fn set_error(&mut self, err: &str, rt: &RealtimeStats)
        requires
            old(self).wf(),
        ensures
            final(self).wf(),
            final(self)@ == with_error(old(self)@, err@),
            counted_up(rt.err),
    {
        rt.err.fetch_add(1, std::sync::atomic::Ordering::Relaxed);
        count_text(&mut self.err, err, 1);
    }

    /// Records a latency, where latencies are recorded.
    pub fn record_latency(&mut self, micros: u64)
        requires
            old(self).wf(),
        ensures
            final(self).wf(),
            final(self)@ == with_latency(old(self)@, micros),
    {
        match &mut self.latency {
            Some(h) => {
                if recorded(h) < u64::MAX {
                    record_value(h, micros);
                }
            },
            None => {},
        }
    }

    /// The responses with the status code 200.
    pub fn ok(&self) -> (n: u64)
        ensures
            n == self@.ok,
    {
        self.ok
    }

    /// The connections.
    pub fn conn(&self) -> (n: u64)
        ensures
            n == self@.conn,
    {
        self.conn
    }

    /// For each engine, how long it was idle and how long it ran, in nanoseconds.
    pub fn idle(&self) -> (v: &Vec<(u128, u128)>)
        ensures
            v@ == self@.idle,
    {
        &self.idle
    }

    /// The number of responses with a status code from `lo` up to `hi`.
    fn status_between(&self, lo: u16, hi: u16) -> (n: u64)
        requires
            lo <= hi,
        ensures
            n == capped(codes_sum(self@.status, lo as nat, hi as nat)),
    {
        broadcast use vstd::std_specs::hash::group_hash_axioms;

        let mut n: u64 = 0;
        let mut code: u16 = lo;
        while code < hi
            invariant
                lo <= code <= hi,
                n == capped(codes_sum(self@.status, lo as nat, code as nat)),
            decreases hi - code,
        {
            match self.status.get(&code) {
                Some(v) => {
                    n = n.saturating_add(*v);
                },
                None => {},
            }
            code += 1;
        }
        n
    }

    /// The number of responses with a status code from 300 to 399.
    pub fn status_3xx(&self) -> (n: u64)
        ensures
            n == capped(codes_sum(self@.status, 300, 400)),
    {
        self.status_between(300, 400)
    }

    /// The number of responses with a status code from 400 to 499.
    pub fn status_4xx(&self) -> (n: u64)
        ensures
            n == capped(codes_sum(self@.status, 400, 500)),
    {
        self.status_between(400, 500)
    }

    /// The number of responses with a status code from 500 to 599.
    pub fn status_5xx(&self) -> (n: u64)
        ensures
            n == capped(codes_sum(self@.status, 500, 600)),
    {
        self.status_between(500, 600)
    }

    /// The number of errors.
    pub fn errors(&self) -> (n: u64)
        requires
            self.wf(),
        ensures
            n == capped(counts_sum(self@.err, self@.err.dom())),
    {
        let mut n: u64 = 0;
        let mut i: usize = 0;
        while i < self.err.len()
            invariant
                i <= self.err.len(),
                n == capped(texts_sum(self.err@.take(i as int))),
            decreases self.err.len() - i,
        {
            n = n.saturating_add(self.err[i].1);
            assert(self.err@.take(i + 1).drop_last() == self.err@.take(i as int));
            i += 1;
        }
        assert(self.err@.take(self.err@.len() as int) == self.err@);
        proof {
            lemma_texts_sum(self.err@);
        }
        n
    }

    /// The statistics of both.
    pub fn add(self, other: Statistics) -> (r: Statistics)
        requires
            self.wf(),
            other.wf(),
        ensures
            r.wf(),
            r@ == both(self@, other@),
    {
        let ghost a = self@;
        let ghost b = other@;
        let mut status = self.status;
        merge_codes(&mut status, &other.status);
        let mut err = self.err;
        merge_texts(&mut err, &other.err);
        let mut idle = self.idle;
        let mut rest = other.idle;
        idle.append(&mut rest);
        assert(idle@ == a.idle + b.idle);
        let latency = match (self.latency, other.latency) {
            (Some(x), Some(y)) => {
                let mut sum = x;
                if recorded(&y) <= u64::MAX - recorded(&sum) {
                    merge_into(&mut sum, &y);
                }
                Some(sum)
            },
            (Some(x), None) => Some(x),
            (None, y) => y,
        };
        Statistics {
            ok: self.ok.saturating_add(other.ok),
            conn: self.conn.saturating_add(other.conn),
            status,
            err,
            idle,
            latency,
        }
    }
}

/// A part of the texts and the rest add up, whichever text is taken first.
proof fn lemma_counts_sum_remove(
    counts: Map<Seq<char>, u64>,
    texts: Set<Seq<char>>,
    t: Seq<char>,
)
    requires
        texts.finite(),
        texts.contains(t),
    ensures
        counts_sum(counts, texts) == count_of(counts, t) + counts_sum(counts, texts.remove(t)),
    decreases texts.len(),
{
    let c = texts.choose();
    if c != t {
        lemma_counts_sum_remove(counts, texts.remove(c), t);
        assert(texts.remove(c).remove(t) == texts.remove(t).remove(c));
        lemma_counts_sum_remove(counts, texts.remove(t), c);
    }
}

/// A count that is not asked for does not matter.
proof fn lemma_counts_sum_local(
    a: Map<Seq<char>, u64>,
    b: Map<Seq<char>, u64>,
    texts: Set<Seq<char>>,
)
    requires
        texts.finite(),
        forall|t: Seq<char>| #[trigger] texts.contains(t) ==> count_of(a, t) == count_of(b, t),
    ensures
        counts_sum(a, texts) == counts_sum(b, texts),
    decreases texts.len(),
{
    if texts.len() > 0 {
        let c = texts.choose();
        assert forall|t: Seq<char>| #[trigger] texts.remove(c).contains(t) implies count_of(a, t)
            == count_of(b, t) by {
            assert(texts.contains(t));
        }
        lemma_counts_sum_local(a, b, texts.remove(c));
    }
}

proof fn lemma_texts_sum(list: Seq<(String, u64)>)
    requires
        distinct_texts(list),
    ensures
        text_counts(list).dom().finite(),
        counts_sum(text_counts(list), text_counts(list).dom()) == texts_sum(list),
    decreases list.len(),
{
    let all = text_counts(list);
    if list.len() == 0 {
        assert(all.dom() == Set::<Seq<char>>::empty());
    } else {
        let front = list.drop_last();
        let t = list.last().0@;
        lemma_texts_sum(front);
        lemma_text_counts(front);
        let before = text_counts(front);
        assert(!before.dom().contains(t)) by {
            if before.dom().contains(t) {
                let j = choose|j: int| 0 <= j < front.len() && #[trigger] front[j].0@ == t;
                assert(list[j].0@ == t);
            }
        }
        assert(all.dom() == before.dom().insert(t));
        assert(all.dom().remove(t) == before.dom());
        lemma_counts_sum_remove(all, all.dom(), t);
        assert forall|u: Seq<char>| #[trigger] before.dom().contains(u) implies count_of(all, u)
            == count_of(before, u) by {}
        lemma_counts_sum_local(all, before, before.dom());
    }
}

impl Default for Statistics {
    /// Statistics in which nothing has been counted, without latencies.
    fn default() -> (s: Statistics)
        ensures
            s.wf(),
            s@ == no_statistics(false),
    {
        Statistics::new(false)
    }
}

// ---------------------------------------------------------------------------
// What holds of the statistics
// ---------------------------------------------------------------------------

proof fn lemma_summed_associates<K>(a: Map<K, u64>, b: Map<K, u64>, c: Map<K, u64>)
    ensures
        summed(summed(a, b), c) == summed(a, summed(b, c)),
{
    assert(summed(summed(a, b), c) =~= summed(a, summed(b, c)));
}

/// Adding up the statistics of tasks and engines gives the same in whatever way
/// they are grouped, as long as their latencies can be counted.
pub proof fn law_sum_associates(a: StatisticsView, b: StatisticsView, c: StatisticsView)
    requires
        latencies(a) + latencies(b) + latencies(c) <= u64::MAX,
    ensures
        both(both(a, b), c) == both(a, both(b, c)),
{
    lemma_summed_associates(a.status, b.status, c.status);
    lemma_summed_associates(a.err, b.err, c.err);
    assert((a.idle + b.idle) + c.idle =~= a.idle + (b.idle + c.idle));
    match (a.latency, b.latency, c.latency) {
        (Some(x), Some(y), Some(z)) => {
            assert(x.add(y).add(z) =~= x.add(y.add(z)));
        },
        _ => {},
    }
}

/// In which order statistics are added up shows in nothing but the order in
/// which the idle times are listed, as long as their latencies can be counted.
pub proof fn law_sum_commutes(a: StatisticsView, b: StatisticsView)
    requires
        latencies(a) + latencies(b) <= u64::MAX,
    ensures
        both(a, b) == (StatisticsView { idle: a.idle + b.idle, ..both(b, a) }),
{
    assert(summed(a.status, b.status) =~= summed(b.status, a.status));
    assert(summed(a.err, b.err) =~= summed(b.err, a.err));
    match (a.latency, b.latency) {
        (Some(x), Some(y)) => {
            assert(x.add(y) =~= y.add(x));
        },
        _ => {},
    }
}

/// Statistics in which nothing has been counted add nothing.
pub proof fn law_nothing_adds_nothing(s: StatisticsView)
    ensures
        both(no_statistics(false), s) == s,
        both(s, no_statistics(false)) == s,
{
    let none = no_statistics(false);
    assert(summed(none.status, s.status) =~= s.status);
    assert(summed(s.status, none.status) =~= s.status);
    assert(summed(none.err, s.err) =~= s.err);
    assert(summed(s.err, none.err) =~= s.err);
    assert(none.idle + s.idle =~= s.idle);
    assert(s.idle + none.idle =~= s.idle);
}

/// A response is counted once: with the successes, or under its status code, and
/// nothing else changes.
pub proof fn law_response_is_counted_once(s: StatisticsView, code: u16, other: u16)
    requires
        s.ok < u64::MAX,
        count_of(s.status, code) < u64::MAX,
    ensures
        ({
            let t = with_status(s, code);
            &&& t.ok - s.ok == (if code == 200 {
                1int
            } else {
                0
            })
            &&& count_of(t.status, other) - count_of(s.status, other) == (if code != 200 && other
                == code {
                1int
            } else {
                0
            })
            &&& t.err == s.err && t.conn == s.conn && t.idle == s.idle && t.latency == s.latency
        }),
{
}

/// Adding statistics up adds each of their counts: the successes, the connections,
/// the responses of each status code and the errors of each text are as many as in
/// both parts together, and stop at the largest number.
pub proof fn law_counts_are_added(a: StatisticsView, b: StatisticsView, code: u16, t: Seq<char>)
    ensures
        ({
            let s = both(a, b);
            &&& s.ok == (if a.ok + b.ok <= u64::MAX {
                a.ok + b.ok
            } else {
                u64::MAX as int
            })
            &&& s.conn == (if a.conn + b.conn <= u64::MAX {
                a.conn + b.conn
            } else {
                u64::MAX as int
            })
            &&& s.status.dom().contains(code) <==> a.status.dom().contains(code)
                || b.status.dom().contains(code)
            &&& a.status.dom().contains(code) && !b.status.dom().contains(code) ==> s.status[code]
                == a.status[code]
            &&& !a.status.dom().contains(code) && b.status.dom().contains(code) ==> s.status[code]
                == b.status[code]
            &&& a.status.dom().contains(code) && b.status.dom().contains(code) ==> s.status[code]
                == (if a.status[code] + b.status[code] <= u64::MAX {
                a.status[code] + b.status[code]
            } else {
                u64::MAX as int
            })
            &&& s.err.dom().contains(t) <==> a.err.dom().contains(t) || b.err.dom().contains(t)
            &&& a.err.dom().contains(t) && !b.err.dom().contains(t) ==> s.err[t] == a.err[t]
            &&& !a.err.dom().contains(t) && b.err.dom().contains(t) ==> s.err[t] == b.err[t]
            &&& a.err.dom().contains(t) && b.err.dom().contains(t) ==> s.err[t] == (if a.err[t]
                + b.err[t] <= u64::MAX {
                a.err[t] + b.err[t]
            } else {
                u64::MAX as int
            })
        }),
{
}

/// Adding statistics up keeps every latency and every idle time: each latency comes
/// as often as in both parts together, as long as they can be counted, and the idle
/// times of the second part follow those of the first. Where one part records no
/// latencies, those of the other stay.
pub proof fn law_latencies_are_kept(a: StatisticsView, b: StatisticsView, v: u64, i: int)
    ensures
        ({
            let s = both(a, b);
            &&& s.latency is Some <==> a.latency is Some || b.latency is Some
            &&& a.latency is Some && b.latency is Some && a.latency->0.len() + b.latency->0.len()
                <= u64::MAX ==> s.latency->0.count(v) == a.latency->0.count(v)
                + b.latency->0.count(v)
            &&& a.latency is None ==> s.latency == b.latency
            &&& b.latency is None ==> s.latency == a.latency
            &&& s.idle.len() == a.idle.len() + b.idle.len()
            &&& 0 <= i < a.idle.len() ==> s.idle[i] == a.idle[i]
            &&& 0 <= i < b.idle.len() ==> s.idle[a.idle.len() + i] == b.idle[i]
        }),
{
}

/// A new start has counted nothing, and records latencies exactly where that is
/// asked for.
pub proof fn law_nothing_is_counted_at_first(with_latency: bool, code: u16, t: Seq<char>, v: u64)
    ensures
        ({
            let s = no_statistics(with_latency);
            &&& s.ok == 0 && s.conn == 0 && s.idle.len() == 0
            &&& !s.status.dom().contains(code) && !s.err.dom().contains(t)
            &&& s.latency is Some <==> with_latency
            &&& with_latency ==> s.latency->0.count(v) == 0
        }),
{
}

/// An error counts once under its text, and changes nothing else.
pub proof fn law_error_is_counted_once(s: StatisticsView, t: Seq<char>, other: Seq<char>)
    ensures
        ({
            let r = with_error(s, t);
            &&& r.err.dom().contains(t)
            &&& !s.err.dom().contains(t) ==> r.err[t] == 1
            &&& s.err.dom().contains(t) && s.err[t] < u64::MAX ==> r.err[t] == s.err[t] + 1
            &&& s.err.dom().contains(t) && s.err[t] == u64::MAX ==> r.err[t] == u64::MAX
            &&& other != t ==> (r.err.dom().contains(other) <==> s.err.dom().contains(other))
            &&& other != t && s.err.dom().contains(other) ==> r.err[other] == s.err[other]
            &&& r.ok == s.ok && r.conn == s.conn && r.status == s.status && r.idle == s.idle
                && r.latency == s.latency
        }),
{
}

/// A success and a connection count once each, and change nothing else.
pub proof fn law_success_and_connection_count_once(s: StatisticsView)
    ensures
        with_ok(s).ok == (if s.ok < u64::MAX {
            s.ok + 1
        } else {
            u64::MAX as int
        }),
        with_ok(s) == (StatisticsView { ok: with_ok(s).ok, ..s }),
        with_conn(s).conn == (if s.conn < u64::MAX {
            s.conn + 1
        } else {
            u64::MAX as int
        }),
        with_conn(s) == (StatisticsView { conn: with_conn(s).conn, ..s }),
{
}

/// The slot of a latency is at most a thousandth below it, and latencies below 2048
/// are kept as they are.
pub proof fn law_slot_is_close(v: nat)
    ensures
        slot(v) <= v,
        v < 2048 ==> slot(v) == v,
        1024 * (v - slot(v)) <= v,
    decreases v,
{
    lemma_resolution(v);
    let r = resolution(v);
    vstd::arithmetic::div_mod::lemma_fundamental_div_mod(v as int, r as int);
    vstd::arithmetic::div_mod::lemma_mod_bound(v as int, r as int);
    assert(v / r * r == r * (v / r)) by (nonlinear_arith);
    if v < 2048 {
        assert(v / 1 * 1 == v);
    }
}

proof fn lemma_resolution(v: nat)
    ensures
        resolution(v) > 0,
        v >= 2048 ==> 1024 * resolution(v) <= v,
    decreases v,
{
    if v >= 2048 {
        lemma_resolution(v / 2);
    }
}

/// A latency within the range is recorded, where latencies are recorded and one more
/// can be counted: its slot comes once more, no other slot does, and nothing else
/// changes. Latencies beyond the range leave no trace.
pub proof fn law_latency_is_recorded(s: StatisticsView, micros: u64, v: u64)
    ensures
        ({
            let r = with_latency(s, micros);
            &&& r.latency is Some <==> s.latency is Some
            &&& s.latency is Some && micros < 16_777_216 && s.latency->0.len() < u64::MAX ==> {
                &&& r.latency->0.count(v) == s.latency->0.count(v) + (if v == slot(micros as nat) {
                    1nat
                } else {
                    0
                })
                &&& r.latency->0.len() == s.latency->0.len() + 1
            }
            &&& micros >= 16_777_216 ==> r == s
            &&& s.latency is None ==> r == s
            &&& r == (StatisticsView { latency: r.latency, ..s })
        }),
{
    law_slot_is_close(micros as nat);
}

/// A response shows in the sum of its class of status codes, and in no other: one
/// that is counted under its code makes the sum from `lo` up to `hi` greater by one
/// where the code is in between, and leaves it otherwise.
pub proof fn law_response_shows_in_its_class(s: StatisticsView, code: u16, lo: nat, hi: nat)
    requires
        hi <= 65536,
        code != 200,
        count_of(s.status, code) < u64::MAX,
    ensures
        codes_sum(with_status(s, code).status, lo, hi) == codes_sum(s.status, lo, hi) + (if lo
            <= code < hi {
            1nat
        } else {
            0
        }),
    decreases hi,
{
    if hi > lo {
        law_response_shows_in_its_class(s, code, lo, (hi - 1) as nat);
    }
}

/// Where no response was counted, no class of status codes has any, and the sums of
/// two neighbouring ranges make that of both.
pub proof fn law_classes_join(status: Map<u16, u64>, lo: nat, mid: nat, hi: nat)
    requires
        lo <= mid <= hi <= 65536,
    ensures
        status == Map::<u16, u64>::empty() ==> codes_sum(status, lo, hi) == 0,
        codes_sum(status, lo, hi) == codes_sum(status, lo, mid) + codes_sum(status, mid, hi),
    decreases hi,
{
    if hi > mid {
        law_classes_join(status, lo, mid, (hi - 1) as nat);
    } else if hi > lo {
        law_classes_join(status, lo, lo, (hi - 1) as nat);
    }
}

/// The number of errors grows by one with each error, and is 0 where there is none.
pub proof fn law_errors_add_up(s: StatisticsView, t: Seq<char>)
    requires
        s.err.dom().finite(),
        count_of(s.err, t) < u64::MAX,
    ensures
        counts_sum(with_error(s, t).err, with_error(s, t).err.dom()) == counts_sum(
            s.err,
            s.err.dom(),
        ) + 1,
        counts_sum(Map::<Seq<char>, u64>::empty(), Set::<Seq<char>>::empty()) == 0,
{
    let before = s.err;
    let after = with_error(s, t).err;
    let rest = before.dom().remove(t);
    assert(after.dom() == before.dom().insert(t));
    assert(after.dom().remove(t) == rest);
    lemma_counts_sum_remove(after, after.dom(), t);
    assert forall|u: Seq<char>| #[trigger] rest.contains(u) implies count_of(after, u) == count_of(
        before,
        u,
    ) by {}
    lemma_counts_sum_local(after, before, rest);
    if before.dom().contains(t) {
        lemma_counts_sum_remove(before, before.dom(), t);
    } else {
        assert(rest == before.dom());
    }
}

/// A list of texts counts each of them as often as it says, and no other text.
pub proof fn law_texts_are_counted(list: Seq<(String, u64)>, i: int, t: Seq<char>)
    requires
        distinct_texts(list),
    ensures
        0 <= i < list.len() ==> text_counts(list).dom().contains(list[i].0@) && text_counts(
            list,
        )[list[i].0@] == list[i].1,
        (forall|j: int| 0 <= j < list.len() ==> (#[trigger] list[j]).0@ != t) ==> !text_counts(
            list,
        ).dom().contains(t),
{
    lemma_text_counts(list);
    if text_counts(list).dom().contains(t) {
        let j = choose|j: int| 0 <= j < list.len() && #[trigger] list[j].0@ == t;
        assert(list[j].0@ == t);
    }
}

/// A reading holds the successes, the failures and the errors, in this order.
pub proof fn law_reading_has_its_order(counters: RealtimeStats, reading: (u64, u64, u64))
    requires
        read_out(counters, reading),
    ensures
        swapped_out(counters.ok, reading.0),
        swapped_out(counters.fail, reading.1),
        swapped_out(counters.err, reading.2),
{
}

} // verus!
