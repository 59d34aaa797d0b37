//! The source address of each connection.
use crate::net::{IpAddr, SocketAddr};
use crate::options::Options;
use crate::rss::ports;
use crate::rss::RssState;
use vstd::prelude::*;

verus! {

/// How many source addresses are tried for a connection.
pub const MAX_BIND_CANDIDATES: u64 = 8;

/// The number of steps after which the port list comes back to a queue.
pub open spec fn stride(rss: RssState) -> nat {
    if rss.num_queues == 0 {
        1
    } else {
        rss.num_queues as nat
    }
}

/// The least whole number of rounds over the queues that serves `total` tasks,
/// in ports.
pub open spec fn lap(total: nat, stride: nat) -> nat {
    (total + stride - 1) as nat / stride * stride
}

/// How far a task has stepped on after `generation` reconnects, `lap` ports at a
/// time, in 64 bits.
pub open spec fn stepped(generation: u64, lap: nat) -> nat {
    (generation as nat * lap) % 0x1_0000_0000_0000_0000
}

/// The position in the port list of the `k`-th address to try.
pub open spec fn port_index(
    rss: RssState,
    total: nat,
    global: nat,
    generation: u64,
    k: nat,
) -> nat {
    (global + stepped(generation, lap(total, stride(rss))) + k * stride(rss)) % rss.ports@.len()
}

/// The ports that the first `k` positions hold, each once.
pub open spec fn tried_ports(
    rss: RssState,
    total: nat,
    global: nat,
    generation: u64,
    k: nat,
) -> Seq<u16>
    decreases k,
{
    if k == 0 {
        Seq::empty()
    } else {
        let before = tried_ports(rss, total, global, generation, (k - 1) as nat);
        let port = rss.ports@[port_index(rss, total, global, generation, (k - 1) as nat) as int];
        if before.contains(port) {
            before
        } else {
            before.push(port)
        }
    }
}

/// The addresses that the ports of a list have on one host.
pub open spec fn addresses(ip: IpAddr, ports: Seq<u16>) -> Seq<SocketAddr> {
    ports.map_values(|port: u16| SocketAddr { ip, port })
}

/// The address that stands for every IPv4 address.
pub open spec fn any_ipv4(ip: IpAddr) -> bool {
    ip matches IpAddr::V4(b) && b@ == seq![0u8, 0, 0, 0]
}

/// The ports to try of a range: up to eight from position `base` on, around its
/// end.
pub open spec fn range_ports(start: u16, end: u16, base: nat) -> Seq<u16> {
    let len = (end - start + 1) as nat;
    Seq::new(
        if len < MAX_BIND_CANDIDATES {
            len
        } else {
            MAX_BIND_CANDIDATES as nat
        },
        |k: int| (start + (base + k) % len as int) as u16,
    )
}

/// Where a port range starts for one connection.
pub open spec fn range_base(start: u16, end: u16, total: nat, global: nat, generation: u64) -> nat {
    (global + stepped(generation, total)) % (end - start + 1) as nat
}

/// Whether the settings select source addresses for a run.
pub open spec fn selects_sources(opts: Options) -> bool {
    opts.rpc == u32::MAX && opts.total_connections > 0
}

/// Whether the settings of the source addresses make sense: a port list has a
/// port, and a range does not run backwards.
pub open spec fn sources_valid(opts: Options) -> bool {
    &&& opts.rss matches Some(rss) ==> rss.ports@.len() > 0 && opts.total_connections + stride(rss)
        - 1 <= u64::MAX
    &&& opts.local_port_range matches Some(range) ==> range.0 <= range.1
}

/// The addresses to try for a connection, as `source_candidates` describes them.
pub open spec fn is_source_list(
    opts: Options,
    cid: usize,
    generation: u64,
    list: Seq<SocketAddr>,
) -> bool {
    let total = opts.total_connections as nat;
    let global = (opts.conn_base + cid) as nat;
    if !selects_sources(opts) {
        list.len() == 0
    } else if let Some(rss) = opts.rss {
        list == addresses(
            rss.src,
            tried_ports(rss, total, global, generation, MAX_BIND_CANDIDATES as nat),
        )
    } else if let Some((start, end)) = opts.local_port_range {
        let ports = range_ports(start, end, range_base(start, end, total, global, generation));
        match opts.local_addr {
            Some(ip) => list == addresses(ip, ports),
            None => exists|ip: IpAddr| #[trigger] any_ipv4(ip) && list == addresses(ip, ports),
        }
    } else {
        match opts.local_addr {
            Some(ip) => list == seq![SocketAddr { ip, port: 0 }],
            None => list.len() == 0,
        }
    }
}

/// Tells whether `ports` holds `port`.
fn holds_port(ports: &Vec<u16>, port: u16) -> (r: bool)
    ensures
        r == ports@.contains(port),
{
    let mut i: usize = 0;
    while i < ports.len()
        invariant
            i <= ports.len(),
            forall|j: int| 0 <= j < i ==> ports@[j] != port,
        decreases ports.len() - i,
    {
        if ports[i] == port {
            return true;
        }
        i += 1;
    }
    false
}

/// The product of two numbers, in 64 bits.
fn wrapped_product(a: u64, b: u64) -> (r: u64)
    ensures
        r == (a as nat * b as nat) % 0x1_0000_0000_0000_0000,
{
    a.wrapping_mul(b)
}

/// The addresses that the ports of a list have on one host.
fn on_host(ip: IpAddr, ports: &Vec<u16>) -> (list: Vec<SocketAddr>)
    ensures
        list@ == addresses(ip, ports@),
{
    let mut list: Vec<SocketAddr> = Vec::new();
    let mut i: usize = 0;
    while i < ports.len()
        invariant
            i <= ports.len(),
            list@ == addresses(ip, ports@.take(i as int)),
        decreases ports.len() - i,
    {
        list.push(SocketAddr { ip, port: ports[i] });
        assert(ports@.take(i + 1) == ports@.take(i as int).push(ports@[i as int]));
        assert(list@ == addresses(ip, ports@.take(i + 1)));
        i += 1;
    }
    assert(ports@.take(ports@.len() as int) == ports@);
    list
}

/// The ports to try where a port list is given.
fn listed_ports(rss: &RssState, total: u64, global: u128, generation: u64) -> (out: Vec<u16>)
    requires
        rss.ports@.len() > 0,
        total + stride(*rss) - 1 <= u64::MAX,
        global <= 2 * u64::MAX,
    ensures
        out@ == tried_ports(
            *rss,
            total as nat,
            global as nat,
            generation,
            MAX_BIND_CANDIDATES as nat,
        ),
{
    let count: usize = rss.ports.len();
    let len: u128 = count as u128;
    let step: u64 = if rss.num_queues == 0 {
        1
    } else {
        rss.num_queues as u64
    };
    let rounds: u64 = (total + (step - 1)) / step;
    assert(rounds * step <= total + step - 1) by (nonlinear_arith)
        requires
            rounds == (total + (step - 1)) / step as int,
            step > 0,
    ;
    let whole: u64 = rounds * step;
    let ghost w = lap(total as nat, stride(*rss));
    assert(whole == w);
    let ahead: u64 = wrapped_product(generation, whole);
    let mut out: Vec<u16> = Vec::new();
    let mut k: u64 = 0;
    while k < MAX_BIND_CANDIDATES
        invariant
            k <= MAX_BIND_CANDIDATES,
            len == count == rss.ports@.len(),
            len > 0,
            step == stride(*rss),
            ahead == stepped(generation, lap(total as nat, stride(*rss))),
            global <= 2 * u64::MAX,
            out@ == tried_ports(*rss, total as nat, global as nat, generation, k as nat),
        decreases MAX_BIND_CANDIDATES - k,
    {
        assert(k * step <= 8 * u64::MAX) by (nonlinear_arith)
            requires
                k <= 8,
                step <= u64::MAX,
        ;
        let sum: u128 = global + ahead as u128 + k as u128 * step as u128;
        let ghost want = global as nat + stepped(generation, lap(total as nat, stride(*rss)))
            + k as nat * stride(*rss);
        assert(sum == want);
        proof {
            vstd::arithmetic::div_mod::lemma_mod_bound(sum as int, len as int);
        }
        let index: usize = (sum % len) as usize;
        assert(index as nat == want % rss.ports@.len());
        assert(index == port_index(*rss, total as nat, global as nat, generation, k as nat));
        let port: u16 = rss.ports[index];
        if !holds_port(&out, port) {
            out.push(port);
        }
        k += 1;
    }
    out
}

/// The ports to try of a range.
fn ranged_ports(start: u16, end: u16, base: u32) -> (out: Vec<u16>)
    requires
        start <= end,
        base <= end - start,
    ensures
        out@ == range_ports(start, end, base as nat),
{
    let len: u32 = end as u32 - start as u32 + 1;
    let count: u32 = if len < 8 {
        len
    } else {
        8
    };
    let mut out: Vec<u16> = Vec::new();
    let mut k: u32 = 0;
    while k < count
        invariant
            start <= end,
            len == end - start + 1,
            base < len,
            count <= 8,
            k <= count,
            range_ports(start, end, base as nat).len() == count,
            out@ == range_ports(start, end, base as nat).take(k as int),
        decreases count - k,
    {
        let offset: u32 = (base + k) % len;
        out.push((start as u32 + offset) as u16);
        k += 1;
    }
    assert(range_ports(start, end, base as nat).take(count as int) == range_ports(
        start,
        end,
        base as nat,
    ));
    out
}

/// The source addresses to try for one connection, the preferred one first. An
/// empty list leaves the choice to the kernel.
///
/// `cid` is the number of the task in its instance, to which `conn_base` is
/// added. `generation` counts how often the task has reconnected.
///
/// With a port list, task `i` starts at position `i`. Each reconnect steps on by
/// the least whole number of rounds that serves all tasks, and each further
/// address by one round: so the task stays on its queue. With a range, each
/// reconnect steps on by the number of tasks. With an address alone the kernel
/// picks the port. Connections that are not kept open have no source address.
pub fn source_candidates(opts: &Options, cid: usize, generation: u64) -> (list: Vec<SocketAddr>)
    requires
        selects_sources(*opts) ==> sources_valid(*opts),
    ensures
        is_source_list(*opts, cid, generation, list@),
{
    if opts.rpc != 0xffff_ffff {
        return Vec::new();
    }
    let total: u64 = opts.total_connections as u64;
    if total == 0 {
        return Vec::new();
    }
    let global: u128 = opts.conn_base as u128 + cid as u128;
    match &opts.rss {
        Some(rss) => {
            let ports = listed_ports(rss, total, global, generation);
            return on_host(rss.src, &ports);
        },
        None => {},
    }
    match opts.local_port_range {
        Some((start, end)) => {
            let len: u32 = end as u32 - start as u32 + 1;
            let step: u64 = wrapped_product(generation, total);
            let base: u32 = ((global + step as u128) % len as u128) as u32;
            let ports = ranged_ports(start, end, base);
            let ip: IpAddr = match opts.local_addr {
                Some(ip) => ip,
                None => IpAddr::V4([0, 0, 0, 0]),
            };
            assert(opts.local_addr is None ==> any_ipv4(ip));
            return on_host(ip, &ports);
        },
        None => {},
    }
    match opts.local_addr {
        Some(ip) => {
            let mut list: Vec<SocketAddr> = Vec::new();
            list.push(SocketAddr { ip, port: 0 });
            assert(list@ == seq![SocketAddr { ip, port: 0 }]);
            list
        },
        None => Vec::new(),
    }
}

/// Tells whether the first `n` entries of a table hold `q`.
fn seen_before(indir: &[u32], n: usize, q: u32) -> (r: bool)
    requires
        n <= indir.len(),
    ensures
        r == indir@.take(n as int).contains(q),
{
    let mut i: usize = 0;
    while i < n
        invariant
            i <= n <= indir.len(),
            forall|j: int| 0 <= j < i ==> indir@[j] != q,
        decreases n - i,
    {
        if indir[i] == q {
            assert(indir@.take(n as int)[i as int] == q);
            return true;
        }
        i += 1;
    }
    false
}

/// The number of different queues in an indirection table.
pub fn distinct_queues(indir: &[u32]) -> (n: usize)
    ensures
        n == indir@.to_set().len(),
{
    let mut n: usize = 0;
    let mut i: usize = 0;
    proof {
        assert(indir@.take(0).to_set() == Set::<u32>::empty());
    }
    while i < indir.len()
        invariant
            i <= indir.len(),
            n <= i,
            n == indir@.take(i as int).to_set().len(),
        decreases indir.len() - i,
    {
        let ghost before = indir@.take(i as int);
        let ghost after = indir@.take(i + 1);
        proof {
            assert(after == before.push(indir@[i as int]));
            assert(after.to_set() == before.to_set().insert(indir@[i as int])) by {
                assert forall|q: u32| after.to_set().contains(q) <==> before.to_set().insert(
                    indir@[i as int],
                ).contains(q) by {
                    if before.contains(q) {
                        let j = choose|j: int| 0 <= j < before.len() && before[j] == q;
                        assert(after[j] == q);
                    }
                    if q == indir@[i as int] {
                        assert(after[i as int] == q);
                    }
                }
            }
            before.lemma_cardinality_of_set();
            vstd::seq_lib::seq_to_set_is_finite(before);
        }
        if !seen_before(indir, i, indir[i]) {
            n += 1;
        }
        i += 1;
    }
    assert(indir@.take(indir@.len() as int) == indir@);
    n
}

// ---------------------------------------------------------------------------
// What holds of the addresses
// ---------------------------------------------------------------------------

/// The position of an address before it wraps around the end of the port list.
pub open spec fn port_position(
    rss: RssState,
    total: nat,
    global: nat,
    generation: u64,
    k: nat,
) -> nat {
    global + generation as nat * lap(total, stride(rss)) + k * stride(rss)
}

proof fn lemma_lap(total: nat, stride: nat)
    requires
        stride > 0,
    ensures
        total <= lap(total, stride),
        lap(total, stride) % stride == 0,
{
    let x = (total + stride - 1) as int;
    vstd::arithmetic::div_mod::lemma_fundamental_div_mod(x, stride as int);
    vstd::arithmetic::div_mod::lemma_mod_bound(x, stride as int);
    let rounds = x / stride as int;
    assert(rounds * stride == stride * rounds) by (nonlinear_arith);
    vstd::arithmetic::div_mod::lemma_mod_multiples_basic(rounds, stride as int);
}

/// A position in the port list before it wraps, and its queue by turns.
proof fn lemma_position(rss: RssState, total: nat, global: nat, generation: u64, k: nat)
    requires
        port_position(rss, total, global, generation, k) < rss.ports@.len(),
        rss.ports@.len() <= u64::MAX,
    ensures
        port_index(rss, total, global, generation, k) == port_position(
            rss,
            total,
            global,
            generation,
            k,
        ),
        port_position(rss, total, global, generation, k) % stride(rss) == global % stride(rss),
{
    let w = stride(rss);
    let l = lap(total, w);
    let p = port_position(rss, total, global, generation, k);
    assert(k * w >= 0) by (nonlinear_arith);
    vstd::arithmetic::div_mod::lemma_small_mod(
        (generation as nat * l) as nat,
        0x1_0000_0000_0000_0000,
    );
    vstd::arithmetic::div_mod::lemma_small_mod(p, rss.ports@.len());
    lemma_lap(total, w);
    let rounds = (total + w - 1) as int / w as int;
    let turns = generation as int * rounds + k as int;
    assert(p == global + turns * w) by (nonlinear_arith)
        requires
            p == global + generation as nat * l + k * w,
            l == rounds * w,
            turns == generation as int * rounds + k as int,
    ;
    vstd::arithmetic::div_mod::lemma_mod_multiples_vanish(turns, global as int, w as int);
    assert(w * turns + global == p) by (nonlinear_arith)
        requires
            p == global + turns * w,
    ;
}

/// A task stays on its queue: on a balanced port list, every address that it
/// tries, at any reconnect, hashes to the queue of the port that it started
/// with.
///
/// This holds where every queue of the table has candidates, and for the
/// addresses that stand within the rounds that are complete: `m` is a number of
/// candidates that every queue has.
pub proof fn law_reconnect_keeps_the_queue(
    key: Seq<u8>,
    indir: Seq<u32>,
    dst: IpAddr,
    dport: u16,
    candidates: Seq<u16>,
    rss: RssState,
    total: nat,
    global: nat,
    generation: u64,
    k: nat,
    m: nat,
)
    requires
        key.len() > 0,
        indir.len() > 0,
        rss.src.same_family(dst),
        rss.ports@ == ports::ports_in(
            ports::balanced(key, indir, rss.src, dst, dport, candidates),
        ),
        rss.ports@.len() <= u64::MAX,
        rss.num_queues == ports::port_buckets(key, indir, rss.src, dst, dport, candidates).len(),
        forall|i: int|
            0 <= i < ports::port_buckets(key, indir, rss.src, dst, dport, candidates).len() ==> (
            #[trigger] ports::port_buckets(
                key,
                indir,
                rss.src,
                dst,
                dport,
                candidates,
            )[i]).1.len() >= m,
        port_position(rss, total, global, generation, k) < rss.num_queues * m,
    ensures
        ({
            let port = rss.ports@[port_index(rss, total, global, generation, k) as int];
            let first = rss.ports@[port_index(rss, total, global, 0, 0) as int];
            ports::queue_of(key, indir, rss.src, dst, port, dport) == ports::queue_of(
                key,
                indir,
                rss.src,
                dst,
                first,
                dport,
            )
        }),
{
    let list = ports::balanced(key, indir, rss.src, dst, dport, candidates);
    let w = rss.num_queues as nat;
    ports::law_queues_take_turns(key, indir, rss.src, dst, dport, candidates, m);
    let p = port_position(rss, total, global, generation, k);
    let first = port_position(rss, total, global, 0, 0);
    assert(w > 0) by (nonlinear_arith)
        requires
            0 <= p < w * m,
            m >= 0,
    ;
    assert(first == global && global <= p) by (nonlinear_arith)
        requires
            first == global + 0 * lap(total, stride(rss)) + 0 * stride(rss),
            p == global + generation as nat * lap(total, stride(rss)) + k * stride(rss),
    ;
    lemma_position(rss, total, global, generation, k);
    lemma_position(rss, total, global, 0, 0);
    ports::law_ports_hash_to_their_queue(
        key,
        indir,
        rss.src,
        dst,
        dport,
        candidates,
        p as int,
    );
    ports::law_ports_hash_to_their_queue(
        key,
        indir,
        rss.src,
        dst,
        dport,
        candidates,
        first as int,
    );
    assert(list[p as int].1 == list[first as int].1);
}

/// Two tasks of one generation start at different ports of the list, as long as
/// it holds a port for every task.
pub proof fn law_tasks_start_apart(
    rss: RssState,
    total: nat,
    a: nat,
    b: nat,
    generation: u64,
)
    requires
        a < b < total <= rss.ports@.len(),
    ensures
        port_index(rss, total, a, generation, 0) != port_index(rss, total, b, generation, 0),
{
    let s = stepped(generation, lap(total, stride(rss)));
    lemma_apart(a + s, b + s, rss.ports@.len());
    assert(0 * stride(rss) == 0) by (nonlinear_arith);
}

/// Numbers less than `n` apart differ modulo `n`.
proof fn lemma_apart(x: nat, y: nat, n: nat)
    requires
        x < y < x + n,
    ensures
        x % n != y % n,
{
    let d = (y - x) as int;
    if x % n == y % n {
        vstd::arithmetic::div_mod::lemma_fundamental_div_mod(x as int, n as int);
        vstd::arithmetic::div_mod::lemma_fundamental_div_mod(y as int, n as int);
        let q = y as int / n as int - x as int / n as int;
        assert(d == n * q) by (nonlinear_arith)
            requires
                d == y - x,
                x == n * (x as int / n as int) + x as int % n as int,
                y == n * (y as int / n as int) + y as int % n as int,
                x as int % n as int == y as int % n as int,
                q == y as int / n as int - x as int / n as int,
        ;
        assert(false) by (nonlinear_arith)
            requires
                d == n * q,
                0 < d < n,
        ;
    }
}

/// A reconnecting task steps past the ports that every task has used before:
/// until the list wraps around, no position of a later generation was the first
/// choice of a task in an earlier one.
pub proof fn law_generations_stay_apart(
    rss: RssState,
    total: nat,
    a: nat,
    b: nat,
    earlier: u64,
    later: u64,
)
    requires
        a < total,
        b < total,
        earlier < later,
        rss.ports@.len() <= u64::MAX,
        port_position(rss, total, b, later, 0) < rss.ports@.len(),
    ensures
        port_index(rss, total, a, earlier, 0) < port_index(rss, total, b, later, 0),
{
    let l = lap(total, stride(rss));
    lemma_lap(total, stride(rss));
    assert(earlier * l + l <= later * l) by (nonlinear_arith)
        requires
            earlier + 1 <= later,
            l >= 0,
    ;
    assert(0 * stride(rss) == 0) by (nonlinear_arith);
    lemma_position(rss, total, a, earlier, 0);
    lemma_position(rss, total, b, later, 0);
}

/// Every port that is tried of a range lies in it, and no port is tried twice.
pub proof fn law_range_is_honored(start: u16, end: u16, base: nat)
    requires
        start <= end,
    ensures
        forall|k: int|
            0 <= k < range_ports(start, end, base).len() ==> start <= #[trigger] range_ports(
                start,
                end,
                base,
            )[k] <= end,
        range_ports(start, end, base).no_duplicates(),
        range_ports(start, end, base).len() > 0,
{
    let len = (end - start + 1) as nat;
    let ports = range_ports(start, end, base);
    assert forall|k: int| 0 <= k < ports.len() implies start <= #[trigger] ports[k] <= end by {
        vstd::arithmetic::div_mod::lemma_mod_bound(base + k, len as int);
    }
    assert forall|i: int, j: int| 0 <= i < j < ports.len() implies ports[i] != ports[j] by {
        vstd::arithmetic::div_mod::lemma_mod_bound(base + i, len as int);
        vstd::arithmetic::div_mod::lemma_mod_bound(base + j, len as int);
        lemma_apart((base + i) as nat, (base + j) as nat, len);
    }
}

/// Two tasks of one generation prefer different ports of a range, as long as it
/// holds a port for every task.
pub proof fn law_range_keeps_tasks_apart(
    start: u16,
    end: u16,
    total: nat,
    a: nat,
    b: nat,
    generation: u64,
)
    requires
        start <= end,
        a < b < total <= end - start + 1,
    ensures
        range_ports(start, end, range_base(start, end, total, a, generation))[0] != range_ports(
            start,
            end,
            range_base(start, end, total, b, generation),
        )[0],
{
    let len = (end - start + 1) as nat;
    let x = range_base(start, end, total, a, generation);
    let y = range_base(start, end, total, b, generation);
    lemma_apart(a + stepped(generation, total), b + stepped(generation, total), len);
    vstd::arithmetic::div_mod::lemma_mod_bound((a + stepped(generation, total)) as int, len as int);
    vstd::arithmetic::div_mod::lemma_mod_bound((b + stepped(generation, total)) as int, len as int);
    vstd::arithmetic::div_mod::lemma_small_mod(x, len);
    vstd::arithmetic::div_mod::lemma_small_mod(y, len);
}

/// What a task steps on by is a whole number of rounds, enough for all tasks, and no more
/// than one round beyond that.
pub proof fn law_steps_are_whole_rounds(total: nat, stride: nat)
    requires
        stride > 0,
    ensures
        lap(total, stride) % stride == 0,
        total <= lap(total, stride) < total + stride,
{
    lemma_lap(total, stride);
    let x = (total + stride - 1) as int;
    vstd::arithmetic::div_mod::lemma_fundamental_div_mod(x, stride as int);
    vstd::arithmetic::div_mod::lemma_mod_bound(x, stride as int);
    let rounds = x / stride as int;
    assert(rounds * stride == stride * rounds) by (nonlinear_arith);
}

/// A task starts at the port of its own place. Each further address is one round on, and
/// without queues one port on.
pub proof fn law_places_of_a_task(rss: RssState, total: nat, global: nat, generation: u64, k: nat)
    requires
        rss.ports@.len() > 0,
    ensures
        global < rss.ports@.len() ==> port_index(rss, total, global, 0, 0) == global,
        rss.num_queues > 0 ==> port_index(rss, total, global, generation, k + 1) == (port_index(
            rss,
            total,
            global,
            generation,
            k,
        ) + rss.num_queues) % rss.ports@.len() as int,
        rss.num_queues == 0 ==> port_index(rss, total, global, generation, k + 1) == (port_index(
            rss,
            total,
            global,
            generation,
            k,
        ) + 1) % rss.ports@.len(),
{
    let n = rss.ports@.len() as int;
    let w = stride(rss);
    let l = lap(total, w);
    assert(0nat * l == 0) by (nonlinear_arith);
    assert(0nat * w == 0) by (nonlinear_arith);
    vstd::arithmetic::div_mod::lemma_small_mod(0, 0x1_0000_0000_0000_0000);
    if global < n {
        vstd::arithmetic::div_mod::lemma_small_mod(global, n as nat);
    }
    let at = global + stepped(generation, l) + k * w;
    assert((k + 1) * w == k * w + w) by (nonlinear_arith);
    vstd::arithmetic::div_mod::lemma_add_mod_noop(at as int, w as int, n);
    vstd::arithmetic::div_mod::lemma_add_mod_noop(at as int % n, w as int, n);
    vstd::arithmetic::div_mod::lemma_mod_twice(at as int, n);
}

/// The ports that are tried are those at the first eight places, each once and the
/// preferred one first.
pub proof fn law_ports_at_the_places_are_tried(
    rss: RssState,
    total: nat,
    global: nat,
    generation: u64,
    k: nat,
    port: u16,
)
    requires
        rss.ports@.len() > 0,
    ensures
        k > 0 ==> tried_ports(rss, total, global, generation, k).len() > 0 && tried_ports(
            rss,
            total,
            global,
            generation,
            k,
        )[0] == rss.ports@[port_index(rss, total, global, generation, 0) as int],
        tried_ports(rss, total, global, generation, k).no_duplicates(),
        tried_ports(rss, total, global, generation, k).contains(port) <==> exists|j: nat|
            j < k && rss.ports@[(#[trigger] port_index(rss, total, global, generation, j)) as int] == port,
    decreases k,
{
    let all = tried_ports(rss, total, global, generation, k);
    if k > 0 {
        let m = (k - 1) as nat;
        let before = tried_ports(rss, total, global, generation, m);
        let here = rss.ports@[port_index(rss, total, global, generation, m) as int];
        law_ports_at_the_places_are_tried(rss, total, global, generation, m, port);
        law_ports_at_the_places_are_tried(rss, total, global, generation, m, here);
        if !before.contains(here) {
            assert(all == before.push(here));
            assert(all[all.len() - 1] == here);
        }
        if all.contains(port) {
            let i = choose|i: int| 0 <= i < all.len() && all[i] == port;
            if i < before.len() {
                assert(before[i] == port);
                let j = choose|j: nat|
                    j < m && rss.ports@[(#[trigger] port_index(rss, total, global, generation, j)) as int]
                        == port;
                assert(j < k && rss.ports@[port_index(rss, total, global, generation, j) as int] == port);
            } else {
                assert(rss.ports@[port_index(rss, total, global, generation, m) as int] == port);
            }
        }
        if exists|j: nat|
            j < k && rss.ports@[(#[trigger] port_index(rss, total, global, generation, j)) as int] == port {
            let j = choose|j: nat|
                j < k && rss.ports@[(#[trigger] port_index(rss, total, global, generation, j)) as int]
                    == port;
            if j < m {
                assert(before.contains(port));
                let i = choose|i: int| 0 <= i < before.len() && before[i] == port;
                assert(all[i] == port);
            } else {
                assert(port == here);
                if before.contains(here) {
                    assert(all.contains(port));
                } else {
                    assert(all[all.len() - 1] == port);
                }
            }
        }
    }
}

/// Of a range, up to eight ports are tried: the one that is preferred, and then each time
/// the next one, from the last port of the range to the first.
pub proof fn law_range_is_gone_through(start: u16, end: u16, base: nat, k: int)
    requires
        start <= end,
    ensures
        ({
            let ports = range_ports(start, end, base);
            let size = end - start + 1;
            &&& size <= 8 ==> ports.len() == size
            &&& size > 8 ==> ports.len() == 8
            &&& base < size ==> ports[0] == start + base
            &&& 0 <= k && k + 1 < ports.len() ==> ports[k + 1] == (if ports[k] == end {
                start as int
            } else {
                ports[k] + 1
            })
        }),
{
    let len = end - start + 1;
    if base < len {
        vstd::arithmetic::div_mod::lemma_small_mod(base, len as nat);
    }
    if 0 <= k && k + 1 < range_ports(start, end, base).len() {
        let x = base + k;
        vstd::arithmetic::div_mod::lemma_mod_bound(x, len);
        vstd::arithmetic::div_mod::lemma_mod_bound(x + 1, len);
        lemma_next_place(x, len);
    }
}

proof fn lemma_next_place(x: int, m: int)
    requires
        m > 0,
        x >= 0,
    ensures
        (x + 1) % m == (if x % m + 1 == m {
            0
        } else {
            x % m + 1
        }),
{
    vstd::arithmetic::div_mod::lemma_fundamental_div_mod(x, m);
    let q = x / m;
    if x % m + 1 == m {
        assert(x + 1 == (q + 1) * m) by (nonlinear_arith)
            requires
                x == m * q + x % m,
                x % m + 1 == m,
        ;
        vstd::arithmetic::div_mod::lemma_mod_multiples_basic(q + 1, m);
    } else {
        vstd::arithmetic::div_mod::lemma_mod_bound(x, m);
        assert(x + 1 == q * m + (x % m + 1)) by (nonlinear_arith)
            requires
                x == m * q + x % m,
        ;
        vstd::arithmetic::div_mod::lemma_fundamental_div_mod_converse(x + 1, m, q, x % m + 1);
    }
}

/// The first connection of a task prefers the port of the range at its own place, and each
/// reconnect steps on by the number of tasks.
pub proof fn law_places_in_a_range(start: u16, end: u16, total: nat, global: nat, generation: u64)
    requires
        start <= end,
    ensures
        global <= end - start ==> range_base(start, end, total, global, 0) == global,
        (generation + 1) * total <= u64::MAX && generation < u64::MAX ==> range_base(
            start,
            end,
            total,
            global,
            (generation + 1) as u64,
        ) == (range_base(start, end, total, global, generation) + total) % ((end - start + 1) as nat),
{
    let n = end - start + 1;
    assert(0nat * total == 0) by (nonlinear_arith);
    vstd::arithmetic::div_mod::lemma_small_mod(0, 0x1_0000_0000_0000_0000);
    if global <= end - start {
        vstd::arithmetic::div_mod::lemma_small_mod(global, n as nat);
    }
    if (generation + 1) * total <= u64::MAX && generation < u64::MAX {
        assert((generation + 1) * total == generation * total + total) by (nonlinear_arith);
        assert(generation * total >= 0) by (nonlinear_arith);
        vstd::arithmetic::div_mod::lemma_small_mod(
            (generation as nat * total) as nat,
            0x1_0000_0000_0000_0000,
        );
        vstd::arithmetic::div_mod::lemma_small_mod(
            ((generation + 1) as nat * total) as nat,
            0x1_0000_0000_0000_0000,
        );
        let at = global + generation as nat * total;
        vstd::arithmetic::div_mod::lemma_add_mod_noop(at as int, total as int, n);
        vstd::arithmetic::div_mod::lemma_add_mod_noop(at as int % n, total as int, n);
        vstd::arithmetic::div_mod::lemma_mod_twice(at as int, n);
    }
}

/// Connections that are not kept open, and runs without any, leave the source address to the
/// kernel. With an address alone the kernel picks the port. With a list or a range of ports
/// there are one to eight addresses, all of them on the host that is asked for.
pub proof fn law_source_addresses(opts: Options, cid: usize, generation: u64, list: Seq<SocketAddr>, i: int)
    requires
        is_source_list(opts, cid, generation, list),
        sources_valid(opts),
    ensures
        opts.rpc != u32::MAX || opts.total_connections == 0 ==> list.len() == 0,
        opts.rss is None && opts.local_port_range is None && opts.local_addr is None ==> list.len() == 0,
        opts.rpc == u32::MAX && opts.total_connections > 0 && opts.rss is None && opts.local_port_range
            is None && opts.local_addr is Some ==> list.len() == 1 && list[0].ip == opts.local_addr->0
            && list[0].port == 0,
        opts.rpc == u32::MAX && opts.total_connections > 0 && opts.rss is Some ==> 1 <= list.len() && (0
            <= i < list.len() ==> list[i].ip == opts.rss->0.src && opts.rss->0.ports@.contains(
            list[i].port,
        )),
        opts.rpc == u32::MAX && opts.total_connections > 0 && opts.rss is None && opts.local_port_range
            is Some ==> 1 <= list.len() <= 8 && (0 <= i < list.len() ==> (opts.local_port_range->0).0
            <= list[i].port <= (opts.local_port_range->0).1 && (opts.local_addr is Some ==> list[i].ip
            == opts.local_addr->0)),
{
    let total = opts.total_connections as nat;
    let global = (opts.conn_base + cid) as nat;
    if opts.rpc == u32::MAX && opts.total_connections > 0 {
        if let Some(rss) = opts.rss {
            let n = MAX_BIND_CANDIDATES as nat;
            let ports = tried_ports(rss, total, global, generation, n);
            if 0 <= i < list.len() {
                law_ports_at_the_places_are_tried(rss, total, global, generation, n, ports[i]);
                assert(ports.contains(ports[i]));
                let j = choose|j: nat|
                    j < n && rss.ports@[(#[trigger] port_index(rss, total, global, generation, j)) as int]
                        == ports[i];
                let at = global + stepped(generation, lap(total, stride(rss))) + j * stride(rss);
                assert(j * stride(rss) >= 0) by (nonlinear_arith);
                vstd::arithmetic::div_mod::lemma_mod_bound(at as int, rss.ports@.len() as int);
                assert(rss.ports@[port_index(rss, total, global, generation, j) as int] == ports[i]);
            }
            law_ports_at_the_places_are_tried(rss, total, global, generation, n, 0);
        } else if let Some((start, end)) = opts.local_port_range {
            let base = range_base(start, end, total, global, generation);
            law_range_is_honored(start, end, base);
        }
    }
}

} // verus!
