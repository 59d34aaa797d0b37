//! Source ports that spread over the receive queues of a server.
use crate::net::IpAddr;
use crate::rss::toeplitz;
use vstd::multiset::Multiset;
use vstd::prelude::*;

verus! {

// ---------------------------------------------------------------------------
// The queue of a connection
// ---------------------------------------------------------------------------

/// The two bytes of a port, in network order.
pub open spec fn port_bytes(port: u16) -> Seq<u8> {
    seq![(port / 256) as u8, (port % 256) as u8]
}

/// What the hash of a connection goes over: the two addresses, then the two
/// ports. Addresses of different families have no hash.
pub open spec fn rss_input(src: IpAddr, dst: IpAddr, sport: u16, dport: u16) -> Option<Seq<u8>> {
    match (src, dst) {
        (IpAddr::V4(s), IpAddr::V4(d)) => Some(s@ + d@ + port_bytes(sport) + port_bytes(dport)),
        (IpAddr::V6(s), IpAddr::V6(d)) => Some(s@ + d@ + port_bytes(sport) + port_bytes(dport)),
        _ => None,
    }
}

/// The queue that the indirection table assigns to a hash.
pub open spec fn queue_at(indir: Seq<u32>, hash: u32) -> u32 {
    indir[hash as int % indir.len() as int]
}

/// The receive queue that a server picks for a connection. There is none without
/// a key, without a table, or between addresses of different families.
pub open spec fn queue_of(
    key: Seq<u8>,
    indir: Seq<u32>,
    src: IpAddr,
    dst: IpAddr,
    sport: u16,
    dport: u16,
) -> Option<u32> {
    if key.len() == 0 || indir.len() == 0 {
        None
    } else {
        match rss_input(src, dst, sport, dport) {
            Some(input) => Some(queue_at(indir, toeplitz::toeplitz(key, input))),
            None => None,
        }
    }
}

/// Writes the input of the hash to the start of `buf` and returns its length,
/// which is 0 where the addresses are of different families.
pub fn write_rss_input(
    src: &IpAddr,
    dst: &IpAddr,
    sport: u16,
    dport: u16,
    buf: &mut [u8; 36],
) -> (n: usize)
    ensures
        match rss_input(*src, *dst, sport, dport) {
            Some(input) => {
                &&& n == input.len()
                &&& final(buf)@ == input + old(buf)@.skip(input.len() as int)
            },
            None => n == 0 && final(buf)@ == old(buf)@,
        },
{
    let ghost start = buf@;
    match (src, dst) {
        (IpAddr::V4(s), IpAddr::V4(d)) => {
            let mut i: usize = 0;
            while i < 4
                invariant
                    i <= 4,
                    buf@.len() == 36,
                    buf@ == s@.take(i as int) + start.subrange(i as int, 4) + d@.take(i as int)
                        + start.subrange(4 + i as int, 8) + start.skip(8),
                    start.len() == 36,
                decreases 4 - i,
            {
                buf[i] = s[i];
                buf[4 + i] = d[i];
                i += 1;
                assert(buf@ == s@.take(i as int) + start.subrange(i as int, 4) + d@.take(i as int)
                    + start.subrange(4 + i as int, 8) + start.skip(8));
            }
            buf[8] = (sport / 256) as u8;
            buf[9] = (sport % 256) as u8;
            buf[10] = (dport / 256) as u8;
            buf[11] = (dport % 256) as u8;
            assert(buf@ == (s@ + d@ + port_bytes(sport) + port_bytes(dport)) + start.skip(12));
            12
        },
        (IpAddr::V6(s), IpAddr::V6(d)) => {
            let mut i: usize = 0;
            while i < 16
                invariant
                    i <= 16,
                    buf@.len() == 36,
                    buf@ == s@.take(i as int) + start.subrange(i as int, 16) + d@.take(i as int)
                        + start.subrange(16 + i as int, 32) + start.skip(32),
                    start.len() == 36,
                decreases 16 - i,
            {
                buf[i] = s[i];
                buf[16 + i] = d[i];
                i += 1;
                assert(buf@ == s@.take(i as int) + start.subrange(i as int, 16) + d@.take(i as int)
                    + start.subrange(16 + i as int, 32) + start.skip(32));
            }
            buf[32] = (sport / 256) as u8;
            buf[33] = (sport % 256) as u8;
            buf[34] = (dport / 256) as u8;
            buf[35] = (dport % 256) as u8;
            assert(buf@ == (s@ + d@ + port_bytes(sport) + port_bytes(dport)) + start.skip(36));
            36
        },
        _ => 0,
    }
}

/// The receive queue that a server picks for a connection.
pub fn rss_queue(
    key: &[u8],
    indir: &[u32],
    src: &IpAddr,
    dst: &IpAddr,
    sport: u16,
    dport: u16,
) -> (q: Option<u32>)
    requires
        indir.len() <= u32::MAX,
    ensures
        q == queue_of(key@, indir@, *src, *dst, sport, dport),
{
    if key.len() == 0 || indir.len() == 0 {
        return None;
    }
    let mut buf: [u8; 36] = [0;36];
    let len: usize = write_rss_input(src, dst, sport, dport, &mut buf);
    if len == 0 {
        return None;
    }
    let input: &[u8] = &buf.as_slice()[0..len];
    assert(input@ == rss_input(*src, *dst, sport, dport)->0);
    let hash: u32 = toeplitz::toeplitz_hash(key, input);
    Some(indir[(hash % indir.len() as u32) as usize])
}

// ---------------------------------------------------------------------------
// Ports by queue, and the round robin over the queues
// ---------------------------------------------------------------------------

/// A queue and the ports that hash to it, in the order of the candidates.
pub type Bucket = (u32, Seq<u16>);

/// The buckets with `port` added to that of queue `q`. The queues ascend.
pub open spec fn placed(buckets: Seq<Bucket>, q: u32, port: u16) -> Seq<Bucket>
    decreases buckets.len(),
{
    if buckets.len() == 0 {
        seq![(q, seq![port])]
    } else if buckets.last().0 == q {
        buckets.drop_last().push((q, buckets.last().1.push(port)))
    } else if buckets.last().0 < q {
        buckets.push((q, seq![port]))
    } else {
        placed(buckets.drop_last(), q, port).push(buckets.last())
    }
}

/// The candidates by queue, where `queue` gives the queue of each port.
pub open spec fn buckets_of(candidates: Seq<u16>, queue: spec_fn(u16) -> u32) -> Seq<Bucket>
    decreases candidates.len(),
{
    if candidates.len() == 0 {
        Seq::empty()
    } else {
        placed(
            buckets_of(candidates.drop_last(), queue),
            queue(candidates.last()),
            candidates.last(),
        )
    }
}

/// What round `r` takes from the first `k` buckets: one port of each that has
/// one left, with its queue.
pub open spec fn round_part(buckets: Seq<Bucket>, r: nat, k: nat) -> Seq<(u16, u32)>
    decreases k,
{
    if k == 0 {
        Seq::empty()
    } else {
        let b = buckets[k - 1];
        if r < b.1.len() {
            round_part(buckets, r, (k - 1) as nat).push((b.1[r as int], b.0))
        } else {
            round_part(buckets, r, (k - 1) as nat)
        }
    }
}

/// What the first `n` rounds take.
pub open spec fn rounds(buckets: Seq<Bucket>, n: nat) -> Seq<(u16, u32)>
    decreases n,
{
    if n == 0 {
        Seq::empty()
    } else {
        rounds(buckets, (n - 1) as nat) + round_part(buckets, (n - 1) as nat, buckets.len())
    }
}

/// The queue of each source port, for a connection that has a hash.
pub open spec fn port_queue(
    key: Seq<u8>,
    indir: Seq<u32>,
    src: IpAddr,
    dst: IpAddr,
    dport: u16,
) -> spec_fn(u16) -> u32 {
    |port: u16| queue_of(key, indir, src, dst, port, dport)->0
}

/// The candidates by the queue that the server picks for them.
pub open spec fn port_buckets(
    key: Seq<u8>,
    indir: Seq<u32>,
    src: IpAddr,
    dst: IpAddr,
    dport: u16,
    candidates: Seq<u16>,
) -> Seq<Bucket> {
    buckets_of(candidates, port_queue(key, indir, src, dst, dport))
}

/// The balanced list: the candidates with their queues, one of each queue in
/// turn. It is empty where the connection has no hash.
pub open spec fn balanced(
    key: Seq<u8>,
    indir: Seq<u32>,
    src: IpAddr,
    dst: IpAddr,
    dport: u16,
    candidates: Seq<u16>,
) -> Seq<(u16, u32)> {
    if key.len() == 0 || indir.len() == 0 || !src.same_family(dst) {
        Seq::empty()
    } else {
        rounds(port_buckets(key, indir, src, dst, dport, candidates), candidates.len())
    }
}

/// The ports of a list.
pub open spec fn ports_in(plan: Seq<(u16, u32)>) -> Seq<u16> {
    plan.map_values(|e: (u16, u32)| e.0)
}

/// The queues of a list.
pub open spec fn queues_in(plan: Seq<(u16, u32)>) -> Seq<u32> {
    plan.map_values(|e: (u16, u32)| e.1)
}

/// Whether the queues of the buckets ascend strictly and no bucket is empty.
pub open spec fn ordered(buckets: Seq<Bucket>) -> bool {
    &&& forall|i: int, j: int| 0 <= i < j < buckets.len() ==> buckets[i].0 < buckets[j].0
    &&& forall|i: int| 0 <= i < buckets.len() ==> (#[trigger] buckets[i]).1.len() > 0
}

proof fn lemma_placed(buckets: Seq<Bucket>, q: u32, port: u16)
    requires
        ordered(buckets),
    ensures
        ordered(placed(buckets, q, port)),
        placed(buckets, q, port).len() <= buckets.len() + 1,
        placed(buckets, q, port).len() > 0,
        placed(buckets, q, port).last().0 == (if buckets.len() > 0 && buckets.last().0 > q {
            buckets.last().0
        } else {
            q
        }),
    decreases buckets.len(),
{
    if buckets.len() == 0 {
    } else if buckets.last().0 <= q {
    } else {
        let front = buckets.drop_last();
        lemma_placed(front, q, port);
    }
}

proof fn lemma_buckets_ordered(candidates: Seq<u16>, queue: spec_fn(u16) -> u32)
    ensures
        ordered(buckets_of(candidates, queue)),
    decreases candidates.len(),
{
    if candidates.len() > 0 {
        lemma_buckets_ordered(candidates.drop_last(), queue);
        lemma_placed(
            buckets_of(candidates.drop_last(), queue),
            queue(candidates.last()),
            candidates.last(),
        );
    }
}

/// Where queue `q` stands, or would stand, in ascending buckets: `placed` adds
/// to the bucket there, or opens one there.
proof fn lemma_placed_at(buckets: Seq<Bucket>, q: u32, port: u16, at: int)
    requires
        0 <= at <= buckets.len(),
        forall|i: int| 0 <= i < at ==> (#[trigger] buckets[i]).0 < q,
        forall|i: int| at <= i < buckets.len() ==> (#[trigger] buckets[i]).0 >= q,
        ordered(buckets),
    ensures
        at < buckets.len() && buckets[at].0 == q ==> placed(buckets, q, port) == buckets.update(
            at,
            (q, buckets[at].1.push(port)),
        ),
        at == buckets.len() || buckets[at].0 != q ==> placed(buckets, q, port) == buckets.insert(
            at,
            (q, seq![port]),
        ),
    decreases buckets.len(),
{
    if buckets.len() == 0 {
        assert(placed(buckets, q, port) == buckets.insert(at, (q, seq![port])));
    } else if buckets.last().0 == q {
        assert(at == buckets.len() - 1) by {
            if at == buckets.len() {
                assert(buckets[at - 1].0 < q);
            } else if at < buckets.len() - 1 {
                assert(buckets[at].0 < buckets[buckets.len() - 1].0);
            }
        }
        assert(placed(buckets, q, port) == buckets.update(at, (q, buckets[at].1.push(port))));
    } else if buckets.last().0 < q {
        assert(at == buckets.len()) by {
            if at < buckets.len() {
                assert(buckets[buckets.len() - 1].0 >= q);
            }
        }
        assert(placed(buckets, q, port) == buckets.insert(at, (q, seq![port])));
    } else {
        let front = buckets.drop_last();
        assert(at < buckets.len()) by {
            if at == buckets.len() {
                assert(buckets[at - 1].0 < q);
            }
        }
        assert forall|i: int| 0 <= i < at implies (#[trigger] front[i]).0 < q by {
            assert(front[i] == buckets[i]);
        }
        assert forall|i: int| at <= i < front.len() implies (#[trigger] front[i]).0 >= q by {
            assert(front[i] == buckets[i]);
        }
        lemma_placed_at(front, q, port, at);
        if at < front.len() && front[at].0 == q {
            assert(placed(buckets, q, port) == buckets.update(at, (q, buckets[at].1.push(port))));
        } else {
            assert(placed(buckets, q, port) == buckets.insert(at, (q, seq![port])));
        }
    }
}

/// The hash of a connection is that with source port 0, and the shares of the
/// two bytes of the source port.
proof fn lemma_hash_by_port(key: Seq<u8>, src: IpAddr, dst: IpAddr, sport: u16, dport: u16, at: nat)
    requires
        src.same_family(dst),
        at == (if src is V4 {
            8nat
        } else {
            32nat
        }),
    ensures
        toeplitz::toeplitz(key, rss_input(src, dst, sport, dport)->0) == toeplitz::toeplitz(
            key,
            rss_input(src, dst, 0, dport)->0,
        ) ^ toeplitz::byte_share(key, (sport / 256) as u8, at) ^ toeplitz::byte_share(
            key,
            (sport % 256) as u8,
            (at + 1) as nat,
        ),
{
    let a = rss_input(src, dst, sport, dport)->0;
    let z = rss_input(src, dst, 0, dport)->0;
    let n = a.len();
    let hi = (sport / 256) as u8;
    let lo = (sport % 256) as u8;
    assert(n == at + 4 && z.len() == n);
    assert(a[at as int] == hi && a[at as int + 1] == lo);
    assert(z[at as int] == 0 && z[at as int + 1] == 0);
    assert forall|i: int| 0 <= i < n && i != at && i != at + 1 implies #[trigger] a[i] == z[i] by {}
    lemma_hash_parts(key, a, at);
    lemma_hash_parts(key, z, at);
    toeplitz::lemma_partial_hash_local(key, a, z, 0, 8 * at);
    toeplitz::lemma_partial_hash_local(key, a, z, 8 * at + 16, 8 * n);
    toeplitz::lemma_zero_byte(key, at, 8);
    toeplitz::lemma_zero_byte(key, (at + 1) as nat, 8);
    let p = toeplitz::partial_hash(key, a, 0, 8 * at);
    let d = toeplitz::partial_hash(key, a, 8 * at + 16, 8 * n);
    let h = toeplitz::byte_share(key, hi, at);
    let l = toeplitz::byte_share(key, lo, (at + 1) as nat);
    assert(((p ^ h) ^ l) ^ d == ((((p ^ 0) ^ 0) ^ d) ^ h) ^ l) by (bit_vector);
}

/// The hash of an input, parted at the bytes `at` and `at + 1`.
proof fn lemma_hash_parts(key: Seq<u8>, s: Seq<u8>, at: nat)
    requires
        at + 2 <= s.len(),
    ensures
        toeplitz::toeplitz(key, s) == ((toeplitz::partial_hash(key, s, 0, 8 * at)
            ^ toeplitz::byte_share(key, s[at as int], at)) ^ toeplitz::byte_share(
            key,
            s[at as int + 1],
            (at + 1) as nat,
        )) ^ toeplitz::partial_hash(key, s, 8 * at + 16, 8 * s.len()),
{
    let n = s.len();
    toeplitz::lemma_partial_hash_splits(key, s, 0, 8 * at + 16, 8 * n);
    toeplitz::lemma_partial_hash_splits(key, s, 0, 8 * at + 8, 8 * at + 16);
    toeplitz::lemma_partial_hash_splits(key, s, 0, 8 * at, 8 * at + 8);
    toeplitz::lemma_partial_hash_byte(key, s, at, 8);
    toeplitz::lemma_partial_hash_byte(key, s, (at + 1) as nat, 8);
}

/// The buckets that a list of queues and a list of port lists hold.
spec fn shown(order: Seq<u32>, lists: Seq<Vec<u16>>) -> Seq<Bucket> {
    Seq::new(order.len(), |i: int| (order[i], lists[i]@))
}

/// Adds a port to the bucket of its queue.
fn place(order: &mut Vec<u32>, lists: &mut Vec<Vec<u16>>, q: u32, port: u16)
    requires
        old(order).len() == old(lists).len(),
        ordered(shown(old(order)@, old(lists)@)),
    ensures
        final(order).len() == final(lists).len(),
        shown(final(order)@, final(lists)@) == placed(shown(old(order)@, old(lists)@), q, port),
{
    let ghost before = shown(order@, lists@);
    let mut at: usize = 0;
    while at < order.len() && order[at] < q
        invariant
            at <= order.len(),
            order.len() == lists.len(),
            before == shown(order@, lists@),
            forall|i: int| 0 <= i < at ==> (#[trigger] before[i]).0 < q,
        decreases order.len() - at,
    {
        assert(before[at as int].0 == order@[at as int]);
        at += 1;
    }
    proof {
        assert forall|i: int| at <= i < before.len() implies (#[trigger] before[i]).0 >= q by {
            assert(before[at as int].0 == order@[at as int]);
            if i > at {
                assert(before[at as int].0 < before[i].0);
            }
        }
        lemma_placed_at(before, q, port, at as int);
    }
    if at < order.len() && order[at] == q {
        assert(before[at as int].0 == q);
        lists[at].push(port);
        assert(shown(order@, lists@) == before.update(at as int, (q, before[at as int].1.push(port))));
    } else {
        if at < order.len() {
            assert(before[at as int].0 == order@[at as int]);
        }
        let mut list: Vec<u16> = Vec::new();
        list.push(port);
        assert(list@ == seq![port]);
        order.insert(at, q);
        lists.insert(at, list);
        assert(shown(order@, lists@) == before.insert(at as int, (q, seq![port])));
    }
}

/// The share of each value of the byte at place `at` of the input.
fn share_table(key: &[u8], at: usize) -> (table: Vec<u32>)
    requires
        key.len() > 0,
    ensures
        table.len() == 256,
        forall|b: int|
            0 <= b < 256 ==> #[trigger] table@[b] == toeplitz::byte_share(
                key@,
                b as u8,
                at as nat,
            ),
{
    let mut table: Vec<u32> = Vec::new();
    let mut b: u16 = 0;
    while b < 256
        invariant
            key.len() > 0,
            b <= 256,
            table.len() == b,
            forall|i: int|
                0 <= i < b ==> #[trigger] table@[i] == toeplitz::byte_share(
                    key@,
                    i as u8,
                    at as nat,
                ),
        decreases 256 - b,
    {
        table.push(toeplitz::byte_hash(key, b as u8, at));
        b += 1;
    }
    table
}

/// Every bucket holds at most as many ports as there are candidates.
proof fn lemma_bucket_sizes(candidates: Seq<u16>, queue: spec_fn(u16) -> u32)
    ensures
        forall|i: int|
            0 <= i < buckets_of(candidates, queue).len() ==> (#[trigger] buckets_of(
                candidates,
                queue,
            )[i]).1.len() <= candidates.len(),
    decreases candidates.len(),
{
    if candidates.len() > 0 {
        let front = candidates.drop_last();
        lemma_bucket_sizes(front, queue);
        lemma_placed_sizes(
            buckets_of(front, queue),
            queue(candidates.last()),
            candidates.last(),
            front.len(),
        );
    }
}

proof fn lemma_placed_sizes(buckets: Seq<Bucket>, q: u32, port: u16, n: nat)
    requires
        forall|i: int| 0 <= i < buckets.len() ==> (#[trigger] buckets[i]).1.len() <= n,
    ensures
        forall|i: int|
            0 <= i < placed(buckets, q, port).len() ==> (#[trigger] placed(
                buckets,
                q,
                port,
            )[i]).1.len() <= n + 1,
    decreases buckets.len(),
{
    if buckets.len() > 0 {
        let front = buckets.drop_last();
        assert forall|i: int| 0 <= i < front.len() implies (#[trigger] front[i]).1.len() <= n by {
            assert(front[i] == buckets[i]);
        }
        assert(buckets[buckets.len() - 1].1.len() <= n);
        lemma_placed_sizes(front, q, port, n);
        let all = placed(buckets, q, port);
        assert forall|i: int| 0 <= i < all.len() implies (#[trigger] all[i]).1.len() <= n + 1 by {
            if i < all.len() - 1 {
                if buckets.last().0 == q {
                    assert(all[i] == front[i]);
                } else if buckets.last().0 < q {
                    assert(all[i] == buckets[i]);
                } else {
                    assert(all[i] == placed(front, q, port)[i]);
                }
            }
        }
    }
}

/// A round that no bucket reaches takes nothing.
proof fn lemma_empty_round(buckets: Seq<Bucket>, r: nat, k: nat)
    requires
        k <= buckets.len(),
        forall|i: int| 0 <= i < k ==> (#[trigger] buckets[i]).1.len() <= r,
    ensures
        round_part(buckets, r, k).len() == 0,
    decreases k,
{
    if k > 0 {
        assert(buckets[k - 1].1.len() <= r);
        lemma_empty_round(buckets, r, (k - 1) as nat);
    }
}

/// Once every bucket is exhausted, further rounds take nothing.
proof fn lemma_rounds_end(buckets: Seq<Bucket>, r: nat, n: nat)
    requires
        r <= n,
        forall|i: int| 0 <= i < buckets.len() ==> (#[trigger] buckets[i]).1.len() <= r,
    ensures
        rounds(buckets, n) == rounds(buckets, r),
    decreases n,
{
    if n > r {
        lemma_rounds_end(buckets, r, (n - 1) as nat);
        lemma_empty_round(buckets, (n - 1) as nat, buckets.len());
        assert(rounds(buckets, n) == rounds(buckets, r));
    }
}

/// Takes one port of each bucket in turn, round after round, until all are
/// exhausted.
fn interleave(order: &Vec<u32>, lists: &Vec<Vec<u16>>, most: usize) -> (r: (Vec<u16>, Vec<u32>))
    requires
        order.len() == lists.len(),
        forall|i: int| 0 <= i < lists.len() ==> (#[trigger] lists@[i]).len() <= most,
    ensures
        r.0@ == ports_in(rounds(shown(order@, lists@), most as nat)),
        r.1@ == queues_in(rounds(shown(order@, lists@), most as nat)),
{
    let ghost buckets = shown(order@, lists@);
    let mut ports: Vec<u16> = Vec::new();
    let mut queues: Vec<u32> = Vec::new();
    let mut round: usize = 0;
    let ghost mut plan: Seq<(u16, u32)> = Seq::empty();
    loop
        invariant
            order.len() == lists.len(),
            buckets == shown(order@, lists@),
            forall|i: int| 0 <= i < lists.len() ==> (#[trigger] lists@[i]).len() <= most,
            round <= most,
            plan == rounds(buckets, round as nat),
            ports@ == ports_in(plan),
            queues@ == queues_in(plan),
        ensures
            plan == rounds(buckets, most as nat),
            ports@ == ports_in(plan),
            queues@ == queues_in(plan),
        decreases most - round,
    {
        let mut progress: bool = false;
        let mut k: usize = 0;
        assert(plan == rounds(buckets, round as nat) + round_part(buckets, round as nat, 0));
        while k < order.len()
            invariant
                k <= order.len(),
                order.len() == lists.len(),
                buckets == shown(order@, lists@),
                forall|i: int| 0 <= i < lists.len() ==> (#[trigger] lists@[i]).len() <= most,
                round <= most,
                progress ==> round < most,
                !progress ==> forall|i: int| 0 <= i < k ==> (#[trigger] buckets[i]).1.len() <= round,
                plan == rounds(buckets, round as nat) + round_part(buckets, round as nat, k as nat),
                ports@ == ports_in(plan),
                queues@ == queues_in(plan),
            decreases order.len() - k,
        {
            assert(buckets[k as int] == (order@[k as int], lists@[k as int]@));
            if round < lists[k].len() {
                let port: u16 = lists[k][round];
                let q: u32 = order[k];
                ports.push(port);
                queues.push(q);
                proof {
                    plan = plan.push((port, q));
                }
                assert(ports@ == ports_in(plan));
                assert(queues@ == queues_in(plan));
                progress = true;
            }
            k += 1;
        }
        if !progress {
            proof {
                lemma_rounds_end(buckets, round as nat, most as nat);
                lemma_empty_round(buckets, round as nat, buckets.len());
                assert(plan == rounds(buckets, round as nat));
            }
            break;
        }
        round += 1;
    }
    (ports, queues)
}

/// The candidates in an order that spreads them evenly over the receive queues
/// of the server, and the queue of each.
///
/// The hash is linear over its input bits. The addresses and the destination
/// port add the same to the hash of every candidate, and each of the two bytes
/// of the source port adds what a table of 256 entries holds for it. So each
/// candidate costs two lookups and two exclusive ors.
pub fn build_balanced_ports(
    key: &[u8],
    indir: &[u32],
    src: IpAddr,
    dst: IpAddr,
    dport: u16,
    candidates: &[u16],
) -> (r: (Vec<u16>, Vec<u32>))
    requires
        indir.len() <= u32::MAX,
    ensures
        r.0@ == ports_in(balanced(key@, indir@, src, dst, dport, candidates@)),
        r.1@ == queues_in(balanced(key@, indir@, src, dst, dport, candidates@)),
{
    if key.len() == 0 || indir.len() == 0 {
        return (Vec::new(), Vec::new());
    }
    let mut buf: [u8; 36] = [0;36];
    let len: usize = write_rss_input(&src, &dst, 0, dport, &mut buf);
    if len == 0 {
        return (Vec::new(), Vec::new());
    }
    let input: &[u8] = &buf.as_slice()[0..len];
    assert(input@ == rss_input(src, dst, 0, dport)->0);
    let fixed: u32 = toeplitz::toeplitz_hash(key, input);
    let at: usize = if src.is_ipv4() {
        8
    } else {
        32
    };
    let hi_table = share_table(key, at);
    let lo_table = share_table(key, at + 1);
    let indir_len: u32 = indir.len() as u32;
    let ghost queue = port_queue(key@, indir@, src, dst, dport);
    let mut order: Vec<u32> = Vec::new();
    let mut lists: Vec<Vec<u16>> = Vec::new();
    let mut i: usize = 0;
    assert(shown(order@, lists@) == Seq::<Bucket>::empty());
    while i < candidates.len()
        invariant
            i <= candidates.len(),
            key.len() > 0,
            0 < indir.len() == indir_len,
            src.same_family(dst),
            at == (if src is V4 {
                8usize
            } else {
                32usize
            }),
            fixed == toeplitz::toeplitz(key@, rss_input(src, dst, 0, dport)->0),
            hi_table.len() == 256,
            lo_table.len() == 256,
            forall|b: int|
                0 <= b < 256 ==> #[trigger] hi_table@[b] == toeplitz::byte_share(
                    key@,
                    b as u8,
                    at as nat,
                ),
            forall|b: int|
                0 <= b < 256 ==> #[trigger] lo_table@[b] == toeplitz::byte_share(
                    key@,
                    b as u8,
                    (at + 1) as nat,
                ),
            queue == port_queue(key@, indir@, src, dst, dport),
            order.len() == lists.len(),
            shown(order@, lists@) == buckets_of(candidates@.take(i as int), queue),
        decreases candidates.len() - i,
    {
        let port: u16 = candidates[i];
        let hi: u32 = hi_table[(port / 256) as usize];
        let lo: u32 = lo_table[(port % 256) as usize];
        let hash: u32 = fixed ^ hi ^ lo;
        let q: u32 = indir[(hash % indir_len) as usize];
        proof {
            lemma_hash_by_port(key@, src, dst, port, dport, at as nat);
            lemma_buckets_ordered(candidates@.take(i as int), queue);
            assert(q == queue(port));
            assert(candidates@.take(i + 1).drop_last() == candidates@.take(i as int));
        }
        place(&mut order, &mut lists, q, port);
        i += 1;
    }
    proof {
        assert(candidates@.take(candidates@.len() as int) == candidates@);
        lemma_bucket_sizes(candidates@, queue);
        let buckets = shown(order@, lists@);
        assert forall|j: int| 0 <= j < lists.len() implies (#[trigger] lists@[j]).len()
            <= candidates@.len() by {
            assert(buckets[j].1 == lists@[j]@);
        }
    }
    interleave(&order, &lists, candidates.len())
}

// ---------------------------------------------------------------------------
// What holds of the balanced list
// ---------------------------------------------------------------------------

/// Whether every port stands in the bucket of its queue.
pub open spec fn sorted_out(buckets: Seq<Bucket>, queue: spec_fn(u16) -> u32) -> bool {
    forall|i: int, j: int|
        0 <= i < buckets.len() && 0 <= j < buckets[i].1.len() ==> queue(
            #[trigger] buckets[i].1[j],
        ) == buckets[i].0
}

proof fn lemma_placed_sorted_out(
    buckets: Seq<Bucket>,
    queue: spec_fn(u16) -> u32,
    port: u16,
)
    requires
        sorted_out(buckets, queue),
    ensures
        sorted_out(placed(buckets, queue(port), port), queue),
    decreases buckets.len(),
{
    let q = queue(port);
    let all = placed(buckets, q, port);
    if buckets.len() > 0 {
        let front = buckets.drop_last();
        assert(sorted_out(front, queue)) by {
            assert forall|i: int, j: int|
                0 <= i < front.len() && 0 <= j < front[i].1.len() implies queue(
                #[trigger] front[i].1[j],
            ) == front[i].0 by {
                assert(front[i] == buckets[i]);
                assert(queue(buckets[i].1[j]) == buckets[i].0);
            }
        }
        lemma_placed_sorted_out(front, queue, port);
        let below = placed(front, q, port);
        assert forall|i: int, j: int| 0 <= i < all.len() && 0 <= j < all[i].1.len() implies queue(
            #[trigger] all[i].1[j],
        ) == all[i].0 by {
            let last = buckets.len() - 1;
            if buckets.last().0 == q {
                if i < last {
                    assert(all[i] == front[i]);
                    assert(queue(front[i].1[j]) == front[i].0);
                } else if j < buckets.last().1.len() {
                    assert(queue(buckets[last].1[j]) == buckets[last].0);
                }
            } else if buckets.last().0 < q {
                if i <= last {
                    assert(all[i] == buckets[i]);
                    assert(queue(buckets[i].1[j]) == buckets[i].0);
                }
            } else {
                if i < below.len() {
                    assert(all[i] == below[i]);
                    assert(queue(below[i].1[j]) == below[i].0);
                } else {
                    assert(queue(buckets[last].1[j]) == buckets[last].0);
                }
            }
        }
    }
}

proof fn lemma_buckets_sorted_out(candidates: Seq<u16>, queue: spec_fn(u16) -> u32)
    ensures
        sorted_out(buckets_of(candidates, queue), queue),
    decreases candidates.len(),
{
    if candidates.len() > 0 {
        let front = candidates.drop_last();
        lemma_buckets_sorted_out(front, queue);
        lemma_placed_sorted_out(buckets_of(front, queue), queue, candidates.last());
    }
}

proof fn lemma_round_sorted_out(
    buckets: Seq<Bucket>,
    queue: spec_fn(u16) -> u32,
    r: nat,
    k: nat,
)
    requires
        sorted_out(buckets, queue),
        k <= buckets.len(),
    ensures
        forall|i: int|
            0 <= i < round_part(buckets, r, k).len() ==> queue(
                (#[trigger] round_part(buckets, r, k)[i]).0,
            ) == round_part(buckets, r, k)[i].1,
    decreases k,
{
    if k > 0 {
        lemma_round_sorted_out(buckets, queue, r, (k - 1) as nat);
        let b = buckets[k - 1];
        let front = round_part(buckets, r, (k - 1) as nat);
        let part = round_part(buckets, r, k);
        if r < b.1.len() {
            assert(queue(buckets[k - 1].1[r as int]) == b.0);
        }
        assert forall|i: int| 0 <= i < part.len() implies queue((#[trigger] part[i]).0)
            == part[i].1 by {
            if i < front.len() {
                assert(part[i] == front[i]);
            }
        }
    }
}

proof fn lemma_rounds_sorted_out(buckets: Seq<Bucket>, queue: spec_fn(u16) -> u32, n: nat)
    requires
        sorted_out(buckets, queue),
    ensures
        forall|i: int|
            0 <= i < rounds(buckets, n).len() ==> queue((#[trigger] rounds(buckets, n)[i]).0)
                == rounds(buckets, n)[i].1,
    decreases n,
{
    if n > 0 {
        lemma_rounds_sorted_out(buckets, queue, (n - 1) as nat);
        lemma_round_sorted_out(buckets, queue, (n - 1) as nat, buckets.len());
        let front = rounds(buckets, (n - 1) as nat);
        let part = round_part(buckets, (n - 1) as nat, buckets.len());
        let all = rounds(buckets, n);
        assert forall|i: int| 0 <= i < all.len() implies queue((#[trigger] all[i]).0)
            == all[i].1 by {
            if i < front.len() {
                assert(all[i] == front[i]);
            } else {
                assert(all[i] == part[i - front.len()]);
            }
        }
    }
}

/// Every port of the balanced list hashes to the queue that stands beside it.
pub proof fn law_ports_hash_to_their_queue(
    key: Seq<u8>,
    indir: Seq<u32>,
    src: IpAddr,
    dst: IpAddr,
    dport: u16,
    candidates: Seq<u16>,
    i: int,
)
    requires
        0 <= i < balanced(key, indir, src, dst, dport, candidates).len(),
    ensures
        ({
            let entry = balanced(key, indir, src, dst, dport, candidates)[i];
            queue_of(key, indir, src, dst, entry.0, dport) == Some(entry.1)
        }),
{
    let queue = port_queue(key, indir, src, dst, dport);
    let buckets = buckets_of(candidates, queue);
    lemma_buckets_sorted_out(candidates, queue);
    lemma_rounds_sorted_out(buckets, queue, candidates.len());
    let entry = rounds(buckets, candidates.len())[i];
    assert(queue(entry.0) == entry.1);
}

/// The ports that the first `n` rounds take from the first `k` buckets.
spec fn taken(buckets: Seq<Bucket>, n: nat, k: nat) -> Multiset<u16>
    decreases k,
{
    if k == 0 {
        Multiset::empty()
    } else {
        let ports = buckets[k - 1].1;
        taken(buckets, n, (k - 1) as nat).add(
            ports.take(if n < ports.len() {
                n as int
            } else {
                ports.len() as int
            }).to_multiset(),
        )
    }
}

/// The ports of the first `k` buckets.
spec fn contents(buckets: Seq<Bucket>, k: nat) -> Multiset<u16>
    decreases k,
{
    if k == 0 {
        Multiset::empty()
    } else {
        contents(buckets, (k - 1) as nat).add(buckets[k - 1].1.to_multiset())
    }
}

proof fn lemma_taken_none(buckets: Seq<Bucket>, k: nat)
    requires
        k <= buckets.len(),
    ensures
        taken(buckets, 0, k) == Multiset::<u16>::empty(),
    decreases k,
{
    broadcast use vstd::seq_lib::group_to_multiset_ensures;

    if k > 0 {
        lemma_taken_none(buckets, (k - 1) as nat);
        assert(buckets[k - 1].1.take(0) == Seq::<u16>::empty());
        assert(taken(buckets, 0, k) == Multiset::<u16>::empty());
    }
}

proof fn lemma_taken_all(buckets: Seq<Bucket>, n: nat, k: nat)
    requires
        k <= buckets.len(),
        forall|i: int| 0 <= i < buckets.len() ==> (#[trigger] buckets[i]).1.len() <= n,
    ensures
        taken(buckets, n, k) == contents(buckets, k),
    decreases k,
{
    if k > 0 {
        lemma_taken_all(buckets, n, (k - 1) as nat);
        let ports = buckets[k - 1].1;
        assert(ports.take(ports.len() as int) == ports);
    }
}

proof fn lemma_round_takes(buckets: Seq<Bucket>, r: nat, k: nat)
    requires
        k <= buckets.len(),
    ensures
        taken(buckets, r + 1, k) == taken(buckets, r, k).add(
            ports_in(round_part(buckets, r, k)).to_multiset(),
        ),
    decreases k,
{
    broadcast use vstd::seq_lib::group_to_multiset_ensures;

    if k == 0 {
        assert(ports_in(round_part(buckets, r, k)) == Seq::<u16>::empty());
        assert(taken(buckets, r + 1, k) == taken(buckets, r, k).add(
            ports_in(round_part(buckets, r, k)).to_multiset(),
        ));
    } else {
        let j = (k - 1) as nat;
        lemma_round_takes(buckets, r, j);
        let b = buckets[k - 1];
        let part = round_part(buckets, r, j);
        if r < b.1.len() {
            let e = (b.1[r as int], b.0);
            assert(b.1.take(r as int + 1) == b.1.take(r as int).push(e.0));
            assert(ports_in(part.push(e)) == ports_in(part).push(e.0));
        }
        assert(taken(buckets, r + 1, k) == taken(buckets, r, k).add(
            ports_in(round_part(buckets, r, k)).to_multiset(),
        ));
    }
}

proof fn lemma_rounds_take(buckets: Seq<Bucket>, n: nat)
    ensures
        ports_in(rounds(buckets, n)).to_multiset() == taken(buckets, n, buckets.len()),
    decreases n,
{
    broadcast use vstd::seq_lib::group_to_multiset_ensures;

    if n == 0 {
        lemma_taken_none(buckets, buckets.len());
        assert(ports_in(rounds(buckets, 0)) == Seq::<u16>::empty());
        assert(ports_in(rounds(buckets, n)).to_multiset() == Multiset::<u16>::empty());
    } else {
        let r = (n - 1) as nat;
        lemma_rounds_take(buckets, r);
        lemma_round_takes(buckets, r, buckets.len());
        let a = ports_in(rounds(buckets, r));
        let b = ports_in(round_part(buckets, r, buckets.len()));
        assert(ports_in(rounds(buckets, n)) == a + b);
        vstd::seq_lib::lemma_multiset_commutative(a, b);
    }
}

proof fn lemma_contents_local(a: Seq<Bucket>, b: Seq<Bucket>, k: nat)
    requires
        k <= a.len(),
        k <= b.len(),
        forall|i: int| 0 <= i < k ==> #[trigger] a[i] == b[i],
    ensures
        contents(a, k) == contents(b, k),
    decreases k,
{
    if k > 0 {
        lemma_contents_local(a, b, (k - 1) as nat);
    }
}

proof fn lemma_placed_contents(buckets: Seq<Bucket>, q: u32, port: u16)
    ensures
        contents(placed(buckets, q, port), placed(buckets, q, port).len()) == contents(
            buckets,
            buckets.len(),
        ).insert(port),
    decreases buckets.len(),
{
    broadcast use vstd::seq_lib::group_to_multiset_ensures;

    let all = placed(buckets, q, port);
    let n = buckets.len();
    assert(seq![port] == Seq::<u16>::empty().push(port));
    if n == 0 {
        reveal_with_fuel(contents, 2);
        assert(contents(all, all.len()) == contents(buckets, n).insert(port));
    } else {
        let front = buckets.drop_last();
        lemma_contents_local(front, buckets, (n - 1) as nat);
        if buckets.last().0 == q {
            lemma_contents_local(all, buckets, (n - 1) as nat);
            assert(contents(all, all.len()) == contents(buckets, n).insert(port));
        } else if buckets.last().0 < q {
            lemma_contents_local(all, buckets, n);
            assert(contents(all, all.len()) == contents(buckets, n).insert(port));
        } else {
            let below = placed(front, q, port);
            lemma_placed_contents(front, q, port);
            lemma_contents_local(all, below, below.len());
            assert(contents(all, all.len()) == contents(buckets, n).insert(port));
        }
    }
}

proof fn lemma_buckets_contents(candidates: Seq<u16>, queue: spec_fn(u16) -> u32)
    ensures
        contents(
            buckets_of(candidates, queue),
            buckets_of(candidates, queue).len(),
        ) == candidates.to_multiset(),
    decreases candidates.len(),
{
    broadcast use vstd::seq_lib::group_to_multiset_ensures;

    if candidates.len() == 0 {
        assert(candidates == Seq::<u16>::empty());
    } else {
        let front = candidates.drop_last();
        lemma_buckets_contents(front, queue);
        lemma_placed_contents(
            buckets_of(front, queue),
            queue(candidates.last()),
            candidates.last(),
        );
        assert(candidates == front.push(candidates.last()));
    }
}

/// The balanced list holds the candidates, each as often as it was given, and
/// nothing else.
pub proof fn law_ports_are_the_candidates(
    key: Seq<u8>,
    indir: Seq<u32>,
    src: IpAddr,
    dst: IpAddr,
    dport: u16,
    candidates: Seq<u16>,
)
    requires
        key.len() > 0,
        indir.len() > 0,
        src.same_family(dst),
    ensures
        ports_in(balanced(key, indir, src, dst, dport, candidates)).to_multiset()
            == candidates.to_multiset(),
        balanced(key, indir, src, dst, dport, candidates).len() == candidates.len(),
{
    broadcast use vstd::seq_lib::group_to_multiset_ensures;

    let queue = port_queue(key, indir, src, dst, dport);
    let buckets = buckets_of(candidates, queue);
    let ports = ports_in(balanced(key, indir, src, dst, dport, candidates));
    lemma_bucket_sizes(candidates, queue);
    lemma_rounds_take(buckets, candidates.len());
    lemma_taken_all(buckets, candidates.len(), buckets.len());
    lemma_buckets_contents(candidates, queue);
    assert(ports.len() == ports.to_multiset().len());
}

proof fn lemma_full_round(buckets: Seq<Bucket>, r: nat, k: nat)
    requires
        k <= buckets.len(),
        forall|i: int| 0 <= i < buckets.len() ==> (#[trigger] buckets[i]).1.len() > r,
    ensures
        round_part(buckets, r, k).len() == k,
        forall|i: int| 0 <= i < k ==> (#[trigger] round_part(buckets, r, k)[i]).1 == buckets[i].0,
    decreases k,
{
    if k > 0 {
        lemma_full_round(buckets, r, (k - 1) as nat);
        assert(buckets[k - 1].1.len() > r);
    }
}

proof fn lemma_full_rounds(buckets: Seq<Bucket>, m: nat, n: nat)
    requires
        m <= n,
        forall|i: int| 0 <= i < buckets.len() ==> (#[trigger] buckets[i]).1.len() >= m,
    ensures
        rounds(buckets, n).len() >= buckets.len() * m,
        forall|i: int|
            0 <= i < buckets.len() * m ==> (#[trigger] rounds(buckets, n)[i]).1 == buckets[i
                % buckets.len() as int].0,
        m == n ==> rounds(buckets, n).len() == buckets.len() * m,
    decreases n,
{
    let w = buckets.len();
    if n == 0 {
        assert(w * 0 == 0);
    } else if m < n {
        lemma_full_rounds(buckets, m, (n - 1) as nat);
        let front = rounds(buckets, (n - 1) as nat);
        assert forall|i: int| 0 <= i < w * m implies (#[trigger] rounds(buckets, n)[i]).1
            == buckets[i % w as int].0 by {
            assert(rounds(buckets, n)[i] == front[i]);
        }
    } else {
        let r = (n - 1) as nat;
        lemma_full_rounds(buckets, r, r);
        lemma_full_round(buckets, r, w);
        let front = rounds(buckets, r);
        let part = round_part(buckets, r, w);
        assert(w * n == w * r + w) by (nonlinear_arith)
            requires
                n == r + 1,
        ;
        assert forall|i: int| 0 <= i < w * m implies (#[trigger] rounds(buckets, n)[i]).1
            == buckets[i % w as int].0 by {
            if i < w * r {
                assert(rounds(buckets, n)[i] == front[i]);
            } else {
                let j = i - w * r;
                assert(rounds(buckets, n)[i] == part[j]);
                vstd::arithmetic::div_mod::lemma_fundamental_div_mod_converse(
                    i,
                    w as int,
                    r as int,
                    j,
                );
            }
        }
    }
}

/// As long as every queue that any candidate hashes to has a port left, the
/// queues of the balanced list take turns, in ascending order: where each queue
/// has at least `m` candidates, the first `m` rounds are complete.
pub proof fn law_queues_take_turns(
    key: Seq<u8>,
    indir: Seq<u32>,
    src: IpAddr,
    dst: IpAddr,
    dport: u16,
    candidates: Seq<u16>,
    m: nat,
)
    requires
        key.len() > 0,
        indir.len() > 0,
        src.same_family(dst),
        forall|i: int|
            0 <= i < port_buckets(key, indir, src, dst, dport, candidates).len() ==> (
            #[trigger] port_buckets(key, indir, src, dst, dport, candidates)[i]).1.len() >= m,
    ensures
        ({
            let buckets = port_buckets(key, indir, src, dst, dport, candidates);
            let list = balanced(key, indir, src, dst, dport, candidates);
            &&& forall|i: int, j: int| 0 <= i < j < buckets.len() ==> buckets[i].0 < buckets[j].0
            &&& list.len() >= buckets.len() * m
            &&& forall|i: int|
                0 <= i < buckets.len() * m ==> (#[trigger] list[i]).1 == buckets[i
                    % buckets.len() as int].0
        }),
{
    let queue = port_queue(key, indir, src, dst, dport);
    let buckets = port_buckets(key, indir, src, dst, dport, candidates);
    lemma_buckets_ordered(candidates, queue);
    lemma_bucket_sizes(candidates, queue);
    assert forall|i: int| 0 <= i < buckets.len() implies (#[trigger] buckets[i]).1.len()
        <= candidates.len() by {
        assert(buckets_of(candidates, queue)[i].1.len() <= candidates.len());
    }
    if buckets.len() > 0 {
        assert(buckets[0].1.len() >= m);
        lemma_full_rounds(buckets, m, candidates.len());
    } else {
        assert(buckets.len() * m == 0) by (nonlinear_arith)
            requires
                buckets.len() == 0,
        ;
    }
}

/// The first ports of the balanced list cover every queue that any candidate
/// hashes to, each exactly once.
pub proof fn law_first_round_covers_the_queues(
    key: Seq<u8>,
    indir: Seq<u32>,
    src: IpAddr,
    dst: IpAddr,
    dport: u16,
    candidates: Seq<u16>,
)
    requires
        key.len() > 0,
        indir.len() > 0,
        src.same_family(dst),
    ensures
        ({
            let buckets = port_buckets(key, indir, src, dst, dport, candidates);
            let list = balanced(key, indir, src, dst, dport, candidates);
            &&& list.len() >= buckets.len()
            &&& forall|i: int| 0 <= i < buckets.len() ==> (#[trigger] list[i]).1 == buckets[i].0
            &&& forall|i: int, j: int| 0 <= i < j < buckets.len() ==> list[i].1 != list[j].1
        }),
{
    let buckets = port_buckets(key, indir, src, dst, dport, candidates);
    lemma_buckets_ordered(candidates, port_queue(key, indir, src, dst, dport));
    law_queues_take_turns(key, indir, src, dst, dport, candidates, 1);
    let list = balanced(key, indir, src, dst, dport, candidates);
    assert forall|i: int| 0 <= i < buckets.len() implies (#[trigger] list[i]).1 == buckets[i].0 by {
        vstd::arithmetic::div_mod::lemma_small_mod(i as nat, buckets.len());
    }
}

/// How often a queue has had its turn in a list.
pub open spec fn turns(list: Seq<(u16, u32)>, q: u32) -> nat
    decreases list.len(),
{
    if list.len() == 0 {
        0
    } else {
        turns(list.drop_last(), q) + (if list.last().1 == q {
            1nat
        } else {
            0
        })
    }
}

proof fn lemma_turns_add(a: Seq<(u16, u32)>, b: Seq<(u16, u32)>, q: u32)
    ensures
        turns(a + b, q) == turns(a, q) + turns(b, q),
    decreases b.len(),
{
    if b.len() == 0 {
        assert(a + b == a);
    } else {
        lemma_turns_add(a, b.drop_last(), q);
        assert((a + b).drop_last() == a + b.drop_last());
    }
}

/// A round gives one turn to each of its buckets that has a port left, and none to
/// other queues.
proof fn lemma_turns_of_round(buckets: Seq<Bucket>, r: nat, k: nat, q: u32)
    requires
        ordered(buckets),
        k <= buckets.len(),
    ensures
        forall|i: int|
            0 <= i < buckets.len() && (#[trigger] buckets[i]).0 == q ==> turns(
                round_part(buckets, r, k),
                q,
            ) == (if i < k && r < buckets[i].1.len() {
                1nat
            } else {
                0
            }),
        (forall|i: int| 0 <= i < buckets.len() ==> (#[trigger] buckets[i]).0 != q) ==> turns(
            round_part(buckets, r, k),
            q,
        ) == 0,
    decreases k,
{
    if k > 0 {
        let front = round_part(buckets, r, (k - 1) as nat);
        let b = buckets[k - 1];
        lemma_turns_of_round(buckets, r, (k - 1) as nat, q);
        if r < b.1.len() {
            let e = (b.1[r as int], b.0);
            assert(front.push(e).drop_last() == front);
        }
    }
}

/// Rounds give each queue as many turns as there are rounds, or as it has ports.
proof fn lemma_turns_of_rounds(buckets: Seq<Bucket>, n: nat, q: u32)
    requires
        ordered(buckets),
    ensures
        forall|i: int|
            0 <= i < buckets.len() && (#[trigger] buckets[i]).0 == q ==> turns(
                rounds(buckets, n),
                q,
            ) == (if n < buckets[i].1.len() {
                n
            } else {
                buckets[i].1.len()
            }),
        (forall|i: int| 0 <= i < buckets.len() ==> (#[trigger] buckets[i]).0 != q) ==> turns(
            rounds(buckets, n),
            q,
        ) == 0,
    decreases n,
{
    if n > 0 {
        let r = (n - 1) as nat;
        lemma_turns_of_rounds(buckets, r, q);
        lemma_turns_of_round(buckets, r, buckets.len(), q);
        lemma_turns_add(rounds(buckets, r), round_part(buckets, r, buckets.len()), q);
    }
}

/// What a round starts with is what it takes from some of the first buckets.
proof fn lemma_start_of_round(buckets: Seq<Bucket>, r: nat, k: nat, p: nat) -> (j: nat)
    requires
        k <= buckets.len(),
        p <= round_part(buckets, r, k).len(),
    ensures
        j <= k,
        round_part(buckets, r, k).take(p as int) == round_part(buckets, r, j),
    decreases k,
{
    let part = round_part(buckets, r, k);
    if p == part.len() {
        assert(part.take(p as int) == part);
        k
    } else {
        let front = round_part(buckets, r, (k - 1) as nat);
        let j = lemma_start_of_round(buckets, r, (k - 1) as nat, p);
        assert(part.take(p as int) == front.take(p as int));
        j
    }
}

/// What rounds start with is a number of whole rounds and the start of one more.
proof fn lemma_start_of_rounds(buckets: Seq<Bucket>, n: nat, p: nat) -> (at: (nat, nat))
    requires
        p <= rounds(buckets, n).len(),
    ensures
        at.1 <= buckets.len(),
        rounds(buckets, n).take(p as int) == rounds(buckets, at.0) + round_part(
            buckets,
            at.0,
            at.1,
        ),
    decreases n,
{
    let all = rounds(buckets, n);
    if n == 0 {
        assert(all.take(p as int) == rounds(buckets, 0) + round_part(buckets, 0, 0));
        (0, 0)
    } else {
        let r = (n - 1) as nat;
        let front = rounds(buckets, r);
        let part = round_part(buckets, r, buckets.len());
        if p <= front.len() {
            let at = lemma_start_of_rounds(buckets, r, p);
            assert(all.take(p as int) == front.take(p as int));
            at
        } else {
            let rest = (p - front.len()) as nat;
            let j = lemma_start_of_round(buckets, r, buckets.len(), rest);
            assert(all.take(p as int) == front + part.take(rest as int));
            (r, j)
        }
    }
}

/// No queue is left behind: however many ports of the balanced list are used, a
/// queue that has ports left has had at most one turn less than any other.
pub proof fn law_no_queue_is_left_behind(
    key: Seq<u8>,
    indir: Seq<u32>,
    src: IpAddr,
    dst: IpAddr,
    dport: u16,
    candidates: Seq<u16>,
    p: nat,
    q: u32,
    other: u32,
)
    requires
        p <= balanced(key, indir, src, dst, dport, candidates).len(),
    ensures
        ({
            let list = balanced(key, indir, src, dst, dport, candidates);
            let used = list.take(p as int);
            turns(used, q) < turns(list, q) ==> turns(used, other) <= turns(used, q) + 1
        }),
{
    let queue = port_queue(key, indir, src, dst, dport);
    let buckets = port_buckets(key, indir, src, dst, dport, candidates);
    let list = balanced(key, indir, src, dst, dport, candidates);
    if key.len() > 0 && indir.len() > 0 && src.same_family(dst) {
        lemma_buckets_ordered(candidates, queue);
        lemma_bucket_sizes(candidates, queue);
        let (r, k) = lemma_start_of_rounds(buckets, candidates.len(), p);
        let whole = rounds(buckets, r);
        let part = round_part(buckets, r, k);
        lemma_turns_of_rounds(buckets, candidates.len(), q);
        lemma_turns_of_rounds(buckets, r, q);
        lemma_turns_of_rounds(buckets, r, other);
        lemma_turns_of_round(buckets, r, k, q);
        lemma_turns_of_round(buckets, r, k, other);
        lemma_turns_add(whole, part, q);
        lemma_turns_add(whole, part, other);
    }
}

/// The hash goes over the source address, the destination address, the source port and
/// the destination port, in this order and each in network order.
pub proof fn law_what_is_hashed(s: [u8; 4], d: [u8; 4], t: [u8; 16], e: [u8; 16], sport: u16, dport: u16, i: int)
    ensures
        ({
            let input = rss_input(IpAddr::V4(s), IpAddr::V4(d), sport, dport)->0;
            &&& rss_input(IpAddr::V4(s), IpAddr::V4(d), sport, dport) is Some
            &&& input.len() == 12
            &&& 0 <= i < 4 ==> input[i] == s@[i] && input[4 + i] == d@[i]
            &&& 256 * input[8] + input[9] == sport
            &&& 256 * input[10] + input[11] == dport
        }),
        ({
            let input = rss_input(IpAddr::V6(t), IpAddr::V6(e), sport, dport)->0;
            &&& rss_input(IpAddr::V6(t), IpAddr::V6(e), sport, dport) is Some
            &&& input.len() == 36
            &&& 0 <= i < 16 ==> input[i] == t@[i] && input[16 + i] == e@[i]
            &&& 256 * input[32] + input[33] == sport
            &&& 256 * input[34] + input[35] == dport
        }),
        rss_input(IpAddr::V4(s), IpAddr::V6(e), sport, dport) is None,
        rss_input(IpAddr::V6(t), IpAddr::V4(d), sport, dport) is None,
{
}

/// The queue is the entry of the table at the remainder of the hash by its length, so the
/// lowest bits of the hash decide where the length is a power of two.
pub proof fn law_queue_is_looked_up(
    key: Seq<u8>,
    indir: Seq<u32>,
    src: IpAddr,
    dst: IpAddr,
    sport: u16,
    dport: u16,
)
    ensures
        key.len() > 0 && indir.len() > 0 && src.same_family(dst) ==> {
            let hash = toeplitz::toeplitz(key, rss_input(src, dst, sport, dport)->0);
            &&& queue_of(key, indir, src, dst, sport, dport) is Some
            &&& indir.contains(queue_of(key, indir, src, dst, sport, dport)->0)
            &&& forall|i: int, m: int|
                0 <= i < indir.len() && hash == #[trigger] (m * indir.len()) + i ==> queue_of(
                    key,
                    indir,
                    src,
                    dst,
                    sport,
                    dport,
                ) == Some(#[trigger] indir[i])
        },
        key.len() == 0 || indir.len() == 0 || !src.same_family(dst) ==> queue_of(
            key,
            indir,
            src,
            dst,
            sport,
            dport,
        ) is None,
{
    if key.len() > 0 && indir.len() > 0 && src.same_family(dst) {
        let hash = toeplitz::toeplitz(key, rss_input(src, dst, sport, dport)->0);
        let n = indir.len() as int;
        vstd::arithmetic::div_mod::lemma_mod_bound(hash as int, n);
        assert(indir[hash as int % n] == queue_at(indir, hash));
        assert forall|i: int, m: int| 0 <= i < n && hash == #[trigger] (m * n) + i implies queue_of(
            key,
            indir,
            src,
            dst,
            sport,
            dport,
        ) == Some(#[trigger] indir[i]) by {
            vstd::arithmetic::div_mod::lemma_fundamental_div_mod_converse(hash as int, n, m, i);
        }
    }
}

/// The ports of a list that stand beside a queue, in order.
pub open spec fn ports_on(list: Seq<(u16, u32)>, q: u32) -> Seq<u16>
    decreases list.len(),
{
    if list.len() == 0 {
        Seq::empty()
    } else if list.last().1 == q {
        ports_on(list.drop_last(), q).push(list.last().0)
    } else {
        ports_on(list.drop_last(), q)
    }
}

/// The ports in the bucket of a queue.
spec fn ports_of(buckets: Seq<Bucket>, q: u32) -> Seq<u16>
    decreases buckets.len(),
{
    if buckets.len() == 0 {
        Seq::empty()
    } else if buckets.last().0 == q {
        buckets.last().1
    } else {
        ports_of(buckets.drop_last(), q)
    }
}

proof fn lemma_ports_of(buckets: Seq<Bucket>, q: u32)
    requires
        ordered(buckets),
    ensures
        forall|i: int|
            0 <= i < buckets.len() && (#[trigger] buckets[i]).0 == q ==> ports_of(buckets, q)
                == buckets[i].1,
        (forall|i: int| 0 <= i < buckets.len() ==> (#[trigger] buckets[i]).0 != q) ==> ports_of(
            buckets,
            q,
        ).len() == 0,
    decreases buckets.len(),
{
    if buckets.len() > 0 {
        let front = buckets.drop_last();
        assert(ordered(front)) by {
            assert forall|i: int, j: int| 0 <= i < j < front.len() implies front[i].0 < front[j].0 by {
                assert(buckets[i].0 < buckets[j].0);
            }
            assert forall|i: int| 0 <= i < front.len() implies (#[trigger] front[i]).1.len() > 0 by {
                assert(buckets[i].1.len() > 0);
            }
        }
        lemma_ports_of(front, q);
        let last = buckets.len() - 1;
        assert forall|i: int| 0 <= i < buckets.len() && (#[trigger] buckets[i]).0 == q implies ports_of(
            buckets,
            q,
        ) == buckets[i].1 by {
            if i < last {
                assert(buckets[i].0 < buckets[last].0);
                assert(front[i] == buckets[i]);
            }
        }
        if forall|i: int| 0 <= i < buckets.len() ==> (#[trigger] buckets[i]).0 != q {
            assert(buckets[last].0 != q);
            assert forall|i: int| 0 <= i < front.len() implies (#[trigger] front[i]).0 != q by {
                assert(front[i] == buckets[i]);
            }
        }
    }
}

proof fn lemma_placed_ports(buckets: Seq<Bucket>, q: u32, port: u16, x: u32)
    requires
        ordered(buckets),
    ensures
        ports_of(placed(buckets, q, port), x) == (if x == q {
            ports_of(buckets, x).push(port)
        } else {
            ports_of(buckets, x)
        }),
    decreases buckets.len(),
{
    let all = placed(buckets, q, port);
    if buckets.len() == 0 {
        reveal_with_fuel(ports_of, 2);
        assert(all.drop_last() == Seq::<Bucket>::empty());
        assert(Seq::<u16>::empty().push(port) == seq![port]);
    } else if buckets.last().0 == q {
        assert(all.drop_last() == buckets.drop_last());
    } else if buckets.last().0 < q {
        assert(all.drop_last() == buckets);
        if x == q {
            lemma_ports_of(buckets, q);
            assert forall|i: int| 0 <= i < buckets.len() implies (#[trigger] buckets[i]).0 != q by {
                if i < buckets.len() - 1 {
                    assert(buckets[i].0 < buckets[buckets.len() - 1].0);
                }
            }
            assert(ports_of(buckets, q) == Seq::<u16>::empty());
            assert(Seq::<u16>::empty().push(port) == seq![port]);
        }
    } else {
        let front = buckets.drop_last();
        assert(ordered(front)) by {
            assert forall|i: int, j: int| 0 <= i < j < front.len() implies front[i].0 < front[j].0 by {
                assert(buckets[i].0 < buckets[j].0);
            }
            assert forall|i: int| 0 <= i < front.len() implies (#[trigger] front[i]).1.len() > 0 by {
                assert(buckets[i].1.len() > 0);
            }
        }
        lemma_placed_ports(front, q, port, x);
        assert(all.drop_last() == placed(front, q, port));
    }
}

proof fn lemma_buckets_ports(candidates: Seq<u16>, queue: spec_fn(u16) -> u32, x: u32)
    ensures
        ports_of(buckets_of(candidates, queue), x) == candidates.filter(|p: u16| queue(p) == x),
    decreases candidates.len(),
{
    reveal(Seq::filter);
    if candidates.len() > 0 {
        let front = candidates.drop_last();
        lemma_buckets_ports(front, queue, x);
        lemma_buckets_ordered(front, queue);
        lemma_placed_ports(
            buckets_of(front, queue),
            queue(candidates.last()),
            candidates.last(),
            x,
        );
    }
}

proof fn lemma_ports_on_join(a: Seq<(u16, u32)>, b: Seq<(u16, u32)>, q: u32)
    ensures
        ports_on(a + b, q) == ports_on(a, q) + ports_on(b, q),
    decreases b.len(),
{
    if b.len() == 0 {
        assert(a + b == a);
        assert(ports_on(a, q) + Seq::<u16>::empty() == ports_on(a, q));
    } else {
        lemma_ports_on_join(a, b.drop_last(), q);
        assert((a + b).drop_last() == a + b.drop_last());
        assert((a + b).last() == b.last());
        assert(ports_on(a + b, q) == ports_on(a, q) + ports_on(b, q));
    }
}

proof fn lemma_ports_of_round(buckets: Seq<Bucket>, r: nat, k: nat, q: u32)
    requires
        ordered(buckets),
        k <= buckets.len(),
    ensures
        forall|i: int|
            0 <= i < buckets.len() && (#[trigger] buckets[i]).0 == q ==> ports_on(
                round_part(buckets, r, k),
                q,
            ) == (if i < k && r < buckets[i].1.len() {
                seq![buckets[i].1[r as int]]
            } else {
                Seq::<u16>::empty()
            }),
        (forall|i: int| 0 <= i < buckets.len() ==> (#[trigger] buckets[i]).0 != q) ==> ports_on(
            round_part(buckets, r, k),
            q,
        ) == Seq::<u16>::empty(),
    decreases k,
{
    if k > 0 {
        let front = round_part(buckets, r, (k - 1) as nat);
        let b = buckets[k - 1];
        lemma_ports_of_round(buckets, r, (k - 1) as nat, q);
        if r < b.1.len() {
            let e = (b.1[r as int], b.0);
            assert(front.push(e).drop_last() == front);
            assert(front.push(e).last() == e);
        }
        assert forall|i: int| 0 <= i < buckets.len() && (#[trigger] buckets[i]).0 == q implies ports_on(
            round_part(buckets, r, k),
            q,
        ) == (if i < k && r < buckets[i].1.len() {
            seq![buckets[i].1[r as int]]
        } else {
            Seq::<u16>::empty()
        }) by {
            if i == k - 1 {
                assert(Seq::<u16>::empty().push(b.1[r as int]) == seq![b.1[r as int]]);
            } else {
                assert(b.0 != q) by {
                    if i < k - 1 {
                        assert(buckets[i].0 < buckets[k - 1].0);
                    } else {
                        assert(buckets[k - 1].0 < buckets[i].0);
                    }
                }
            }
        }
    }
}

proof fn lemma_ports_of_rounds(buckets: Seq<Bucket>, n: nat, q: u32)
    requires
        ordered(buckets),
    ensures
        forall|i: int|
            0 <= i < buckets.len() && (#[trigger] buckets[i]).0 == q ==> ports_on(
                rounds(buckets, n),
                q,
            ) == buckets[i].1.take(
                if n < buckets[i].1.len() {
                    n as int
                } else {
                    buckets[i].1.len() as int
                },
            ),
        (forall|i: int| 0 <= i < buckets.len() ==> (#[trigger] buckets[i]).0 != q) ==> ports_on(
            rounds(buckets, n),
            q,
        ) == Seq::<u16>::empty(),
    decreases n,
{
    if n > 0 {
        let r = (n - 1) as nat;
        lemma_ports_of_rounds(buckets, r, q);
        lemma_ports_of_round(buckets, r, buckets.len(), q);
        lemma_ports_on_join(rounds(buckets, r), round_part(buckets, r, buckets.len()), q);
        assert forall|i: int| 0 <= i < buckets.len() && (#[trigger] buckets[i]).0 == q implies ports_on(
            rounds(buckets, n),
            q,
        ) == buckets[i].1.take(
            if n < buckets[i].1.len() {
                n as int
            } else {
                buckets[i].1.len() as int
            },
        ) by {
            let ports = buckets[i].1;
            if r < ports.len() {
                assert(ports.take(r as int) + seq![ports[r as int]] == ports.take(n as int));
            } else {
                assert(ports.take(ports.len() as int) + Seq::<u16>::empty() == ports.take(
                    ports.len() as int,
                ));
            }
        }
        assert(Seq::<u16>::empty() + Seq::<u16>::empty() == Seq::<u16>::empty());
    } else {
        assert forall|i: int| 0 <= i < buckets.len() && (#[trigger] buckets[i]).0 == q implies ports_on(
            rounds(buckets, n),
            q,
        ) == buckets[i].1.take(0) by {}
    }
}

/// The ports of each queue are its candidates, and they come in the order in which they
/// were given.
pub proof fn law_candidates_keep_their_order(
    key: Seq<u8>,
    indir: Seq<u32>,
    src: IpAddr,
    dst: IpAddr,
    dport: u16,
    candidates: Seq<u16>,
    q: u32,
)
    requires
        key.len() > 0,
        indir.len() > 0,
        src.same_family(dst),
    ensures
        ports_on(balanced(key, indir, src, dst, dport, candidates), q) == candidates.filter(
            |p: u16| queue_of(key, indir, src, dst, p, dport) == Some(q),
        ),
{
    let queue = port_queue(key, indir, src, dst, dport);
    let buckets = buckets_of(candidates, queue);
    let f = |p: u16| queue(p) == q;
    let g = |p: u16| queue_of(key, indir, src, dst, p, dport) == Some(q);
    lemma_buckets_ordered(candidates, queue);
    lemma_bucket_sizes(candidates, queue);
    lemma_buckets_ports(candidates, queue, q);
    lemma_ports_of(buckets, q);
    lemma_ports_of_rounds(buckets, candidates.len(), q);
    assert(f =~= g) by {
        assert forall|p: u16| #[trigger] f(p) == g(p) by {
            assert(queue_of(key, indir, src, dst, p, dport) is Some);
        }
    }
    if exists|i: int| 0 <= i < buckets.len() && (#[trigger] buckets[i]).0 == q {
        let i = choose|i: int| 0 <= i < buckets.len() && (#[trigger] buckets[i]).0 == q;
        assert(buckets[i].1.take(buckets[i].1.len() as int) == buckets[i].1);
        assert(buckets[i].1.len() <= candidates.len());
    } else {
        assert(ports_of(buckets, q) == Seq::<u16>::empty());
    }
}

/// Without a key, without a table or between addresses of different families there is no
/// balanced list.
pub proof fn law_no_hash_no_list(
    key: Seq<u8>,
    indir: Seq<u32>,
    src: IpAddr,
    dst: IpAddr,
    dport: u16,
    candidates: Seq<u16>,
)
    requires
        key.len() == 0 || indir.len() == 0 || !src.same_family(dst),
    ensures
        balanced(key, indir, src, dst, dport, candidates).len() == 0,
{
}

} // verus!
