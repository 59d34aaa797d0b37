//! HTTP/1.1 on the wire: where a response ends, and the bytes of a request.
use crate::headers;
use crate::options;
use crate::text;
use crate::uri;
use http_wire::{WireDecode, WireEncode};
use vstd::prelude::*;

verus! {

// ---------------------------------------------------------------------------
// Numbers and codings in header values
// ---------------------------------------------------------------------------

/// The number of values of a `usize`.
pub open spec fn usize_values() -> nat {
    (usize::MAX + 1) as nat
}

/// Whether a byte is a decimal digit.
pub open spec fn is_digit(b: u8) -> bool {
    48 <= b <= 57
}

/// The length of the run of decimal digits that `s` starts with.
pub open spec fn digit_run(s: Seq<u8>) -> nat
    decreases s.len(),
{
    if s.len() == 0 || !is_digit(s.first()) {
        0
    } else {
        1 + digit_run(s.drop_first())
    }
}

/// The number that decimal digits stand for.
pub open spec fn digits_value(s: Seq<u8>) -> nat
    decreases s.len(),
{
    if s.len() == 0 {
        0
    } else {
        digits_value(s.drop_last()) * 10 + (s.last() - 48) as nat
    }
}

/// The number of spaces and tabs that `s` starts with.
pub open spec fn blank_run(s: Seq<u8>) -> nat
    decreases s.len(),
{
    if s.len() == 0 || (s.first() != 32 && s.first() != 9) {
        0
    } else {
        1 + blank_run(s.drop_first())
    }
}

/// The number that a header value starts with, behind spaces and tabs. What
/// follows its digits does not matter. Numbers wrap around in a `usize`.
pub open spec fn leading_number(s: Seq<u8>) -> Option<nat> {
    let t = s.skip(blank_run(s) as int);
    let n = digit_run(t) as int;
    if n == 0 {
        None
    } else {
        Some(digits_value(t.take(n)) % usize_values())
    }
}

proof fn lemma_digit_run_is(s: Seq<u8>, k: nat)
    requires
        k <= s.len(),
        k < s.len() ==> !is_digit(s[k as int]),
        forall|i: int| 0 <= i < k ==> is_digit(#[trigger] s[i]),
    ensures
        digit_run(s) == k,
    decreases s.len(),
{
    if k > 0 {
        assert(is_digit(s[0]));
        let t = s.drop_first();
        assert forall|i: int| 0 <= i < k - 1 implies is_digit(#[trigger] t[i]) by {
            assert(t[i] == s[i + 1]);
        }
        lemma_digit_run_is(t, (k - 1) as nat);
    }
}

proof fn lemma_blank_run_is(s: Seq<u8>, k: nat)
    requires
        k <= s.len(),
        k < s.len() ==> s[k as int] != 32 && s[k as int] != 9,
        forall|i: int| 0 <= i < k ==> #[trigger] s[i] == 32 || s[i] == 9,
    ensures
        blank_run(s) == k,
    decreases s.len(),
{
    if k > 0 {
        assert(s[0] == 32 || s[0] == 9);
        let t = s.drop_first();
        assert forall|i: int| 0 <= i < k - 1 implies #[trigger] t[i] == 32 || t[i] == 9 by {
            assert(t[i] == s[i + 1]);
        }
        lemma_blank_run_is(t, (k - 1) as nat);
    }
}

/// One more digit, in a `usize`.
proof fn lemma_wrapped_digit(v: nat, d: nat, m: nat)
    requires
        m > 0,
    ensures
        ((v % m) * 10 % m + d) % m == (v * 10 + d) % m,
{
    vstd::arithmetic::div_mod::lemma_mul_mod_noop_left(v as int, 10, m as int);
    vstd::arithmetic::div_mod::lemma_add_mod_noop((v * 10) as int, d as int, m as int);
    vstd::arithmetic::div_mod::lemma_add_mod_noop(((v % m) * 10 % m) as int, d as int, m as int);
    vstd::arithmetic::div_mod::lemma_mod_twice((v * 10) as int, m as int);
}

/// The number that a header value starts with.
pub fn parse_usize(buf: &[u8]) -> (r: Option<usize>)
    ensures
        match r {
            Some(n) => leading_number(buf@) == Some(n as nat),
            None => leading_number(buf@) is None,
        },
{
    let mut start: usize = 0;
    while start < buf.len() && (buf[start] == 32 || buf[start] == 9)
        invariant
            start <= buf.len(),
            forall|i: int| 0 <= i < start ==> #[trigger] buf@[i] == 32 || buf@[i] == 9,
        decreases buf.len() - start,
    {
        start += 1;
    }
    proof {
        lemma_blank_run_is(buf@, start as nat);
    }
    let ghost t = buf@.skip(start as int);
    let mut i: usize = start;
    let mut n: usize = 0;
    proof {
        assert(t.take(0).len() == 0);
        vstd::arithmetic::div_mod::lemma_small_mod(0, usize_values());
    }
    while i < buf.len() && buf[i] >= 48 && buf[i] <= 57
        invariant
            start <= i <= buf.len(),
            t == buf@.skip(start as int),
            forall|j: int| 0 <= j < i - start ==> is_digit(#[trigger] t[j]),
            n == digits_value(t.take(i - start)) % usize_values(),
        decreases buf.len() - i,
    {
        let d: usize = (buf[i] - 48) as usize;
        proof {
            assert(t[i - start] == buf@[i as int]);
            assert(t.take(i - start + 1).drop_last() == t.take(i - start));
            lemma_wrapped_digit(digits_value(t.take(i - start)), d as nat, usize_values());
        }
        n = n.wrapping_mul(10).wrapping_add(d);
        i += 1;
    }
    proof {
        if i < buf.len() {
            assert(t[i - start] == buf@[i as int]);
        }
        lemma_digit_run_is(t, (i - start) as nat);
    }
    if i == start {
        None
    } else {
        Some(n)
    }
}

/// The letters of a byte string in lower case.
pub open spec fn lower_byte(b: u8) -> u8 {
    if 65 <= b <= 90 {
        (b + 32) as u8
    } else {
        b
    }
}

/// The byte string without the spaces and tabs before it, and without the
/// spaces, tabs and line ends behind it.
pub open spec fn stripped(s: Seq<u8>) -> Seq<u8> {
    let t = s.skip(blank_run(s) as int);
    t.take(t.len() - tail_run(t))
}

/// The number of spaces, tabs and line ends that `s` ends with.
pub open spec fn tail_run(s: Seq<u8>) -> nat
    decreases s.len(),
{
    if s.len() == 0 || !(s.last() == 32 || s.last() == 9 || s.last() == 13 || s.last() == 10) {
        0
    } else {
        1 + tail_run(s.drop_last())
    }
}

/// Whether a `Transfer-Encoding` is `chunked`, whatever the case of its letters.
pub open spec fn is_chunked(s: Seq<u8>) -> bool {
    stripped(s).map_values(|b: u8| lower_byte(b)) == seq![99u8, 104, 117, 110, 107, 101, 100]
}

proof fn lemma_tail_run_is(s: Seq<u8>, k: nat)
    requires
        k <= s.len(),
        k < s.len() ==> ({
            let b = s[s.len() - 1 - k];
            !(b == 32 || b == 9 || b == 13 || b == 10)
        }),
        forall|i: int|
            s.len() - k <= i < s.len() ==> #[trigger] s[i] == 32 || s[i] == 9 || s[i] == 13 || s[i]
                == 10,
    ensures
        tail_run(s) == k,
    decreases s.len(),
{
    if k > 0 {
        let last = s[s.len() - 1];
        assert(last == 32 || last == 9 || last == 13 || last == 10);
        lemma_tail_run_is(s.drop_last(), (k - 1) as nat);
    }
}

/// The lower case of a byte.
fn lowered(b: u8) -> (r: u8)
    ensures
        r == lower_byte(b),
{
    if b >= 65 && b <= 90 {
        b + 32
    } else {
        b
    }
}

/// Tells whether a `Transfer-Encoding` is `chunked`.
pub fn is_chunked_slice(buf: &[u8]) -> (r: bool)
    ensures
        r == is_chunked(buf@),
{
    let mut start: usize = 0;
    while start < buf.len() && (buf[start] == 32 || buf[start] == 9)
        invariant
            start <= buf.len(),
            forall|i: int| 0 <= i < start ==> #[trigger] buf@[i] == 32 || buf@[i] == 9,
        decreases buf.len() - start,
    {
        start += 1;
    }
    proof {
        lemma_blank_run_is(buf@, start as nat);
    }
    let ghost t = buf@.skip(start as int);
    let mut end: usize = buf.len();
    while end > start && (buf[end - 1] == 32 || buf[end - 1] == 9 || buf[end - 1] == 13 || buf[end
        - 1] == 10)
        invariant
            start <= end <= buf.len(),
            t == buf@.skip(start as int),
            forall|i: int|
                end - start <= i < t.len() ==> #[trigger] t[i] == 32 || t[i] == 9 || t[i] == 13
                    || t[i] == 10,
        decreases end,
    {
        assert(t[end - 1 - start] == buf@[end - 1]);
        end -= 1;
    }
    proof {
        if end > start {
            assert(t[end - 1 - start] == buf@[end - 1]);
        }
        lemma_tail_run_is(t, (buf.len() - end) as nat);
    }
    let s: &[u8] = &buf[start..end];
    assert(s@ == stripped(buf@));
    let ghost low = s@.map_values(|b: u8| lower_byte(b));
    let ghost want = seq![99u8, 104, 117, 110, 107, 101, 100];
    if s.len() != 7 {
        assert(low.len() != want.len());
        return false;
    }
    let r: bool = lowered(s[0]) == 99 && lowered(s[1]) == 104 && lowered(s[2]) == 117 && lowered(
        s[3],
    ) == 110 && lowered(s[4]) == 107 && lowered(s[5]) == 101 && lowered(s[6]) == 100;
    proof {
        if r {
            assert(low == want);
        } else {
            assert(low[0] != want[0] || low[1] != want[1] || low[2] != want[2] || low[3] != want[3]
                || low[4] != want[4] || low[5] != want[5] || low[6] != want[6]);
        }
    }
    r
}

// ---------------------------------------------------------------------------
// Chunked bodies
// ---------------------------------------------------------------------------

/// The value of a hexadecimal digit.
pub open spec fn hex_value(b: u8) -> Option<nat> {
    if 48 <= b <= 57 {
        Some((b - 48) as nat)
    } else if 97 <= b <= 102 {
        Some((b - 87) as nat)
    } else if 65 <= b <= 70 {
        Some((b - 55) as nat)
    } else {
        None
    }
}

/// The number that the hexadecimal digits of `s` stand for, in a `usize`. Other
/// bytes are passed over.
pub open spec fn hex_number(s: Seq<u8>) -> nat
    decreases s.len(),
{
    if s.len() == 0 {
        0
    } else {
        match hex_value(s.last()) {
            Some(d) => (16 * hex_number(s.drop_last()) + d) % usize_values(),
            None => hex_number(s.drop_last()),
        }
    }
}

/// The first position of a byte at or behind `from`, or the length of `s`.
pub open spec fn byte_at(s: Seq<u8>, b: u8, from: nat) -> nat
    decreases s.len() - from,
{
    if from >= s.len() {
        s.len()
    } else if s[from as int] == b {
        from
    } else {
        byte_at(s, b, from + 1)
    }
}

/// The size that a chunk line announces: what stands before a semicolon, in
/// hexadecimal.
pub open spec fn chunk_size(line: Seq<u8>) -> nat {
    hex_number(line.take(byte_at(line, 59, 0) as int))
}

/// Whether a blank line, behind the end of a line, starts at `k`.
pub open spec fn blank_line_at(buf: Seq<u8>, k: nat) -> bool {
    k + 3 < buf.len() && buf[k as int] == 13 && buf[k as int + 1] == 10 && buf[k as int + 2] == 13
        && buf[k as int + 3] == 10
}

/// Where the trailers end that start at or behind `k`.
pub open spec fn trailers_end(buf: Seq<u8>, k: nat) -> Option<nat>
    decreases buf.len() - k,
{
    if k + 3 >= buf.len() {
        None
    } else if blank_line_at(buf, k) {
        Some(k + 4)
    } else {
        trailers_end(buf, k + 1)
    }
}

/// Where a chunked body ends, of which a chunk line starts at `pos`: behind the
/// blank line that follows the chunk of size 0. There is no end where the body
/// is incomplete, or where a chunk line does not end in a carriage return and a
/// line feed.
pub open spec fn chunked_end(buf: Seq<u8>, pos: nat) -> Option<nat>
    decreases buf.len() - pos,
{
    let i = byte_at(buf, 10, pos);
    if pos >= buf.len() || i >= buf.len() || i <= pos || buf[i - 1] != 13 {
        None
    } else {
        let size = chunk_size(buf.subrange(pos as int, i - 1));
        let data = i + 1;
        if size == 0 {
            if data + 2 <= buf.len() && buf[data as int] == 13 && buf[data as int + 1] == 10 {
                Some(data + 2)
            } else {
                trailers_end(buf, data)
            }
        } else if data + size + 2 > buf.len() {
            None
        } else {
            chunked_end(buf, data + size + 2)
        }
    }
}

proof fn lemma_byte_at_is(s: Seq<u8>, b: u8, from: nat, k: nat)
    requires
        from <= k <= s.len(),
        k < s.len() ==> s[k as int] == b,
        forall|i: int| from <= i < k ==> #[trigger] s[i] != b,
    ensures
        byte_at(s, b, from) == k,
    decreases k - from,
{
    if from < k {
        assert(s[from as int] != b);
        lemma_byte_at_is(s, b, from + 1, k);
    }
}

/// Finds a byte at or behind `from`.
fn find_byte(s: &[u8], b: u8, from: usize) -> (k: usize)
    requires
        from <= s.len(),
    ensures
        from <= k <= s.len(),
        k == byte_at(s@, b, from as nat),
        k < s.len() ==> s@[k as int] == b,
{
    let mut k: usize = from;
    while k < s.len() && s[k] != b
        invariant
            from <= k <= s.len(),
            forall|i: int| from <= i < k ==> #[trigger] s@[i] != b,
        decreases s.len() - k,
    {
        k += 1;
    }
    proof {
        lemma_byte_at_is(s@, b, from as nat, k as nat);
    }
    k
}

/// Shifting in a hexadecimal digit drops what no longer fits.
proof fn lemma_shifted(size: nat, d: nat, part: nat)
    requires
        part > 0,
        d < 16,
    ensures
        (16 * size + d) % (16 * part) == 16 * (size % part) + d,
{
    let q = size / part;
    let r = size % part;
    vstd::arithmetic::div_mod::lemma_fundamental_div_mod(size as int, part as int);
    vstd::arithmetic::div_mod::lemma_mod_bound(size as int, part as int);
    assert(16 * size + d == (16 * part) * q + (16 * r + d)) by (nonlinear_arith)
        requires
            size == part * q + r,
    ;
    assert((16 * part) * q == q * (16 * part)) by (nonlinear_arith);
    vstd::arithmetic::div_mod::lemma_fundamental_div_mod_converse(
        (16 * size + d) as int,
        (16 * part) as int,
        q as int,
        (16 * r + d) as int,
    );
}

/// The value of a hexadecimal digit.
fn hex_digit(b: u8) -> (r: Option<usize>)
    ensures
        match r {
            Some(d) => hex_value(b) == Some(d as nat) && d < 16,
            None => hex_value(b) is None,
        },
{
    if b >= 48 && b <= 57 {
        Some((b - 48) as usize)
    } else if b >= 97 && b <= 102 {
        Some((b - 87) as usize)
    } else if b >= 65 && b <= 70 {
        Some((b - 55) as usize)
    } else {
        None
    }
}

/// The size that a chunk line announces.
fn read_chunk_size(line: &[u8]) -> (n: usize)
    ensures
        n == chunk_size(line@),
{
    let end: usize = find_byte(line, 59, 0);
    let part: usize = usize::MAX / 16 + 1;
    let ghost t = line@.take(end as int);
    let mut size: usize = 0;
    let mut i: usize = 0;
    while i < end
        invariant
            i <= end <= line.len(),
            part == usize::MAX / 16 + 1,
            t == line@.take(end as int),
            size == hex_number(t.take(i as int)),
        decreases end - i,
    {
        proof {
            assert(t.take(i + 1).drop_last() == t.take(i as int));
            assert(t.take(i + 1).last() == line@[i as int]);
        }
        match hex_digit(line[i]) {
            Some(d) => {
                proof {
                    assert(16 * part == usize_values());
                    lemma_shifted(size as nat, d as nat, part as nat);
                }
                size = 16 * (size % part) + d;
            },
            None => {},
        }
        i += 1;
    }
    assert(t.take(end as int) == t);
    size
}

/// The length of a chunked body, its final chunk and its trailers among it, or
/// nothing where it is incomplete or malformed.
pub fn parse_chunked_body(buf: &[u8]) -> (r: Option<usize>)
    ensures
        match r {
            Some(n) => chunked_end(buf@, 0) == Some(n as nat) && n <= buf.len(),
            None => chunked_end(buf@, 0) is None,
        },
{
    let mut pos: usize = 0;
    loop
        invariant
            pos <= buf.len(),
            chunked_end(buf@, pos as nat) == chunked_end(buf@, 0),
        decreases buf.len() - pos,
    {
        if pos >= buf.len() {
            return None;
        }
        let i: usize = find_byte(buf, 10, pos);
        if i >= buf.len() || i <= pos || buf[i - 1] != 13 {
            return None;
        }
        let line: &[u8] = &buf[pos..i - 1];
        assert(line@ == buf@.subrange(pos as int, i - 1));
        let size: usize = read_chunk_size(line);
        let data: usize = i + 1;
        if size == 0 {
            if buf.len() - data >= 2 && buf[data] == 13 && buf[data + 1] == 10 {
                return Some(data + 2);
            }
            let mut k: usize = data;
            while buf.len() - k > 3
                invariant
                    data <= k <= buf.len(),
                    trailers_end(buf@, k as nat) == trailers_end(buf@, data as nat),
                    trailers_end(buf@, data as nat) == chunked_end(buf@, 0),
                decreases buf.len() - k,
            {
                if buf[k] == 13 && buf[k + 1] == 10 && buf[k + 2] == 13 && buf[k + 3] == 10 {
                    return Some(k + 4);
                }
                k += 1;
            }
            return None;
        }
        if buf.len() - data < 2 || size > buf.len() - data - 2 {
            return None;
        }
        pos = data + size + 2;
    }
}

proof fn lemma_byte_at_stable(s: Seq<u8>, more: Seq<u8>, b: u8, from: nat)
    requires
        byte_at(s, b, from) < s.len(),
    ensures
        byte_at(s + more, b, from) == byte_at(s, b, from),
    decreases s.len() - from,
{
    if from < s.len() && s[from as int] != b {
        lemma_byte_at_stable(s, more, b, from + 1);
    }
}

proof fn lemma_trailers_end_stable(buf: Seq<u8>, more: Seq<u8>, k: nat)
    requires
        trailers_end(buf, k) is Some,
    ensures
        trailers_end(buf + more, k) == trailers_end(buf, k),
    decreases buf.len() - k,
{
    if k + 3 < buf.len() && !blank_line_at(buf, k) {
        lemma_trailers_end_stable(buf, more, k + 1);
    }
}

proof fn lemma_chunked_end_stable(buf: Seq<u8>, more: Seq<u8>, pos: nat)
    requires
        chunked_end(buf, pos) is Some,
    ensures
        chunked_end(buf + more, pos) == chunked_end(buf, pos),
    decreases buf.len() - pos,
{
    let i = byte_at(buf, 10, pos);
    let all = buf + more;
    lemma_byte_at_stable(buf, more, 10, pos);
    let line = buf.subrange(pos as int, i - 1);
    assert(all.subrange(pos as int, i - 1) == line);
    let size = chunk_size(line);
    let data = i + 1;
    if size == 0 {
        if data + 2 <= buf.len() && buf[data as int] == 13 && buf[data as int + 1] == 10 {
            assert(all[data as int] == 13 && all[data as int + 1] == 10);
        } else {
            lemma_trailers_end_stable(buf, more, data);
            assert(data + 3 < buf.len());
            assert(all[data as int] == buf[data as int] && all[data as int + 1] == buf[data as int
                + 1]);
        }
    } else {
        lemma_chunked_end_stable(buf, more, data + size + 2);
    }
}

/// A chunked body that is complete ends at the same place whatever follows it.
pub proof fn law_complete_body_stays_complete(buf: Seq<u8>, more: Seq<u8>)
    requires
        chunked_end(buf, 0) is Some,
    ensures
        chunked_end(buf + more, 0) == chunked_end(buf, 0),
{
    lemma_chunked_end_stable(buf, more, 0);
}

/// The hexadecimal digit of a value below 16.
pub open spec fn digit_of(v: nat) -> u8 {
    if v < 10 {
        (48 + v) as u8
    } else {
        (87 + v) as u8
    }
}

/// A number in hexadecimal.
pub open spec fn hex_digits(n: nat) -> Seq<u8>
    decreases n,
{
    if n < 16 {
        seq![digit_of(n)]
    } else {
        hex_digits(n / 16).push(digit_of(n % 16))
    }
}

/// A chunk: its size, its data, and a line end behind each.
pub open spec fn encoded_chunk(data: Seq<u8>) -> Seq<u8> {
    hex_digits(data.len()) + seq![13u8, 10] + data + seq![13u8, 10]
}

/// A chunked body of pieces: a chunk of each, and then the chunk of size 0 and a
/// blank line.
pub open spec fn encoded_body(pieces: Seq<Seq<u8>>) -> Seq<u8>
    decreases pieces.len(),
{
    if pieces.len() == 0 {
        seq![48u8, 13, 10, 13, 10]
    } else {
        encoded_chunk(pieces.first()) + encoded_body(pieces.drop_first())
    }
}

/// Whether a piece can be the data of a chunk: it is not empty, and its size is a
/// `usize`.
pub open spec fn is_piece(data: Seq<u8>) -> bool {
    0 < data.len() < usize_values()
}

/// A number in hexadecimal is made of digits and reads back as itself.
proof fn lemma_hex_digits(n: nat)
    requires
        n < usize_values(),
    ensures
        hex_digits(n).len() > 0,
        forall|i: int| 0 <= i < hex_digits(n).len() ==> hex_value(#[trigger] hex_digits(n)[i]) is Some,
        hex_number(hex_digits(n)) == n,
    decreases n,
{
    let s = hex_digits(n);
    if n < 16 {
        assert(s.drop_last() == Seq::<u8>::empty());
        assert(hex_number(s.drop_last()) == 0);
    } else {
        lemma_hex_digits(n / 16);
        assert(s.drop_last() == hex_digits(n / 16));
    }
    assert(hex_value(s.last()) == Some(n % 16));
    vstd::arithmetic::div_mod::lemma_small_mod(n, usize_values());
    assert(hex_number(s) == n);
}

/// Where the line of a chunk ends, and what it announces.
proof fn lemma_chunk_line(buf: Seq<u8>, pos: nat, n: nat)
    requires
        n < usize_values(),
        pos + hex_digits(n).len() + 2 <= buf.len(),
        buf.subrange(pos as int, pos + hex_digits(n).len() as int) == hex_digits(n),
        buf[pos + hex_digits(n).len() as int] == 13,
        buf[pos + hex_digits(n).len() as int + 1] == 10,
    ensures
        byte_at(buf, 10, pos) == pos + hex_digits(n).len() + 1,
        chunk_size(buf.subrange(pos as int, pos + hex_digits(n).len() as int)) == n,
{
    let line = hex_digits(n);
    lemma_hex_digits(n);
    assert forall|i: int| pos <= i < pos + line.len() + 1 implies #[trigger] buf[i] != 10 by {
        if i < pos + line.len() {
            assert(buf[i] == line[i - pos]);
        }
    }
    lemma_byte_at_is(buf, 10, pos, pos + line.len() + 1);
    lemma_byte_at_is(line, 59, 0, line.len());
    assert(line.take(line.len() as int) == line);
}

proof fn lemma_body_ends(buf: Seq<u8>, pos: nat, pieces: Seq<Seq<u8>>, rest: Seq<u8>)
    requires
        pos <= buf.len(),
        buf.skip(pos as int) == encoded_body(pieces) + rest,
        forall|i: int| 0 <= i < pieces.len() ==> is_piece(#[trigger] pieces[i]),
    ensures
        chunked_end(buf, pos) == Some(pos + encoded_body(pieces).len()),
    decreases pieces.len(),
{
    let all = encoded_body(pieces) + rest;
    assert forall|i: int| 0 <= i < all.len() implies #[trigger] all[i] == buf[pos + i] by {
        assert(buf.skip(pos as int)[i] == buf[pos + i]);
    }
    if pieces.len() == 0 {
        assert(all[0] == 48 && all[1] == 13 && all[2] == 10 && all[3] == 13 && all[4] == 10);
        assert(buf.subrange(pos as int, pos as int + 1) == hex_digits(0));
        lemma_chunk_line(buf, pos, 0);
    } else {
        let d = pieces.first();
        let n = d.len();
        let h = hex_digits(n);
        let chunk = encoded_chunk(d);
        let others = encoded_body(pieces.drop_first());
        assert(is_piece(pieces[0]));
        lemma_hex_digits(n);
        assert forall|i: int| 0 <= i < chunk.len() implies #[trigger] chunk[i] == buf[pos + i] by {
            assert(all[i] == chunk[i]);
        }
        assert(buf.subrange(pos as int, pos + h.len() as int) == h) by {
            assert forall|i: int| 0 <= i < h.len() implies buf[pos + i] == #[trigger] h[i] by {
                assert(chunk[i] == h[i]);
            }
        }
        assert(chunk[h.len() as int] == 13 && chunk[h.len() as int + 1] == 10);
        lemma_chunk_line(buf, pos, n);
        let next = (pos + chunk.len()) as nat;
        assert(buf.skip(next as int) == others + rest) by {
            assert forall|i: int| 0 <= i < (others + rest).len() implies buf.skip(next as int)[i]
                == #[trigger] (others + rest)[i] by {
                assert(all[chunk.len() + i] == (others + rest)[i]);
            }
        }
        assert forall|i: int| 0 <= i < pieces.drop_first().len() implies is_piece(
            #[trigger] pieces.drop_first()[i],
        ) by {
            assert(pieces.drop_first()[i] == pieces[i + 1]);
        }
        lemma_body_ends(buf, next, pieces.drop_first(), rest);
    }
}

proof fn lemma_cut_body(buf: Seq<u8>, pos: nat, pieces: Seq<Seq<u8>>, m: nat)
    requires
        pos <= buf.len(),
        m < encoded_body(pieces).len(),
        buf.skip(pos as int) == encoded_body(pieces).take(m as int),
        forall|i: int| 0 <= i < pieces.len() ==> is_piece(#[trigger] pieces[i]),
    ensures
        chunked_end(buf, pos) is None,
    decreases pieces.len(),
{
    let all = encoded_body(pieces);
    assert(buf.skip(pos as int).len() == m);
    assert(buf.len() == pos + m);
    assert forall|i: int| 0 <= i < m implies #[trigger] all[i] == buf[pos + i] by {
        assert(buf.skip(pos as int)[i] == buf[pos + i]);
        assert(all.take(m as int)[i] == all[i]);
    }
    let n: nat = if pieces.len() == 0 {
        0
    } else {
        pieces.first().len()
    };
    let h = hex_digits(n);
    if pieces.len() > 0 {
        assert(is_piece(pieces[0]));
    }
    lemma_hex_digits(n);
    assert forall|i: int| 0 <= i < h.len() implies #[trigger] all[i] == h[i] by {}
    assert(all[h.len() as int] == 13 && all[h.len() as int + 1] == 10);
    if m < h.len() + 2 {
        assert forall|i: int| pos <= i < buf.len() implies #[trigger] buf[i] != 10 by {
            assert(all[i - pos] == buf[i]);
            if i - pos < h.len() {
                assert(hex_value(h[i - pos]) is Some);
            }
        }
        lemma_byte_at_is(buf, 10, pos, buf.len());
    } else {
        assert(buf.subrange(pos as int, pos + h.len() as int) == h) by {
            assert forall|i: int| 0 <= i < h.len() implies buf[pos + i] == #[trigger] h[i] by {
                assert(all[i] == h[i]);
            }
        }
        assert(all[h.len() as int] == buf[pos + h.len() as int]);
        assert(all[h.len() as int + 1] == buf[pos + h.len() as int + 1]);
        lemma_chunk_line(buf, pos, n);
        if pieces.len() > 0 {
            let chunk = encoded_chunk(pieces.first());
            if m >= chunk.len() {
                let others = encoded_body(pieces.drop_first());
                let next = (pos + chunk.len()) as nat;
                let left = (m - chunk.len()) as nat;
                assert(buf.skip(next as int) == others.take(left as int)) by {
                    assert forall|i: int| 0 <= i < left implies buf.skip(next as int)[i]
                        == #[trigger] others[i] by {
                        assert(all[chunk.len() + i] == others[i]);
                    }
                }
                assert forall|i: int| 0 <= i < pieces.drop_first().len() implies is_piece(
                    #[trigger] pieces.drop_first()[i],
                ) by {
                    assert(pieces.drop_first()[i] == pieces[i + 1]);
                }
                lemma_cut_body(buf, next, pieces.drop_first(), left);
            }
        }
    }
}

/// A chunked body ends exactly where its blank line ends, whatever its pieces hold
/// and whatever follows it, and no part of it that lacks its end is complete.
pub proof fn law_encoded_body_is_found(pieces: Seq<Seq<u8>>, rest: Seq<u8>)
    requires
        forall|i: int| 0 <= i < pieces.len() ==> is_piece(#[trigger] pieces[i]),
    ensures
        chunked_end(encoded_body(pieces) + rest, 0) == Some(encoded_body(pieces).len()),
        forall|m: int|
            0 <= m < encoded_body(pieces).len() ==> chunked_end(
                #[trigger] encoded_body(pieces).take(m),
                0,
            ) is None,
{
    let body = encoded_body(pieces);
    assert((body + rest).skip(0) == body + rest);
    lemma_body_ends(body + rest, 0, pieces, rest);
    assert forall|m: int| 0 <= m < body.len() implies chunked_end(
        #[trigger] body.take(m),
        0,
    ) is None by {
        assert(body.take(m).skip(0) == body.take(m));
        lemma_cut_body(body.take(m), 0, pieces, m as nat);
    }
}

// ---------------------------------------------------------------------------
// Whole responses
// ---------------------------------------------------------------------------

/// The head of a response: its length, its status code and its headers.
#[derive(Clone, Debug)]
pub struct Head {
    pub len: usize,
    pub code: Option<u16>,
    pub headers: Vec<(String, Vec<u8>)>,
}

/// The head of a response, as mathematical values.
pub struct HeadView {
    pub len: nat,
    pub code: Option<u16>,
    pub headers: Seq<(Seq<char>, Seq<u8>)>,
}

/// The headers of a head, as texts and bytes.
pub open spec fn headers_view(list: Seq<(String, Vec<u8>)>) -> Seq<(Seq<char>, Seq<u8>)> {
    list.map_values(|h: (String, Vec<u8>)| (h.0@, h.1@))
}

impl View for Head {
    type V = HeadView;

    open spec fn view(&self) -> HeadView {
        HeadView { len: self.len as nat, code: self.code, headers: headers_view(self.headers@) }
    }
}

/// What `httparse` reads of the head of a response, with room for a number of
/// headers: nothing where the head is incomplete, malformed or has more headers.
pub uninterp spec fn parsed_head(buf: Seq<u8>, slots: nat) -> Option<HeadView>;

/// `httparse::Response::parse`, with room for `slots` headers. The result depends
/// on the bytes and the room alone, and a head is no longer than the bytes that
/// it was read from.
#[verifier::external_body]
fn read_head(buf: &[u8], slots: usize) -> (r: Option<Head>)
    ensures
        match r {
            Some(h) => parsed_head(buf@, slots as nat) == Some(h@) && h.len <= buf.len(),
            None => parsed_head(buf@, slots as nat) is None,
        },
{
    let mut room = vec![httparse::EMPTY_HEADER; slots];
    let mut res = httparse::Response::new(&mut room);
    match res.parse(buf) {
        Ok(httparse::Status::Complete(len)) => Some(
            Head {
                len,
                code: res.code,
                headers: res.headers.iter().map(|h| (h.name.to_string(), h.value.to_vec())).collect(),
            },
        ),
        _ => None,
    }
}

/// Whether a status code has the form of one.
pub open spec fn is_status(code: u16) -> bool {
    100 <= code < 1000
}

/// A status code, or another in its place where it has not the form of one.
pub open spec fn status_or(code: u16, other: u16) -> u16 {
    if is_status(code) {
        code
    } else {
        other
    }
}

/// Whether a response has no body whatever its headers say.
pub open spec fn bodyless(code: u16) -> bool {
    code == 204 || code == 304 || 100 <= code < 200
}

/// The body length that the headers announce: the last `Content-Length` counts.
pub open spec fn announced_length(headers: Seq<(Seq<char>, Seq<u8>)>) -> Option<nat>
    decreases headers.len(),
{
    if headers.len() == 0 {
        None
    } else if text::ascii_lowered(headers.last().0) == "content-length"@ {
        leading_number(headers.last().1)
    } else {
        announced_length(headers.drop_last())
    }
}

/// Whether the headers announce a chunked body: the last `Transfer-Encoding`
/// counts.
pub open spec fn announced_chunked(headers: Seq<(Seq<char>, Seq<u8>)>) -> bool
    decreases headers.len(),
{
    if headers.len() == 0 {
        false
    } else if text::ascii_lowered(headers.last().0) == "transfer-encoding"@ {
        is_chunked(headers.last().1)
    } else {
        announced_chunked(headers.drop_last())
    }
}

/// Where a response with this head ends, and its status code. There is no end
/// where the response is not complete.
pub open spec fn response_frame(buf: Seq<u8>, head: HeadView) -> Option<(nat, u16)> {
    let code = match head.code {
        Some(c) => c,
        None => 200,
    };
    let status = status_or(code, 200);
    if bodyless(code) {
        Some((head.len, status))
    } else if announced_chunked(head.headers) {
        match chunked_end(buf.skip(head.len as int), 0) {
            Some(n) => Some((head.len + n, status)),
            None => None,
        }
    } else {
        let len = match announced_length(head.headers) {
            Some(n) => n,
            None => 0,
        };
        if head.len + len <= buf.len() {
            Some((head.len + len, status))
        } else {
            None
        }
    }
}

/// Where a response ends whose head has been read, and its status code.
pub fn response_end(buf: &[u8], head: &Head) -> (r: Option<(usize, u16)>)
    requires
        head.len <= buf.len(),
    ensures
        match r {
            Some((n, status)) => response_frame(buf@, head@) == Some((n as nat, status)) && n
                <= buf.len(),
            None => response_frame(buf@, head@) is None,
        },
{
    let code: u16 = match head.code {
        Some(c) => c,
        None => 200,
    };
    let status: u16 = if code >= 100 && code < 1000 {
        code
    } else {
        200
    };
    if code == 204 || code == 304 || (code >= 100 && code < 200) {
        return Some((head.len, status));
    }
    let length_name = text::chars_of("content-length");
    let coding_name = text::chars_of("transfer-encoding");
    let ghost all = headers_view(head.headers@);
    let mut length: Option<usize> = None;
    let mut chunked: bool = false;
    let mut i: usize = 0;
    assert(all.take(0).len() == 0);
    while i < head.headers.len()
        invariant
            i <= head.headers.len(),
            all == headers_view(head.headers@),
            length_name@ == "content-length"@,
            coding_name@ == "transfer-encoding"@,
            match length {
                Some(n) => announced_length(all.take(i as int)) == Some(n as nat),
                None => announced_length(all.take(i as int)) is None,
            },
            chunked == announced_chunked(all.take(i as int)),
        decreases head.headers.len() - i,
    {
        let name = text::chars_of(head.headers[i].0.as_str());
        let value = head.headers[i].1.as_slice();
        proof {
            lemma_own_names();
            assert(all.take(i + 1).drop_last() == all.take(i as int));
            assert(all.take(i + 1).last() == (name@, value@));
        }
        if text::same_ignoring_case(name.as_slice(), length_name.as_slice()) {
            length = parse_usize(value);
        } else if text::same_ignoring_case(name.as_slice(), coding_name.as_slice()) {
            chunked = is_chunked_slice(value);
        }
        i += 1;
    }
    assert(all.take(head.headers@.len() as int) == all);
    if chunked {
        let body: &[u8] = &buf[head.len..buf.len()];
        assert(body@ == buf@.skip(head.len as int));
        match parse_chunked_body(body) {
            Some(n) => Some((head.len + n, status)),
            None => None,
        }
    } else {
        let len: usize = match length {
            Some(n) => n,
            None => 0,
        };
        if len <= buf.len() - head.len {
            Some((head.len + len, status))
        } else {
            None
        }
    }
}

proof fn lemma_own_names()
    ensures
        text::ascii_lowered("content-length"@) == "content-length"@,
        text::ascii_lowered("transfer-encoding"@) == "transfer-encoding"@,
        "content-length"@ != "transfer-encoding"@,
{
    reveal_strlit("content-length");
    reveal_strlit("transfer-encoding");
    assert(text::ascii_lowered("content-length"@) == "content-length"@);
    assert(text::ascii_lowered("transfer-encoding"@) == "transfer-encoding"@);
    assert("content-length"@.len() != "transfer-encoding"@.len());
}

/// A response that is complete ends at the same place whatever follows it, as long
/// as its head is read the same.
pub proof fn law_complete_response_stays_complete(buf: Seq<u8>, more: Seq<u8>, head: HeadView)
    requires
        head.len <= buf.len(),
        response_frame(buf, head) is Some,
    ensures
        response_frame(buf + more, head) == response_frame(buf, head),
{
    let rest = buf.skip(head.len as int);
    assert((buf + more).skip(head.len as int) == rest + more);
    if chunked_end(rest, 0) is Some {
        law_complete_body_stays_complete(rest, more);
    }
}

/// How many headers a response may have.
pub const RESPONSE_HEADERS: usize = 32;

/// Where the response ends that `buf` starts with, and its status code, or
/// nothing where the response is not complete.
pub fn find_complete_response(buf: &[u8]) -> (r: Option<(usize, u16)>)
    ensures
        match parsed_head(buf@, RESPONSE_HEADERS as nat) {
            Some(head) => match r {
                Some((n, status)) => response_frame(buf@, head) == Some((n as nat, status)) && n
                    <= buf.len(),
                None => response_frame(buf@, head) is None,
            },
            None => r is None,
        },
{
    match read_head(buf, RESPONSE_HEADERS) {
        Some(head) => response_end(buf, &head),
        None => None,
    }
}

// ---------------------------------------------------------------------------
// Responses in a receive buffer
// ---------------------------------------------------------------------------

/// Removes the first `n` bytes.
fn drop_front(buffer: &mut Vec<u8>, n: usize)
    requires
        n <= old(buffer).len(),
    ensures
        final(buffer)@ == old(buffer)@.skip(n as int),
{
    let ghost before = buffer@;
    let rest = buffer.split_off(n);
    assert(rest@ == before.skip(n as int));
    *buffer = rest;
}

/// What is left of a receive buffer, and the status code of the response that
/// was taken from it.
pub open spec fn after_response(buffer: Seq<u8>, frame: Option<(nat, u16)>) -> (
    Seq<u8>,
    Option<u16>,
) {
    match frame {
        Some((n, status)) => (buffer.skip(n as int), Some(status)),
        None => (buffer, None),
    }
}

/// The frame of the response that a receive buffer starts with.
pub open spec fn first_frame(buffer: Seq<u8>) -> Option<(nat, u16)> {
    match parsed_head(buffer, RESPONSE_HEADERS as nat) {
        Some(head) => response_frame(buffer, head),
        None => None,
    }
}

/// Removes the response that a receive buffer starts with and returns its status
/// code. A response that is not complete stays.
pub fn take_response(buffer: &mut Vec<u8>) -> (r: Option<u16>)
    ensures
        (final(buffer)@, r) == after_response(old(buffer)@, first_frame(old(buffer)@)),
{
    match find_complete_response(buffer.as_slice()) {
        Some((n, status)) => {
            drop_front(buffer, n);
            Some(status)
        },
        None => None,
    }
}

/// What `http_wire` reads of a whole response, with room for a number of headers:
/// its length and its status code, or nothing where it is incomplete or
/// malformed.
pub uninterp spec fn decoded_response(buf: Seq<u8>, slots: nat) -> Option<(nat, Option<u16>)>;

/// `http_wire::response::FullResponse::decode`, with room for `slots` headers. The
/// result depends on the bytes and the room alone, and a response is no longer
/// than the bytes that it was read from.
#[verifier::external_body]
fn decode_response(buf: &[u8], slots: usize) -> (r: Option<(usize, Option<u16>)>)
    ensures
        match r {
            Some((n, code)) => decoded_response(buf@, slots as nat) == Some((n as nat, code)) && n
                <= buf.len(),
            None => decoded_response(buf@, slots as nat) is None,
        },
{
    let mut room = vec![httparse::EMPTY_HEADER; slots];
    match http_wire::response::FullResponse::decode(buf, &mut room) {
        Ok((response, end)) => Some((end, response.head.code)),
        Err(_) => None,
    }
}

/// How many headers a response may have that is decoded whole.
pub const DECODED_HEADERS: usize = 16;

/// The status code of a response that was decoded: a code that has not the form
/// of one counts as an internal server error.
pub open spec fn decoded_status(code: Option<u16>) -> u16 {
    match code {
        Some(c) => status_or(c, 500),
        None => 500,
    }
}

/// The status code of a response that was decoded.
pub fn status_of(code: Option<u16>) -> (r: u16)
    ensures
        r == decoded_status(code),
{
    match code {
        Some(c) => if c >= 100 && c < 1000 {
            c
        } else {
            500
        },
        None => 500,
    }
}

/// The frame of the response that a receive buffer starts with, as `http_wire`
/// sees it.
pub open spec fn first_decoded(buffer: Seq<u8>) -> Option<(nat, u16)> {
    match decoded_response(buffer, DECODED_HEADERS as nat) {
        Some((n, code)) => Some((n, decoded_status(code))),
        None => None,
    }
}

/// Removes the response that `http_wire` decodes at the start of a receive buffer
/// and returns its status code. A response that is not complete stays.
pub fn take_decoded(buffer: &mut Vec<u8>) -> (r: Option<u16>)
    ensures
        (final(buffer)@, r) == after_response(old(buffer)@, first_decoded(old(buffer)@)),
{
    match decode_response(buffer.as_slice(), DECODED_HEADERS) {
        Some((n, code)) => {
            drop_front(buffer, n);
            Some(status_of(code))
        },
        None => None,
    }
}

// ---------------------------------------------------------------------------
// The bytes of a request
// ---------------------------------------------------------------------------

/// What is written of a URI in a request line: with a scheme, the whole URI, and
/// otherwise its path and query, or the root path.
pub open spec fn wire_target(u: uri::UriView) -> Seq<u8> {
    match u.scheme {
        Some(scheme) => headers::bytes_of(scheme) + seq![58u8] + (match u.authority {
            Some(authority) => seq![47u8, 47] + headers::bytes_of(authority),
            None => Seq::empty(),
        }) + (match u.path_and_query {
            Some(pq) => headers::bytes_of(pq),
            None => Seq::empty(),
        }),
        None => match u.path_and_query {
            Some(pq) => headers::bytes_of(pq),
            None => seq![47u8],
        },
    }
}

/// The lines of one header name, one for each of its values.
pub open spec fn value_lines(name: Seq<char>, values: Seq<Seq<u8>>) -> Seq<u8>
    decreases values.len(),
{
    if values.len() == 0 {
        Seq::empty()
    } else {
        value_lines(name, values.drop_last()) + headers::bytes_of(name) + seq![58u8, 32]
            + values.last() + seq![13u8, 10]
    }
}

/// The header lines of a request.
pub open spec fn header_lines(entries: Seq<headers::Entry>) -> Seq<u8>
    decreases entries.len(),
{
    if entries.len() == 0 {
        Seq::empty()
    } else {
        header_lines(entries.drop_last()) + value_lines(entries.last().0, entries.last().1)
    }
}

/// The bytes of a request: the request line, the header lines, a blank line and
/// the body.
pub open spec fn request_bytes(
    method: Seq<char>,
    target: Seq<u8>,
    entries: Seq<headers::Entry>,
    body: Seq<u8>,
) -> Seq<u8> {
    headers::bytes_of(method) + seq![32u8] + target + headers::bytes_of(
        " HTTP/1.1"@,
    ) + seq![13u8, 10] + header_lines(entries) + seq![13u8, 10] + body
}

/// Whether a request with this method and this URI can be written.
pub open spec fn encodes(method: Seq<char>, uri: Seq<char>) -> bool {
    options::is_token(method) && uri::parsed_uri(uri) is Ok
}

/// `http_wire`'s `encode` of an `http::Request` with these parts: it fails where
/// the method is no token or the URI is none, and otherwise writes the request. The
/// URI is parsed as `read_uri` parses it.
#[verifier::external_body]
pub(crate) fn encode_request(method: &str, uri: &str, headers: &http::HeaderMap, body: &[u8]) -> (r: Result<
    Vec<u8>,
    String,
>)
    ensures
        match r {
            Ok(bytes) => {
                &&& encodes(method@, uri@)
                &&& bytes@ == request_bytes(
                    method@,
                    wire_target(uri::parsed_uri(uri@)->Ok_0),
                    headers::header_entries(*headers),
                    body@,
                )
            },
            Err(_) => !encodes(method@, uri@),
        },
{
    let body = http_body_util::Full::new(bytes::Bytes::copy_from_slice(body));
    let req = http::Request::builder().method(method).uri(uri).body(body);
    let mut req = match req {
        Ok(req) => req,
        Err(e) => return Err(e.to_string()),
    };
    *req.headers_mut() = headers.clone();
    match req.encode() {
        Ok(bytes) => Ok(bytes.to_vec()),
        Err(e) => Err(e.to_string()),
    }
}

// ---------------------------------------------------------------------------
// What framing and writing keep to
// ---------------------------------------------------------------------------

/// `n` in decimal, as bytes.
pub open spec fn decimal_bytes(n: nat) -> Seq<u8> {
    text::decimal(n).map_values(|c: char| c as u8)
}

proof fn lemma_decimal_bytes(n: nat)
    ensures
        decimal_bytes(n).len() > 0,
        forall|i: int| 0 <= i < decimal_bytes(n).len() ==> 48 <= #[trigger] decimal_bytes(n)[i] <= 57,
        digits_value(decimal_bytes(n)) == n,
    decreases n,
{
    let s = decimal_bytes(n);
    reveal_with_fuel(digits_value, 2);
    if n >= 10 {
        lemma_decimal_bytes(n / 10);
        let t = decimal_bytes(n / 10);
        assert(s.drop_last() == t);
        assert forall|i: int| 0 <= i < s.len() implies 48 <= #[trigger] s[i] <= 57 by {
            if i < s.len() - 1 {
                assert(s[i] == t[i]);
            }
        }
    } else {
        assert(s.drop_last() == Seq::<u8>::empty());
    }
}

/// Whether a byte string holds spaces and tabs alone.
pub open spec fn all_blank(s: Seq<u8>) -> bool {
    forall|i: int| 0 <= i < s.len() ==> #[trigger] s[i] == 32 || s[i] == 9
}

/// The number that a header value announces is the one that its decimal digits
/// write, whatever blanks stand before them and whatever stands behind them. A
/// value without digits in that place announces none.
pub proof fn law_written_number_is_read(blanks: Seq<u8>, n: nat, tail: Seq<u8>)
    requires
        all_blank(blanks),
        n <= usize::MAX,
    ensures
        (tail.len() == 0 || !(48 <= tail[0] <= 57)) ==> leading_number(
            blanks + decimal_bytes(n) + tail,
        ) == Some(n),
        (tail.len() == 0 || !(48 <= tail[0] <= 57 || tail[0] == 32 || tail[0] == 9))
            ==> leading_number(blanks + tail) is None,
{
    let d = decimal_bytes(n);
    lemma_decimal_bytes(n);
    if tail.len() == 0 || !(48 <= tail[0] <= 57) {
        let s = blanks + d + tail;
        assert forall|i: int| 0 <= i < blanks.len() implies #[trigger] s[i] == 32 || s[i] == 9 by {
            assert(s[i] == blanks[i]);
        }
        assert(s[blanks.len() as int] == d[0]);
        lemma_blank_run_is(s, blanks.len());
        let t = s.skip(blanks.len() as int);
        assert(t == d + tail);
        assert forall|i: int| 0 <= i < d.len() implies is_digit(#[trigger] t[i]) by {
            assert(t[i] == d[i]);
        }
        if tail.len() > 0 {
            assert(t[d.len() as int] == tail[0]);
        }
        lemma_digit_run_is(t, d.len());
        assert(t.take(d.len() as int) == d);
        vstd::arithmetic::div_mod::lemma_small_mod(n, usize_values());
    }
    if tail.len() == 0 || !(48 <= tail[0] <= 57 || tail[0] == 32 || tail[0] == 9) {
        let s = blanks + tail;
        assert forall|i: int| 0 <= i < blanks.len() implies #[trigger] s[i] == 32 || s[i] == 9 by {
            assert(s[i] == blanks[i]);
        }
        if tail.len() > 0 {
            assert(s[blanks.len() as int] == tail[0]);
        }
        lemma_blank_run_is(s, blanks.len());
        let t = s.skip(blanks.len() as int);
        assert(t == tail);
        lemma_digit_run_is(t, 0);
    }
}

/// A coding is `chunked` exactly where that word stands in the value, in letters of
/// either case, between blanks.
pub proof fn law_chunked_is_recognised(before: Seq<u8>, word: Seq<u8>, behind: Seq<u8>)
    requires
        all_blank(before),
        forall|i: int|
            0 <= i < behind.len() ==> #[trigger] behind[i] == 32 || behind[i] == 9 || behind[i] == 13
                || behind[i] == 10,
        word.len() > 0,
        word[0] != 32 && word[0] != 9,
        word.last() != 32 && word.last() != 9 && word.last() != 13 && word.last() != 10,
    ensures
        is_chunked(before + word + behind) <==> {
            &&& word.len() == 7
            &&& word[0] == 99 || word[0] == 67
            &&& word[1] == 104 || word[1] == 72
            &&& word[2] == 117 || word[2] == 85
            &&& word[3] == 110 || word[3] == 78
            &&& word[4] == 107 || word[4] == 75
            &&& word[5] == 101 || word[5] == 69
            &&& word[6] == 100 || word[6] == 68
        },
{
    let s = before + word + behind;
    assert forall|i: int| 0 <= i < before.len() implies #[trigger] s[i] == 32 || s[i] == 9 by {
        assert(s[i] == before[i]);
    }
    assert(s[before.len() as int] == word[0]);
    lemma_blank_run_is(s, before.len());
    let t = s.skip(before.len() as int);
    assert(t == word + behind);
    assert forall|i: int| t.len() - behind.len() <= i < t.len() implies #[trigger] t[i] == 32 || t[i]
        == 9 || t[i] == 13 || t[i] == 10 by {
        assert(t[i] == behind[i - word.len()]);
    }
    assert(t[word.len() - 1] == word.last());
    lemma_tail_run_is(t, behind.len());
    assert(stripped(s) == word);
    let low = word.map_values(|b: u8| lower_byte(b));
    let want = seq![99u8, 104, 117, 110, 107, 101, 100];
    if word.len() == 7 {
        assert(low[0] == lower_byte(word[0]) && low[1] == lower_byte(word[1]) && low[2]
            == lower_byte(word[2]) && low[3] == lower_byte(word[3]) && low[4] == lower_byte(word[4])
            && low[5] == lower_byte(word[5]) && low[6] == lower_byte(word[6]));
        if low[0] == 99 && low[1] == 104 && low[2] == 117 && low[3] == 110 && low[4] == 107 && low[5]
            == 101 && low[6] == 100 {
            assert(low == want);
        }
    } else {
        assert(low.len() != want.len());
    }
}

/// The last header of a name decides what it announces, and headers of other
/// names do not count.
pub proof fn law_last_announcement_counts(headers: Seq<(Seq<char>, Seq<u8>)>, k: int, name: Seq<char>)
    requires
        0 <= k < headers.len(),
        text::ascii_lowered(headers[k].0) == name,
        forall|i: int| k < i < headers.len() ==> text::ascii_lowered(#[trigger] headers[i].0) != name,
    ensures
        name == "content-length"@ ==> announced_length(headers) == leading_number(headers[k].1),
        name == "transfer-encoding"@ ==> announced_chunked(headers) == is_chunked(headers[k].1),
    decreases headers.len(),
{
    if k < headers.len() - 1 {
        assert(text::ascii_lowered(headers[headers.len() - 1].0) != name);
        let rest = headers.drop_last();
        assert forall|i: int| k < i < rest.len() implies text::ascii_lowered(#[trigger] rest[i].0)
            != name by {
            assert(rest[i] == headers[i]);
        }
        law_last_announcement_counts(rest, k, name);
    }
}

/// Headers none of which is a `Content-Length` announce no length, and headers none
/// of which is a `Transfer-Encoding` announce no chunks.
pub proof fn law_nothing_announced(headers: Seq<(Seq<char>, Seq<u8>)>)
    ensures
        (forall|i: int|
            0 <= i < headers.len() ==> text::ascii_lowered(#[trigger] headers[i].0)
                != "content-length"@) ==> announced_length(headers) is None,
        (forall|i: int|
            0 <= i < headers.len() ==> text::ascii_lowered(#[trigger] headers[i].0)
                != "transfer-encoding"@) ==> !announced_chunked(headers),
    decreases headers.len(),
{
    if headers.len() > 0 {
        let rest = headers.drop_last();
        law_nothing_announced(rest);
        assert forall|i: int| 0 <= i < rest.len() implies #[trigger] rest[i] == headers[i] by {}
        assert(headers.last() == headers[headers.len() - 1]);
        if forall|i: int|
            0 <= i < headers.len() ==> text::ascii_lowered(#[trigger] headers[i].0)
                != "content-length"@ {
            assert forall|i: int| 0 <= i < rest.len() implies text::ascii_lowered(
                #[trigger] rest[i].0,
            ) != "content-length"@ by {
                assert(rest[i] == headers[i]);
            }
        }
        if forall|i: int|
            0 <= i < headers.len() ==> text::ascii_lowered(#[trigger] headers[i].0)
                != "transfer-encoding"@ {
            assert forall|i: int| 0 <= i < rest.len() implies text::ascii_lowered(
                #[trigger] rest[i].0,
            ) != "transfer-encoding"@ by {
                assert(rest[i] == headers[i]);
            }
        }
    }
}

/// A response that announces `n` bytes and no chunks is complete exactly where `n`
/// bytes follow its head, and ends behind them, whatever its status code: all but
/// the codes from 100 to 199, 204 and 304 have a body.
pub proof fn law_announced_body_is_waited_for(buf: Seq<u8>, head: HeadView, n: nat)
    requires
        match head.code {
            Some(c) => c != 204 && c != 304 && !(100 <= c < 200),
            None => true,
        },
        announced_length(head.headers) == Some(n),
        !announced_chunked(head.headers),
    ensures
        response_frame(buf, head) is Some <==> head.len + n <= buf.len(),
        response_frame(buf, head) is Some ==> (response_frame(buf, head)->0).0 == head.len + n,
{
}

/// The same of a head whose last `Content-Length` holds `n` in decimal, and none of
/// whose headers is a `Transfer-Encoding`.
pub proof fn law_written_length_is_waited_for(
    buf: Seq<u8>,
    head: HeadView,
    k: int,
    blanks: Seq<u8>,
    n: nat,
)
    requires
        match head.code {
            Some(c) => c != 204 && c != 304 && !(100 <= c < 200),
            None => true,
        },
        n <= usize::MAX,
        all_blank(blanks),
        0 <= k < head.headers.len(),
        text::ascii_lowered(head.headers[k].0) == "content-length"@,
        head.headers[k].1 == blanks + decimal_bytes(n),
        forall|i: int|
            k < i < head.headers.len() ==> text::ascii_lowered(#[trigger] head.headers[i].0)
                != "content-length"@,
        forall|i: int|
            0 <= i < head.headers.len() ==> text::ascii_lowered(#[trigger] head.headers[i].0)
                != "transfer-encoding"@,
    ensures
        response_frame(buf, head) is Some <==> head.len + n <= buf.len(),
        response_frame(buf, head) is Some ==> (response_frame(buf, head)->0).0 == head.len + n,
{
    law_last_announcement_counts(head.headers, k, "content-length"@);
    law_nothing_announced(head.headers);
    law_written_number_is_read(blanks, n, Seq::empty());
    assert(blanks + decimal_bytes(n) + Seq::<u8>::empty() == blanks + decimal_bytes(n));
    law_announced_body_is_waited_for(buf, head, n);
}

/// A response that announces chunks ends behind the blank line that ends them,
/// whatever length it announces besides and whatever follows it, and is not complete
/// before that line is there.
pub proof fn law_chunks_are_waited_for(
    start: Seq<u8>,
    pieces: Seq<Seq<u8>>,
    rest: Seq<u8>,
    head: HeadView,
)
    requires
        match head.code {
            Some(c) => c != 204 && c != 304 && !(100 <= c < 200),
            None => true,
        },
        announced_chunked(head.headers),
        head.len == start.len(),
        forall|i: int| 0 <= i < pieces.len() ==> is_piece(#[trigger] pieces[i]),
    ensures
        response_frame(start + encoded_body(pieces) + rest, head) is Some,
        (response_frame(start + encoded_body(pieces) + rest, head)->0).0 == start.len()
            + encoded_body(pieces).len(),
        forall|m: int|
            0 <= m < encoded_body(pieces).len() ==> response_frame(
                start + #[trigger] encoded_body(pieces).take(m),
                head,
            ) is None,
{
    let body = encoded_body(pieces);
    law_encoded_body_is_found(pieces, rest);
    assert((start + body + rest).skip(head.len as int) == body + rest);
    assert forall|m: int| 0 <= m < body.len() implies response_frame(
        start + #[trigger] body.take(m),
        head,
    ) is None by {
        assert((start + body.take(m)).skip(head.len as int) == body.take(m));
    }
}

/// A chunked response ends where its chunked body ends, counted from the end of the
/// head.
pub proof fn law_chunked_body_sets_the_end(buf: Seq<u8>, head: HeadView)
    requires
        match head.code {
            Some(c) => c != 204 && c != 304 && !(100 <= c < 200),
            None => true,
        },
        announced_chunked(head.headers),
    ensures
        response_frame(buf, head) is Some <==> chunked_end(buf.skip(head.len as int), 0) is Some,
        response_frame(buf, head) is Some ==> (response_frame(buf, head)->0).0 == head.len
            + chunked_end(buf.skip(head.len as int), 0)->0,
{
}

/// A response whose status code is from 100 to 199, 204 or 304 ends with its head,
/// whatever its headers announce. So does one that announces nothing.
pub proof fn law_response_can_end_with_its_head(buf: Seq<u8>, head: HeadView)
    requires
        head.len <= buf.len(),
        ({
            ||| head.code == Some(204u16)
            ||| head.code == Some(304u16)
            ||| (head.code matches Some(c) && 100 <= c < 200)
            ||| (announced_length(head.headers) is None && !announced_chunked(head.headers))
        }),
    ensures
        response_frame(buf, head) is Some,
        (response_frame(buf, head)->0).0 == head.len,
{
}

/// A complete response counts under the code of its head, and under 200 where that
/// is missing or has not three digits.
pub proof fn law_response_has_the_code_of_its_head(buf: Seq<u8>, head: HeadView)
    requires
        response_frame(buf, head) is Some,
    ensures
        head.code matches Some(c) ==> (100 <= c <= 999 ==> (response_frame(buf, head)->0).1 == c),
        head.code matches Some(c) ==> (!(100 <= c <= 999) ==> (response_frame(buf, head)->0).1 == 200),
        head.code is None ==> (response_frame(buf, head)->0).1 == 200,
{
}

/// A response that was decoded whole counts under its own code, and under 500 where
/// that is missing or has not three digits.
pub proof fn law_decoded_response_has_its_code(c: u16)
    ensures
        100 <= c <= 999 ==> decoded_status(Some(c)) == c,
        !(100 <= c <= 999) ==> decoded_status(Some(c)) == 500,
        decoded_status(None) == 500,
{
}

/// A frame cuts a receive buffer in two: what the response took and what is left
/// make up the buffer. Without a frame nothing is taken.
pub proof fn law_frame_cuts_the_buffer(buffer: Seq<u8>, n: nat, status: u16)
    requires
        n <= buffer.len(),
    ensures
        buffer.take(n as int) + after_response(buffer, Some((n, status))).0 == buffer,
        after_response(buffer, Some((n, status))).0.len() == buffer.len() - n,
        after_response(buffer, Some((n, status))).1 == Some(status),
        after_response(buffer, None) == (buffer, None::<u16>),
{
    assert(buffer.take(n as int) + buffer.skip(n as int) == buffer);
}

/// A head of up to 32 headers is read in the one mode, and of up to 16 in the other.
pub proof fn law_first_response_is_read(buffer: Seq<u8>)
    ensures
        parsed_head(buffer, 32) is None ==> first_frame(buffer) is None,
        parsed_head(buffer, 32) matches Some(head) ==> first_frame(buffer) == response_frame(
            buffer,
            head,
        ),
        decoded_response(buffer, 16) is None ==> first_decoded(buffer) is None,
        decoded_response(buffer, 16) matches Some(d) ==> (first_decoded(buffer) is Some
            && (first_decoded(buffer)->0).0 == d.0 && (first_decoded(buffer)->0).1 == decoded_status(d.1)),
{
}

/// A chunk line announces the number that its hexadecimal digits write, in either
/// case of their letters, whatever extension stands behind a semicolon.
pub proof fn law_chunk_extension_is_passed_over(n: nat, extension: Seq<u8>)
    requires
        n <= usize::MAX,
    ensures
        chunk_size(hex_digits(n)) == n,
        chunk_size(hex_digits(n) + seq![59u8] + extension) == n,
        forall|b: u8| 97 <= b <= 102 ==> #[trigger] hex_value((b - 32) as u8) == hex_value(b),
{
    let h = hex_digits(n);
    lemma_hex_digits(n);
    let line = h + seq![59u8] + extension;
    assert forall|i: int| 0 <= i < h.len() implies #[trigger] line[i] != 59 && h[i] != 59 by {
        assert(line[i] == h[i]);
        assert(hex_value(h[i]) is Some);
    }
    assert(line[h.len() as int] == 59);
    lemma_byte_at_is(line, 59, 0, h.len());
    assert(line.take(h.len() as int) == h);
    assert forall|i: int| 0 <= i < h.len() implies #[trigger] h[i] != 59 by {
        assert(line[i] != 59);
    }
    lemma_byte_at_is(h, 59, 0, h.len());
    assert(h.take(h.len() as int) == h);
}

/// The digits of a number in hexadecimal: one below 16 has one digit, of the last
/// letters one for each number from 10 on, and each further digit counts 16 of those
/// behind it.
pub proof fn law_hexadecimal_digits(n: nat, d: nat)
    requires
        d < 16,
    ensures
        d < 10 ==> hex_digits(d) == seq![(48 + d) as u8],
        d >= 10 ==> hex_digits(d) == seq![(97 + (d - 10)) as u8],
        n > 0 ==> hex_digits(16 * n + d) == hex_digits(n) + hex_digits(d),
{
    if n > 0 {
        assert((16 * n + d) / 16 == n && (16 * n + d) % 16 == d);
        assert(hex_digits(n).push(digit_of(d)) == hex_digits(n) + hex_digits(d));
    }
}

/// A chunked body with trailers ends behind the blank line that ends them.
pub proof fn law_trailers_belong_to_the_body(trailers: Seq<u8>, rest: Seq<u8>)
    requires
        trailers.len() > 0,
        trailers[0] != 13,
        trailers.last() != 13 && trailers.last() != 10,
        forall|i: int|
            0 <= i && i + 1 < trailers.len() ==> !(#[trigger] trailers[i] == 10 && trailers[i + 1] == 13),
    ensures
        chunked_end(seq![48u8, 13, 10] + trailers + seq![13u8, 10, 13, 10] + rest, 0) == Some(
            (trailers.len() + 7) as nat,
        ),
{
    let buf = seq![48u8, 13, 10] + trailers + seq![13u8, 10, 13, 10] + rest;
    let e = 3 + trailers.len();
    assert(buf[0] == 48 && buf[1] == 13 && buf[2] == 10);
    assert(buf[3] == trailers[0]);
    assert(buf.subrange(0, 1) == hex_digits(0));
    lemma_chunk_line(buf, 0, 0);
    assert(byte_at(buf, 10, 0) == 2);
    assert(buf[e as int] == 13 && buf[e as int + 1] == 10 && buf[e as int + 2] == 13 && buf[e as int + 3] == 10);
    assert forall|j: nat| 3 <= j < e implies !#[trigger] blank_line_at(buf, j) by {
        let k = j as int;
        if blank_line_at(buf, j) {
            if k + 2 < e {
                assert(buf[k + 1] == trailers[k - 2]);
                assert(buf[k + 2] == trailers[k - 1]);
                assert(trailers[k - 2] == 10 && trailers[k - 2 + 1] == 13);
            } else if k + 2 == e {
                assert(buf[k + 1] == trailers[k - 2]);
            } else {
                assert(buf[k] == trailers[k - 3]);
            }
        }
    }
    lemma_trailers_stop(buf, 3, e);
}

proof fn lemma_trailers_stop(buf: Seq<u8>, k: nat, e: nat)
    requires
        k <= e,
        blank_line_at(buf, e),
    ensures
        (forall|j: nat| k <= j < e ==> !#[trigger] blank_line_at(buf, j)) ==> trailers_end(
            buf,
            k,
        ) == Some(e + 4),
    decreases e - k,
{
    if k < e {
        lemma_trailers_stop(buf, k + 1, e);
        if forall|j: nat| k <= j < e ==> !#[trigger] blank_line_at(buf, j) {
            assert(!blank_line_at(buf, k));
        }
    }
}

/// A chunk line that no carriage return ends, and an empty line in its place, make a
/// body that never ends.
pub proof fn law_malformed_chunk_has_no_end(line: Seq<u8>, rest: Seq<u8>)
    requires
        forall|i: int| 0 <= i < line.len() ==> #[trigger] line[i] != 10,
        line.len() == 0 || line.last() != 13,
    ensures
        chunked_end(line + seq![10u8] + rest, 0) is None,
        chunked_end(line, 0) is None,
{
    let buf = line + seq![10u8] + rest;
    assert forall|i: int| 0 <= i < line.len() implies #[trigger] buf[i] != 10 by {
        assert(buf[i] == line[i]);
    }
    assert(buf[line.len() as int] == 10);
    lemma_byte_at_is(buf, 10, 0, line.len());
    if line.len() > 0 {
        assert(buf[line.len() - 1] == line.last());
    }
    lemma_byte_at_is(line, 10, 0, line.len());
}

/// The target of a request line, of a URI without a scheme, is its path and query,
/// and `/` where it has none. With a scheme it is the whole URI.
pub proof fn law_request_target(u: uri::UriView, scheme: Seq<char>, authority: Seq<char>, pq: Seq<char>)
    ensures
        u.scheme is None && u.path_and_query == Some(pq) ==> wire_target(u) == headers::bytes_of(pq),
        u.scheme is None && u.path_and_query is None ==> wire_target(u) == seq![47u8],
        u.scheme == Some(scheme) && u.authority == Some(authority) && u.path_and_query == Some(pq)
            ==> wire_target(u) == headers::bytes_of(scheme) + seq![58u8, 47, 47]
            + headers::bytes_of(authority) + headers::bytes_of(pq),
{
    if u.scheme == Some(scheme) && u.authority == Some(authority) && u.path_and_query == Some(pq) {
        assert(wire_target(u) == headers::bytes_of(scheme) + seq![58u8, 47, 47] + headers::bytes_of(
            authority,
        ) + headers::bytes_of(pq));
    }
}

/// The header lines of a list are those of its parts, one behind the other; each
/// value of a name has a line of its own.
pub proof fn law_header_lines_join(a: Seq<headers::Entry>, b: Seq<headers::Entry>)
    ensures
        header_lines(a + b) == header_lines(a) + header_lines(b),
    decreases b.len(),
{
    if b.len() == 0 {
        assert(a + b == a);
        assert(header_lines(a) + Seq::<u8>::empty() == header_lines(a));
    } else {
        law_header_lines_join(a, b.drop_last());
        assert((a + b).drop_last() == a + b.drop_last());
        assert((a + b).last() == b.last());
        let v = value_lines(b.last().0, b.last().1);
        assert(header_lines(a) + header_lines(b.drop_last()) + v == header_lines(a) + (header_lines(
            b.drop_last(),
        ) + v));
    }
}

/// A header line is the name, a colon, a space, the value and a line end. A name
/// with more values has a line for each, in their order.
pub proof fn law_header_line_is_written(name: Seq<char>, value: Seq<u8>, more: Seq<Seq<u8>>)
    ensures
        header_lines(seq![(name, seq![value])]) == headers::bytes_of(name) + seq![58u8, 32] + value
            + seq![13u8, 10],
        header_lines(seq![(name, seq![value] + more)]) == header_lines(seq![(name, seq![value])])
            + header_lines(seq![(name, more)]),
{
    reveal_with_fuel(header_lines, 2);
    reveal_with_fuel(value_lines, 2);
    let one: Seq<Seq<u8>> = seq![value];
    assert(one.drop_last() == Seq::<Seq<u8>>::empty());
    let e: Seq<headers::Entry> = seq![(name, one)];
    assert(e.drop_last() == Seq::<headers::Entry>::empty());
    assert(header_lines(e) == headers::bytes_of(name) + seq![58u8, 32] + value + seq![13u8, 10]);
    lemma_value_lines_join(name, one, more);
    let f: Seq<headers::Entry> = seq![(name, one + more)];
    assert(f.drop_last() == Seq::<headers::Entry>::empty());
    let g: Seq<headers::Entry> = seq![(name, more)];
    assert(g.drop_last() == Seq::<headers::Entry>::empty());
    assert(header_lines(e) == value_lines(name, one));
    assert(header_lines(f) == value_lines(name, one + more));
    assert(header_lines(g) == value_lines(name, more));
}

proof fn lemma_value_lines_join(name: Seq<char>, a: Seq<Seq<u8>>, b: Seq<Seq<u8>>)
    ensures
        value_lines(name, a + b) == value_lines(name, a) + value_lines(name, b),
    decreases b.len(),
{
    if b.len() == 0 {
        assert(a + b == a);
        assert(value_lines(name, a) + Seq::<u8>::empty() == value_lines(name, a));
    } else {
        lemma_value_lines_join(name, a, b.drop_last());
        assert((a + b).drop_last() == a + b.drop_last());
        assert((a + b).last() == b.last());
        assert(value_lines(name, a + b) == value_lines(name, a) + value_lines(name, b));
    }
}

/// A request starts with its method, a space and its target, and ends with a blank
/// line and its body.
pub proof fn law_request_is_written(
    method: Seq<char>,
    target: Seq<u8>,
    entries: Seq<headers::Entry>,
    body: Seq<u8>,
)
    ensures
        ({
            let line = headers::bytes_of(method) + seq![32u8] + target + seq![
                32u8,
                72,
                84,
                84,
                80,
                47,
                49,
                46,
                49,
                13,
                10,
            ];
            &&& request_bytes(method, target, Seq::empty(), body) == line + seq![13u8, 10] + body
            &&& request_bytes(method, target, entries, body) == line + header_lines(entries) + seq![
                13u8,
                10,
            ] + body
        }),
{
    reveal_strlit(" HTTP/1.1");
    let version = headers::bytes_of(" HTTP/1.1"@);
    vstd::utf8::is_ascii_chars_encode_utf8(" HTTP/1.1"@);
    assert(version == seq![32u8, 72, 84, 84, 80, 47, 49, 46, 49]);
    let line = headers::bytes_of(method) + seq![32u8] + target + seq![
        32u8,
        72,
        84,
        84,
        80,
        47,
        49,
        46,
        49,
        13,
        10,
    ];
    assert(headers::bytes_of(method) + seq![32u8] + target + version + seq![13u8, 10] == line);
    assert(line + header_lines(Seq::empty()) == line);
}

/// The headers of a head are seen as they are, in order.
pub proof fn law_head_is_seen(h: Head, i: int)
    ensures
        h@.len == h.len && h@.code == h.code,
        h@.headers.len() == h.headers@.len(),
        0 <= i < h.headers@.len() ==> h@.headers[i] == (h.headers@[i].0@, h.headers@[i].1@),
{
}

} // verus!
