//! Reading the source-port and RSS settings: port ranges, RSS keys, indirection
//! tables, and the text that `ethtool` prints of both.
use crate::text;
use vstd::prelude::*;

verus! {

/// Size of the indirection table that stands for a queue count, or for a queue
/// list whose length is no power of two.
pub const SYNTHETIC_INDIR_LEN: usize = 128;

/// `prefix`, then `item`, then `suffix`.
pub fn framed(prefix: &str, item: &[char], suffix: &str) -> (s: String)
    ensures
        s@ == prefix@ + item@ + suffix@,
{
    let mut s = prefix.to_string();
    s.append(text::string_of(item).as_str());
    s.append(suffix);
    s
}

// ---------------------------------------------------------------------------
// Port ranges
// ---------------------------------------------------------------------------

/// The range that `START-END` or `START:END` stands for, or the complaint.
pub open spec fn port_range(s: Seq<char>) -> Result<(u16, u16), Seq<char>> {
    let k = text::first_of(s, seq!['-', ':']) as int;
    if k >= s.len() {
        Err("expected START-END (e.g. 40000-41000)"@)
    } else {
        let start = text::unsigned_value(text::trimmed(s.take(k)), 65535);
        let end = text::unsigned_value(text::trimmed(s.skip(k + 1)), 65535);
        if start is None {
            Err("invalid range start: '"@ + s.take(k) + "'"@)
        } else if end is None {
            Err("invalid range end: '"@ + s.skip(k + 1) + "'"@)
        } else if start->0 == 0 || end->0 == 0 {
            Err("ports must be > 0"@)
        } else if start->0 > end->0 {
            Err(
                "range start ("@ + text::decimal(start->0) + ") is greater than end ("@ + text::decimal(end->0)
                    + ")"@,
            )
        } else {
            Ok((start->0 as u16, end->0 as u16))
        }
    }
}

/// Whether a result is the one that `want` describes.
pub open spec fn same_result<T>(r: Result<T, String>, want: Result<T, Seq<char>>) -> bool {
    match (r, want) {
        (Ok(a), Ok(b)) => a == b,
        (Err(a), Err(b)) => a@ == b,
        _ => false,
    }
}

/// Reads `--local-port-range`: `START-END` or `START:END`.
pub fn parse_port_range(s: &str) -> (r: Result<(u16, u16), String>)
    ensures
        same_result(r, port_range(s@)),
{
    let v = text::chars_of(s);
    let seps: [char; 2] = ['-', ':'];
    assert(seps@ == seq!['-', ':']);
    assert(v@ == v@.subrange(0, v@.len() as int));
    let k: usize = text::find_from(v.as_slice(), 0, seps.as_slice());
    if k >= v.len() {
        return Err("expected START-END (e.g. 40000-41000)".to_string());
    }
    let left: &[char] = &v.as_slice()[0..k];
    let right: &[char] = &v.as_slice()[k + 1..v.len()];
    assert(left@ == s@.take(k as int));
    assert(right@ == s@.skip(k + 1));
    let start: u64 = match text::parse_unsigned(text::trim(left), 65535) {
        Some(n) => n,
        None => {
            return Err(framed("invalid range start: '", left, "'"));
        },
    };
    let end: u64 = match text::parse_unsigned(text::trim(right), 65535) {
        Some(n) => n,
        None => {
            return Err(framed("invalid range end: '", right, "'"));
        },
    };
    if start == 0 || end == 0 {
        return Err("ports must be > 0".to_string());
    }
    if start > end {
        let mut m = "range start (".to_string();
        m.append(text::decimal_string(start).as_str());
        m.append(") is greater than end (");
        m.append(text::decimal_string(end).as_str());
        m.append(")");
        return Err(m);
    }
    Ok((start as u16, end as u16))
}

/// A range that is accepted holds at least one port, and port 0 is not in it.
pub proof fn law_port_range_is_not_empty(s: Seq<char>)
    requires
        port_range(s) is Ok,
    ensures
        0 < port_range(s)->Ok_0.0 <= port_range(s)->Ok_0.1,
{
}

// ---------------------------------------------------------------------------
// RSS keys
// ---------------------------------------------------------------------------

/// The characters that may stand in a key: hexadecimal digits and what parts
/// them.
pub open spec fn key_char(c: char) -> bool {
    ||| text::hex_value(c) is Some
    ||| c == ':' || c == '-' || c == ' ' || c == '\t' || c == '\r' || c == '\n'
}

/// The number of characters before the first one that may not stand in a key.
pub open spec fn key_prefix(s: Seq<char>) -> nat
    decreases s.len(),
{
    if s.len() == 0 || !key_char(s.first()) {
        0
    } else {
        1 + key_prefix(s.drop_first())
    }
}

/// The hexadecimal digits of `s`, in order.
pub open spec fn hex_digits(s: Seq<char>) -> Seq<char>
    decreases s.len(),
{
    if s.len() == 0 {
        Seq::empty()
    } else if text::hex_value(s.last()) is Some {
        hex_digits(s.drop_last()).push(s.last())
    } else {
        hex_digits(s.drop_last())
    }
}

/// The bytes that pairs of hexadecimal digits stand for.
pub open spec fn hex_bytes(d: Seq<char>) -> Seq<u8> {
    Seq::new(
        d.len() / 2,
        |i: int| (16 * text::hex_value(d[2 * i])->0 + text::hex_value(d[2 * i + 1])->0) as u8,
    )
}

/// The key that `s` stands for, or the complaint.
pub open spec fn hex_key(s: Seq<char>) -> Result<Seq<u8>, Seq<char>> {
    let bad = key_prefix(s);
    let digits = hex_digits(s);
    if bad < s.len() {
        Err("invalid character '"@ + seq![s[bad as int]] + "' in RSS key"@)
    } else if digits.len() < 8 {
        Err("RSS key is too short (need at least 4 bytes of hex)"@)
    } else if digits.len() % 2 != 0 {
        Err("RSS key has an odd number of hex digits"@)
    } else {
        Ok(hex_bytes(digits))
    }
}

/// Whether a list is the one that `want` describes.
pub open spec fn same_list<T>(r: Result<Vec<T>, String>, want: Result<Seq<T>, Seq<char>>) -> bool {
    match (r, want) {
        (Ok(a), Ok(b)) => a@ == b,
        (Err(a), Err(b)) => a@ == b,
        _ => false,
    }
}

proof fn lemma_key_prefix_is(s: Seq<char>, k: nat)
    requires
        k <= s.len(),
        k < s.len() ==> !key_char(s[k as int]),
        forall|i: int| 0 <= i < k ==> key_char(#[trigger] s[i]),
    ensures
        key_prefix(s) == k,
    decreases s.len(),
{
    if k > 0 {
        assert(key_char(s[0]));
        let t = s.drop_first();
        assert forall|i: int| 0 <= i < k - 1 implies key_char(#[trigger] t[i]) by {
            assert(t[i] == s[i + 1]);
        }
        lemma_key_prefix_is(t, (k - 1) as nat);
    }
}

/// Reads an RSS key in hexadecimal: `6d:5a:...`, `6d5a...` or parted by spaces.
/// A key has at least four bytes (RSS normally uses 40).
pub fn parse_hex_key(s: &str) -> (r: Result<Vec<u8>, String>)
    ensures
        same_list(r, hex_key(s@)),
{
    parse_key_chars(text::chars_of(s).as_slice())
}

/// Reads an RSS key from its characters.
pub fn parse_key_chars(v: &[char]) -> (r: Result<Vec<u8>, String>)
    ensures
        same_list(r, hex_key(v@)),
{
    let mut i: usize = 0;
    let mut digits: Vec<u8> = Vec::new();
    let ghost mut chars: Seq<char> = Seq::empty();
    while i < v.len()
        invariant
            i <= v.len(),
            forall|j: int| 0 <= j < i ==> key_char(#[trigger] v@[j]),
            chars == hex_digits(v@.take(i as int)),
            digits.len() == chars.len(),
            digits.len() <= i,
            forall|j: int|
                0 <= j < digits.len() ==> text::hex_value(#[trigger] chars[j]) == Some(
                    digits@[j] as nat,
                ) && digits@[j] < 16,
        decreases v.len() - i,
    {
        let c: char = v[i];
        let d = text::hex_digit(c);
        if d.is_none() && c != ':' && c != '-' && c != ' ' && c != '\t' && c != '\r' && c != '\n' {
            proof {
                lemma_key_prefix_is(v@, i as nat);
            }
            let one: [char; 1] = [c];
            assert(one@ == seq![c]);
            return Err(framed("invalid character '", one.as_slice(), "' in RSS key"));
        }
        assert(v@.take(i + 1).drop_last() == v@.take(i as int));
        match d {
            Some(n) => {
                digits.push(n);
                proof {
                    chars = chars.push(c);
                }
            },
            None => {},
        }
        i += 1;
    }
    proof {
        lemma_key_prefix_is(v@, v@.len());
        assert(v@.take(v@.len() as int) == v@);
    }
    if digits.len() < 8 {
        return Err("RSS key is too short (need at least 4 bytes of hex)".to_string());
    }
    if digits.len() % 2 != 0 {
        return Err("RSS key has an odd number of hex digits".to_string());
    }
    let mut key: Vec<u8> = Vec::new();
    let mut k: usize = 0;
    while k < digits.len()
        invariant
            k <= digits.len(),
            k % 2 == 0,
            digits.len() % 2 == 0,
            digits.len() == chars.len(),
            key@ == hex_bytes(chars).take(k as int / 2),
            forall|j: int|
                0 <= j < digits.len() ==> text::hex_value(#[trigger] chars[j]) == Some(
                    digits@[j] as nat,
                ) && digits@[j] < 16,
        decreases digits.len() - k,
    {
        let hi: u8 = digits[k];
        let lo: u8 = digits[k + 1];
        assert(text::hex_value(chars[k as int]) == Some(hi as nat));
        assert(text::hex_value(chars[k + 1]) == Some(lo as nat));
        key.push(hi * 16 + lo);
        assert(2 * (k as int / 2) == k);
        k += 2;
    }
    assert(hex_bytes(chars).take(digits.len() as int / 2) == hex_bytes(chars));
    Ok(key)
}

/// A key that is accepted has at least four bytes.
pub proof fn law_key_has_four_bytes(s: Seq<char>)
    requires
        hex_key(s) is Ok,
    ensures
        hex_key(s)->Ok_0.len() >= 4,
{
}

// ---------------------------------------------------------------------------
// Indirection tables
// ---------------------------------------------------------------------------

/// What parts the items of an inline table.
pub open spec fn item_separators() -> Seq<char> {
    seq![',', ' ', '\t', '\n']
}

/// The pieces that are not blank, without the white space around them.
pub open spec fn items_among(pieces: Seq<Seq<char>>) -> Seq<Seq<char>>
    decreases pieces.len(),
{
    if pieces.len() == 0 {
        Seq::empty()
    } else if text::trimmed(pieces.last()).len() == 0 {
        items_among(pieces.drop_last())
    } else {
        items_among(pieces.drop_last()).push(text::trimmed(pieces.last()))
    }
}

/// The items of an inline table.
pub open spec fn items_of(s: Seq<char>) -> Seq<Seq<char>> {
    items_among(text::pieces(s, item_separators()))
}

/// The queue that an item names.
pub open spec fn queue_id(item: Seq<char>) -> Option<nat> {
    text::unsigned_value(item, 0xffff_ffff)
}

/// The number of items before the first that names no queue.
pub open spec fn queue_prefix(items: Seq<Seq<char>>) -> nat
    decreases items.len(),
{
    if items.len() == 0 || queue_id(items.first()) is None {
        0
    } else {
        1 + queue_prefix(items.drop_first())
    }
}

/// The queues that the items name.
pub open spec fn queue_ids(items: Seq<Seq<char>>) -> Seq<u32> {
    Seq::new(items.len(), |i: int| queue_id(items[i])->0 as u32)
}

/// The table that an inline value stands for, or the complaint: a queue count
/// stands for a uniform table, a list for itself where its length is a power of
/// two, and otherwise for a table that cycles through it.
pub open spec fn indir_inline(s: Seq<char>) -> Result<Seq<u32>, Seq<char>> {
    let items = items_of(s);
    let bad = queue_prefix(items);
    let queues = queue_ids(items);
    if items.len() == 0 {
        Err("empty RSS indirection table"@)
    } else if bad < items.len() {
        Err("invalid queue id: '"@ + items[bad as int] + "'"@)
    } else if items.len() == 1 {
        if queues[0] == 0 {
            Err("RSS queue count must be > 0"@)
        } else {
            Ok(Seq::new(SYNTHETIC_INDIR_LEN as nat, |i: int| (i % queues[0] as int) as u32))
        }
    } else if !vstd::arithmetic::power2::is_pow2(items.len() as int) {
        Ok(Seq::new(SYNTHETIC_INDIR_LEN as nat, |i: int| queues[i % queues.len() as int]))
    } else {
        Ok(queues)
    }
}

proof fn lemma_queue_prefix_is(items: Seq<Seq<char>>, k: nat)
    requires
        k <= items.len(),
        k < items.len() ==> queue_id(items[k as int]) is None,
        forall|i: int| 0 <= i < k ==> queue_id(#[trigger] items[i]) is Some,
    ensures
        queue_prefix(items) == k,
    decreases items.len(),
{
    if k > 0 {
        assert(queue_id(items[0]) is Some);
        let t = items.drop_first();
        assert forall|i: int| 0 <= i < k - 1 implies queue_id(#[trigger] t[i]) is Some by {
            assert(t[i] == items[i + 1]);
        }
        lemma_queue_prefix_is(t, (k - 1) as nat);
    }
}

/// Tells whether `n` is a power of two.
fn power_of_two(n: usize) -> (r: bool)
    ensures
        r == vstd::arithmetic::power2::is_pow2(n as int),
{
    let mut m: usize = n;
    reveal(vstd::arithmetic::power2::is_pow2);
    if m == 0 {
        return false;
    }
    while m % 2 == 0
        invariant
            m > 0,
            vstd::arithmetic::power2::is_pow2(m as int) == vstd::arithmetic::power2::is_pow2(
                n as int,
            ),
        decreases m,
    {
        reveal(vstd::arithmetic::power2::is_pow2);
        m = m / 2;
    }
    m == 1
}

/// The pieces that are not blank, without the white space around them.
fn collect_items<'a>(pieces: &Vec<&'a [char]>) -> (items: Vec<&'a [char]>)
    ensures
        text::views(items@) == items_among(text::views(pieces@)),
{
    let mut items: Vec<&'a [char]> = Vec::new();
    let mut i: usize = 0;
    assert(text::views(items@) == Seq::<Seq<char>>::empty());
    while i < pieces.len()
        invariant
            i <= pieces.len(),
            text::views(items@) == items_among(text::views(pieces@).take(i as int)),
        decreases pieces.len() - i,
    {
        let t: &'a [char] = text::trim(pieces[i]);
        let ghost all = text::views(pieces@);
        let ghost before = text::views(items@);
        assert(all.take(i + 1).drop_last() == all.take(i as int));
        if t.len() != 0 {
            items.push(t);
            assert(text::views(items@) == before.push(t@));
        }
        i += 1;
    }
    assert(text::views(pieces@).take(pieces.len() as int) == text::views(pieces@));
    items
}

/// Reads an inline `--rss-indir` value: a queue count (`8`) or an explicit queue
/// list (`0,1,2,3,0,1,2,3`).
pub fn parse_indir_inline(s: &str) -> (r: Result<Vec<u32>, String>)
    ensures
        same_list(r, indir_inline(s@)),
{
    let v = text::chars_of(s);
    let seps: [char; 4] = [',', ' ', '\t', '\n'];
    assert(seps@ == item_separators());
    let parts = text::split(v.as_slice(), seps.as_slice());
    let items = collect_items(&parts);
    let ghost all = items_of(s@);
    assert(text::views(items@) == all);
    if items.len() == 0 {
        return Err("empty RSS indirection table".to_string());
    }
    let mut queues: Vec<u32> = Vec::new();
    let mut i: usize = 0;
    while i < items.len()
        invariant
            i <= items.len(),
            text::views(items@) == all,
            all == items_of(s@),
            all.len() > 0,
            queues@ == queue_ids(all).take(i as int),
            forall|j: int| 0 <= j < i ==> queue_id(#[trigger] all[j]) is Some,
        decreases items.len() - i,
    {
        assert(items@[i as int]@ == all[i as int]);
        match text::parse_unsigned(items[i], 0xffff_ffff) {
            Some(n) => {
                queues.push(n as u32);
            },
            None => {
                proof {
                    lemma_queue_prefix_is(all, i as nat);
                }
                return Err(framed("invalid queue id: '", items[i], "'"));
            },
        }
        i += 1;
    }
    proof {
        lemma_queue_prefix_is(all, all.len());
        assert(queue_ids(all).take(items.len() as int) == queue_ids(all));
    }
    if items.len() == 1 {
        let n: u32 = queues[0];
        if n == 0 {
            return Err("RSS queue count must be > 0".to_string());
        }
        let mut table: Vec<u32> = Vec::new();
        let mut k: u32 = 0;
        while k < 128
            invariant
                n > 0,
                k <= 128,
                table@ == Seq::new(k as nat, |i: int| (i % n as int) as u32),
            decreases 128 - k,
        {
            table.push(k % n);
            k += 1;
        }
        return Ok(table);
    }
    if !power_of_two(items.len()) {
        let mut table: Vec<u32> = Vec::new();
        let mut k: usize = 0;
        while k < SYNTHETIC_INDIR_LEN
            invariant
                queues.len() > 0,
                k <= SYNTHETIC_INDIR_LEN,
                table@ == Seq::new(k as nat, |i: int| queues@[i % queues@.len() as int]),
            decreases SYNTHETIC_INDIR_LEN - k,
        {
            table.push(queues[k % queues.len()]);
            k += 1;
        }
        return Ok(table);
    }
    Ok(queues)
}

/// A table that is accepted has an entry, and its length is a power of two.
pub proof fn law_indir_is_a_power_of_two(s: Seq<char>)
    requires
        indir_inline(s) is Ok,
    ensures
        indir_inline(s)->Ok_0.len() > 0,
        vstd::arithmetic::power2::is_pow2(indir_inline(s)->Ok_0.len() as int),
{
    reveal_with_fuel(vstd::arithmetic::power2::is_pow2, 9);
}

// ---------------------------------------------------------------------------
// What ethtool prints
// ---------------------------------------------------------------------------

/// The number of lines up to the first that announces the hash key.
pub open spec fn key_heading(lines: Seq<Seq<char>>) -> nat
    decreases lines.len(),
{
    if lines.len() == 0 || text::holds_folded(lines.first(), "hash key"@) {
        0
    } else {
        1 + key_heading(lines.drop_first())
    }
}

/// The rows of the key section: blank lines before the first row are passed
/// over. A blank line after it, or the heading of the hash function, ends the
/// section.
pub open spec fn key_rows(lines: Seq<Seq<char>>, started: bool) -> Seq<Seq<char>>
    decreases lines.len(),
{
    if lines.len() == 0 || text::holds_folded(lines.first(), "hash function"@) {
        Seq::empty()
    } else if text::trimmed(lines.first()).len() == 0 {
        if started {
            Seq::empty()
        } else {
            key_rows(lines.drop_first(), false)
        }
    } else {
        seq![lines.first()] + key_rows(lines.drop_first(), true)
    }
}

/// The rows one after the other, each with a space behind it.
pub open spec fn joined(rows: Seq<Seq<char>>) -> Seq<char>
    decreases rows.len(),
{
    if rows.len() == 0 {
        Seq::empty()
    } else {
        joined(rows.drop_last()) + rows.last() + seq![' ']
    }
}

/// The RSS key in the output of `ethtool --show-rxfh`.
pub open spec fn ethtool_key(s: Seq<char>) -> Option<Seq<u8>> {
    let lines = text::lines_of(s);
    let heading = key_heading(lines) as int;
    if heading >= lines.len() {
        None
    } else {
        let rows = key_rows(lines.skip(heading + 1), false);
        if rows.len() == 0 {
            None
        } else {
            match hex_key(joined(rows)) {
                Ok(key) => Some(key),
                Err(_) => None,
            }
        }
    }
}

/// The row of queues in one line: the part behind the first colon, where the
/// part before it is a row label. A row in which anything else stands is empty.
/// Other lines have none.
pub open spec fn queue_row(line: Seq<char>) -> Option<Seq<u32>> {
    let k = text::first_of(line, seq![':']) as int;
    if k >= line.len() || text::unsigned_value(text::trimmed(line.take(k)), usize::MAX as nat)
        is None {
        None
    } else {
        let items = text::words_of(line.skip(k + 1));
        if queue_prefix(items) < items.len() {
            Some(Seq::empty())
        } else {
            Some(queue_ids(items))
        }
    }
}

/// The queues of a table, row after row. Once it has an entry, an empty row ends
/// it.
pub open spec fn table_of(lines: Seq<Seq<char>>, started: bool) -> Seq<u32>
    decreases lines.len(),
{
    if lines.len() == 0 {
        Seq::empty()
    } else {
        let rest = lines.drop_first();
        match queue_row(lines.first()) {
            None => table_of(rest, started),
            Some(row) => if row.len() > 0 {
                row + table_of(rest, true)
            } else if started {
                Seq::empty()
            } else {
                table_of(rest, started)
            },
        }
    }
}

/// The indirection table in the output of `ethtool -x`.
pub open spec fn ethtool_indir(s: Seq<char>) -> Option<Seq<u32>> {
    let table = table_of(text::lines_of(s), false);
    if table.len() == 0 {
        None
    } else {
        Some(table)
    }
}

/// Whether an optional list is the one that `want` describes.
pub open spec fn same_option<T>(r: Option<Vec<T>>, want: Option<Seq<T>>) -> bool {
    match (r, want) {
        (Some(a), Some(b)) => a@ == b,
        (None, None) => true,
        _ => false,
    }
}

proof fn lemma_key_heading_is(lines: Seq<Seq<char>>, k: nat)
    requires
        k <= lines.len(),
        k < lines.len() ==> text::holds_folded(lines[k as int], "hash key"@),
        forall|i: int| 0 <= i < k ==> !text::holds_folded(#[trigger] lines[i], "hash key"@),
    ensures
        key_heading(lines) == k,
    decreases lines.len(),
{
    if k > 0 {
        assert(!text::holds_folded(lines[0], "hash key"@));
        let t = lines.drop_first();
        assert forall|i: int| 0 <= i < k - 1 implies !text::holds_folded(
            #[trigger] t[i],
            "hash key"@,
        ) by {
            assert(t[i] == lines[i + 1]);
        }
        lemma_key_heading_is(t, (k - 1) as nat);
    }
}

proof fn lemma_joined_push(rows: Seq<Seq<char>>, row: Seq<char>)
    ensures
        joined(rows.push(row)) == joined(rows) + row + seq![' '],
{
    assert(rows.push(row).drop_last() == rows);
}

/// The RSS key in the output of `ethtool --show-rxfh`: what stands below the
/// `RSS hash key:` heading, up to a blank line or the `RSS hash function:`
/// heading.
pub fn extract_ethtool_key(s: &str) -> (r: Option<Vec<u8>>)
    ensures
        same_option(r, ethtool_key(s@)),
{
    let v = text::chars_of(s);
    let lines = text::lines(v.as_slice());
    let ghost all = text::lines_of(s@);
    assert(text::views(lines@) == all);
    let heading = text::chars_of("hash key");
    let next = text::chars_of("hash function");
    let mut k: usize = 0;
    while k < lines.len() && !text::contains_folded(lines[k], heading.as_slice())
        invariant
            k <= lines.len(),
            text::views(lines@) == all,
            heading@ == "hash key"@,
            forall|i: int| 0 <= i < k ==> !text::holds_folded(#[trigger] all[i], "hash key"@),
        decreases lines.len() - k,
    {
        assert(lines@[k as int]@ == all[k as int]);
        k += 1;
    }
    proof {
        if k < lines.len() {
            assert(lines@[k as int]@ == all[k as int]);
        }
        lemma_key_heading_is(all, k as nat);
    }
    if k >= lines.len() {
        return None;
    }
    let mut i: usize = k + 1;
    let mut hex: Vec<char> = Vec::new();
    let mut started: bool = false;
    let ghost mut rows: Seq<Seq<char>> = Seq::empty();
    let ghost wanted = key_rows(all.skip(k + 1), false);
    assert(rows + wanted == wanted);
    loop
        invariant
            k < lines.len(),
            k < i <= lines.len(),
            text::views(lines@) == all,
            all == text::lines_of(s@),
            key_heading(all) == k,
            next@ == "hash function"@,
            hex@ == joined(rows),
            started == (rows.len() > 0),
            wanted == key_rows(all.skip(k + 1), false),
            rows + key_rows(all.skip(i as int), started) == wanted,
        ensures
            hex@ == joined(wanted),
            started == (wanted.len() > 0),
        decreases lines.len() - i,
    {
        let ghost left = all.skip(i as int);
        if i >= lines.len() {
            assert(rows == wanted);
            break;
        }
        assert(lines@[i as int]@ == all[i as int]);
        assert(left.first() == all[i as int]);
        assert(left.drop_first() == all.skip(i + 1));
        if text::contains_folded(lines[i], next.as_slice()) {
            assert(rows == wanted);
            break;
        }
        if text::trim(lines[i]).len() == 0 {
            if started {
                assert(rows == wanted);
                break;
            }
        } else {
            let row = lines[i];
            hex.extend_from_slice(row);
            hex.push(' ');
            proof {
                lemma_joined_push(rows, row@);
                assert(rows.push(row@) + key_rows(all.skip(i + 1), true) == rows + (seq![row@]
                    + key_rows(all.skip(i + 1), true)));
                rows = rows.push(row@);
            }
            started = true;
        }
        i += 1;
    }
    if !started {
        return None;
    }
    match parse_key_chars(hex.as_slice()) {
        Ok(key) => Some(key),
        Err(_) => None,
    }
}

/// The row of queues in one line.
fn parse_queue_row(line: &[char]) -> (r: Option<Vec<u32>>)
    ensures
        same_option(r, queue_row(line@)),
{
    let seps: [char; 1] = [':'];
    assert(seps@ == seq![':']);
    assert(line@ == line@.subrange(0, line@.len() as int));
    let k: usize = text::find_from(line, 0, seps.as_slice());
    if k >= line.len() {
        return None;
    }
    let label: &[char] = &line[0..k];
    let rest: &[char] = &line[k + 1..line.len()];
    assert(label@ == line@.take(k as int));
    assert(rest@ == line@.skip(k + 1));
    if text::parse_unsigned(text::trim(label), usize::MAX as u64).is_none() {
        return None;
    }
    let items = text::words(rest);
    let ghost all = text::words_of(rest@);
    let mut row: Vec<u32> = Vec::new();
    let mut i: usize = 0;
    while i < items.len()
        invariant
            i <= items.len(),
            text::views(items@) == all,
            all == text::words_of(line@.skip(k + 1)),
            text::first_of(line@, seq![':']) == k,
            k < line.len(),
            text::unsigned_value(text::trimmed(line@.take(k as int)), usize::MAX as nat) is Some,
            row@ == queue_ids(all).take(i as int),
            forall|j: int| 0 <= j < i ==> queue_id(#[trigger] all[j]) is Some,
        decreases items.len() - i,
    {
        assert(items@[i as int]@ == all[i as int]);
        match text::parse_unsigned(items[i], 0xffff_ffff) {
            Some(n) => {
                row.push(n as u32);
            },
            None => {
                proof {
                    lemma_queue_prefix_is(all, i as nat);
                }
                return Some(Vec::new());
            },
        }
        i += 1;
    }
    proof {
        lemma_queue_prefix_is(all, all.len());
        assert(queue_ids(all).take(items.len() as int) == queue_ids(all));
    }
    Some(row)
}

/// The indirection table in the output of `ethtool -x` or `ethtool --show-rxfh`.
/// Its rows look like `    0:      0     1     2 ...`.
pub fn extract_ethtool_indir(s: &str) -> (r: Option<Vec<u32>>)
    ensures
        same_option(r, ethtool_indir(s@)),
{
    let v = text::chars_of(s);
    let lines = text::lines(v.as_slice());
    let ghost all = text::lines_of(s@);
    assert(text::views(lines@) == all);
    let mut table: Vec<u32> = Vec::new();
    let mut i: usize = 0;
    let ghost wanted = table_of(all, false);
    assert(all.skip(0) == all);
    assert(table@ + wanted == wanted);
    loop
        invariant
            i <= lines.len(),
            text::views(lines@) == all,
            table@ + table_of(all.skip(i as int), table@.len() > 0) == wanted,
        ensures
            table@ == wanted,
        decreases lines.len() - i,
    {
        let ghost left = all.skip(i as int);
        if i >= lines.len() {
            assert(table@ == wanted);
            break;
        }
        assert(lines@[i as int]@ == all[i as int]);
        assert(left.first() == all[i as int]);
        assert(left.drop_first() == all.skip(i + 1));
        match parse_queue_row(lines[i]) {
            None => {},
            Some(row) => {
                if row.len() == 0 {
                    if table.len() > 0 {
                        assert(table@ == wanted);
                        break;
                    }
                } else {
                    let ghost before = table@;
                    table.extend_from_slice(row.as_slice());
                    assert(table@ == before + row@);
                    assert(table@ + table_of(all.skip(i + 1), true) == before + (row@ + table_of(
                        all.skip(i + 1),
                        true,
                    )));
                }
            },
        }
        i += 1;
    }
    if table.len() == 0 {
        None
    } else {
        Some(table)
    }
}

// ---------------------------------------------------------------------------
// What reading gives back
// ---------------------------------------------------------------------------

proof fn lemma_decimal_has_none_of(n: nat, seps: Seq<char>)
    requires
        forall|c: char| #[trigger] seps.contains(c) ==> !('0' <= c <= '9'),
    ensures
        forall|i: int| 0 <= i < text::decimal(n).len() ==> !seps.contains(#[trigger] text::decimal(n)[i]),
{
    text::law_decimal_digits(n, 0);
    let d = text::decimal(n);
    assert forall|i: int| 0 <= i < d.len() implies !seps.contains(#[trigger] d[i]) by {
        assert('0' <= d[i] <= '9');
    }
}

/// A range is read back as it is written: its two ports in decimal, with a hyphen or a
/// colon between them and blanks around them. It is accepted exactly where both are
/// ports and the first is not the larger.
pub proof fn law_port_range_reads_back(
    a: nat,
    b: nat,
    sep: char,
    left: Seq<char>,
    right: Seq<char>,
)
    requires
        sep == '-' || sep == ':',
        text::all_space(left),
        text::all_space(right),
    ensures
        ({
            let r = port_range(text::decimal(a) + left + seq![sep] + right + text::decimal(b));
            &&& 1 <= a <= b <= 65535 ==> r == Ok::<(u16, u16), Seq<char>>((a as u16, b as u16))
            &&& r is Ok ==> 1 <= a <= b <= 65535
        }),
{
    let seps = seq!['-', ':'];
    assert(seps[0] == '-' && seps[1] == ':');
    assert forall|c: char| #[trigger] seps.contains(c) implies c == '-' || c == ':' by {}
    assert(seps.contains(sep));
    let da = text::decimal(a);
    let db = text::decimal(b);
    lemma_decimal_has_none_of(a, seps);
    text::law_decimal_digits(a, 0);
    text::law_decimal_digits(b, 0);
    let s = da + left + seq![sep] + right + db;
    let k = da.len() + left.len();
    assert forall|i: int| 0 <= i < k implies !seps.contains(#[trigger] s[i]) by {
        if i < da.len() {
            assert(s[i] == da[i]);
        } else {
            assert(s[i] == left[i - da.len()]);
            assert(text::is_space(left[i - da.len()]));
            text::law_whitespace(s[i]);
        }
    }
    assert(s[k as int] == sep);
    text::lemma_first_of_is(s, seps, k);
    assert(s.take(k as int) == Seq::<char>::empty() + da + left);
    assert(s.skip(k as int + 1) == right + db + Seq::<char>::empty());
    assert(!text::is_space(da[0]) && !text::is_space(da[da.len() - 1]));
    assert(!text::is_space(db[0]) && !text::is_space(db[db.len() - 1]));
    text::law_trimming_leaves_the_core(Seq::empty(), da, left);
    text::law_trimming_leaves_the_core(right, db, Seq::empty());
    text::law_numbers_are_read(a, 65535, Seq::empty(), 0);
    text::law_numbers_are_read(b, 65535, Seq::empty(), 0);
}

/// A text without a hyphen and without a colon is no range.
pub proof fn law_port_range_has_a_separator(s: Seq<char>)
    requires
        forall|i: int| 0 <= i < s.len() ==> #[trigger] s[i] != '-' && s[i] != ':',
    ensures
        port_range(s) is Err,
{
    let seps = seq!['-', ':'];
    assert forall|i: int| 0 <= i < s.len() implies !seps.contains(#[trigger] s[i]) by {
        assert(s[i] != '-' && s[i] != ':');
    }
    text::lemma_first_of_is(s, seps, s.len());
}

/// The hexadecimal digit of a value below 16.
pub open spec fn hex_char(v: nat) -> char {
    if v < 10 {
        ('0' as u32 + v) as char
    } else {
        ('a' as u32 + (v - 10)) as char
    }
}

/// A key in hexadecimal, two digits for each byte, with `sep` before each.
pub open spec fn written_key(key: Seq<u8>, sep: Seq<char>) -> Seq<char>
    decreases key.len(),
{
    if key.len() == 0 {
        Seq::empty()
    } else {
        written_key(key.drop_last(), sep) + sep + seq![
            hex_char((key.last() / 16) as nat),
            hex_char((key.last() % 16) as nat),
        ]
    }
}

/// The digits of a text are its hexadecimal digits in their order.
pub proof fn law_digits_are_picked_out(s: Seq<char>)
    ensures
        hex_digits(s) == s.filter(|c: char| text::hex_value(c) is Some),
    decreases s.len(),
{
    reveal(Seq::filter);
    if s.len() > 0 {
        law_digits_are_picked_out(s.drop_last());
    }
}

proof fn lemma_digits_join(a: Seq<char>, b: Seq<char>)
    ensures
        hex_digits(a + b) == hex_digits(a) + hex_digits(b),
    decreases b.len(),
{
    if b.len() == 0 {
        assert(a + b == a);
        assert(hex_digits(a) + Seq::<char>::empty() == hex_digits(a));
    } else {
        lemma_digits_join(a, b.drop_last());
        assert((a + b).drop_last() == a + b.drop_last());
        assert((a + b).last() == b.last());
        assert(hex_digits(a + b) == hex_digits(a) + hex_digits(b));
    }
}

proof fn lemma_no_digits(sep: Seq<char>)
    requires
        forall|i: int| 0 <= i < sep.len() ==> text::hex_value(#[trigger] sep[i]) is None,
    ensures
        hex_digits(sep) == Seq::<char>::empty(),
    decreases sep.len(),
{
    if sep.len() > 0 {
        assert(text::hex_value(sep[sep.len() - 1]) is None);
        let t = sep.drop_last();
        assert forall|i: int| 0 <= i < t.len() implies text::hex_value(#[trigger] t[i]) is None by {
            assert(t[i] == sep[i]);
        }
        lemma_no_digits(t);
    }
}

proof fn lemma_written_key(key: Seq<u8>, sep: Seq<char>)
    requires
        forall|i: int| 0 <= i < sep.len() ==> text::hex_value(#[trigger] sep[i]) is None && key_char(
            sep[i],
        ),
    ensures
        hex_digits(written_key(key, sep)).len() == 2 * key.len(),
        forall|i: int|
            0 <= i < key.len() ==> #[trigger] hex_bytes(hex_digits(written_key(key, sep)))[i] == key[i],
        forall|i: int|
            0 <= i < written_key(key, sep).len() ==> key_char(#[trigger] written_key(key, sep)[i]),
    decreases key.len(),
{
    if key.len() > 0 {
        let less = key.drop_last();
        lemma_written_key(less, sep);
        let b = key.last();
        let two = seq![hex_char((b / 16) as nat), hex_char((b % 16) as nat)];
        let head = written_key(less, sep);
        let all = written_key(key, sep);
        text::law_hexadecimal_digits((b / 16) as nat, ' ');
        text::law_hexadecimal_digits((b % 16) as nat, ' ');
        assert(text::hex_value(two[0]) == Some((b / 16) as nat));
        assert(text::hex_value(two[1]) == Some((b % 16) as nat));
        assert(hex_digits(two) == two) by {
            reveal_with_fuel(hex_digits, 3);
            assert(two.drop_last() == seq![two[0]]);
            assert(seq![two[0]].drop_last() == Seq::<char>::empty());
            assert(hex_digits(two.drop_last()) == seq![two[0]]);
            assert(hex_digits(two) == seq![two[0]].push(two[1]));
        }
        lemma_no_digits(sep);
        lemma_digits_join(head, sep);
        lemma_digits_join(head + sep, two);
        let d = hex_digits(head);
        assert(hex_digits(all) == d + two);
        assert forall|i: int| 0 <= i < key.len() implies #[trigger] hex_bytes(hex_digits(all))[i]
            == key[i] by {
            if i < less.len() {
                assert((d + two)[2 * i] == d[2 * i]);
                assert((d + two)[2 * i + 1] == d[2 * i + 1]);
                assert(hex_bytes(d)[i] == less[i]);
            } else {
                assert((d + two)[2 * i] == two[0]);
                assert((d + two)[2 * i + 1] == two[1]);
            }
        }
        assert forall|i: int| 0 <= i < all.len() implies key_char(#[trigger] all[i]) by {
            if i < head.len() {
                assert(all[i] == head[i]);
            } else if i < head.len() + sep.len() {
                assert(all[i] == sep[i - head.len()]);
            } else {
                assert(all[i] == two[i - head.len() - sep.len()]);
            }
        }
    }
}

/// A key of at least four bytes is read back as it is written in hexadecimal, whatever
/// colons, hyphens and blanks stand between its bytes.
pub proof fn law_key_reads_back(key: Seq<u8>, sep: Seq<char>)
    requires
        forall|i: int|
            0 <= i < sep.len() ==> #[trigger] sep[i] == ':' || sep[i] == '-' || sep[i] == ' ' || sep[i]
                == '\t' || sep[i] == '\r' || sep[i] == '\n',
    ensures
        key.len() >= 4 ==> hex_key(written_key(key, sep)) == Ok::<Seq<u8>, Seq<char>>(key),
        key.len() < 4 ==> hex_key(written_key(key, sep)) is Err,
{
    assert forall|i: int| 0 <= i < sep.len() implies text::hex_value(#[trigger] sep[i]) is None
        && key_char(sep[i]) by {
        text::law_hexadecimal_digits(0, sep[i]);
    }
    lemma_written_key(key, sep);
    let s = written_key(key, sep);
    lemma_key_prefix_is(s, s.len());
    let d = hex_digits(s);
    assert(hex_bytes(d).len() == key.len());
    assert(hex_bytes(d) == key);
}

/// A text with a character that has no place in a key is no key, and neither is one
/// with an odd number of hexadecimal digits, nor one with fewer than eight.
pub proof fn law_no_key(s: Seq<char>, i: int)
    ensures
        0 <= i < s.len() && text::hex_value(s[i]) is None && s[i] != ':' && s[i] != '-' && s[i] != ' '
            && s[i] != '\t' && s[i] != '\r' && s[i] != '\n' ==> hex_key(s) is Err,
        s.filter(|c: char| text::hex_value(c) is Some).len() % 2 == 1 ==> hex_key(s) is Err,
        s.filter(|c: char| text::hex_value(c) is Some).len() < 8 ==> hex_key(s) is Err,
{
    law_digits_are_picked_out(s);
    if 0 <= i < s.len() && !key_char(s[i]) {
        lemma_key_prefix_stops(s, i);
    }
}

proof fn lemma_key_prefix_stops(s: Seq<char>, i: int)
    requires
        0 <= i < s.len(),
        !key_char(s[i]),
    ensures
        key_prefix(s) <= i,
    decreases s.len(),
{
    if i > 0 && key_char(s.first()) {
        lemma_key_prefix_stops(s.drop_first(), i - 1);
    }
}

/// Queues in decimal, one behind the other with a comma between them.
pub open spec fn written_list(queues: Seq<u32>) -> Seq<char>
    decreases queues.len(),
{
    if queues.len() == 0 {
        Seq::empty()
    } else if queues.len() == 1 {
        text::decimal(queues[0] as nat)
    } else {
        text::decimal(queues[0] as nat) + seq![','] + written_list(queues.drop_first())
    }
}

/// Each queue in decimal.
pub open spec fn decimals(queues: Seq<u32>) -> Seq<Seq<char>> {
    Seq::new(queues.len(), |i: int| text::decimal(queues[i] as nat))
}

proof fn lemma_separators()
    ensures
        item_separators().contains(','),
        forall|c: char|
            #[trigger] item_separators().contains(c) ==> c == ',' || c == ' ' || c == '\t' || c == '\n',
{
    let seps = item_separators();
    assert(seps[0] == ',');
}

proof fn lemma_written_list(queues: Seq<u32>)
    requires
        queues.len() > 0,
    ensures
        text::pieces(written_list(queues), item_separators()) == decimals(queues),
    decreases queues.len(),
{
    let seps = item_separators();
    lemma_separators();
    let d = text::decimal(queues[0] as nat);
    lemma_decimal_has_none_of(queues[0] as nat, seps);
    if queues.len() == 1 {
        text::law_pieces_stand_between_separators(d, ',', Seq::empty(), seps);
        assert(decimals(queues) == seq![d]);
    } else {
        let rest = queues.drop_first();
        lemma_written_list(rest);
        text::law_pieces_stand_between_separators(d, ',', written_list(rest), seps);
        assert(decimals(queues) == seq![d] + decimals(rest));
    }
}

proof fn lemma_items_stay(items: Seq<Seq<char>>)
    requires
        forall|i: int| 0 <= i < items.len() ==> text::is_word(#[trigger] items[i]),
    ensures
        items_among(items) == items,
    decreases items.len(),
{
    if items.len() > 0 {
        let less = items.drop_last();
        assert forall|i: int| 0 <= i < less.len() implies text::is_word(#[trigger] less[i]) by {
            assert(less[i] == items[i]);
        }
        lemma_items_stay(less);
        assert(text::is_word(items[items.len() - 1]));
        text::law_word_is_trimmed(items.last());
        assert(items == less.push(items.last()));
    }
}

proof fn lemma_decimals_are_queues(queues: Seq<u32>)
    ensures
        forall|i: int| 0 <= i < queues.len() ==> text::is_word(#[trigger] decimals(queues)[i]),
        queue_prefix(decimals(queues)) == queues.len(),
        queue_ids(decimals(queues)) == queues,
{
    let items = decimals(queues);
    assert forall|i: int| 0 <= i < queues.len() implies text::is_word(#[trigger] items[i])
        && queue_id(items[i]) == Some(queues[i] as nat) by {
        text::law_decimal_digits(queues[i] as nat, 0);
        text::law_numbers_are_read(queues[i] as nat, 0xffff_ffff, Seq::empty(), 0);
    }
    assert forall|i: int| 0 <= i < items.len() implies queue_id(#[trigger] items[i]) is Some by {
        assert(text::is_word(items[i]));
    }
    lemma_queue_prefix_is(items, items.len());
    let ids = queue_ids(items);
    assert forall|i: int| 0 <= i < queues.len() implies ids[i] == queues[i] by {
        assert(text::is_word(items[i]));
    }
    assert(ids == queues);
}

/// A list of queues stands for itself where its length is a power of two, and for a
/// table of 128 entries that goes through it over and over where it is not. One number
/// alone is a count of queues, which the 128 entries take in turn.
pub proof fn law_list_reads_back(queues: Seq<u32>)
    requires
        queues.len() > 0,
    ensures
        ({
            let r = indir_inline(written_list(queues));
            &&& queues.len() > 1 && vstd::arithmetic::power2::is_pow2(queues.len() as int) ==> r == Ok::<
                Seq<u32>,
                Seq<char>,
            >(queues)
            &&& queues.len() > 1 && !vstd::arithmetic::power2::is_pow2(queues.len() as int) ==> (r is Ok
                && r->Ok_0.len() == 128 && forall|i: int|
                0 <= i < 128 ==> #[trigger] r->Ok_0[i] == queues[i % queues.len() as int])
            &&& queues.len() == 1 && queues[0] > 0 ==> (r is Ok && r->Ok_0.len() == 128 && forall|i: int|
                0 <= i < 128 ==> #[trigger] r->Ok_0[i] == i % queues[0] as int)
            &&& queues == seq![0u32] ==> r is Err
        }),
{
    lemma_written_list(queues);
    let items = decimals(queues);
    lemma_decimals_are_queues(queues);
    assert forall|i: int| 0 <= i < items.len() implies text::is_word(#[trigger] items[i]) by {}
    lemma_items_stay(items);
    assert(items_of(written_list(queues)) == items);
    if queues.len() == 1 && queues[0] > 0 {
        let r = indir_inline(written_list(queues));
        assert forall|i: int| 0 <= i < 128 implies #[trigger] r->Ok_0[i] == i % queues[0] as int by {
            vstd::arithmetic::div_mod::lemma_mod_bound(i, queues[0] as int);
        }
    }
}

/// An inline table with no items, or with one that names no queue, is refused.
pub proof fn law_bad_list_is_refused(s: Seq<char>, i: int)
    ensures
        items_of(s).len() == 0 ==> indir_inline(s) is Err,
        0 <= i < items_of(s).len() && queue_id(items_of(s)[i]) is None ==> indir_inline(s) is Err,
{
    if 0 <= i < items_of(s).len() && queue_id(items_of(s)[i]) is None {
        lemma_queue_prefix_stops(items_of(s), i);
    }
}

proof fn lemma_queue_prefix_stops(items: Seq<Seq<char>>, i: int)
    requires
        0 <= i < items.len(),
        queue_id(items[i]) is None,
    ensures
        queue_prefix(items) <= i,
    decreases items.len(),
{
    if i > 0 && queue_id(items.first()) is Some {
        lemma_queue_prefix_stops(items.drop_first(), i - 1);
    }
}

/// The items of an inline table are what stands between commas and blanks, without
/// what is blank.
pub proof fn law_blank_items_are_passed_over(a: Seq<Seq<char>>, blank: Seq<char>, b: Seq<Seq<char>>)
    requires
        text::all_space(blank),
    ensures
        items_among(a + seq![blank] + b) == items_among(a + b),
        items_among(a + b) == items_among(a) + items_among(b),
    decreases b.len(),
{
    text::law_trimming_leaves_the_core(blank, Seq::empty(), Seq::empty());
    if b.len() == 0 {
        assert(a + b == a);
        let s = a + seq![blank] + b;
        assert(s.drop_last() == a);
        assert(s.last() == blank);
        assert(items_among(a) + Seq::<Seq<char>>::empty() == items_among(a));
    } else {
        law_blank_items_are_passed_over(a, blank, b.drop_last());
        let s = a + seq![blank] + b;
        assert(s.drop_last() == a + seq![blank] + b.drop_last());
        assert((a + b).drop_last() == a + b.drop_last());
        assert(s.last() == b.last() && (a + b).last() == b.last());
        assert(items_among(a + b) == items_among(a) + items_among(b));
    }
}

/// Queues in decimal, each with a gap before it.
pub open spec fn spaced(queues: Seq<u32>, gap: Seq<char>) -> Seq<char>
    decreases queues.len(),
{
    if queues.len() == 0 {
        Seq::empty()
    } else {
        gap + text::decimal(queues[0] as nat) + spaced(queues.drop_first(), gap)
    }
}

/// A row of an indirection table as it is printed: a label and a colon, and the queues
/// behind them.
pub open spec fn printed_row(left: Seq<char>, label: nat, gap: Seq<char>, queues: Seq<u32>) -> Seq<char> {
    left + text::decimal(label) + seq![':'] + spaced(queues, gap)
}

proof fn lemma_spaced_words(queues: Seq<u32>, gap: Seq<char>)
    requires
        gap.len() > 0,
        text::all_space(gap),
    ensures
        text::words_of(spaced(queues, gap)) == decimals(queues),
    decreases queues.len(),
{
    if queues.len() == 0 {
        assert(decimals(queues) == Seq::<Seq<char>>::empty());
        assert(text::words_of(Seq::<char>::empty()) == Seq::<Seq<char>>::empty());
    } else {
        let d = text::decimal(queues[0] as nat);
        let rest = queues.drop_first();
        let more = spaced(rest, gap);
        lemma_spaced_words(rest, gap);
        text::law_decimal_digits(queues[0] as nat, 0);
        assert(text::is_space(gap[0]));
        if rest.len() > 0 {
            assert(more.first() == gap[0]);
        }
        text::law_words_stand_between_spaces(gap, d, more);
        assert(decimals(queues) == seq![d] + decimals(rest));
    }
}

/// A printed row gives the queues that were printed, in their order.
pub proof fn law_row_reads_back(left: Seq<char>, label: nat, gap: Seq<char>, queues: Seq<u32>)
    requires
        text::all_space(left),
        text::all_space(gap),
        gap.len() > 0,
        label <= usize::MAX,
    ensures
        queue_row(printed_row(left, label, gap, queues)) == Some(queues),
{
    let d = text::decimal(label);
    let line = printed_row(left, label, gap, queues);
    let seps = seq![':'];
    assert(seps[0] == ':');
    assert forall|c: char| #[trigger] seps.contains(c) implies c == ':' by {}
    lemma_decimal_has_none_of(label, seps);
    let k = left.len() + d.len();
    assert forall|i: int| 0 <= i < k implies !seps.contains(#[trigger] line[i]) by {
        if i < left.len() {
            assert(line[i] == left[i]);
            assert(text::is_space(left[i]));
            text::law_whitespace(left[i]);
        } else {
            assert(line[i] == d[i - left.len()]);
        }
    }
    assert(line[k as int] == ':');
    text::lemma_first_of_is(line, seps, k);
    assert(line.take(k as int) == left + d + Seq::<char>::empty());
    assert(line.skip(k as int + 1) == spaced(queues, gap));
    text::law_decimal_digits(label, 0);
    assert(!text::is_space(d[0]) && !text::is_space(d[d.len() - 1]));
    text::law_trimming_leaves_the_core(left, d, Seq::empty());
    text::law_numbers_are_read(label, usize::MAX as nat, Seq::empty(), 0);
    lemma_spaced_words(queues, gap);
    lemma_decimals_are_queues(queues);
}

/// A line without a colon is no row, and neither is one whose label is no number. A row
/// in which something else than a queue stands is an empty one.
pub proof fn law_other_lines_are_no_rows(line: Seq<char>, label: Seq<char>, rest: Seq<char>, i: int)
    requires
        forall|j: int| 0 <= j < label.len() ==> #[trigger] label[j] != ':',
    ensures
        (forall|j: int| 0 <= j < line.len() ==> #[trigger] line[j] != ':') ==> queue_row(line) is None,
        text::unsigned_value(text::trimmed(label), usize::MAX as nat) is None ==> queue_row(
            label + seq![':'] + rest,
        ) is None,
        text::unsigned_value(text::trimmed(label), usize::MAX as nat) is Some && 0 <= i
            < text::words_of(rest).len() && text::unsigned_value(text::words_of(rest)[i], 0xffff_ffff)
            is None ==> queue_row(label + seq![':'] + rest) == Some(Seq::<u32>::empty()),
{
    let seps = seq![':'];
    assert(seps[0] == ':');
    assert(seps.contains(':'));
    assert forall|c: char| #[trigger] seps.contains(c) implies c == ':' by {}
    if forall|j: int| 0 <= j < line.len() ==> #[trigger] line[j] != ':' {
        assert forall|j: int| 0 <= j < line.len() implies !seps.contains(#[trigger] line[j]) by {
            assert(line[j] != ':');
        }
        text::lemma_first_of_is(line, seps, line.len());
    }
    let s = label + seq![':'] + rest;
    assert forall|j: int| 0 <= j < label.len() implies !seps.contains(#[trigger] s[j]) by {
        assert(s[j] == label[j]);
    }
    assert(s[label.len() as int] == ':');
    text::lemma_first_of_is(s, seps, label.len());
    assert(s.take(label.len() as int) == label);
    assert(s.skip(label.len() as int + 1) == rest);
    if 0 <= i < text::words_of(rest).len() && queue_id(text::words_of(rest)[i]) is None {
        lemma_queue_prefix_stops(text::words_of(rest), i);
    }
}

/// How many numbers stand in the first `r` rows.
pub open spec fn numbers_before(rows: Seq<Seq<u32>>, r: int) -> int
    decreases r,
{
    if r <= 0 {
        0
    } else {
        numbers_before(rows, r - 1) + rows[r - 1].len()
    }
}

proof fn lemma_numbers_before_shift(rows: Seq<Seq<u32>>, r: int)
    requires
        0 < r <= rows.len(),
    ensures
        numbers_before(rows, r) == rows[0].len() + numbers_before(rows.drop_first(), r - 1),
    decreases r,
{
    if r > 1 {
        lemma_numbers_before_shift(rows, r - 1);
        assert(rows.drop_first()[r - 2] == rows[r - 1]);
    } else {
        assert(numbers_before(rows, 0) == 0);
    }
}

/// The table is the rows one behind the other, from the first line to the last: the
/// `j`-th number of row `r` stands behind all the numbers of the rows before it.
pub proof fn law_rows_follow_each_other(
    lines: Seq<Seq<char>>,
    rows: Seq<Seq<u32>>,
    started: bool,
    r: int,
    j: int,
)
    requires
        lines.len() == rows.len(),
        forall|i: int|
            0 <= i < lines.len() ==> queue_row(#[trigger] lines[i]) == Some(rows[i]) && rows[i].len() > 0,
    ensures
        table_of(lines, started).len() == numbers_before(rows, rows.len() as int),
        0 <= r < rows.len() && 0 <= j < rows[r].len() ==> {
            &&& 0 <= numbers_before(rows, r) + j < table_of(lines, started).len()
            &&& table_of(lines, started)[numbers_before(rows, r) + j] == rows[r][j]
        },
    decreases lines.len(),
{
    if lines.len() > 0 {
        let rest = lines.drop_first();
        let others = rows.drop_first();
        assert(queue_row(lines[0]) == Some(rows[0]));
        assert forall|i: int| 0 <= i < rest.len() implies queue_row(#[trigger] rest[i]) == Some(
            others[i],
        ) && others[i].len() > 0 by {
            assert(rest[i] == lines[i + 1]);
            assert(others[i] == rows[i + 1]);
            assert(queue_row(lines[i + 1]) == Some(rows[i + 1]));
        }
        law_rows_follow_each_other(rest, others, true, r - 1, j);
        lemma_numbers_before_shift(rows, rows.len() as int);
        let t = table_of(rest, true);
        assert(table_of(lines, started) == rows[0] + t);
        if 0 <= r < rows.len() && 0 <= j < rows[r].len() {
            if r > 0 {
                lemma_numbers_before_shift(rows, r);
                assert(others[r - 1] == rows[r]);
                lemma_numbers_before_is_positive(others, r - 1);
            }
        }
    }
}

proof fn lemma_numbers_before_is_positive(rows: Seq<Seq<u32>>, r: int)
    ensures
        numbers_before(rows, r) >= 0,
    decreases r,
{
    if r > 0 {
        lemma_numbers_before_is_positive(rows, r - 1);
    }
}

/// The table of lines is that of the first of them and then that of the others, as
/// long as no empty row ends it; a line that is no row changes nothing, and neither
/// does an empty row before the first entry.
pub proof fn law_other_lines_change_nothing(a: Seq<Seq<char>>, line: Seq<char>, b: Seq<Seq<char>>)
    ensures
        queue_row(line) is None ==> table_of(a + seq![line] + b, false) == table_of(a + b, false),
        queue_row(line) == Some(Seq::<u32>::empty()) && table_of(a, false).len() > 0 ==> table_of(
            a + seq![line] + b,
            false,
        ) == table_of(a, false),
        queue_row(line) == Some(Seq::<u32>::empty()) && (forall|i: int|
            0 <= i < a.len() ==> queue_row(#[trigger] a[i]) is None) ==> table_of(
            a + seq![line] + b,
            false,
        ) == table_of(b, false),
{
    lemma_lines_around(a, line, b, false);
}

proof fn lemma_lines_around(a: Seq<Seq<char>>, line: Seq<char>, b: Seq<Seq<char>>, started: bool)
    ensures
        queue_row(line) is None ==> table_of(a + seq![line] + b, started) == table_of(a + b, started),
        queue_row(line) == Some(Seq::<u32>::empty()) && (started || table_of(a, started).len() > 0)
            ==> table_of(a + seq![line] + b, started) == table_of(a, started),
        queue_row(line) == Some(Seq::<u32>::empty()) && !started && (forall|i: int|
            0 <= i < a.len() ==> queue_row(#[trigger] a[i]) is None) ==> table_of(
            a + seq![line] + b,
            started,
        ) == table_of(b, started),
    decreases a.len(),
{
    let s = a + seq![line] + b;
    if a.len() == 0 {
        assert(s.first() == line);
        assert(s.drop_first() == b);
        assert(a + b == b);
    } else {
        let less = a.drop_first();
        assert(s.first() == a.first());
        assert(s.drop_first() == less + seq![line] + b);
        assert((a + b).first() == a.first());
        assert((a + b).drop_first() == less + b);
        lemma_lines_around(less, line, b, started);
        lemma_lines_around(less, line, b, true);
        assert forall|i: int| 0 <= i < less.len() implies #[trigger] less[i] == a[i + 1] by {}
        if forall|i: int| 0 <= i < a.len() ==> queue_row(#[trigger] a[i]) is None {
            assert(queue_row(a[0]) is None);
            assert forall|i: int| 0 <= i < less.len() implies queue_row(#[trigger] less[i]) is None by {
                assert(less[i] == a[i + 1]);
            }
        }
    }
}

/// Lines, each with a line feed behind it.
pub open spec fn printed_lines(lines: Seq<Seq<char>>) -> Seq<char>
    decreases lines.len(),
{
    if lines.len() == 0 {
        Seq::empty()
    } else {
        lines.first() + seq!['\n'] + printed_lines(lines.drop_first())
    }
}

/// Whether a text stands on one line, and can be told from its line end.
pub open spec fn is_line(line: Seq<char>) -> bool {
    &&& forall|i: int| 0 <= i < line.len() ==> #[trigger] line[i] != '\n'
    &&& line.len() == 0 || line.last() != '\r'
}

proof fn lemma_printed_lines(lines: Seq<Seq<char>>)
    requires
        forall|i: int| 0 <= i < lines.len() ==> is_line(#[trigger] lines[i]),
    ensures
        text::lines_of(printed_lines(lines)) == lines,
    decreases lines.len(),
{
    if lines.len() == 0 {
        text::law_lines_end_at_line_feeds(Seq::empty(), Seq::empty());
        assert(text::lines_of(Seq::<char>::empty()) == lines);
    } else {
        let rest = lines.drop_first();
        assert forall|i: int| 0 <= i < rest.len() implies is_line(#[trigger] rest[i]) by {
            assert(rest[i] == lines[i + 1]);
        }
        lemma_printed_lines(rest);
        assert(is_line(lines[0]));
        text::law_lines_end_at_line_feeds(lines[0], printed_lines(rest));
        assert(seq![lines[0]] + rest == lines);
    }
}

/// The table that `ethtool` printed is the one that is read: with each row on a line of
/// its own, behind a label, all the rows one behind the other.
pub proof fn law_table_reads_back(lines: Seq<Seq<char>>, rows: Seq<Seq<u32>>, r: int, j: int)
    requires
        lines.len() == rows.len(),
        forall|i: int|
            0 <= i < lines.len() ==> is_line(#[trigger] lines[i]) && queue_row(lines[i]) == Some(rows[i])
                && rows[i].len() > 0,
        0 <= r < rows.len(),
        0 <= j < rows[r].len(),
    ensures
        ethtool_indir(printed_lines(lines)) is Some,
        ethtool_indir(printed_lines(lines))->0.len() == numbers_before(rows, rows.len() as int),
        ethtool_indir(printed_lines(lines))->0[numbers_before(rows, r) + j] == rows[r][j],
{
    lemma_printed_lines(lines);
    law_rows_follow_each_other(lines, rows, false, r, j);
}

/// What is printed without a row has no table.
pub proof fn law_no_rows_no_table(s: Seq<char>)
    requires
        forall|i: int|
            0 <= i < text::lines_of(s).len() ==> queue_row(#[trigger] text::lines_of(s)[i]) is None,
    ensures
        ethtool_indir(s) is None,
{
    lemma_no_rows(text::lines_of(s));
}

proof fn lemma_no_rows(lines: Seq<Seq<char>>)
    requires
        forall|i: int| 0 <= i < lines.len() ==> queue_row(#[trigger] lines[i]) is None,
    ensures
        table_of(lines, false).len() == 0,
    decreases lines.len(),
{
    if lines.len() > 0 {
        let rest = lines.drop_first();
        assert(queue_row(lines[0]) is None);
        assert forall|i: int| 0 <= i < rest.len() implies queue_row(#[trigger] rest[i]) is None by {
            assert(rest[i] == lines[i + 1]);
        }
        lemma_no_rows(rest);
    }
}

/// Whether a line can be a row of the key: it is not blank, and announces no hash
/// function.
pub open spec fn is_key_row(line: Seq<char>) -> bool {
    text::trimmed(line).len() > 0 && !text::holds_folded(line, "hash function"@)
}

proof fn lemma_key_rows(rows: Seq<Seq<char>>, behind: Seq<Seq<char>>, started: bool)
    requires
        forall|i: int| 0 <= i < rows.len() ==> is_key_row(#[trigger] rows[i]),
        rows.len() > 0 || started,
        behind.len() == 0 || text::trimmed(behind.first()).len() == 0 || text::holds_folded(
            behind.first(),
            "hash function"@,
        ),
    ensures
        key_rows(rows + behind, started) == rows,
    decreases rows.len(),
{
    let s = rows + behind;
    if rows.len() == 0 {
        assert(s == behind);
        assert(rows == Seq::<Seq<char>>::empty());
    } else {
        let rest = rows.drop_first();
        assert(is_key_row(rows[0]));
        assert forall|i: int| 0 <= i < rest.len() implies is_key_row(#[trigger] rest[i]) by {
            assert(rest[i] == rows[i + 1]);
        }
        lemma_key_rows(rest, behind, true);
        assert(s.first() == rows[0]);
        assert(s.drop_first() == rest + behind);
        assert(seq![rows[0]] + rest == rows);
    }
}

proof fn lemma_blank_before_rows(blank: Seq<Seq<char>>, lines: Seq<Seq<char>>)
    requires
        forall|i: int|
            0 <= i < blank.len() ==> text::trimmed(#[trigger] blank[i]).len() == 0
                && !text::holds_folded(blank[i], "hash function"@),
    ensures
        key_rows(blank + lines, false) == key_rows(lines, false),
    decreases blank.len(),
{
    let s = blank + lines;
    if blank.len() == 0 {
        assert(s == lines);
    } else {
        let rest = blank.drop_first();
        assert(text::trimmed(blank[0]).len() == 0);
        assert forall|i: int| 0 <= i < rest.len() implies text::trimmed(#[trigger] rest[i]).len() == 0
            && !text::holds_folded(rest[i], "hash function"@) by {
            assert(rest[i] == blank[i + 1]);
        }
        lemma_blank_before_rows(rest, lines);
        assert(s.first() == blank[0]);
        assert(s.drop_first() == rest + lines);
    }
}

/// The key is what stands below the first line that announces it, behind blank lines, up
/// to a blank line, the line that announces the hash function, or the end. What stands
/// above or below does not matter.
pub proof fn law_key_stands_below_its_heading(
    above: Seq<Seq<char>>,
    heading: Seq<char>,
    blank: Seq<Seq<char>>,
    rows: Seq<Seq<char>>,
    behind: Seq<Seq<char>>,
)
    requires
        forall|i: int| 0 <= i < above.len() ==> !text::holds_folded(#[trigger] above[i], "hash key"@),
        text::holds_folded(heading, "hash key"@),
        forall|i: int|
            0 <= i < blank.len() ==> text::trimmed(#[trigger] blank[i]).len() == 0
                && !text::holds_folded(blank[i], "hash function"@),
        rows.len() > 0,
        forall|i: int| 0 <= i < rows.len() ==> is_key_row(#[trigger] rows[i]),
        behind.len() == 0 || text::trimmed(behind.first()).len() == 0 || text::holds_folded(
            behind.first(),
            "hash function"@,
        ),
        forall|i: int| 0 <= i < above.len() ==> is_line(#[trigger] above[i]),
        is_line(heading),
        forall|i: int| 0 <= i < blank.len() ==> is_line(#[trigger] blank[i]),
        forall|i: int| 0 <= i < rows.len() ==> is_line(#[trigger] rows[i]),
        forall|i: int| 0 <= i < behind.len() ==> is_line(#[trigger] behind[i]),
    ensures
        ({
            let s = printed_lines(above + seq![heading] + blank + rows + behind);
            match hex_key(joined(rows)) {
                Ok(key) => ethtool_key(s) == Some(key),
                Err(_) => ethtool_key(s) is None,
            }
        }),
{
    let all = above + seq![heading] + blank + rows + behind;
    assert forall|i: int| 0 <= i < all.len() implies is_line(#[trigger] all[i]) by {
        if i < above.len() {
            assert(all[i] == above[i]);
        } else if i == above.len() {
            assert(all[i] == heading);
        } else if i < above.len() + 1 + blank.len() {
            assert(all[i] == blank[i - above.len() - 1]);
        } else if i < above.len() + 1 + blank.len() + rows.len() {
            assert(all[i] == rows[i - above.len() - 1 - blank.len()]);
        } else {
            assert(all[i] == behind[i - above.len() - 1 - blank.len() - rows.len()]);
        }
    }
    lemma_printed_lines(all);
    assert(all[above.len() as int] == heading);
    assert forall|i: int| 0 <= i < above.len() implies !text::holds_folded(
        #[trigger] all[i],
        "hash key"@,
    ) by {
        assert(all[i] == above[i]);
    }
    lemma_key_heading_is(all, above.len());
    assert(all.skip(above.len() as int + 1) == blank + (rows + behind));
    lemma_blank_before_rows(blank, rows + behind);
    lemma_key_rows(rows, behind, false);
}

/// Where no line announces the key there is none.
pub proof fn law_no_heading_no_key(s: Seq<char>)
    requires
        forall|i: int|
            0 <= i < text::lines_of(s).len() ==> !text::holds_folded(
                #[trigger] text::lines_of(s)[i],
                "hash key"@,
            ),
    ensures
        ethtool_key(s) is None,
{
    lemma_key_heading_is(text::lines_of(s), text::lines_of(s).len());
}

/// Rows of a key that are joined have a blank between them and keep their order.
pub proof fn law_rows_are_joined(a: Seq<Seq<char>>, row: Seq<char>, b: Seq<Seq<char>>)
    ensures
        joined(seq![row]) == row + seq![' '],
        joined(a + b) == joined(a) + joined(b),
    decreases b.len(),
{
    reveal_with_fuel(joined, 2);
    let one = seq![row];
    assert(one.drop_last() == Seq::<Seq<char>>::empty());
    assert(Seq::<char>::empty() + row + seq![' '] == row + seq![' ']);
    if b.len() == 0 {
        assert(a + b == a);
        assert(joined(a) + Seq::<char>::empty() == joined(a));
    } else {
        law_rows_are_joined(a, row, b.drop_last());
        assert((a + b).drop_last() == a + b.drop_last());
        assert((a + b).last() == b.last());
        assert(joined(a + b) == joined(a) + joined(b));
    }
}

/// A result is the one that is described where both are there and equal, or both are
/// refused with the same words.
pub proof fn law_results_agree<T>(
    r: Result<T, String>,
    a: Result<T, Seq<char>>,
    l: Result<Vec<T>, String>,
    b: Result<Seq<T>, Seq<char>>,
    o: Option<Vec<T>>,
    c: Option<Seq<T>>,
)
    ensures
        same_result(r, a) ==> (r is Ok <==> a is Ok) && (r is Ok ==> r->Ok_0 == a->Ok_0) && (r is Err
            ==> r->Err_0@ == a->Err_0),
        same_list(l, b) ==> (l is Ok <==> b is Ok) && (l is Ok ==> l->Ok_0@ == b->Ok_0) && (l is Err
            ==> l->Err_0@ == b->Err_0),
        same_option(o, c) ==> (o is Some <==> c is Some) && (o is Some ==> o->0@ == c->0),
{
}

} // verus!
