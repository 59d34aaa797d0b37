//! Text handling shared by the parsers: characters, lines, tokens, decimal
//! numbers and the ASCII rules of HTTP.
//!
//! The executable functions work on slices of characters. Their contracts are
//! stated over `Seq<char>`, the view that a `str` and a `String` have.
use vstd::prelude::*;

verus! {

/// `String::push` appends one character to the end of the string.
pub assume_specification[ String::push ](s: &mut String, c: char)
    ensures
        final(s)@ == old(s)@.push(c),
;

/// The characters of `s`, in order.
pub fn chars_of(s: &str) -> (v: Vec<char>)
    ensures
        v@ == s@,
{
    let mut v: Vec<char> = Vec::new();
    for c in it: s.chars()
        invariant
            v@ == it.seq().take(it.index() as int),
            it.seq() == s@,
    {
        v.push(c);
    }
    v
}

/// The string made of the characters of `v`.
pub fn string_of(v: &[char]) -> (s: String)
    ensures
        s@ == v@,
{
    let mut s = String::new();
    let mut i: usize = 0;
    while i < v.len()
        invariant
            i <= v.len(),
            s@ == v@.take(i as int),
        decreases v.len() - i,
    {
        s.push(v[i]);
        i += 1;
    }
    s
}

/// Whether two slices hold the same characters.
pub fn same_chars(a: &[char], b: &[char]) -> (r: bool)
    ensures
        r == (a@ == b@),
{
    if a.len() != b.len() {
        return false;
    }
    let mut i: usize = 0;
    while i < a.len()
        invariant
            i <= a.len(),
            a.len() == b.len(),
            a@.take(i as int) == b@.take(i as int),
        decreases a.len() - i,
    {
        if a[i] != b[i] {
            return false;
        }
        assert(a@.take(i + 1) == a@.take(i as int).push(a@[i as int]));
        assert(b@.take(i + 1) == b@.take(i as int).push(b@[i as int]));
        i += 1;
    }
    assert(a@ == a@.take(a@.len() as int));
    assert(b@ == b@.take(b@.len() as int));
    true
}

/// Whether two strings hold the same characters.
pub fn same_str(a: &str, b: &str) -> (r: bool)
    ensures
        r == (a@ == b@),
{
    let x = chars_of(a);
    let y = chars_of(b);
    same_chars(x.as_slice(), y.as_slice())
}

// ---------------------------------------------------------------------------
// Whitespace
// ---------------------------------------------------------------------------

/// The characters with the Unicode property White_Space.
pub open spec fn is_space(c: char) -> bool {
    ||| 0x09 <= c as u32 <= 0x0d
    ||| c as u32 == 0x20
    ||| c as u32 == 0x85
    ||| c as u32 == 0xa0
    ||| c as u32 == 0x1680
    ||| 0x2000 <= c as u32 <= 0x200a
    ||| c as u32 == 0x2028
    ||| c as u32 == 0x2029
    ||| c as u32 == 0x202f
    ||| c as u32 == 0x205f
    ||| c as u32 == 0x3000
}

/// Tells whether `c` is whitespace.
pub fn space(c: char) -> (r: bool)
    ensures
        r == is_space(c),
{
    let u: u32 = c as u32;
    (0x09 <= u && u <= 0x0d) || u == 0x20 || u == 0x85 || u == 0xa0 || u == 0x1680
        || (0x2000 <= u && u <= 0x200a) || u == 0x2028 || u == 0x2029 || u == 0x202f
        || u == 0x205f || u == 0x3000
}

/// `s` without the whitespace at its start.
pub open spec fn trimmed_start(s: Seq<char>) -> Seq<char>
    decreases s.len(),
{
    if s.len() > 0 && is_space(s.first()) {
        trimmed_start(s.drop_first())
    } else {
        s
    }
}

/// `s` without the whitespace at its end.
pub open spec fn trimmed_end(s: Seq<char>) -> Seq<char>
    decreases s.len(),
{
    if s.len() > 0 && is_space(s.last()) {
        trimmed_end(s.drop_last())
    } else {
        s
    }
}

/// `s` without the whitespace at either end.
pub open spec fn trimmed(s: Seq<char>) -> Seq<char> {
    trimmed_end(trimmed_start(s))
}

/// Drops the whitespace at the end of `s`.
pub fn trim_end(s: &[char]) -> (r: &[char])
    ensures
        r@ == trimmed_end(s@),
{
    let mut hi: usize = s.len();
    assert(s@ == s@.subrange(0, hi as int));
    while hi > 0 && space(s[hi - 1])
        invariant
            hi <= s.len(),
            trimmed_end(s@) == trimmed_end(s@.subrange(0, hi as int)),
        decreases hi,
    {
        assert(s@.subrange(0, hi as int).drop_last() == s@.subrange(0, hi - 1));
        hi -= 1;
    }
    &s[0..hi]
}

/// Drops the whitespace at both ends of `s`.
pub fn trim(s: &[char]) -> (r: &[char])
    ensures
        r@ == trimmed(s@),
{
    let mut lo: usize = 0;
    assert(s@ == s@.subrange(0, s@.len() as int));
    while lo < s.len() && space(s[lo])
        invariant
            lo <= s.len(),
            trimmed_start(s@) == trimmed_start(s@.subrange(lo as int, s@.len() as int)),
        decreases s.len() - lo,
    {
        assert(s@.subrange(lo as int, s@.len() as int).drop_first() == s@.subrange(
            lo + 1,
            s@.len() as int,
        ));
        lo += 1;
    }
    trim_end(&s[lo..s.len()])
}

// ---------------------------------------------------------------------------
// Splitting
// ---------------------------------------------------------------------------

/// The position of the first character of `s` that is one of `seps`, or the
/// length of `s` if there is none.
pub open spec fn first_of(s: Seq<char>, seps: Seq<char>) -> nat
    decreases s.len(),
{
    if s.len() == 0 || seps.contains(s.first()) {
        0
    } else {
        1 + first_of(s.drop_first(), seps)
    }
}

/// `first_of` is the least position of a separator.
pub proof fn lemma_first_of(s: Seq<char>, seps: Seq<char>)
    ensures
        first_of(s, seps) <= s.len(),
        first_of(s, seps) < s.len() ==> seps.contains(s[first_of(s, seps) as int]),
        forall|i: int| 0 <= i < first_of(s, seps) ==> !seps.contains(#[trigger] s[i]),
    decreases s.len(),
{
    if s.len() == 0 || seps.contains(s.first()) {
    } else {
        let t = s.drop_first();
        lemma_first_of(t, seps);
        assert forall|i: int| 0 <= i < first_of(s, seps) implies !seps.contains(#[trigger] s[i]) by {
            if i > 0 {
                assert(s[i] == t[i - 1]);
            }
        }
    }
}

/// A position is `first_of` where it holds a separator, or is the end, and no
/// separator stands before it.
pub proof fn lemma_first_of_is(s: Seq<char>, seps: Seq<char>, k: nat)
    requires
        k <= s.len(),
        k < s.len() ==> seps.contains(s[k as int]),
        forall|i: int| 0 <= i < k ==> !seps.contains(#[trigger] s[i]),
    ensures
        first_of(s, seps) == k,
{
    lemma_first_of(s, seps);
    let f = first_of(s, seps);
    if f < k {
        assert(!seps.contains(s[f as int]));
    } else if k < f {
        assert(!seps.contains(s[k as int]));
    }
}

/// Tells whether `seps` holds `c`.
fn one_of(c: char, seps: &[char]) -> (r: bool)
    ensures
        r == seps@.contains(c),
{
    let mut i: usize = 0;
    while i < seps.len()
        invariant
            i <= seps.len(),
            forall|j: int| 0 <= j < i ==> seps@[j] != c,
        decreases seps.len() - i,
    {
        if seps[i] == c {
            return true;
        }
        i += 1;
    }
    false
}

/// Finds the first separator of `s` at or after `from`.
pub fn find_from(s: &[char], from: usize, seps: &[char]) -> (k: usize)
    requires
        from <= s.len(),
    ensures
        from <= k <= s.len(),
        k == from + first_of(s@.subrange(from as int, s@.len() as int), seps@),
{
    let mut k: usize = from;
    let ghost t = s@.subrange(from as int, s@.len() as int);
    while k < s.len() && !one_of(s[k], seps)
        invariant
            from <= k <= s.len(),
            t == s@.subrange(from as int, s@.len() as int),
            forall|i: int| 0 <= i < k - from ==> !seps@.contains(#[trigger] t[i]),
        decreases s.len() - k,
    {
        k += 1;
    }
    proof {
        lemma_first_of_is(t, seps@, (k - from) as nat);
    }
    k
}

/// The pieces of `s` between the characters of `seps`: one more than there are
/// separators.
pub open spec fn pieces(s: Seq<char>, seps: Seq<char>) -> Seq<Seq<char>>
    decreases s.len(),
{
    let k = first_of(s, seps) as int;
    if k >= s.len() {
        seq![s]
    } else {
        seq![s.take(k)] + pieces(s.skip(k + 1), seps)
    }
}

/// The sequences that a list of slices holds.
pub open spec fn views(v: Seq<&[char]>) -> Seq<Seq<char>> {
    v.map_values(|x: &[char]| x@)
}

/// Cuts `s` at each character of `seps`.
pub fn split<'a>(s: &'a [char], seps: &[char]) -> (v: Vec<&'a [char]>)
    ensures
        views(v@) == pieces(s@, seps@),
{
    let mut v: Vec<&'a [char]> = Vec::new();
    let mut from: usize = 0;
    assert(s@.skip(0) == s@);
    assert(views(v@) == Seq::<Seq<char>>::empty());
    assert(views(v@) + pieces(s@.skip(0), seps@) == pieces(s@, seps@));
    loop
        invariant
            from <= s.len(),
            views(v@) + pieces(s@.skip(from as int), seps@) == pieces(s@, seps@),
        decreases s.len() - from,
    {
        let k: usize = find_from(s, from, seps);
        let ghost rest = s@.skip(from as int);
        let ghost before = views(v@);
        assert(rest == s@.subrange(from as int, s@.len() as int));
        if k >= s.len() {
            let piece = &s[from..s.len()];
            v.push(piece);
            assert(piece@ == rest);
            assert(views(v@) == before + seq![rest]);
            return v;
        }
        let piece = &s[from..k];
        v.push(piece);
        assert(piece@ == rest.take(k - from));
        assert(rest.skip(k - from + 1) == s@.skip(k + 1));
        assert(views(v@) == before + seq![rest.take(k - from)]);
        assert(views(v@) + pieces(s@.skip(k + 1), seps@) == before + (seq![rest.take(k - from)]
            + pieces(rest.skip(k - from + 1), seps@)));
        from = k + 1;
    }
}

/// The lines of `s`: cut at each line feed, without the carriage return that
/// may stand directly before it. A final line feed opens no further line.
pub open spec fn lines_of(s: Seq<char>) -> Seq<Seq<char>>
    decreases s.len(),
{
    let k = first_of(s, seq!['\n']) as int;
    if s.len() == 0 {
        seq![]
    } else if k >= s.len() {
        seq![s]
    } else {
        seq![without_cr(s.take(k))] + lines_of(s.skip(k + 1))
    }
}

/// `s` without a carriage return at its end.
pub open spec fn without_cr(s: Seq<char>) -> Seq<char> {
    if s.len() > 0 && s.last() == '\r' {
        s.drop_last()
    } else {
        s
    }
}

/// Cuts `s` into lines.
pub fn lines<'a>(s: &'a [char]) -> (v: Vec<&'a [char]>)
    ensures
        views(v@) == lines_of(s@),
{
    let mut v: Vec<&'a [char]> = Vec::new();
    let mut from: usize = 0;
    let seps: [char; 1] = ['\n'];
    assert(s@.skip(0) == s@);
    assert(views(v@) == Seq::<Seq<char>>::empty());
    while from < s.len()
        invariant
            from <= s.len(),
            seps@ == seq!['\n'],
            views(v@) + lines_of(s@.skip(from as int)) == lines_of(s@),
        decreases s.len() - from,
    {
        let k: usize = find_from(s, from, seps.as_slice());
        let ghost rest = s@.skip(from as int);
        let ghost before = views(v@);
        assert(rest == s@.subrange(from as int, s@.len() as int));
        if k >= s.len() {
            let piece = &s[from..s.len()];
            v.push(piece);
            assert(piece@ == rest);
            assert(views(v@) == before + seq![rest]);
            return v;
        }
        let hi: usize = if k > from && s[k - 1] == '\r' {
            k - 1
        } else {
            k
        };
        let piece = &s[from..hi];
        v.push(piece);
        assert(piece@ == without_cr(rest.take(k - from)));
        assert(rest.skip(k - from + 1) == s@.skip(k + 1));
        assert(views(v@) == before + seq![without_cr(rest.take(k - from))]);
        assert(views(v@) + lines_of(s@.skip(k + 1)) == before + (seq![
            without_cr(rest.take(k - from)),
        ] + lines_of(rest.skip(k - from + 1))));
        from = k + 1;
    }
    assert(s@.skip(from as int) == Seq::<char>::empty());
    v
}

/// The length of the longest start of `s` that is free of whitespace.
pub open spec fn word_len(s: Seq<char>) -> nat
    decreases s.len(),
{
    if s.len() == 0 || is_space(s.first()) {
        0
    } else {
        1 + word_len(s.drop_first())
    }
}

/// A word is no longer than what it starts.
pub proof fn lemma_word_len(s: Seq<char>)
    ensures
        word_len(s) <= s.len(),
    decreases s.len(),
{
    if s.len() == 0 || is_space(s.first()) {
    } else {
        lemma_word_len(s.drop_first());
    }
}

/// The longest runs of characters of `s` that are not whitespace.
pub open spec fn words_of(s: Seq<char>) -> Seq<Seq<char>>
    decreases s.len(),
{
    if s.len() == 0 {
        seq![]
    } else if is_space(s.first()) {
        words_of(s.drop_first())
    } else {
        proof {
            lemma_word_len(s);
        }
        let k = word_len(s) as int;
        seq![s.take(k)] + words_of(s.skip(k))
    }
}

/// Cuts `s` at whitespace.
pub fn words<'a>(s: &'a [char]) -> (v: Vec<&'a [char]>)
    ensures
        views(v@) == words_of(s@),
{
    let mut v: Vec<&'a [char]> = Vec::new();
    let mut from: usize = 0;
    assert(s@.skip(0) == s@);
    assert(views(v@) == Seq::<Seq<char>>::empty());
    while from < s.len()
        invariant
            from <= s.len(),
            views(v@) + words_of(s@.skip(from as int)) == words_of(s@),
        decreases s.len() - from,
    {
        let ghost rest = s@.skip(from as int);
        let ghost before = views(v@);
        if space(s[from]) {
            assert(rest.drop_first() == s@.skip(from + 1));
            from += 1;
        } else {
            let start: usize = from;
            let mut k: usize = from;
            while k < s.len() && !space(s[k])
                invariant
                    start <= k <= s.len(),
                    rest == s@.skip(start as int),
                    word_len(rest) == k - start + word_len(s@.skip(k as int)),
                decreases s.len() - k,
            {
                assert(s@.skip(k as int).drop_first() == s@.skip(k + 1));
                k += 1;
            }
            proof {
                lemma_word_len(s@.skip(k as int));
            }
            assert(word_len(s@.skip(k as int)) == 0);
            let piece = &s[start..k];
            v.push(piece);
            assert(piece@ == rest.take(k - start));
            assert(rest.skip(k - start) == s@.skip(k as int));
            assert(views(v@) == before + seq![rest.take(k - start)]);
            assert(views(v@) + words_of(s@.skip(k as int)) == before + (seq![rest.take(k - start)]
                + words_of(rest.skip(k - start))));
            from = k;
        }
    }
    assert(s@.skip(from as int) == Seq::<char>::empty());
    v
}

// ---------------------------------------------------------------------------
// Searching
// ---------------------------------------------------------------------------

/// Whether `needle` stands in `hay` at position `i`.
pub open spec fn stands_at(hay: Seq<char>, needle: Seq<char>, i: int) -> bool {
    &&& 0 <= i
    &&& i + needle.len() <= hay.len()
    &&& forall|j: int| 0 <= j < needle.len() ==> hay[i + j] == #[trigger] needle[j]
}

/// Whether `needle` stands anywhere in `hay`.
pub open spec fn holds(hay: Seq<char>, needle: Seq<char>) -> bool {
    exists|i: int| stands_at(hay, needle, i)
}

/// Tells whether `needle` stands in `hay` at position `at`.
pub fn found_at(hay: &[char], needle: &[char], at: usize) -> (r: bool)
    ensures
        r == stands_at(hay@, needle@, at as int),
{
    if at > hay.len() || hay.len() - at < needle.len() {
        return false;
    }
    let mut j: usize = 0;
    while j < needle.len()
        invariant
            j <= needle.len(),
            at + needle.len() <= hay.len(),
            forall|t: int| 0 <= t < j ==> hay@[at + t] == #[trigger] needle@[t],
        decreases needle.len() - j,
    {
        if hay[at + j] != needle[j] {
            return false;
        }
        j += 1;
    }
    true
}

/// Tells whether `needle` stands anywhere in `hay`.
pub fn contains(hay: &[char], needle: &[char]) -> (r: bool)
    ensures
        r == holds(hay@, needle@),
{
    let mut i: usize = 0;
    while i < hay.len()
        invariant
            i <= hay.len(),
            forall|t: int| 0 <= t < i ==> !stands_at(hay@, needle@, t),
        decreases hay.len() - i,
    {
        if found_at(hay, needle, i) {
            return true;
        }
        i += 1;
    }
    let last = found_at(hay, needle, hay.len());
    assert(last ==> stands_at(hay@, needle@, hay@.len() as int));
    assert(!last ==> forall|t: int| !stands_at(hay@, needle@, t));
    last
}

// ---------------------------------------------------------------------------
// Letter case
// ---------------------------------------------------------------------------

/// `c` with the letters `A` to `Z` in lower case.
pub open spec fn ascii_lower(c: char) -> char {
    if 'A' <= c <= 'Z' {
        (c as u32 + 32) as char
    } else {
        c
    }
}

/// `s` with the letters `A` to `Z` in lower case.
pub open spec fn ascii_lowered(s: Seq<char>) -> Seq<char> {
    s.map_values(|c: char| ascii_lower(c))
}

/// Puts `c` in lower case if it is one of `A` to `Z`.
pub fn lower(c: char) -> (r: char)
    ensures
        r == ascii_lower(c),
{
    if 'A' <= c && c <= 'Z' {
        ((c as u8) + 32) as char
    } else {
        c
    }
}

/// Tells whether two slices differ at most in the case of the letters `A` to
/// `Z`.
pub fn same_ignoring_case(a: &[char], b: &[char]) -> (r: bool)
    ensures
        r == (ascii_lowered(a@) == ascii_lowered(b@)),
{
    let ghost x = ascii_lowered(a@);
    let ghost y = ascii_lowered(b@);
    if a.len() != b.len() {
        assert(x.len() != y.len());
        return false;
    }
    let mut i: usize = 0;
    while i < a.len()
        invariant
            i <= a.len(),
            a.len() == b.len(),
            x == ascii_lowered(a@),
            y == ascii_lowered(b@),
            forall|j: int| 0 <= j < i ==> x[j] == y[j],
        decreases a.len() - i,
    {
        if lower(a[i]) != lower(b[i]) {
            assert(x[i as int] != y[i as int]);
            return false;
        }
        i += 1;
    }
    assert(x == y);
    true
}

/// The lower case of `c`, as far as the letters `a` to `z` are concerned: the
/// letters `A` to `Z`, and the Kelvin sign, whose lower case is `k`. No other
/// character has one of `a` to `z` alone as its lower case.
pub open spec fn folded(c: char) -> char {
    if c == '\u{212a}' {
        'k'
    } else {
        ascii_lower(c)
    }
}

/// Whether `needle` stands in the lower case of `hay`.
pub open spec fn holds_folded(hay: Seq<char>, needle: Seq<char>) -> bool {
    holds(hay.map_values(|c: char| folded(c)), needle)
}

/// Tells whether `needle`, in lower case letters and spaces, stands in the
/// lower case of `hay`.
pub fn contains_folded(hay: &[char], needle: &[char]) -> (r: bool)
    ensures
        r == holds_folded(hay@, needle@),
{
    let ghost low = hay@.map_values(|c: char| folded(c));
    let mut v: Vec<char> = Vec::new();
    let mut i: usize = 0;
    while i < hay.len()
        invariant
            i <= hay.len(),
            low == hay@.map_values(|c: char| folded(c)),
            v@ == low.take(i as int),
        decreases hay.len() - i,
    {
        let c: char = hay[i];
        if c == '\u{212a}' {
            v.push('k');
        } else {
            v.push(lower(c));
        }
        assert(v@ == low.take(i + 1));
        i += 1;
    }
    assert(v@ == low);
    contains(v.as_slice(), needle)
}

// ---------------------------------------------------------------------------
// Numbers
// ---------------------------------------------------------------------------

/// The decimal digits.
pub open spec fn is_digit(c: char) -> bool {
    '0' <= c <= '9'
}

/// The number that the decimal digits of `s` stand for.
pub open spec fn digits_value(s: Seq<char>) -> nat
    decreases s.len(),
{
    if s.len() == 0 {
        0
    } else {
        digits_value(s.drop_last()) * 10 + (s.last() as nat - '0' as nat) as nat
    }
}

/// Whether `s` consists of decimal digits, at least one.
pub open spec fn is_decimal(s: Seq<char>) -> bool {
    s.len() > 0 && forall|i: int| 0 <= i < s.len() ==> is_digit(#[trigger] s[i])
}

/// The number that `s` stands for as an unsigned integer of at most `max`: an
/// optional plus sign and decimal digits.
pub open spec fn unsigned_value(s: Seq<char>, max: nat) -> Option<nat> {
    let t = if s.len() > 0 && s.first() == '+' {
        s.drop_first()
    } else {
        s
    };
    if is_decimal(t) && digits_value(t) <= max {
        Some(digits_value(t))
    } else {
        None
    }
}

/// A start of `s` stands for no larger number than `s`.
proof fn lemma_digits_value_grows(s: Seq<char>, k: int)
    requires
        0 <= k <= s.len(),
    ensures
        digits_value(s.take(k)) <= digits_value(s),
    decreases s.len() - k,
{
    if k < s.len() {
        lemma_digits_value_grows(s, k + 1);
        assert(s.take(k + 1).drop_last() == s.take(k));
    } else {
        assert(s.take(k) == s);
    }
}

/// Reads `s` as an unsigned integer of at most `max`.
pub fn parse_unsigned(s: &[char], max: u64) -> (r: Option<u64>)
    ensures
        match r {
            Some(n) => unsigned_value(s@, max as nat) == Some(n as nat),
            None => unsigned_value(s@, max as nat) is None,
        },
{
    let start: usize = if s.len() > 0 && s[0] == '+' {
        1
    } else {
        0
    };
    let ghost t = s@.skip(start as int);
    assert(start == 1 ==> t == s@.drop_first());
    assert(start == 0 ==> t == s@);
    if start >= s.len() {
        return None;
    }
    let mut acc: u64 = 0;
    let mut i: usize = start;
    assert(t.take(0) == Seq::<char>::empty());
    while i < s.len()
        invariant
            start <= i <= s.len(),
            t == s@.skip(start as int),
            unsigned_value(s@, max as nat) == (if is_decimal(t) && digits_value(t) <= max {
                Some(digits_value(t))
            } else {
                None::<nat>
            }),
            forall|j: int| 0 <= j < i - start ==> is_digit(#[trigger] t[j]),
            acc == digits_value(t.take(i - start)),
            acc <= max,
        decreases s.len() - i,
    {
        let c: char = s[i];
        if !('0' <= c && c <= '9') {
            assert(!is_digit(t[i - start]));
            return None;
        }
        let d: u64 = (c as u64) - ('0' as u64);
        proof {
            assert(t[i - start] == c);
            assert(t.take(i - start + 1).drop_last() == t.take(i - start));
            assert(t.take(i - start + 1).last() == c);
            lemma_digits_value_grows(t, i - start + 1);
        }
        if d > max || acc > (max - d) / 10 {
            assert(acc * 10 + d > max);
            return None;
        }
        acc = acc * 10 + d;
        i += 1;
    }
    assert(t.take(i - start) == t);
    Some(acc)
}

/// The character of the decimal digit `d`.
pub open spec fn digit_char(d: nat) -> char
    recommends
        d < 10,
{
    (48 + d) as char
}

/// `n` in decimal, without leading zeros.
pub open spec fn decimal(n: nat) -> Seq<char>
    decreases n,
{
    if n < 10 {
        seq![digit_char(n)]
    } else {
        decimal(n / 10).push(digit_char(n % 10))
    }
}

/// Writes `n` in decimal.
pub fn decimal_string(n: u64) -> (s: String)
    ensures
        s@ == decimal(n as nat),
    decreases n,
{
    let d: u8 = (n % 10) as u8;
    let c: char = (48 + d) as char;
    assert(c == digit_char(n as nat % 10));
    if n < 10 {
        let mut s = String::new();
        s.push(c);
        s
    } else {
        let mut s = decimal_string(n / 10);
        s.push(c);
        s
    }
}

/// Reading what `decimal` writes gives the number back.
pub proof fn law_decimal_reads_back(n: nat, max: nat)
    requires
        n <= max,
    ensures
        unsigned_value(decimal(n), max) == Some(n),
{
    lemma_decimal(n);
    assert(is_digit(decimal(n)[0]));
}

proof fn lemma_decimal(n: nat)
    ensures
        is_decimal(decimal(n)),
        digits_value(decimal(n)) == n,
    decreases n,
{
    let s = decimal(n);
    reveal_with_fuel(digits_value, 2);
    if n >= 10 {
        lemma_decimal(n / 10);
        assert(s.drop_last() == decimal(n / 10));
        assert forall|i: int| 0 <= i < s.len() implies is_digit(#[trigger] s[i]) by {
            if i < s.len() - 1 {
                assert(s[i] == decimal(n / 10)[i]);
            }
        }
    } else {
        assert(s.drop_last() == Seq::<char>::empty());
    }
}

/// The value of a hexadecimal digit.
pub open spec fn hex_value(c: char) -> Option<nat> {
    if '0' <= c <= '9' {
        Some((c as nat - '0' as nat) as nat)
    } else if 'a' <= c <= 'f' {
        Some((c as nat - 'a' as nat + 10) as nat)
    } else if 'A' <= c <= 'F' {
        Some((c as nat - 'A' as nat + 10) as nat)
    } else {
        None
    }
}

/// Reads one hexadecimal digit.
pub fn hex_digit(c: char) -> (r: Option<u8>)
    ensures
        match r {
            Some(d) => hex_value(c) == Some(d as nat) && d < 16,
            None => hex_value(c) is None,
        },
{
    if '0' <= c && c <= '9' {
        Some((c as u8) - 48)
    } else if 'a' <= c && c <= 'f' {
        Some((c as u8) - 97 + 10)
    } else if 'A' <= c && c <= 'F' {
        Some((c as u8) - 65 + 10)
    } else {
        None
    }
}

// ---------------------------------------------------------------------------
// What reading and cutting keep to
// ---------------------------------------------------------------------------

/// Whether a text is whitespace throughout.
pub open spec fn all_space(s: Seq<char>) -> bool {
    forall|i: int| 0 <= i < s.len() ==> is_space(#[trigger] s[i])
}

/// Whether a text has a character and no whitespace.
pub open spec fn is_word(s: Seq<char>) -> bool {
    s.len() > 0 && forall|i: int| 0 <= i < s.len() ==> !is_space(#[trigger] s[i])
}

/// Spaces, tabs and line ends are whitespace; what prints in ASCII is not.
pub proof fn law_whitespace(c: char)
    ensures
        c == ' ' || c == '\t' || c == '\n' || c == '\r' ==> is_space(c),
        '!' <= c <= '~' ==> !is_space(c),
{
    vstd::utf8::char_is_scalar(c);
}

/// Trimming takes away the whitespace around a text and nothing else.
pub proof fn law_trimming_leaves_the_core(before: Seq<char>, core: Seq<char>, behind: Seq<char>)
    requires
        all_space(before),
        all_space(behind),
    ensures
        core.len() > 0 && !is_space(core.first()) && !is_space(core.last()) ==> trimmed(
            before + core + behind,
        ) == core,
        trimmed(before) == Seq::<char>::empty(),
    decreases before.len(),
{
    let s = before + core + behind;
    if before.len() == 0 {
        assert(s == core + behind);
        if core.len() > 0 && !is_space(core.first()) && !is_space(core.last()) {
            assert(s.first() == core.first());
            assert(trimmed_start(s) == s);
            lemma_trimmed_end(core, behind);
        }
        assert(before == Seq::<char>::empty());
    } else {
        let rest = before.drop_first();
        assert(is_space(before[0]));
        assert forall|i: int| 0 <= i < rest.len() implies is_space(#[trigger] rest[i]) by {
            assert(rest[i] == before[i + 1]);
        }
        law_trimming_leaves_the_core(rest, core, behind);
        assert(s.first() == before[0]);
        assert(s.drop_first() == rest + core + behind);
    }
}

proof fn lemma_trimmed_end(core: Seq<char>, behind: Seq<char>)
    requires
        all_space(behind),
        core.len() > 0,
        !is_space(core.last()),
    ensures
        trimmed_end(core + behind) == core,
    decreases behind.len(),
{
    let s = core + behind;
    if behind.len() == 0 {
        assert(s == core);
    } else {
        let rest = behind.drop_last();
        assert(is_space(behind[behind.len() - 1]));
        assert forall|i: int| 0 <= i < rest.len() implies is_space(#[trigger] rest[i]) by {
            assert(rest[i] == behind[i]);
        }
        lemma_trimmed_end(core, rest);
        assert(s.drop_last() == core + rest);
    }
}

/// A word has nothing to trim.
pub proof fn law_word_is_trimmed(w: Seq<char>)
    requires
        is_word(w),
    ensures
        trimmed(w) == w,
{
    assert(!is_space(w[0]) && !is_space(w[w.len() - 1]));
    law_trimming_leaves_the_core(Seq::empty(), w, Seq::empty());
    assert(Seq::<char>::empty() + w + Seq::<char>::empty() == w);
}

/// Cutting at separators gives what stands before the first, and then the pieces of
/// what stands behind it. A text without separators is one piece.
pub proof fn law_pieces_stand_between_separators(
    head: Seq<char>,
    sep: char,
    rest: Seq<char>,
    seps: Seq<char>,
)
    requires
        seps.contains(sep),
        forall|i: int| 0 <= i < head.len() ==> !seps.contains(#[trigger] head[i]),
    ensures
        pieces(head + seq![sep] + rest, seps) == seq![head] + pieces(rest, seps),
        pieces(head, seps) == seq![head],
{
    let s = head + seq![sep] + rest;
    assert forall|i: int| 0 <= i < head.len() implies !seps.contains(#[trigger] s[i]) by {
        assert(s[i] == head[i]);
    }
    assert(s[head.len() as int] == sep);
    lemma_first_of_is(s, seps, head.len());
    assert(s.take(head.len() as int) == head);
    assert(s.skip(head.len() as int + 1) == rest);
    lemma_first_of_is(head, seps, head.len());
}

/// A text is its first line, with the line end, and then the lines of the rest. A
/// carriage return before the line feed belongs to the line end. Without a line feed
/// there is one line, and in the empty text none.
pub proof fn law_lines_end_at_line_feeds(line: Seq<char>, rest: Seq<char>)
    requires
        forall|i: int| 0 <= i < line.len() ==> #[trigger] line[i] != '\n',
    ensures
        line.len() == 0 || line.last() != '\r' ==> lines_of(line + seq!['\n'] + rest) == seq![line]
            + lines_of(rest),
        lines_of(line + seq!['\r', '\n'] + rest) == seq![line] + lines_of(rest),
        line.len() > 0 ==> lines_of(line) == seq![line],
        lines_of(Seq::empty()).len() == 0,
{
    let seps = seq!['\n'];
    assert forall|c: char| seps.contains(c) implies c == '\n' by {}
    assert(seps[0] == '\n');
    assert(seps.contains('\n'));
    let s = line + seq!['\n'] + rest;
    assert forall|i: int| 0 <= i < line.len() implies !seps.contains(#[trigger] s[i]) by {
        assert(s[i] == line[i]);
    }
    assert(s[line.len() as int] == '\n');
    lemma_first_of_is(s, seps, line.len());
    assert(s.take(line.len() as int) == line);
    assert(s.skip(line.len() as int + 1) == rest);
    let t = line + seq!['\r', '\n'] + rest;
    let m = line.len() + 1;
    assert forall|i: int| 0 <= i < m implies !seps.contains(#[trigger] t[i]) by {
        if i < line.len() {
            assert(t[i] == line[i]);
        } else {
            assert(t[i] == '\r');
        }
    }
    assert(t[m as int] == '\n');
    lemma_first_of_is(t, seps, m);
    assert(t.take(m as int).last() == '\r');
    assert(t.take(m as int).drop_last() == line);
    assert(t.skip(m as int + 1) == rest);
    lemma_first_of_is(line, seps, line.len());
}

proof fn lemma_word_len_is(s: Seq<char>, k: nat)
    requires
        k <= s.len(),
        k < s.len() ==> is_space(s[k as int]),
        forall|i: int| 0 <= i < k ==> !is_space(#[trigger] s[i]),
    ensures
        word_len(s) == k,
    decreases k,
{
    if k > 0 {
        assert(!is_space(s[0]));
        let t = s.drop_first();
        assert forall|i: int| 0 <= i < k - 1 implies !is_space(#[trigger] t[i]) by {
            assert(t[i] == s[i + 1]);
        }
        lemma_word_len_is(t, (k - 1) as nat);
    }
}

/// The words of a text are what stands between its whitespace, in order.
pub proof fn law_words_stand_between_spaces(gap: Seq<char>, word: Seq<char>, rest: Seq<char>)
    requires
        all_space(gap),
    ensures
        is_word(word) && (rest.len() == 0 || is_space(rest.first())) ==> words_of(gap + word + rest)
            == seq![word] + words_of(rest),
        words_of(gap).len() == 0,
    decreases gap.len(),
{
    let s = gap + word + rest;
    if gap.len() > 0 {
        let less = gap.drop_first();
        assert(is_space(gap[0]));
        assert forall|i: int| 0 <= i < less.len() implies is_space(#[trigger] less[i]) by {
            assert(less[i] == gap[i + 1]);
        }
        law_words_stand_between_spaces(less, word, rest);
        assert(s.first() == gap[0]);
        assert(s.drop_first() == less + word + rest);
    } else if is_word(word) && (rest.len() == 0 || is_space(rest.first())) {
        assert(s == word + rest);
        assert forall|i: int| 0 <= i < word.len() implies !is_space(#[trigger] s[i]) by {
            assert(s[i] == word[i]);
        }
        assert(!is_space(s[0]));
        if rest.len() > 0 {
            assert(s[word.len() as int] == rest.first());
        }
        lemma_word_len_is(s, word.len());
        assert(s.take(word.len() as int) == word);
        assert(s.skip(word.len() as int) == rest);
    }
}

/// A text holds another exactly where it is that other with something before it and
/// something behind it.
pub proof fn law_held_text_stands_inside(hay: Seq<char>, needle: Seq<char>)
    ensures
        holds(hay, needle) <==> exists|before: Seq<char>, behind: Seq<char>|
            hay == #[trigger] (before + needle + behind),
{
    if holds(hay, needle) {
        let i = choose|i: int| stands_at(hay, needle, i);
        let before = hay.take(i);
        let behind = hay.skip(i + needle.len());
        assert(hay == before + needle + behind) by {
            assert forall|k: int| 0 <= k < hay.len() implies hay[k] == #[trigger] (before + needle
                + behind)[k] by {
                if i <= k < i + needle.len() {
                    assert(hay[i + (k - i)] == needle[k - i]);
                }
            }
        }
    }
    if exists|before: Seq<char>, behind: Seq<char>| hay == #[trigger] (before + needle + behind) {
        let (before, behind) = choose|before: Seq<char>, behind: Seq<char>|
            hay == #[trigger] (before + needle + behind);
        assert(stands_at(hay, needle, before.len() as int));
    }
}

/// Lower case changes the letters `A` to `Z` alone, each into the letter 32 places
/// behind it, and keeps the length.
pub proof fn law_lower_case(s: Seq<char>, i: int)
    requires
        0 <= i < s.len(),
    ensures
        ascii_lowered(s).len() == s.len(),
        'A' <= s[i] <= 'Z' ==> ascii_lowered(s)[i] as u32 == s[i] as u32 + 32,
        !('A' <= s[i] <= 'Z') ==> ascii_lowered(s)[i] == s[i],
        ascii_lowered(ascii_lowered(s)) == ascii_lowered(s),
{
    vstd::utf8::char_is_scalar(s[i]);
    let low = ascii_lowered(s);
    assert forall|k: int| 0 <= k < s.len() implies #[trigger] ascii_lowered(low)[k] == low[k] by {
        vstd::utf8::char_is_scalar(s[k]);
        assert(low[k] == ascii_lower(s[k]));
        assert(ascii_lowered(low)[k] == ascii_lower(low[k]));
    }
}

/// A phrase of lower case letters is found in whatever case it is written.
pub proof fn law_case_does_not_matter(before: Seq<char>, word: Seq<char>, behind: Seq<char>, needle: Seq<char>)
    requires
        ascii_lowered(word) == needle,
        forall|i: int| 0 <= i < word.len() ==> #[trigger] word[i] != '\u{212a}',
    ensures
        holds_folded(before + word + behind, needle),
{
    let hay = before + word + behind;
    let low = hay.map_values(|c: char| folded(c));
    let at = before.len() as int;
    assert forall|j: int| 0 <= j < needle.len() implies low[at + j] == #[trigger] needle[j] by {
        assert(hay[at + j] == word[j]);
        assert(needle[j] == ascii_lower(word[j]));
    }
    assert(stands_at(low, needle, at));
}

/// A phrase whose first letter a text has in neither case does not stand in it.
pub proof fn law_absent_phrase_is_not_found(hay: Seq<char>, needle: Seq<char>)
    requires
        needle.len() > 0,
        forall|i: int| 0 <= i < hay.len() ==> folded(#[trigger] hay[i]) != needle[0],
    ensures
        !holds_folded(hay, needle),
{
    let low = hay.map_values(|c: char| folded(c));
    if holds(low, needle) {
        let i = choose|i: int| stands_at(low, needle, i);
        assert(low[i + 0] == needle[0]);
        assert(low[i] == folded(hay[i]));
    }
}

/// The digits of a number in decimal: one below ten has one digit, and each further
/// digit counts ten of those behind it.
pub proof fn law_decimal_digits(n: nat, d: nat)
    requires
        d < 10,
    ensures
        decimal(d) == seq![('0' as u32 + d) as char],
        n > 0 ==> decimal(10 * n + d) == decimal(n) + decimal(d),
        is_word(decimal(n)),
        forall|i: int| 0 <= i < decimal(n).len() ==> '0' <= #[trigger] decimal(n)[i] <= '9',
{
    lemma_decimal(n);
    let s = decimal(n);
    assert forall|i: int| 0 <= i < s.len() implies '0' <= #[trigger] s[i] <= '9' && !is_space(s[i]) by {
        assert(is_digit(s[i]));
        vstd::utf8::char_is_scalar(s[i]);
    }
    if n > 0 {
        assert((10 * n + d) / 10 == n && (10 * n + d) % 10 == d);
        assert(decimal(n).push(digit_char(d)) == decimal(n) + decimal(d));
    }
}

/// A number in decimal is read with or without a plus sign, and not where it is
/// larger than the most that is allowed. A text with another character is no number,
/// and neither is the empty text.
pub proof fn law_numbers_are_read(n: nat, max: nat, s: Seq<char>, i: int)
    ensures
        n <= max ==> unsigned_value(decimal(n), max) == Some(n),
        n <= max ==> unsigned_value(seq!['+'] + decimal(n), max) == Some(n),
        n > max ==> unsigned_value(decimal(n), max) is None,
        0 < i < s.len() && !('0' <= s[i] <= '9') ==> unsigned_value(s, max) is None,
        s.len() > 0 && s[0] != '+' && !('0' <= s[0] <= '9') ==> unsigned_value(s, max) is None,
        s.len() == 0 ==> unsigned_value(s, max) is None,
        unsigned_value(seq!['+'], max) is None,
{
    lemma_decimal(n);
    assert(is_digit(decimal(n)[0]));
    let plus = seq!['+'] + decimal(n);
    assert(plus.first() == '+');
    assert(plus.drop_first() == decimal(n));
    assert(seq!['+'].drop_first() == Seq::<char>::empty());
    if 0 < i < s.len() && !('0' <= s[i] <= '9') {
        if s.first() == '+' {
            assert(s.drop_first()[i - 1] == s[i]);
            assert(!is_digit(s.drop_first()[i - 1]));
        } else {
            assert(!is_digit(s[i]));
        }
    }
    if s.len() > 0 && s[0] != '+' && !('0' <= s[0] <= '9') {
        assert(!is_digit(s[0]));
    }
}

/// Zeros before a number do not change it.
pub proof fn law_leading_zeros(s: Seq<char>)
    ensures
        digits_value(seq!['0'] + s) == digits_value(s),
    decreases s.len(),
{
    let z = seq!['0'] + s;
    if s.len() == 0 {
        assert(z == seq!['0']);
        assert(z.drop_last() == Seq::<char>::empty());
        assert(digits_value(z.drop_last()) == 0);
    } else {
        law_leading_zeros(s.drop_last());
        assert(z.drop_last() == seq!['0'] + s.drop_last());
        assert(z.last() == s.last());
    }
}

/// The hexadecimal digits are `0` to `9` and the letters `a` to `f` in either case,
/// which count from 10 on.
pub proof fn law_hexadecimal_digits(d: nat, c: char)
    ensures
        d < 10 ==> hex_value(('0' as u32 + d) as char) == Some(d),
        10 <= d < 16 ==> hex_value(('a' as u32 + (d - 10)) as char) == Some(d),
        10 <= d < 16 ==> hex_value(('A' as u32 + (d - 10)) as char) == Some(d),
        !('0' <= c <= '9' || 'a' <= c <= 'f' || 'A' <= c <= 'F') ==> hex_value(c) is None,
{
}

} // verus!
