//! Server-sent events.
use crate::text;
use vstd::prelude::*;

verus! {

/// Whether `s` starts with `prefix`.
pub open spec fn starts_with(s: Seq<char>, prefix: Seq<char>) -> bool {
    text::stands_at(s, prefix, 0)
}

/// What a line of an event adds to its data: what stands behind `data:`, without
/// one space, and a line end. Other lines add nothing.
pub open spec fn payload(line: Seq<char>) -> Seq<char> {
    if starts_with(line, "data:"@) {
        let rest = line.skip(5);
        (if rest.len() > 0 && rest.first() == ' ' {
            rest.drop_first()
        } else {
            rest
        }).push('\n')
    } else {
        Seq::empty()
    }
}

/// The data of a list of lines.
pub open spec fn data_of(lines: Seq<Seq<char>>) -> Seq<char>
    decreases lines.len(),
{
    if lines.len() == 0 {
        Seq::empty()
    } else {
        data_of(lines.drop_last()) + payload(lines.last())
    }
}

/// Whether any line holds data.
pub open spec fn has_data(lines: Seq<Seq<char>>) -> bool {
    exists|i: int| 0 <= i < lines.len() && #[trigger] starts_with(lines[i], "data:"@)
}

/// Adds what a line holds to the data of an event, and tells whether it holds
/// any.
fn add_payload(data: &mut Vec<char>, line: &[char]) -> (r: bool)
    ensures
        final(data)@ == old(data)@ + payload(line@),
        r == starts_with(line@, "data:"@),
{
    let field = text::chars_of("data:");
    proof {
        reveal_strlit("data:");
    }
    assert(old(data)@ + Seq::<char>::empty() == old(data)@);
    if line.len() < 5 || !text::found_at(line, field.as_slice(), 0) {
        return false;
    }
    let ghost rest = line@.skip(5);
    let from: usize = if line.len() > 5 && line[5] == ' ' {
        6
    } else {
        5
    };
    let piece: &[char] = &line[from..line.len()];
    data.extend_from_slice(piece);
    data.push('\n');
    assert(rest.len() > 0 ==> rest.first() == line@[5]);
    assert(piece@ == if rest.len() > 0 && rest.first() == ' ' {
        rest.drop_first()
    } else {
        rest
    });
    assert(data@ == old(data)@ + payload(line@));
    true
}

/// The data in a whole response in the form of events: the lines of all its data
/// fields.
pub fn extract_sse_data(body: &str) -> (r: Result<String, String>)
    ensures
        match r {
            Ok(s) => has_data(text::lines_of(body@)) && s@ == data_of(text::lines_of(body@)),
            Err(e) => !has_data(text::lines_of(body@)) && e@
                == "no data field found in SSE response"@,
        },
{
    let v = text::chars_of(body);
    let lines = text::lines(v.as_slice());
    let ghost all = text::lines_of(body@);
    assert(text::views(lines@) == all);
    let mut data: Vec<char> = Vec::new();
    let mut found: bool = false;
    let mut i: usize = 0;
    assert(all.take(0).len() == 0);
    while i < lines.len()
        invariant
            i <= lines.len(),
            text::views(lines@) == all,
            data@ == data_of(all.take(i as int)),
            found == has_data(all.take(i as int)),
        decreases lines.len() - i,
    {
        let ghost before = all.take(i as int);
        let ghost after = all.take(i + 1);
        assert(lines@[i as int]@ == all[i as int]);
        assert(after.drop_last() == before);
        assert(after.last() == all[i as int]);
        let here: bool = add_payload(&mut data, lines[i]);
        proof {
            if has_data(before) {
                let j = choose|j: int|
                    0 <= j < before.len() && #[trigger] starts_with(before[j], "data:"@);
                assert(starts_with(after[j], "data:"@));
            }
            if has_data(after) {
                let j = choose|j: int|
                    0 <= j < after.len() && #[trigger] starts_with(after[j], "data:"@);
                if j < i {
                    assert(starts_with(before[j], "data:"@));
                }
            }
            if here {
                assert(starts_with(after[i as int], "data:"@));
            }
        }
        if here {
            found = true;
        }
        i += 1;
    }
    assert(all.take(all.len() as int) == all);
    if found {
        Ok(text::string_of(data.as_slice()))
    } else {
        Err("no data field found in SSE response".to_string())
    }
}

// ---------------------------------------------------------------------------
// Events in a stream
// ---------------------------------------------------------------------------

/// The next event of a stream, what is left of the stream, and the data of the
/// event that is not complete: lines add to the data until a blank line ends an
/// event. A blank line that follows no data ends none.
pub open spec fn next_event(buffer: Seq<char>, data: Seq<char>) -> (
    Option<Seq<char>>,
    Seq<char>,
    Seq<char>,
)
    decreases buffer.len(),
{
    let k = text::first_of(buffer, seq!['\n']) as int;
    if k >= buffer.len() {
        (None, buffer, data)
    } else {
        let line = text::trimmed_end(buffer.take(k));
        let rest = buffer.skip(k + 1);
        if line.len() > 0 {
            next_event(rest, data + payload(line))
        } else if data.len() > 0 {
            (Some(data), rest, Seq::empty())
        } else {
            next_event(rest, data)
        }
    }
}

/// Reading an event leaves less of the stream, and nothing of its data.
pub proof fn lemma_next_event_shrinks(buffer: Seq<char>, data: Seq<char>)
    ensures
        next_event(buffer, data).0 is Some ==> next_event(buffer, data).1.len() < buffer.len()
            && next_event(buffer, data).2.len() == 0,
    decreases buffer.len(),
{
    let k = text::first_of(buffer, seq!['\n']) as int;
    if k < buffer.len() {
        let line = text::trimmed_end(buffer.take(k));
        let rest = buffer.skip(k + 1);
        if line.len() > 0 {
            lemma_next_event_shrinks(rest, data + payload(line));
        } else if data.len() == 0 {
            lemma_next_event_shrinks(rest, data);
        }
    }
}

/// The events of a stream, which is fed piece by piece.
#[derive(Clone, Debug)]
pub struct SseReader {
    buffer: Vec<char>,
    data: Vec<char>,
}

impl SseReader {
    /// What was fed and not yet read.
    pub closed spec fn buffer(&self) -> Seq<char> {
        self.buffer@
    }

    /// The data of the event that is not complete.
    pub closed spec fn data(&self) -> Seq<char> {
        self.data@
    }

    /// A stream of which nothing is known.
    pub fn new() -> (r: SseReader)
        ensures
            r.buffer().len() == 0,
            r.data().len() == 0,
    {
        SseReader { buffer: Vec::new(), data: Vec::new() }
    }

    /// Feeds a piece of the stream.
    pub fn feed(&mut self, piece: &str)
        ensures
            final(self).buffer() == old(self).buffer() + piece@,
            final(self).data() == old(self).data(),
    {
        let mut more = text::chars_of(piece);
        self.buffer.append(&mut more);
    }

    /// The next event, if it is complete.
    pub fn read(&mut self) -> (r: Option<String>)
        ensures
            ({
                let (event, buffer, data) = next_event(old(self).buffer(), old(self).data());
                &&& crate::uri::opt_text(r) == event
                &&& final(self).buffer() == buffer
                &&& final(self).data() == data
            }),
    {
        let seps: [char; 1] = ['\n'];
        let ghost all = next_event(self.buffer@, self.data@);
        let ghost buffer = self.buffer@;
        let mut from: usize = 0;
        assert(seps@ == seq!['\n']);
        assert(buffer.skip(0) == buffer);
        loop
            invariant
                seps@ == seq!['\n'],
                buffer == self.buffer@,
                from <= self.buffer.len(),
                next_event(buffer.skip(from as int), self.data@) == all,
                all == next_event(old(self).buffer(), old(self).data()),
            decreases self.buffer.len() - from,
        {
            let ghost left = buffer.skip(from as int);
            let k: usize = text::find_from(self.buffer.as_slice(), from, seps.as_slice());
            assert(left == buffer.subrange(from as int, buffer.len() as int));
            if k >= self.buffer.len() {
                let rest = self.buffer.split_off(from);
                assert(rest@ == left);
                self.buffer = rest;
                return None;
            }
            let whole: &[char] = &self.buffer.as_slice()[from..k];
            assert(whole@ == left.take(k - from));
            let line: &[char] = text::trim_end(whole);
            assert(line@ == text::trimmed_end(left.take(k - from)));
            assert(left.skip(k - from + 1) == buffer.skip(k + 1));
            if line.len() == 0 {
                if self.data.len() > 0 {
                    let event = text::string_of(self.data.as_slice());
                    let rest = self.buffer.split_off(k + 1);
                    assert(rest@ == buffer.skip(k + 1));
                    self.buffer = rest;
                    self.data = Vec::new();
                    assert(self.data@ == Seq::<char>::empty());
                    return Some(event);
                }
            } else {
                let mut data: Vec<char> = Vec::new();
                add_payload(&mut data, line);
                assert(data@ == payload(line@));
                self.data.append(&mut data);
            }
            from = k + 1;
        }
    }
}

/// How a stream is cut into pieces does not matter: reading what came first and
/// then the rest gives the same events as reading all at once. An event that is
/// complete stays the same whatever follows. Where none is complete, what was
/// read of it is kept, and reading goes on from there.
pub proof fn law_pieces_do_not_matter(buffer: Seq<char>, more: Seq<char>, data: Seq<char>)
    ensures
        ({
            let (event, left, kept) = next_event(buffer, data);
            match event {
                Some(e) => next_event(buffer + more, data) == (Some(e), left + more, kept),
                None => next_event(buffer + more, data) == next_event(left + more, kept),
            }
        }),
    decreases buffer.len(),
{
    let seps = seq!['\n'];
    let k = text::first_of(buffer, seps) as int;
    text::lemma_first_of(buffer, seps);
    if k < buffer.len() {
        let all = buffer + more;
        assert(text::first_of(all, seps) == k) by {
            assert forall|i: int| 0 <= i < k implies !seps.contains(#[trigger] all[i]) by {
                assert(all[i] == buffer[i]);
            }
            assert(all[k] == buffer[k]);
            text::lemma_first_of_is(all, seps, k as nat);
        }
        let line = text::trimmed_end(buffer.take(k));
        let rest = buffer.skip(k + 1);
        assert(all.take(k) == buffer.take(k));
        assert(all.skip(k + 1) == rest + more);
        if line.len() > 0 {
            law_pieces_do_not_matter(rest, more, data + payload(line));
        } else if data.len() == 0 {
            law_pieces_do_not_matter(rest, more, data);
        }
    }
}

/// An event that is read holds data.
pub proof fn law_events_hold_data(buffer: Seq<char>, data: Seq<char>)
    ensures
        next_event(buffer, data).0 matches Some(e) ==> e.len() > 0,
    decreases buffer.len(),
{
    let k = text::first_of(buffer, seq!['\n']) as int;
    if k < buffer.len() {
        let line = text::trimmed_end(buffer.take(k));
        let rest = buffer.skip(k + 1);
        if line.len() > 0 {
            law_events_hold_data(rest, data + payload(line));
        } else if data.len() == 0 {
            law_events_hold_data(rest, data);
        }
    }
}

/// A line `data: x`, or `data:x`, adds `x` and a line end to the data. Any other line adds
/// nothing.
pub proof fn law_data_field_is_taken(x: Seq<char>, line: Seq<char>)
    ensures
        payload("data: "@ + x) == x + seq!['\n'],
        x.len() == 0 || x[0] != ' ' ==> payload("data:"@ + x) == x + seq!['\n'],
        line.len() < 5 || line.take(5) != "data:"@ ==> payload(line).len() == 0,
{
    reveal_strlit("data: ");
    reveal_strlit("data:");
    let a = "data: "@ + x;
    assert(starts_with(a, "data:"@));
    assert(a.skip(5).first() == ' ');
    assert(a.skip(5).drop_first() == x);
    assert(x.push('\n') == x + seq!['\n']);
    let b = "data:"@ + x;
    assert(starts_with(b, "data:"@));
    assert(b.skip(5) == x);
    if starts_with(line, "data:"@) {
        assert(line.take(5) == "data:"@) by {
            assert forall|j: int| 0 <= j < 5 implies #[trigger] line.take(5)[j] == "data:"@[j] by {
                assert(line[0 + j] == "data:"@[j]);
            }
        }
    }
}

/// The data of lines is that of each of them, in their order, and there is data where any
/// of them holds some.
pub proof fn law_data_joins(a: Seq<Seq<char>>, b: Seq<Seq<char>>, line: Seq<char>)
    ensures
        data_of(a + b) == data_of(a) + data_of(b),
        data_of(seq![line]) == payload(line),
        has_data(a + b) <==> has_data(a) || has_data(b),
        has_data(seq![line]) <==> payload(line).len() > 0,
    decreases b.len(),
{
    reveal_with_fuel(data_of, 2);
    let one = seq![line];
    assert(one.drop_last() == Seq::<Seq<char>>::empty());
    assert(Seq::<char>::empty() + payload(line) == payload(line));
    assert(one[0] == line);
    if starts_with(line, "data:"@) {
        assert(starts_with(one[0], "data:"@));
    }
    let c = a + b;
    if has_data(a) {
        let i = choose|i: int| 0 <= i < a.len() && #[trigger] starts_with(a[i], "data:"@);
        assert(starts_with(c[i], "data:"@));
    }
    if has_data(b) {
        let i = choose|i: int| 0 <= i < b.len() && #[trigger] starts_with(b[i], "data:"@);
        assert(starts_with(c[a.len() + i], "data:"@));
    }
    if has_data(c) {
        let i = choose|i: int| 0 <= i < c.len() && #[trigger] starts_with(c[i], "data:"@);
        if i < a.len() {
            assert(starts_with(a[i], "data:"@));
        } else {
            assert(starts_with(b[i - a.len()], "data:"@));
        }
    }
    if b.len() == 0 {
        assert(a + b == a);
        assert(data_of(a) + Seq::<char>::empty() == data_of(a));
    } else {
        law_data_joins(a, b.drop_last(), line);
        assert((a + b).drop_last() == a + b.drop_last());
        assert((a + b).last() == b.last());
        assert(data_of(a + b) == data_of(a) + data_of(b));
    }
}

/// A stream is read line by line: a line that is not blank adds what it holds to the data,
/// a blank line ends an event that has data, and a line without its end is waited for.
pub proof fn law_stream_is_read_by_lines(line: Seq<char>, rest: Seq<char>, data: Seq<char>)
    requires
        forall|i: int| 0 <= i < line.len() ==> #[trigger] line[i] != '\n',
    ensures
        line.len() > 0 && !text::is_space(line.last()) ==> next_event(
            line + seq!['\n'] + rest,
            data,
        ) == next_event(rest, data + payload(line)),
        text::all_space(line) && data.len() > 0 ==> next_event(line + seq!['\n'] + rest, data) == (
            Some(data),
            rest,
            Seq::<char>::empty(),
        ),
        text::all_space(line) && data.len() == 0 ==> next_event(line + seq!['\n'] + rest, data)
            == next_event(rest, data),
        next_event(line, data) == (None::<Seq<char>>, line, data),
{
    let seps = seq!['\n'];
    assert(seps[0] == '\n');
    let s = line + seq!['\n'] + rest;
    assert forall|i: int| 0 <= i < line.len() implies !seps.contains(#[trigger] s[i])
        && !seps.contains(line[i]) by {
        assert(s[i] == line[i]);
    }
    assert(s[line.len() as int] == '\n');
    text::lemma_first_of_is(s, seps, line.len());
    assert(s.take(line.len() as int) == line);
    assert(s.skip(line.len() as int + 1) == rest);
    assert forall|i: int| 0 <= i < line.len() implies !seps.contains(#[trigger] line[i]) by {
        assert(!seps.contains(s[i]));
    }
    text::lemma_first_of_is(line, seps, line.len());
    if text::all_space(line) {
        lemma_blank_line(line);
    }
}

proof fn lemma_blank_line(line: Seq<char>)
    requires
        text::all_space(line),
    ensures
        text::trimmed_end(line).len() == 0,
    decreases line.len(),
{
    if line.len() > 0 {
        assert(text::is_space(line[line.len() - 1]));
        let t = line.drop_last();
        assert forall|i: int| 0 <= i < t.len() implies text::is_space(#[trigger] t[i]) by {
            assert(t[i] == line[i]);
        }
        lemma_blank_line(t);
    }
}

/// An event as a server writes it: a field for each line of its data, and a blank line.
pub open spec fn written_event(values: Seq<Seq<char>>) -> Seq<char>
    decreases values.len(),
{
    if values.len() == 0 {
        seq!['\n']
    } else {
        "data: "@ + values[0] + seq!['\n'] + written_event(values.drop_first())
    }
}

/// Lines, each with its line end.
pub open spec fn with_line_ends(values: Seq<Seq<char>>) -> Seq<char>
    decreases values.len(),
{
    if values.len() == 0 {
        Seq::empty()
    } else {
        values[0] + seq!['\n'] + with_line_ends(values.drop_first())
    }
}

proof fn lemma_event_reads_back(values: Seq<Seq<char>>, rest: Seq<char>, data: Seq<char>)
    requires
        values.len() > 0 || data.len() > 0,
        forall|i: int|
            0 <= i < values.len() ==> (#[trigger] values[i]).len() > 0 && !text::is_space(values[i].last()),
        forall|i: int, j: int|
            0 <= i < values.len() && 0 <= j < values[i].len() ==> #[trigger] values[i][j] != '\n',
    ensures
        next_event(written_event(values) + rest, data) == (
            Some(data + with_line_ends(values)),
            rest,
            Seq::<char>::empty(),
        ),
    decreases values.len(),
{
    reveal_strlit("data: ");
    if values.len() == 0 {
        let none = Seq::<char>::empty();
        law_stream_is_read_by_lines(none, rest, data);
        assert(none + seq!['\n'] + rest == written_event(values) + rest);
        assert(data + with_line_ends(values) == data);
    } else {
        let v = values[0];
        let line = "data: "@ + v;
        let others = values.drop_first();
        assert(v.len() > 0 && !text::is_space(v.last()));
        assert forall|i: int| 0 <= i < line.len() implies #[trigger] line[i] != '\n' by {
            if i >= 6 {
                assert(line[i] == values[0][i - 6]);
            }
        }
        assert forall|i: int| 0 <= i < others.len() implies (#[trigger] others[i]).len() > 0
            && !text::is_space(others[i].last()) by {
            assert(others[i] == values[i + 1]);
        }
        assert forall|i: int, j: int| 0 <= i < others.len() && 0 <= j < others[i].len() implies
            #[trigger] others[i][j] != '\n' by {
            assert(others[i] == values[i + 1]);
            assert(values[i + 1][j] != '\n');
        }
        let more = written_event(others) + rest;
        law_stream_is_read_by_lines(line, more, data);
        assert(line.last() == v.last());
        assert(line + seq!['\n'] + more == written_event(values) + rest);
        law_data_field_is_taken(v, line);
        let d = data + payload(line);
        lemma_event_reads_back(others, rest, d);
        assert(d + with_line_ends(others) == data + with_line_ends(values));
    }
}

/// An event is read as it was written: its data is its lines, each with a line end, and
/// what follows the event is left.
pub proof fn law_event_reads_back(values: Seq<Seq<char>>, rest: Seq<char>)
    requires
        values.len() > 0,
        forall|i: int|
            0 <= i < values.len() ==> (#[trigger] values[i]).len() > 0 && !text::is_space(values[i].last()),
        forall|i: int, j: int|
            0 <= i < values.len() && 0 <= j < values[i].len() ==> #[trigger] values[i][j] != '\n',
    ensures
        next_event(written_event(values) + rest, Seq::empty()) == (
            Some(with_line_ends(values)),
            rest,
            Seq::<char>::empty(),
        ),
{
    lemma_event_reads_back(values, rest, Seq::empty());
    assert(Seq::<char>::empty() + with_line_ends(values) == with_line_ends(values));
}

} // verus!
