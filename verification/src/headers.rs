//! The headers and trailers of a request.
use crate::options;
use crate::options::Options;
use crate::text;
use crate::uri;
use crate::uri::Uri;
use vstd::prelude::*;

verus! {

// ---------------------------------------------------------------------------
// The header map of the http crate
// ---------------------------------------------------------------------------

/// The header map of the `http` crate.
#[verifier::external_type_specification]
#[verifier::external_body]
#[verifier::reject_recursive_types(T)]
pub struct ExHeaderMap<T>(http::HeaderMap<T>);

/// The header value of the `http` crate.
#[verifier::external_type_specification]
#[verifier::external_body]
pub struct ExHeaderValue(http::HeaderValue);

/// A header name, in lower case, and the bytes of its values, in the order in
/// which they were given.
pub type Entry = (Seq<char>, Seq<Seq<u8>>);

/// What a header map holds: its names in the order in which they came, each with
/// its values.
pub uninterp spec fn header_entries(map: http::HeaderMap) -> Seq<Entry>;

/// How many names a header map takes for certain. From here on it may refuse a
/// further name, depending on how the names hash.
pub const NAME_LIMIT: usize = 6554;

/// Whether `s` can be the name of a header.
pub open spec fn is_header_name(s: Seq<char>) -> bool {
    options::is_token(s) && s.len() <= 65535
}

/// Whether `s` can be the value of a header: no control character but the
/// horizontal tab.
pub open spec fn is_header_value(s: Seq<char>) -> bool {
    forall|i: int| 0 <= i < s.len() ==> ({
        let c = #[trigger] s[i];
        c == '\t' || (c >= ' ' && c != '\u{7f}')
    })
}

/// The position of a name among the entries, or their number if it has none.
pub open spec fn entry_at(entries: Seq<Entry>, name: Seq<char>) -> int
    decreases entries.len(),
{
    if entries.len() == 0 || entries.first().0 == name {
        0
    } else {
        1 + entry_at(entries.drop_first(), name)
    }
}

/// Whether a name has a value.
pub open spec fn has_entry(entries: Seq<Entry>, name: Seq<char>) -> bool {
    entry_at(entries, name) < entries.len()
}

/// The entries with one more value for a name: behind the values that the name
/// has, or as a new entry at the end.
pub open spec fn appended(entries: Seq<Entry>, name: Seq<char>, value: Seq<u8>) -> Seq<Entry> {
    let k = entry_at(entries, name);
    if k < entries.len() {
        entries.update(k, (name, entries[k].1.push(value)))
    } else {
        entries.push((name, seq![value]))
    }
}

/// A position among the entries is no less than 0, and at most their number.
pub proof fn lemma_entry_at(entries: Seq<Entry>, name: Seq<char>)
    ensures
        0 <= entry_at(entries, name) <= entries.len(),
        has_entry(entries, name) ==> entries[entry_at(entries, name)].0 == name,
    decreases entries.len(),
{
    if entries.len() > 0 && entries.first().0 != name {
        lemma_entry_at(entries.drop_first(), name);
    }
}

/// The bytes of a text.
pub open spec fn bytes_of(s: Seq<char>) -> Seq<u8> {
    vstd::utf8::encode_utf8(s)
}

/// `http::HeaderMap::new`: an empty header map.
#[verifier::external_body]
pub(crate) fn new_map() -> (map: http::HeaderMap)
    ensures
        header_entries(map).len() == 0,
{
    http::HeaderMap::new()
}

/// `http::HeaderName::from_bytes`: a text is a header name where it is a token of
/// at most 65535 characters. Its letters become lower case.
#[verifier::external_body]
pub(crate) fn read_name(s: &str) -> (r: Option<String>)
    ensures
        match r {
            Some(n) => is_header_name(s@) && n@ == text::ascii_lowered(s@),
            None => !is_header_name(s@),
        },
{
    match http::HeaderName::from_bytes(s.as_bytes()) {
        Ok(n) => Some(n.as_str().to_string()),
        Err(_) => None,
    }
}

/// `http::HeaderValue::from_str`: a text is a header value where it holds no
/// control character but the tab. It is kept as its bytes.
#[verifier::external_body]
pub(crate) fn read_value(s: &str) -> (r: Option<Vec<u8>>)
    ensures
        match r {
            Some(v) => is_header_value(s@) && v@ == bytes_of(s@),
            None => !is_header_value(s@),
        },
{
    match http::HeaderValue::from_str(s) {
        Ok(v) => Some(v.as_bytes().to_vec()),
        Err(_) => None,
    }
}

/// `http::HeaderMap::append`: one more value for a name, whose letters become
/// lower case.
#[verifier::external_body]
pub(crate) fn append(map: &mut http::HeaderMap, name: &str, value: &str)
    requires
        is_header_name(name@),
        is_header_value(value@),
        header_entries(*old(map)).len() < NAME_LIMIT,
    ensures
        header_entries(*final(map)) == appended(
            header_entries(*old(map)),
            text::ascii_lowered(name@),
            bytes_of(value@),
        ),
{
    let name = http::HeaderName::from_bytes(name.as_bytes()).expect("a header name");
    let value = http::HeaderValue::from_str(value).expect("a header value");
    map.append(name, value);
}

/// `http::HeaderMap::contains_key`: whether a name has a value, whatever the case
/// of its letters.
#[verifier::external_body]
pub(crate) fn contains(map: &http::HeaderMap, name: &str) -> (r: bool)
    requires
        is_header_name(name@),
    ensures
        r == has_entry(header_entries(*map), text::ascii_lowered(name@)),
{
    map.contains_key(name)
}

/// The entries with one value for a name: in place of the values that the name
/// has, or as a new entry at the end.
pub open spec fn inserted(entries: Seq<Entry>, name: Seq<char>, value: Seq<u8>) -> Seq<Entry> {
    let k = entry_at(entries, name);
    if k < entries.len() {
        entries.update(k, (name, seq![value]))
    } else {
        entries.push((name, seq![value]))
    }
}

/// `http::HeaderMap::insert`: a name gets one value in place of those that it
/// has. Its letters become lower case.
#[verifier::external_body]
pub(crate) fn insert(map: &mut http::HeaderMap, name: &str, value: &str)
    requires
        is_header_name(name@),
        is_header_value(value@),
        header_entries(*old(map)).len() < NAME_LIMIT,
    ensures
        header_entries(*final(map)) == inserted(
            header_entries(*old(map)),
            text::ascii_lowered(name@),
            bytes_of(value@),
        ),
{
    let name = http::HeaderName::from_bytes(name.as_bytes()).expect("a header name");
    let value = http::HeaderValue::from_str(value).expect("a header value");
    map.insert(name, value);
}

/// `http::HeaderMap::clone`: a header map that holds the same.
#[verifier::external_body]
pub(crate) fn copy_map(map: &http::HeaderMap) -> (r: http::HeaderMap)
    ensures
        header_entries(r) == header_entries(*map),
{
    map.clone()
}

/// The entries, value by value, each with its name.
pub open spec fn flat(entries: Seq<Entry>) -> Seq<(Seq<char>, Seq<u8>)>
    decreases entries.len(),
{
    if entries.len() == 0 {
        Seq::empty()
    } else {
        let (name, values) = entries.last();
        flat(entries.drop_last()) + Seq::new(values.len(), |i: int| (name, values[i]))
    }
}

/// `http::HeaderMap::len`: the number of values.
#[verifier::external_body]
pub(crate) fn count_values(map: &http::HeaderMap) -> (n: usize)
    ensures
        n == flat(header_entries(*map)).len(),
{
    map.len()
}

/// `http::HeaderMap::iter`, which walks the names in the order in which they came
/// and the values of each in the order in which they were given: the value at
/// place `i` is appended to another map.
#[verifier::external_body]
pub(crate) fn append_from(map: &mut http::HeaderMap, from: &http::HeaderMap, i: usize)
    requires
        i < flat(header_entries(*from)).len(),
        header_entries(*old(map)).len() < NAME_LIMIT,
    ensures
        header_entries(*final(map)) == appended(
            header_entries(*old(map)),
            flat(header_entries(*from))[i as int].0,
            flat(header_entries(*from))[i as int].1,
        ),
{
    let (name, value) = from.iter().nth(i).expect("a header");
    map.append(name.clone(), value.clone());
}

// ---------------------------------------------------------------------------
// Lists of headers
// ---------------------------------------------------------------------------

/// Why headers or trailers were refused.
#[derive(Clone, Copy, Debug, PartialEq, Eq, Structural)]
pub enum HeaderError {
    /// The header at this place has a name that is none.
    Name(usize),
    /// The header at this place has a value that is none.
    Value(usize),
    /// The trailer at this place has a name that is none.
    TrailerName(usize),
    /// The trailer at this place has a value that is none.
    TrailerValue(usize),
    /// The names of the trailers make no header value.
    TrailerList,
    /// The host makes no header value.
    Host,
}

/// The words for a refusal.
pub open spec fn header_message(e: HeaderError) -> Seq<char> {
    match e {
        HeaderError::Name(_) => "invalid header name: invalid HTTP header name"@,
        HeaderError::Value(_) => "invalid header value: failed to parse header value"@,
        HeaderError::TrailerName(_) => "invalid trailer name: invalid HTTP header name"@,
        HeaderError::TrailerValue(_) => "invalid trailer value: failed to parse header value"@,
        HeaderError::TrailerList => "could not build headers: failed to parse header value"@,
        HeaderError::Host => "could not build headers: failed to parse header value"@,
    }
}

impl HeaderError {
    /// The words for the refusal.
    pub fn message(&self) -> (s: &'static str)
        ensures
            s@ == header_message(*self),
    {
        match self {
            HeaderError::Name(_) => "invalid header name: invalid HTTP header name",
            HeaderError::Value(_) => "invalid header value: failed to parse header value",
            HeaderError::TrailerName(_) => "invalid trailer name: invalid HTTP header name",
            HeaderError::TrailerValue(_) => "invalid trailer value: failed to parse header value",
            HeaderError::TrailerList => "could not build headers: failed to parse header value",
            HeaderError::Host => "could not build headers: failed to parse header value",
        }
    }
}

/// Whether a name and a value make a header.
pub open spec fn is_header(h: (String, String)) -> bool {
    is_header_name(h.0@) && is_header_value(h.1@)
}

/// The number of headers before the first that is none.
pub open spec fn header_prefix(list: Seq<(String, String)>) -> nat
    decreases list.len(),
{
    if list.len() == 0 || !is_header(list.first()) {
        0
    } else {
        1 + header_prefix(list.drop_first())
    }
}

/// The entries with the headers of a list appended.
pub open spec fn all_appended(entries: Seq<Entry>, list: Seq<(String, String)>) -> Seq<Entry>
    decreases list.len(),
{
    if list.len() == 0 {
        entries
    } else {
        appended(
            all_appended(entries, list.drop_last()),
            text::ascii_lowered(list.last().0@),
            bytes_of(list.last().1@),
        )
    }
}

proof fn lemma_header_prefix_is(list: Seq<(String, String)>, k: nat)
    requires
        k <= list.len(),
        k < list.len() ==> !is_header(list[k as int]),
        forall|i: int| 0 <= i < k ==> is_header(#[trigger] list[i]),
    ensures
        header_prefix(list) == k,
    decreases list.len(),
{
    if k > 0 {
        assert(is_header(list[0]));
        let t = list.drop_first();
        assert forall|i: int| 0 <= i < k - 1 implies is_header(#[trigger] t[i]) by {
            assert(t[i] == list[i + 1]);
        }
        lemma_header_prefix_is(t, (k - 1) as nat);
    }
}

/// Appends the headers of a list, up to the first that is none: its place is
/// returned, and whether its name is at fault.
fn append_all(map: &mut http::HeaderMap, list: &Vec<(String, String)>) -> (r: Result<
    (),
    (usize, bool),
>)
    requires
        header_entries(*old(map)).len() + list@.len() <= NAME_LIMIT,
    ensures
        match r {
            Ok(_) => {
                &&& header_prefix(list@) == list@.len()
                &&& header_entries(*final(map)) == all_appended(header_entries(*old(map)), list@)
                &&& header_entries(*final(map)).len() <= header_entries(*old(map)).len()
                    + list@.len()
            },
            Err((k, by_name)) => {
                &&& header_prefix(list@) == k < list@.len()
                &&& by_name == !is_header_name(list@[k as int].0@)
            },
        },
{
    let ghost start = header_entries(*map);
    let mut i: usize = 0;
    assert(list@.take(0) == Seq::<(String, String)>::empty());
    while i < list.len()
        invariant
            i <= list.len(),
            start.len() + list@.len() <= NAME_LIMIT,
            header_entries(*map) == all_appended(start, list@.take(i as int)),
            header_entries(*map).len() <= start.len() + i,
            forall|j: int| 0 <= j < i ==> is_header(#[trigger] list@[j]),
        decreases list.len() - i,
    {
        let name = list[i].0.as_str();
        let value = list[i].1.as_str();
        if read_name(name).is_none() {
            proof {
                lemma_header_prefix_is(list@, i as nat);
            }
            return Err((i, true));
        }
        if read_value(value).is_none() {
            proof {
                lemma_header_prefix_is(list@, i as nat);
            }
            return Err((i, false));
        }
        proof {
            lemma_entry_at(header_entries(*map), text::ascii_lowered(name@));
        }
        append(map, name, value);
        assert(list@.take(i + 1).drop_last() == list@.take(i as int));
        assert(list@.take(i + 1).last() == list@[i as int]);
        i += 1;
    }
    proof {
        lemma_header_prefix_is(list@, list@.len());
        assert(list@.take(list@.len() as int) == list@);
    }
    Ok(())
}

// ---------------------------------------------------------------------------
// The headers of a request
// ---------------------------------------------------------------------------

/// The names of the trailers, with a comma and a space between them.
pub open spec fn trailer_list(trailers: Seq<(String, String)>) -> Seq<char>
    decreases trailers.len(),
{
    if trailers.len() == 0 {
        Seq::empty()
    } else if trailers.len() == 1 {
        trailers[0].0@
    } else {
        trailer_list(trailers.drop_last()) + ", "@ + trailers.last().0@
    }
}

/// The names of the trailers, with a comma and a space between them.
fn join_names(trailers: &Vec<(String, String)>) -> (s: String)
    ensures
        s@ == trailer_list(trailers@),
{
    let mut s = String::new();
    let mut i: usize = 0;
    while i < trailers.len()
        invariant
            i <= trailers.len(),
            s@ == trailer_list(trailers@.take(i as int)),
        decreases trailers.len() - i,
    {
        if i > 0 {
            s.append(", ");
        }
        s.append(trailers[i].0.as_str());
        assert(trailers@.take(i + 1).drop_last() == trailers@.take(i as int));
        if i == 0 {
            assert(trailers@.take(1)[0] == trailers@[0]);
            assert(s@ == trailers@[0].0@);
        }
        i += 1;
    }
    assert(trailers@.take(trailers@.len() as int) == trailers@);
    s
}

/// The host that a request names: `--host`, or the host of the URI. Where it has
/// no port of its own, the port of the URI follows, or else that of `--port`.
pub open spec fn host_text(u: uri::UriView, opts: Options) -> Option<Seq<char>> {
    let host = match uri::opt_text(opts.host) {
        Some(h) => Some(h),
        None => u.host,
    };
    let port = match u.port {
        Some((t, _)) => Some(t),
        None => match opts.port {
            Some(p) => Some(text::decimal(p as nat)),
            None => None,
        },
    };
    match (host, port) {
        (None, _) => None,
        (Some(h), Some(p)) => if h.contains(':') {
            Some(h)
        } else {
            Some(h + ":"@ + p)
        },
        (Some(h), None) => Some(h),
    }
}

/// The host that a request names.
fn host_value(uri: &Uri, opts: &Options) -> (r: Option<String>)
    ensures
        uri::opt_text(r) == host_text(uri@, *opts),
{
    let host: String = match &opts.host {
        Some(h) => h.clone(),
        None => match &uri.host {
            Some(h) => h.clone(),
            None => {
                return None;
            },
        },
    };
    let v = text::chars_of(host.as_str());
    let seps: [char; 1] = [':'];
    assert(seps@ == seq![':']);
    assert(v@ == v@.subrange(0, v@.len() as int));
    let k: usize = text::find_from(v.as_slice(), 0, seps.as_slice());
    proof {
        text::lemma_first_of(v@, seps@);
        assert(seps@.contains(':')) by {
            assert(seps@[0] == ':');
        }
        assert(host@.contains(':') <==> k < v@.len()) by {
            if k < v@.len() {
                assert(v@[k as int] == ':');
            }
        }
    }
    if k < v.len() {
        return Some(host);
    }
    let port: Option<String> = match &uri.port {
        Some((t, _)) => Some(t.clone()),
        None => match opts.port {
            Some(p) => Some(text::decimal_string(p as u64)),
            None => None,
        },
    };
    match port {
        Some(p) => {
            let mut s = host;
            s.append(":");
            s.append(p.as_str());
            Some(s)
        },
        None => Some(host),
    }
}

/// The entries that announce the trailers.
pub open spec fn trailer_entries(opts: Options) -> Seq<Entry> {
    if opts.trailers@.len() == 0 {
        Seq::empty()
    } else {
        seq![("trailer"@, seq![bytes_of(trailer_list(opts.trailers@))])]
    }
}

/// The entries that the user gave, behind the announcement of the trailers.
pub open spec fn given_entries(opts: Options) -> Seq<Entry> {
    all_appended(trailer_entries(opts), opts.headers@)
}

/// Whether a host is added to the headers: where requests name their host, the
/// user gave none and the URI or `--host` has one.
pub open spec fn adds_host(u: uri::UriView, opts: Options, named: bool) -> bool {
    named && !has_entry(given_entries(opts), "host"@) && host_text(u, opts) is Some
}

/// The headers of a request: the announcement of the trailers, what the user
/// gave, and the host.
pub open spec fn request_headers(u: uri::UriView, opts: Options, named: bool) -> Seq<Entry> {
    if adds_host(u, opts, named) {
        appended(given_entries(opts), "host"@, bytes_of(host_text(u, opts)->0))
    } else {
        given_entries(opts)
    }
}

/// Why the headers of a request are refused, if they are.
pub open spec fn headers_refused(
    u: uri::UriView,
    opts: Options,
    named: bool,
) -> Option<HeaderError> {
    let k = header_prefix(opts.headers@);
    if opts.trailers@.len() > 0 && !is_header_value(trailer_list(opts.trailers@)) {
        Some(HeaderError::TrailerList)
    } else if k < opts.headers@.len() {
        if !is_header_name(opts.headers@[k as int].0@) {
            Some(HeaderError::Name(k as usize))
        } else {
            Some(HeaderError::Value(k as usize))
        }
    } else if adds_host(u, opts, named) && !is_header_value(host_text(u, opts)->0) {
        Some(HeaderError::Host)
    } else {
        None
    }
}

/// The names that the library itself gives headers.
proof fn lemma_own_names()
    ensures
        is_header_name("Trailer"@),
        is_header_name("host"@),
        is_header_name("content-length"@),
        is_header_name("transfer-encoding"@),
        text::ascii_lowered("Trailer"@) == "trailer"@,
        text::ascii_lowered("host"@) == "host"@,
        text::ascii_lowered("content-length"@) == "content-length"@,
        text::ascii_lowered("transfer-encoding"@) == "transfer-encoding"@,
{
    reveal_strlit("Trailer");
    reveal_strlit("trailer");
    reveal_strlit("host");
    reveal_strlit("content-length");
    reveal_strlit("transfer-encoding");
    assert(text::ascii_lowered("Trailer"@) == "trailer"@);
    assert(text::ascii_lowered("host"@) == "host"@);
    assert(text::ascii_lowered("content-length"@) == "content-length"@);
    assert(text::ascii_lowered("transfer-encoding"@) == "transfer-encoding"@);
}

/// The headers of a request. HTTP/1 requests name their host. On HTTP/2 a pseudo
/// header does.
pub fn build_headers(uri: &Uri, opts: &Options) -> (r: Result<http::HeaderMap, HeaderError>)
    requires
        opts.headers@.len() + 2 <= NAME_LIMIT,
    ensures
        match r {
            Ok(map) => {
                &&& headers_refused(uri@, *opts, !opts.http2) is None
                &&& header_entries(map) == request_headers(uri@, *opts, !opts.http2)
                &&& header_entries(map).len() <= opts.headers@.len() + 2
            },
            Err(e) => headers_refused(uri@, *opts, !opts.http2) == Some(e),
        },
{
    collect_headers(uri, opts, !opts.http2)
}

/// The headers of a request, with or without its host.
pub fn collect_headers(uri: &Uri, opts: &Options, named: bool) -> (r: Result<
    http::HeaderMap,
    HeaderError,
>)
    requires
        opts.headers@.len() + 2 <= NAME_LIMIT,
    ensures
        match r {
            Ok(map) => {
                &&& headers_refused(uri@, *opts, named) is None
                &&& header_entries(map) == request_headers(uri@, *opts, named)
                &&& header_entries(map).len() <= opts.headers@.len() + 2
            },
            Err(e) => headers_refused(uri@, *opts, named) == Some(e),
        },
{
    proof {
        lemma_own_names();
    }
    let mut map = new_map();
    if opts.trailers.len() > 0 {
        let names = join_names(&opts.trailers);
        if read_value(names.as_str()).is_none() {
            return Err(HeaderError::TrailerList);
        }
        append(&mut map, "Trailer", names.as_str());
    }
    assert(header_entries(map) == trailer_entries(*opts));
    match append_all(&mut map, &opts.headers) {
        Err((k, by_name)) => {
            if by_name {
                return Err(HeaderError::Name(k));
            }
            return Err(HeaderError::Value(k));
        },
        Ok(_) => {},
    }
    if named && !contains(&map, "host") {
        match host_value(uri, opts) {
            Some(host) => {
                if read_value(host.as_str()).is_none() {
                    return Err(HeaderError::Host);
                }
                proof {
                    lemma_entry_at(header_entries(map), "host"@);
                }
                append(&mut map, "host", host.as_str());
            },
            None => {},
        }
    }
    Ok(map)
}

/// Why the trailers of a request are refused, if they are.
pub open spec fn trailers_refused(opts: Options) -> Option<HeaderError> {
    let k = header_prefix(opts.trailers@);
    if k < opts.trailers@.len() {
        if !is_header_name(opts.trailers@[k as int].0@) {
            Some(HeaderError::TrailerName(k as usize))
        } else {
            Some(HeaderError::TrailerValue(k as usize))
        }
    } else {
        None
    }
}

/// The trailers of a request, if it has any.
pub fn build_trailers(opts: &Options) -> (r: Result<Option<http::HeaderMap>, HeaderError>)
    requires
        opts.trailers@.len() <= NAME_LIMIT,
    ensures
        match r {
            Ok(None) => opts.trailers@.len() == 0,
            Ok(Some(map)) => {
                &&& opts.trailers@.len() > 0
                &&& trailers_refused(*opts) is None
                &&& header_entries(map) == all_appended(Seq::empty(), opts.trailers@)
            },
            Err(e) => trailers_refused(*opts) == Some(e),
        },
{
    if opts.trailers.len() == 0 {
        return Ok(None);
    }
    let mut map = new_map();
    assert(header_entries(map) == Seq::<Entry>::empty());
    match append_all(&mut map, &opts.trailers) {
        Err((k, by_name)) => if by_name {
            Err(HeaderError::TrailerName(k))
        } else {
            Err(HeaderError::TrailerValue(k))
        },
        Ok(_) => Ok(Some(map)),
    }
}

/// The headers of the last request over a connection: they ask the server to
/// close it.
pub open spec fn closing_entries(entries: Seq<Entry>) -> Seq<Entry> {
    inserted(entries, "connection"@, bytes_of("close"@))
}

/// The headers of the last request over a connection.
pub fn closing_headers(headers: &http::HeaderMap) -> (r: http::HeaderMap)
    requires
        header_entries(*headers).len() < NAME_LIMIT,
    ensures
        header_entries(r) == closing_entries(header_entries(*headers)),
        header_entries(r).len() <= header_entries(*headers).len() + 1,
{
    let mut map = copy_map(headers);
    proof {
        reveal_strlit("connection");
        reveal_strlit("close");
        assert(text::ascii_lowered("connection"@) == "connection"@);
        lemma_entry_at(header_entries(map), "connection"@);
    }
    insert(&mut map, "connection", "close");
    map
}

/// The entries with the values of a list appended, each under its name.
pub open spec fn all_joined(
    entries: Seq<Entry>,
    list: Seq<(Seq<char>, Seq<u8>)>,
) -> Seq<Entry>
    decreases list.len(),
{
    if list.len() == 0 {
        entries
    } else {
        appended(all_joined(entries, list.drop_last()), list.last().0, list.last().1)
    }
}

/// The headers of a request for a stream of events: it is said that events are
/// wanted, and fresh ones, and then what the other headers say.
pub open spec fn handshake_entries(entries: Seq<Entry>) -> Seq<Entry> {
    all_joined(
        seq![
            ("accept"@, seq![bytes_of("text/event-stream"@)]),
            ("cache-control"@, seq![bytes_of("no-cache"@)]),
        ],
        flat(entries),
    )
}

/// The headers of a request for a stream of events.
pub fn handshake_headers(headers: &http::HeaderMap) -> (r: http::HeaderMap)
    requires
        flat(header_entries(*headers)).len() + 2 <= NAME_LIMIT,
    ensures
        header_entries(r) == handshake_entries(header_entries(*headers)),
{
    proof {
        reveal_strlit("accept");
        reveal_strlit("text/event-stream");
        reveal_strlit("cache-control");
        reveal_strlit("no-cache");
        assert(text::ascii_lowered("accept"@) == "accept"@);
        assert(text::ascii_lowered("cache-control"@) == "cache-control"@);
    }
    let mut map = new_map();
    append(&mut map, "accept", "text/event-stream");
    let ghost one = header_entries(map);
    proof {
        reveal_with_fuel(entry_at, 2);
        assert("accept"@.len() != "cache-control"@.len());
    }
    append(&mut map, "cache-control", "no-cache");
    let ghost base = header_entries(map);
    let ghost list = flat(header_entries(*headers));
    assert(base == seq![
        ("accept"@, seq![bytes_of("text/event-stream"@)]),
        ("cache-control"@, seq![bytes_of("no-cache"@)]),
    ]);
    let n: usize = count_values(headers);
    let mut i: usize = 0;
    assert(list.take(0) == Seq::<(Seq<char>, Seq<u8>)>::empty());
    while i < n
        invariant
            i <= n,
            n == list.len(),
            n + 2 <= NAME_LIMIT,
            list == flat(header_entries(*headers)),
            header_entries(map) == all_joined(base, list.take(i as int)),
            header_entries(map).len() <= i + 2,
        decreases n - i,
    {
        proof {
            assert(list.take(i + 1).drop_last() == list.take(i as int));
            lemma_entry_at(header_entries(map), list[i as int].0);
        }
        append_from(&mut map, headers, i);
        i += 1;
    }
    assert(list.take(n as int) == list);
    map
}

/// The headers with an explicit `Content-Length`, where there is a body and the
/// user gave neither `Content-Length` nor `Transfer-Encoding`.
pub open spec fn with_length(entries: Seq<Entry>, body_len: usize) -> Seq<Entry> {
    if body_len > 0 && !has_entry(entries, "content-length"@) && !has_entry(
        entries,
        "transfer-encoding"@,
    ) {
        inserted(entries, "content-length"@, bytes_of(text::decimal(body_len as nat)))
    } else {
        entries
    }
}

/// Decimal digits make a header value.
proof fn lemma_decimal_is_value(n: nat)
    ensures
        is_header_value(text::decimal(n)),
    decreases n,
{
    if n >= 10 {
        lemma_decimal_is_value(n / 10);
        let s = text::decimal(n);
        let t = text::decimal(n / 10);
        assert forall|i: int| 0 <= i < s.len() implies ({
            let c = #[trigger] s[i];
            c == '\t' || (c >= ' ' && c != '\u{7f}')
        }) by {
            if i < t.len() {
                assert(s[i] == t[i]);
            }
        }
    }
}

/// Adds an explicit `Content-Length` for the clients that write the request to
/// the socket themselves: without it the server takes a request for one without
/// a body. What the user gave stays as it is.
pub fn ensure_content_length(headers: http::HeaderMap, body_len: usize) -> (r: http::HeaderMap)
    requires
        header_entries(headers).len() < NAME_LIMIT,
    ensures
        header_entries(r) == with_length(header_entries(headers), body_len),
{
    proof {
        lemma_own_names();
        lemma_decimal_is_value(body_len as nat);
    }
    let mut map = headers;
    if body_len > 0 && !contains(&map, "content-length") && !contains(&map, "transfer-encoding") {
        let n = text::decimal_string(body_len as u64);
        insert(&mut map, "content-length", n.as_str());
    }
    map
}

// ---------------------------------------------------------------------------
// What holds of the headers
// ---------------------------------------------------------------------------

/// Whether a name has a certain value among its values.
pub open spec fn has_value(entries: Seq<Entry>, name: Seq<char>, value: Seq<u8>) -> bool {
    has_entry(entries, name) && entries[entry_at(entries, name)].1.contains(value)
}

proof fn lemma_entry_at_is(entries: Seq<Entry>, name: Seq<char>, k: int)
    requires
        0 <= k <= entries.len(),
        k < entries.len() ==> entries[k].0 == name,
        forall|i: int| 0 <= i < k ==> (#[trigger] entries[i]).0 != name,
    ensures
        entry_at(entries, name) == k,
    decreases entries.len(),
{
    if k > 0 {
        assert(entries[0].0 != name);
        let t = entries.drop_first();
        assert forall|i: int| 0 <= i < k - 1 implies (#[trigger] t[i]).0 != name by {
            assert(t[i] == entries[i + 1]);
        }
        lemma_entry_at_is(t, name, k - 1);
    }
}

proof fn lemma_not_before(entries: Seq<Entry>, name: Seq<char>)
    ensures
        forall|i: int| 0 <= i < entry_at(entries, name) ==> (#[trigger] entries[i]).0 != name,
    decreases entries.len(),
{
    lemma_entry_at(entries, name);
    if entries.len() > 0 && entries.first().0 != name {
        let t = entries.drop_first();
        lemma_not_before(t, name);
        assert forall|i: int| 0 <= i < entry_at(entries, name) implies (#[trigger] entries[i]).0
            != name by {
            if i > 0 {
                assert(entries[i] == t[i - 1]);
            }
        }
    }
}

proof fn lemma_changed_entry(entries: Seq<Entry>, changed: Seq<Entry>, name: Seq<char>)
    requires
        changed.len() >= entries.len(),
        forall|i: int| 0 <= i < entries.len() ==> (#[trigger] changed[i]).0 == entries[i].0,
    ensures
        has_entry(entries, name) ==> entry_at(changed, name) == entry_at(entries, name),
        !has_entry(entries, name) && changed.len() > entries.len() && changed[entries.len() as int].0
            == name ==> entry_at(changed, name) == entries.len(),
{
    lemma_entry_at(entries, name);
    lemma_not_before(entries, name);
    let k = entry_at(entries, name);
    if has_entry(entries, name) {
        assert(changed[k].0 == entries[k].0);
        assert forall|i: int| 0 <= i < k implies (#[trigger] changed[i]).0 != name by {
            assert(changed[i].0 == entries[i].0);
        }
        lemma_entry_at_is(changed, name, k);
    } else if changed.len() > entries.len() && changed[entries.len() as int].0 == name {
        assert forall|i: int| 0 <= i < entries.len() implies (#[trigger] changed[i]).0 != name by {
            assert(changed[i].0 == entries[i].0);
        }
        lemma_entry_at_is(changed, name, entries.len() as int);
    }
}

proof fn lemma_appended_has(entries: Seq<Entry>, name: Seq<char>, value: Seq<u8>)
    ensures
        has_value(appended(entries, name, value), name, value),
{
    let after = appended(entries, name, value);
    lemma_entry_at(entries, name);
    lemma_changed_entry(entries, after, name);
    let values = after[entry_at(after, name)].1;
    assert(values.last() == value);
}

proof fn lemma_appended_keeps(
    entries: Seq<Entry>,
    name: Seq<char>,
    value: Seq<u8>,
    other: Seq<char>,
    kept: Seq<u8>,
)
    requires
        has_value(entries, other, kept),
    ensures
        has_value(appended(entries, name, value), other, kept),
{
    let after = appended(entries, name, value);
    lemma_entry_at(entries, name);
    lemma_entry_at(entries, other);
    lemma_changed_entry(entries, after, other);
    let k = entry_at(entries, other);
    let i = choose|i: int| 0 <= i < entries[k].1.len() && entries[k].1[i] == kept;
    assert(after[k].1[i] == kept);
}

proof fn lemma_all_appended_has(entries: Seq<Entry>, list: Seq<(String, String)>, i: int)
    requires
        0 <= i < list.len(),
    ensures
        has_value(
            all_appended(entries, list),
            text::ascii_lowered(list[i].0@),
            bytes_of(list[i].1@),
        ),
    decreases list.len(),
{
    let front = list.drop_last();
    let before = all_appended(entries, front);
    let name = text::ascii_lowered(list.last().0@);
    let value = bytes_of(list.last().1@);
    if i == list.len() - 1 {
        lemma_appended_has(before, name, value);
    } else {
        lemma_all_appended_has(entries, front, i);
        lemma_appended_keeps(
            before,
            name,
            value,
            text::ascii_lowered(list[i].0@),
            bytes_of(list[i].1@),
        );
    }
}

/// Every header that the user gave goes out with the request.
pub proof fn law_given_headers_are_sent(u: uri::UriView, opts: Options, named: bool, i: int)
    requires
        headers_refused(u, opts, named) is None,
        0 <= i < opts.headers@.len(),
    ensures
        has_value(
            request_headers(u, opts, named),
            text::ascii_lowered(opts.headers@[i].0@),
            bytes_of(opts.headers@[i].1@),
        ),
{
    let name = text::ascii_lowered(opts.headers@[i].0@);
    let value = bytes_of(opts.headers@[i].1@);
    lemma_all_appended_has(trailer_entries(opts), opts.headers@, i);
    if adds_host(u, opts, named) {
        lemma_appended_keeps(
            given_entries(opts),
            "host"@,
            bytes_of(host_text(u, opts)->0),
            name,
            value,
        );
    }
}

/// A request that names its host does so wherever one is known. One that does
/// not, as on HTTP/2, holds what the user gave and nothing else. A host that the
/// user gave is the only one.
pub proof fn law_host_header(u: uri::UriView, opts: Options, named: bool)
    requires
        headers_refused(u, opts, named) is None,
    ensures
        named && host_text(u, opts) is Some ==> has_entry(
            request_headers(u, opts, named),
            "host"@,
        ),
        !named || has_entry(given_entries(opts), "host"@) ==> request_headers(u, opts, named)
            == given_entries(opts),
{
    if adds_host(u, opts, named) {
        lemma_appended_has(given_entries(opts), "host"@, bytes_of(host_text(u, opts)->0));
    }
}

/// A request with a body says where it ends: it has a `Content-Length` or a
/// `Transfer-Encoding`. What the user said of either stays, and stating the
/// length once more changes nothing.
pub proof fn law_body_is_framed(entries: Seq<Entry>, body_len: usize)
    requires
        body_len > 0,
    ensures
        ({
            let framed = with_length(entries, body_len);
            &&& has_entry(framed, "content-length"@) || has_entry(framed, "transfer-encoding"@)
            &&& has_entry(entries, "content-length"@) || has_entry(entries, "transfer-encoding"@)
                ==> framed == entries
            &&& with_length(framed, body_len) == framed
        }),
{
    let value = bytes_of(text::decimal(body_len as nat));
    if !has_entry(entries, "content-length"@) {
        assert(inserted(entries, "content-length"@, value) == appended(
            entries,
            "content-length"@,
            value,
        )) by {
            lemma_entry_at(entries, "content-length"@);
        }
        lemma_appended_has(entries, "content-length"@, value);
    }
}

/// The values that a name has.
pub open spec fn values_under(entries: Seq<Entry>, name: Seq<char>) -> Seq<Seq<u8>>
    decreases entries.len(),
{
    if entries.len() == 0 {
        Seq::empty()
    } else if entries[0].0 == name {
        entries[0].1
    } else {
        values_under(entries.drop_first(), name)
    }
}

/// The values that a list gives a name, whatever the case of its letters, in order.
pub open spec fn values_given(list: Seq<(String, String)>, name: Seq<char>) -> Seq<Seq<u8>>
    decreases list.len(),
{
    if list.len() == 0 {
        Seq::empty()
    } else if text::ascii_lowered(list.last().0@) == name {
        values_given(list.drop_last(), name).push(vstd::utf8::encode_utf8(list.last().1@))
    } else {
        values_given(list.drop_last(), name)
    }
}

proof fn lemma_values_under(entries: Seq<Entry>, name: Seq<char>)
    ensures
        values_under(entries, name) == (if has_entry(entries, name) {
            entries[entry_at(entries, name)].1
        } else {
            Seq::empty()
        }),
    decreases entries.len(),
{
    if entries.len() > 0 && entries[0].0 != name {
        lemma_values_under(entries.drop_first(), name);
        lemma_entry_at(entries.drop_first(), name);
    }
}

proof fn lemma_changed_values(
    entries: Seq<Entry>,
    changed: Seq<Entry>,
    name: Seq<char>,
    values: Seq<Seq<u8>>,
    other: Seq<char>,
)
    requires
        ({
            let k = entry_at(entries, name);
            if k < entries.len() {
                changed == entries.update(k, (name, values))
            } else {
                changed == entries.push((name, values))
            }
        }),
    ensures
        values_under(changed, name) == values,
        other != name ==> values_under(changed, other) == values_under(entries, other),
{
    let k = entry_at(entries, name);
    lemma_entry_at(entries, name);
    lemma_entry_at(entries, other);
    lemma_not_before(entries, name);
    lemma_not_before(entries, other);
    lemma_values_under(entries, other);
    lemma_values_under(changed, other);
    lemma_values_under(changed, name);
    assert forall|i: int| 0 <= i < entries.len() implies (#[trigger] changed[i]).0 == entries[i].0 by {}
    lemma_changed_entry(entries, changed, name);
    if other != name {
        lemma_changed_entry(entries, changed, other);
        if !has_entry(entries, other) {
            assert forall|i: int| 0 <= i < changed.len() implies (#[trigger] changed[i]).0 != other by {
                if i < entries.len() {
                    assert(entries[i].0 != other);
                }
            }
            lemma_entry_at_is(changed, other, changed.len() as int);
        }
    }
}

/// Appending gives a name one more value, behind those that it has, and leaves the
/// values of other names as they are.
pub proof fn law_appending_adds_a_value(
    entries: Seq<Entry>,
    name: Seq<char>,
    value: Seq<u8>,
    other: Seq<char>,
)
    ensures
        values_under(appended(entries, name, value), name) == values_under(entries, name).push(value),
        other != name ==> values_under(appended(entries, name, value), other) == values_under(
            entries,
            other,
        ),
{
    lemma_values_under(entries, name);
    lemma_entry_at(entries, name);
    let values = values_under(entries, name).push(value);
    assert(Seq::<Seq<u8>>::empty().push(value) == seq![value]);
    lemma_changed_values(entries, appended(entries, name, value), name, values, other);
}

/// Inserting gives a name one value in place of all that it has, and leaves the values of
/// other names as they are.
pub proof fn law_inserting_replaces_the_values(
    entries: Seq<Entry>,
    name: Seq<char>,
    value: Seq<u8>,
    other: Seq<char>,
)
    ensures
        values_under(inserted(entries, name, value), name) == seq![value],
        other != name ==> values_under(inserted(entries, name, value), other) == values_under(
            entries,
            other,
        ),
{
    lemma_changed_values(entries, inserted(entries, name, value), name, seq![value], other);
}

/// A name has a value exactly where an entry has the name, and new names stand behind
/// the others.
pub proof fn law_names_keep_their_places(entries: Seq<Entry>, name: Seq<char>, value: Seq<u8>)
    ensures
        has_entry(entries, name) <==> exists|i: int|
            0 <= i < entries.len() && (#[trigger] entries[i]).0 == name,
        forall|i: int|
            0 <= i < entries.len() ==> (#[trigger] appended(entries, name, value)[i]).0 == entries[i].0,
        has_entry(entries, name) ==> appended(entries, name, value).len() == entries.len(),
        !has_entry(entries, name) ==> appended(entries, name, value) == entries + seq![
            (name, seq![value]),
        ],
{
    lemma_entry_at(entries, name);
    lemma_not_before(entries, name);
    if has_entry(entries, name) {
        assert(entries[entry_at(entries, name)].0 == name);
    } else {
        assert(entries.push((name, seq![value])) == entries + seq![(name, seq![value])]);
    }
}

/// The headers of a list are those that it gives, each name with its values in the order
/// of the list.
pub proof fn law_headers_are_those_given(
    entries: Seq<Entry>,
    list: Seq<(String, String)>,
    name: Seq<char>,
)
    ensures
        values_under(all_appended(entries, list), name) == values_under(entries, name) + values_given(
            list,
            name,
        ),
    decreases list.len(),
{
    let had = values_under(entries, name);
    if list.len() == 0 {
        assert(had + Seq::<Seq<u8>>::empty() == had);
    } else {
        let front = list.drop_last();
        law_headers_are_those_given(entries, front, name);
        let n = text::ascii_lowered(list.last().0@);
        let v = bytes_of(list.last().1@);
        law_appending_adds_a_value(all_appended(entries, front), n, v, name);
        if n == name {
            assert((had + values_given(front, name)).push(v) == had + values_given(front, name).push(v));
        }
    }
}

proof fn lemma_own_names_differ()
    ensures
        "trailer"@ != "host"@,
        "content-length"@ != "transfer-encoding"@,
        "accept"@ != "cache-control"@,
{
    reveal_strlit("trailer");
    reveal_strlit("host");
    reveal_strlit("content-length");
    reveal_strlit("transfer-encoding");
    reveal_strlit("accept");
    reveal_strlit("cache-control");
    assert("trailer"@.len() != "host"@.len());
    assert("content-length"@.len() != "transfer-encoding"@.len());
    assert("accept"@.len() != "cache-control"@.len());
}

/// A request has the headers that were given and no others, but for a `Trailer` that
/// announces the trailers and stands before what was given under that name, and a `Host`
/// where none was given, requests name their host and one is known.
pub proof fn law_request_has_these_headers(u: uri::UriView, opts: Options, named: bool, name: Seq<char>)
    ensures
        ({
            let given = values_given(opts.headers@, name);
            let sent = values_under(request_headers(u, opts, named), name);
            &&& name != "host"@ && (name != "trailer"@ || opts.trailers@.len() == 0) ==> sent == given
            &&& name == "trailer"@ && opts.trailers@.len() > 0 ==> sent == seq![
                vstd::utf8::encode_utf8(trailer_list(opts.trailers@)),
            ] + given
            &&& name == "host"@ && given.len() > 0 ==> sent == given
            &&& name == "host"@ && !named ==> sent == given
            &&& name == "host"@ && given.len() == 0 && named ==> match host_text(u, opts) {
                Some(h) => sent == seq![vstd::utf8::encode_utf8(h)],
                None => sent.len() == 0,
            }
        }),
{
    lemma_own_names_differ();
    let start = trailer_entries(opts);
    let list = opts.headers@;
    law_headers_are_those_given(start, list, name);
    law_headers_are_those_given(start, list, "host"@);
    let given = values_given(list, name);
    reveal_with_fuel(values_under, 3);
    if opts.trailers@.len() > 0 {
        assert(start[0].0 == "trailer"@);
        assert(start.drop_first() == Seq::<Entry>::empty());
    }
    assert(Seq::<Seq<u8>>::empty() + given == given);
    assert(values_under(start, "host"@) == Seq::<Seq<u8>>::empty());
    let hosts = values_given(list, "host"@);
    assert(Seq::<Seq<u8>>::empty() + hosts == hosts);
    let all = given_entries(opts);
    lemma_values_under(all, "host"@);
    lemma_entry_at(all, "host"@);
    lemma_all_have_values(start, list);
    if has_entry(all, "host"@) {
        assert(all[entry_at(all, "host"@)].1.len() > 0);
    }
    if adds_host(u, opts, named) {
        law_appending_adds_a_value(all, "host"@, bytes_of(host_text(u, opts)->0), name);
        assert(Seq::<Seq<u8>>::empty().push(bytes_of(host_text(u, opts)->0)) == seq![
            bytes_of(host_text(u, opts)->0),
        ]);
    }
}

proof fn lemma_all_have_values(entries: Seq<Entry>, list: Seq<(String, String)>)
    requires
        forall|i: int| 0 <= i < entries.len() ==> (#[trigger] entries[i]).1.len() > 0,
    ensures
        forall|i: int|
            0 <= i < all_appended(entries, list).len() ==> (#[trigger] all_appended(entries, list)[i]).1.len()
                > 0,
    decreases list.len(),
{
    if list.len() > 0 {
        let front = list.drop_last();
        lemma_all_have_values(entries, front);
        let before = all_appended(entries, front);
        let after = all_appended(entries, list);
        lemma_entry_at(before, text::ascii_lowered(list.last().0@));
        assert forall|i: int| 0 <= i < after.len() implies (#[trigger] after[i]).1.len() > 0 by {
            if i < before.len() {
                assert(before[i].1.len() > 0);
            }
        }
    }
}

/// The last request over a connection asks to close it and differs in nothing else.
pub proof fn law_last_request_asks_to_close(entries: Seq<Entry>, other: Seq<char>)
    ensures
        values_under(closing_entries(entries), "connection"@) == seq![
            seq![99u8, 108, 111, 115, 101],
        ],
        other != "connection"@ ==> values_under(closing_entries(entries), other) == values_under(
            entries,
            other,
        ),
{
    law_inserting_replaces_the_values(entries, "connection"@, bytes_of("close"@), other);
    reveal_strlit("close");
    vstd::utf8::is_ascii_chars_encode_utf8("close"@);
    assert(bytes_of("close"@) == seq![99u8, 108, 111, 115, 101]);
}

/// The values of a list of names and values that stand under a name, in order.
pub open spec fn values_listed(list: Seq<(Seq<char>, Seq<u8>)>, name: Seq<char>) -> Seq<Seq<u8>>
    decreases list.len(),
{
    if list.len() == 0 {
        Seq::empty()
    } else if list.last().0 == name {
        values_listed(list.drop_last(), name).push(list.last().1)
    } else {
        values_listed(list.drop_last(), name)
    }
}

/// Going through headers value by value, each name comes with each of its values, in
/// their order.
pub proof fn law_values_come_one_by_one(a: Seq<Entry>, b: Seq<Entry>, name: Seq<char>, values: Seq<Seq<u8>>)
    ensures
        flat(a + b) == flat(a) + flat(b),
        flat(seq![(name, values)]).len() == values.len(),
        forall|i: int|
            0 <= i < values.len() ==> #[trigger] flat(seq![(name, values)])[i] == (name, values[i]),
    decreases b.len(),
{
    reveal_with_fuel(flat, 2);
    let one: Seq<Entry> = seq![(name, values)];
    assert(one.drop_last() == Seq::<Entry>::empty());
    assert(flat(one) == Seq::<(Seq<char>, Seq<u8>)>::empty() + Seq::new(
        values.len(),
        |i: int| (name, values[i]),
    ));
    if b.len() == 0 {
        assert(a + b == a);
        assert(flat(a) + flat(b) == flat(a));
    } else {
        law_values_come_one_by_one(a, b.drop_last(), name, values);
        assert((a + b).drop_last() == a + b.drop_last());
        assert((a + b).last() == b.last());
        assert(flat(a + b) == flat(a) + flat(b));
    }
}

proof fn lemma_all_joined(entries: Seq<Entry>, list: Seq<(Seq<char>, Seq<u8>)>, name: Seq<char>)
    ensures
        values_under(all_joined(entries, list), name) == values_under(entries, name) + values_listed(
            list,
            name,
        ),
    decreases list.len(),
{
    let had = values_under(entries, name);
    if list.len() == 0 {
        assert(had + Seq::<Seq<u8>>::empty() == had);
    } else {
        let front = list.drop_last();
        lemma_all_joined(entries, front, name);
        let (n, v) = list.last();
        law_appending_adds_a_value(all_joined(entries, front), n, v, name);
        if n == name {
            assert((had + values_listed(front, name)).push(v) == had + values_listed(front, name).push(v));
        }
    }
}

/// A request for a stream of events asks for events, and for fresh ones, before what the
/// other headers say, all of which go along.
pub proof fn law_events_are_asked_for(entries: Seq<Entry>, name: Seq<char>)
    ensures
        ({
            let sent = values_under(handshake_entries(entries), name);
            let others = values_listed(flat(entries), name);
            &&& name == "accept"@ ==> sent == seq![vstd::utf8::encode_utf8("text/event-stream"@)] + others
            &&& name == "cache-control"@ ==> sent == seq![vstd::utf8::encode_utf8("no-cache"@)] + others
            &&& name != "accept"@ && name != "cache-control"@ ==> sent == others
        }),
{
    lemma_own_names_differ();
    let base: Seq<Entry> = seq![
        ("accept"@, seq![bytes_of("text/event-stream"@)]),
        ("cache-control"@, seq![bytes_of("no-cache"@)]),
    ];
    lemma_all_joined(base, flat(entries), name);
    reveal_with_fuel(values_under, 4);
    assert(base[0].0 == "accept"@);
    assert(base.drop_first()[0].0 == "cache-control"@);
    assert(base.drop_first().drop_first() == Seq::<Entry>::empty());
    let others = values_listed(flat(entries), name);
    assert(Seq::<Seq<u8>>::empty() + others == others);
}

/// A body is announced with its length in decimal, where neither its length nor a coding
/// was given. Nothing else changes, and nothing at all without a body.
pub proof fn law_length_is_announced(entries: Seq<Entry>, n: usize, other: Seq<char>)
    ensures
        n > 0 && !has_entry(entries, "content-length"@) && !has_entry(entries, "transfer-encoding"@)
            ==> values_under(with_length(entries, n), "content-length"@) == seq![
            text::decimal(n as nat).map_values(|c: char| c as u8),
        ],
        n == 0 ==> with_length(entries, n) == entries,
        other != "content-length"@ ==> values_under(with_length(entries, n), other) == values_under(
            entries,
            other,
        ),
{
    let d = text::decimal(n as nat);
    law_inserting_replaces_the_values(entries, "content-length"@, bytes_of(d), other);
    text::law_decimal_digits(n as nat, 0);
    assert forall|i: int| 0 <= i < d.len() implies (0 <= #[trigger] (d[i] as nat) < 0x80) by {
        assert('0' <= d[i] <= '9');
    }
    vstd::utf8::is_ascii_chars_encode_utf8(d);
    assert(bytes_of(d) == d.map_values(|c: char| c as u8));
}

/// The host that a request names is that of `--host`, or else that of the URI. Behind it
/// stands the port of the URI as it is written there, or else that of `--port`, unless the
/// host has a colon of its own.
pub proof fn law_named_host(u: uri::UriView, opts: Options, h: Seq<char>, p: Seq<char>, n: u16)
    requires
        (opts.host matches Some(s) && s@ == h) || (opts.host is None && u.host == Some(h)),
    ensures
        h.contains(':') ==> host_text(u, opts) == Some(h),
        !h.contains(':') && u.port == Some((p, n)) ==> host_text(u, opts) == Some(h + seq![':'] + p),
        !h.contains(':') && u.port is None && opts.port == Some(n) ==> host_text(u, opts) == Some(
            h + seq![':'] + text::decimal(n as nat),
        ),
        u.port is None && opts.port is None ==> host_text(u, opts) == Some(h),
{
    reveal_strlit(":");
    assert(":"@ == seq![':']);
}

/// Without a host on the command line and in the URI a request names none.
pub proof fn law_no_host_is_made_up(u: uri::UriView, opts: Options)
    requires
        opts.host is None,
        u.host is None,
    ensures
        host_text(u, opts) is None,
{
}

/// The announcement of trailers holds their names, with a comma and a space between two.
pub proof fn law_trailers_are_listed(list: Seq<(String, String)>, last: (String, String))
    ensures
        trailer_list(seq![last]) == last.0@,
        list.len() > 0 ==> trailer_list(list.push(last)) == trailer_list(list) + seq![',', ' '] + last.0@,
{
    reveal_strlit(", ");
    assert(", "@ == seq![',', ' ']);
    assert(list.push(last).drop_last() == list);
}

proof fn lemma_header_prefix(list: Seq<(String, String)>)
    ensures
        header_prefix(list) <= list.len(),
        header_prefix(list) < list.len() ==> !is_header(list[header_prefix(list) as int]),
        forall|i: int| 0 <= i < header_prefix(list) ==> is_header(#[trigger] list[i]),
    decreases list.len(),
{
    if list.len() > 0 && is_header(list.first()) {
        let t = list.drop_first();
        lemma_header_prefix(t);
        assert forall|i: int| 0 <= i < header_prefix(list) implies is_header(#[trigger] list[i]) by {
            if i > 0 {
                assert(list[i] == t[i - 1]);
            }
        }
    }
}

/// Headers are refused exactly where one of them is none, the names of the trailers make
/// no header value, or the host that would be added makes none. Trailers are refused
/// exactly where one of them is none.
pub proof fn law_headers_are_refused(u: uri::UriView, opts: Options, named: bool)
    ensures
        headers_refused(u, opts, named) is None <==> {
            &&& forall|i: int|
                0 <= i < opts.headers@.len() ==> is_header_name((#[trigger] opts.headers@[i]).0@)
                    && is_header_value(opts.headers@[i].1@)
            &&& opts.trailers@.len() > 0 ==> is_header_value(trailer_list(opts.trailers@))
            &&& adds_host(u, opts, named) ==> is_header_value(host_text(u, opts)->0)
        },
        trailers_refused(opts) is None <==> forall|i: int|
            0 <= i < opts.trailers@.len() ==> is_header_name((#[trigger] opts.trailers@[i]).0@)
                && is_header_value(opts.trailers@[i].1@),
{
    let list = opts.headers@;
    lemma_header_prefix(list);
    let k = header_prefix(list) as int;
    if k < list.len() {
        assert(!is_header(list[k]));
    } else {
        assert forall|i: int| 0 <= i < list.len() implies is_header_name((#[trigger] list[i]).0@)
            && is_header_value(list[i].1@) by {
            assert(is_header(list[i]));
        }
    }
    let trailers = opts.trailers@;
    lemma_header_prefix(trailers);
    let m = header_prefix(trailers) as int;
    if m < trailers.len() {
        assert(!is_header(trailers[m]));
    } else {
        assert forall|i: int| 0 <= i < trailers.len() implies is_header_name(
            (#[trigger] trailers[i]).0@,
        ) && is_header_value(trailers[i].1@) by {
            assert(is_header(trailers[i]));
        }
    }
}

/// The first header that is none is the one that is named, by its name before its value.
pub proof fn law_first_bad_header_is_named(u: uri::UriView, opts: Options, named: bool, k: usize)
    requires
        k < opts.headers@.len(),
        forall|i: int|
            0 <= i < k ==> is_header_name((#[trigger] opts.headers@[i]).0@) && is_header_value(
                opts.headers@[i].1@,
            ),
        opts.trailers@.len() > 0 ==> is_header_value(trailer_list(opts.trailers@)),
    ensures
        !is_header_name(opts.headers@[k as int].0@) ==> headers_refused(u, opts, named) == Some(
            HeaderError::Name(k),
        ),
        is_header_name(opts.headers@[k as int].0@) && !is_header_value(opts.headers@[k as int].1@)
            ==> headers_refused(u, opts, named) == Some(HeaderError::Value(k)),
{
    if !is_header(opts.headers@[k as int]) {
        lemma_header_prefix_is(opts.headers@, k as nat);
    }
}

/// The same of trailers.
pub proof fn law_first_bad_trailer_is_named(opts: Options, k: usize)
    requires
        k < opts.trailers@.len(),
        forall|i: int|
            0 <= i < k ==> is_header_name((#[trigger] opts.trailers@[i]).0@) && is_header_value(
                opts.trailers@[i].1@,
            ),
    ensures
        !is_header_name(opts.trailers@[k as int].0@) ==> trailers_refused(opts) == Some(
            HeaderError::TrailerName(k),
        ),
        is_header_name(opts.trailers@[k as int].0@) && !is_header_value(opts.trailers@[k as int].1@)
            ==> trailers_refused(opts) == Some(HeaderError::TrailerValue(k)),
{
    if !is_header(opts.trailers@[k as int]) {
        lemma_header_prefix_is(opts.trailers@, k as nat);
    }
}

/// A header value holds no control character but the tab.
pub proof fn law_control_characters_are_refused(s: Seq<char>, i: int)
    ensures
        0 <= i < s.len() && (s[i] == '\r' || s[i] == '\n' || s[i] == '\0' || s[i] == '\u{7f}')
            ==> !is_header_value(s),
        (forall|j: int| 0 <= j < s.len() ==> ' ' <= #[trigger] s[j] <= '~' || s[j] == '\t')
            ==> is_header_value(s),
{
}

/// A header name is a token of up to 65535 characters.
pub proof fn law_header_names(s: Seq<char>, i: int)
    ensures
        s.len() == 0 || s.len() > 65535 ==> !is_header_name(s),
        0 <= i < s.len() && (s[i] == ':' || s[i] <= ' ' || s[i] >= '\u{7f}') ==> !is_header_name(s),
        0 < s.len() <= 65535 && (forall|j: int|
            0 <= j < s.len() ==> 'a' <= #[trigger] s[j] <= 'z' || 'A' <= s[j] <= 'Z' || '0' <= s[j] <= '9'
                || s[j] == '-' || s[j] == '_') ==> is_header_name(s),
{
    options::law_tokens(s, i);
}

} // verus!
