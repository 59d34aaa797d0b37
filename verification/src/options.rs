//! The settings of a run and the command-line values they are read from.
use crate::client::ClientType;
use crate::net::IpAddr;
use crate::rss::RssState;
use crate::text;
use vstd::prelude::*;

verus! {

/// The settings of a run.
///
/// Durations are in nanoseconds.
#[derive(Clone, Debug)]
pub struct Options {
    pub threads: usize,
    pub multithreaded: Option<usize>,
    pub verbose: bool,
    pub metrics: bool,
    pub stats_csv: bool,
    pub stats_csv_header: bool,
    pub connections: usize,
    pub duration: Option<u128>,
    pub requests: Option<u32>,
    pub client_type: ClientType,
    pub global_queue_interval: Option<u32>,
    pub event_interval: Option<u32>,
    pub max_io_events_per_tick: Option<usize>,
    pub disable_lifo_slot: bool,
    pub method: Option<String>,
    pub headers: Vec<(String, String)>,
    pub trailers: Vec<(String, String)>,
    pub body: Vec<String>,
    pub cps: bool,
    pub rpc: u32,
    pub http2: bool,
    pub latency: bool,
    pub absolute_uri: bool,
    pub http2_adaptive_window: Option<bool>,
    pub http2_initial_max_send_streams: Option<usize>,
    pub http2_max_concurrent_reset_streams: Option<usize>,
    pub http2_initial_stream_window_size: Option<u32>,
    pub http2_initial_connection_window_size: Option<u32>,
    pub http2_max_frame_size: Option<u32>,
    pub http2_max_header_list_size: Option<u32>,
    pub http2_max_send_buffer_size: Option<usize>,
    pub http2_keep_alive_while_idle: bool,
    pub http1_max_buf_size: Option<usize>,
    pub http1_read_buf_exact_size: Option<usize>,
    pub http1_writev: Option<bool>,
    pub http1_title_case_headers: bool,
    pub http1_preserve_header_case: bool,
    pub http1_max_headers: Option<usize>,
    pub http1_allow_spaces_after_header_name_in_responses: bool,
    pub http1_allow_obsolete_multiline_headers_in_responses: bool,
    pub http1_ignore_invalid_headers_in_responses: bool,
    pub http09_responses: bool,
    pub host: Option<String>,
    pub port: Option<u16>,
    pub sni: Option<String>,
    pub insecure: bool,
    pub mcp: bool,
    pub mcp_sse: bool,
    pub mcp_rand_string_len: Option<usize>,
    pub uring_entries: u32,
    pub uring_sqpoll: Option<u32>,
    pub local_addr: Option<IpAddr>,
    pub local_port_range: Option<(u16, u16)>,
    pub rss_key: Option<String>,
    pub rss_indir: Option<String>,
    pub rss: Option<RssState>,
    pub total_connections: usize,
    pub conn_base: usize,
    pub uri: Vec<String>,
}

/// Whether two settings agree in everything that is given on the command line
/// and never filled in: they may differ in the method, the body, the client and
/// what is known of the source ports.
pub open spec fn same_settings(a: Options, b: Options) -> bool {
    &&& b.threads == a.threads
    &&& b.multithreaded == a.multithreaded
    &&& b.verbose == a.verbose
    &&& b.metrics == a.metrics
    &&& b.stats_csv == a.stats_csv
    &&& b.stats_csv_header == a.stats_csv_header
    &&& b.connections == a.connections
    &&& b.duration == a.duration
    &&& b.requests == a.requests
    &&& b.global_queue_interval == a.global_queue_interval
    &&& b.event_interval == a.event_interval
    &&& b.max_io_events_per_tick == a.max_io_events_per_tick
    &&& b.disable_lifo_slot == a.disable_lifo_slot
    &&& b.headers == a.headers
    &&& b.trailers == a.trailers
    &&& b.cps == a.cps
    &&& b.rpc == a.rpc
    &&& b.http2 == a.http2
    &&& b.latency == a.latency
    &&& b.absolute_uri == a.absolute_uri
    &&& b.http2_adaptive_window == a.http2_adaptive_window
    &&& b.http2_initial_max_send_streams == a.http2_initial_max_send_streams
    &&& b.http2_max_concurrent_reset_streams == a.http2_max_concurrent_reset_streams
    &&& b.http2_initial_stream_window_size == a.http2_initial_stream_window_size
    &&& b.http2_initial_connection_window_size == a.http2_initial_connection_window_size
    &&& b.http2_max_frame_size == a.http2_max_frame_size
    &&& b.http2_max_header_list_size == a.http2_max_header_list_size
    &&& b.http2_max_send_buffer_size == a.http2_max_send_buffer_size
    &&& b.http2_keep_alive_while_idle == a.http2_keep_alive_while_idle
    &&& b.http1_max_buf_size == a.http1_max_buf_size
    &&& b.http1_read_buf_exact_size == a.http1_read_buf_exact_size
    &&& b.http1_writev == a.http1_writev
    &&& b.http1_title_case_headers == a.http1_title_case_headers
    &&& b.http1_preserve_header_case == a.http1_preserve_header_case
    &&& b.http1_max_headers == a.http1_max_headers
    &&& b.http1_allow_spaces_after_header_name_in_responses == a.http1_allow_spaces_after_header_name_in_responses
    &&& b.http1_allow_obsolete_multiline_headers_in_responses == a.http1_allow_obsolete_multiline_headers_in_responses
    &&& b.http1_ignore_invalid_headers_in_responses == a.http1_ignore_invalid_headers_in_responses
    &&& b.http09_responses == a.http09_responses
    &&& b.host == a.host
    &&& b.port == a.port
    &&& b.sni == a.sni
    &&& b.insecure == a.insecure
    &&& b.mcp == a.mcp
    &&& b.mcp_sse == a.mcp_sse
    &&& b.mcp_rand_string_len == a.mcp_rand_string_len
    &&& b.uring_entries == a.uring_entries
    &&& b.uring_sqpoll == a.uring_sqpoll
    &&& b.local_addr == a.local_addr
    &&& b.local_port_range == a.local_port_range
    &&& b.rss_key == a.rss_key
    &&& b.rss_indir == a.rss_indir
    &&& b.conn_base == a.conn_base
    &&& b.uri == a.uri
}

impl Default for Options {
    /// The settings of an empty command line.
    fn default() -> (o: Options)
        ensures
            o.threads == 1,
            o.connections == 1,
            o.rpc == u32::MAX,
            o.uring_entries == 4096,
            o.client_type is Auto,
            o.total_connections == 0,
            o.conn_base == 0,
            o.multithreaded is None,
            o.duration is None,
            o.requests is None,
            o.global_queue_interval is None,
            o.event_interval is None,
            o.max_io_events_per_tick is None,
            o.method is None,
            o.headers@.len() == 0,
            o.trailers@.len() == 0,
            o.body@.len() == 0,
            o.uri@.len() == 0,
            o.host is None,
            o.port is None,
            o.sni is None,
            o.mcp_rand_string_len is None,
            o.uring_sqpoll is None,
            o.local_addr is None,
            o.local_port_range is None,
            o.rss_key is None,
            o.rss_indir is None,
            o.rss is None,
            o.http2_adaptive_window is None,
            o.http2_initial_max_send_streams is None,
            o.http2_max_concurrent_reset_streams is None,
            o.http2_initial_stream_window_size is None,
            o.http2_initial_connection_window_size is None,
            o.http2_max_frame_size is None,
            o.http2_max_header_list_size is None,
            o.http2_max_send_buffer_size is None,
            o.http1_max_buf_size is None,
            o.http1_read_buf_exact_size is None,
            o.http1_writev is None,
            o.http1_max_headers is None,
            !(o.verbose || o.metrics || o.stats_csv || o.stats_csv_header || o.disable_lifo_slot
                || o.cps || o.http2 || o.latency || o.absolute_uri || o.insecure || o.mcp
                || o.mcp_sse || o.http2_keep_alive_while_idle || o.http1_title_case_headers
                || o.http1_preserve_header_case
                || o.http1_allow_spaces_after_header_name_in_responses
                || o.http1_allow_obsolete_multiline_headers_in_responses
                || o.http1_ignore_invalid_headers_in_responses || o.http09_responses),
    {
        Options {
            threads: 1,
            multithreaded: None,
            verbose: false,
            metrics: false,
            stats_csv: false,
            stats_csv_header: false,
            connections: 1,
            duration: None,
            requests: None,
            client_type: ClientType::Auto,
            global_queue_interval: None,
            event_interval: None,
            max_io_events_per_tick: None,
            disable_lifo_slot: false,
            method: None,
            headers: Vec::new(),
            trailers: Vec::new(),
            body: Vec::new(),
            cps: false,
            rpc: 0xffff_ffff,
            http2: false,
            latency: false,
            absolute_uri: false,
            http2_adaptive_window: None,
            http2_initial_max_send_streams: None,
            http2_max_concurrent_reset_streams: None,
            http2_initial_stream_window_size: None,
            http2_initial_connection_window_size: None,
            http2_max_frame_size: None,
            http2_max_header_list_size: None,
            http2_max_send_buffer_size: None,
            http2_keep_alive_while_idle: false,
            http1_max_buf_size: None,
            http1_read_buf_exact_size: None,
            http1_writev: None,
            http1_title_case_headers: false,
            http1_preserve_header_case: false,
            http1_max_headers: None,
            http1_allow_spaces_after_header_name_in_responses: false,
            http1_allow_obsolete_multiline_headers_in_responses: false,
            http1_ignore_invalid_headers_in_responses: false,
            http09_responses: false,
            host: None,
            port: None,
            sni: None,
            insecure: false,
            mcp: false,
            mcp_sse: false,
            mcp_rand_string_len: None,
            uring_entries: 4096,
            uring_sqpoll: None,
            local_addr: None,
            local_port_range: None,
            rss_key: None,
            rss_indir: None,
            rss: None,
            total_connections: 0,
            conn_base: 0,
            uri: Vec::new(),
        }
    }
}

// ---------------------------------------------------------------------------
// Values of single options
// ---------------------------------------------------------------------------

/// Why a number of seconds was refused.
#[derive(Clone, Copy, Debug, PartialEq, Eq, Structural)]
pub enum SecondsError {
    /// Nothing was given.
    Empty,
    /// Something other than a decimal number was given.
    InvalidDigit,
    /// The number does not fit.
    TooLarge,
}

/// The length of the run of decimal digits that `s` starts with.
pub open spec fn digit_run(s: Seq<char>) -> nat
    decreases s.len(),
{
    if s.len() == 0 || !text::is_digit(s.first()) {
        0
    } else {
        1 + digit_run(s.drop_first())
    }
}

/// The nanoseconds that a number of seconds stands for, or why it is refused.
/// Digits that do not fit are too large whatever follows them.
pub open spec fn seconds(s: Seq<char>) -> Result<nat, SecondsError> {
    let t = if s.len() > 0 && s.first() == '+' {
        s.drop_first()
    } else {
        s
    };
    let k = digit_run(t) as int;
    let n = text::digits_value(t.take(k));
    if s.len() == 0 {
        Err(SecondsError::Empty)
    } else if n > u64::MAX {
        Err(SecondsError::TooLarge)
    } else if t.len() == 0 || k < t.len() {
        Err(SecondsError::InvalidDigit)
    } else {
        Ok(n * 1_000_000_000)
    }
}

proof fn lemma_digit_run_is(s: Seq<char>, k: nat)
    requires
        k <= s.len(),
        k < s.len() ==> !text::is_digit(s[k as int]),
        forall|i: int| 0 <= i < k ==> text::is_digit(#[trigger] s[i]),
    ensures
        digit_run(s) == k,
    decreases s.len(),
{
    if k > 0 {
        assert(text::is_digit(s[0]));
        let t = s.drop_first();
        assert forall|i: int| 0 <= i < k - 1 implies text::is_digit(#[trigger] t[i]) by {
            assert(t[i] == s[i + 1]);
        }
        lemma_digit_run_is(t, (k - 1) as nat);
    }
}

/// Reads a duration: a whole number of seconds. The result is in nanoseconds.
pub fn parse_secs(arg: &str) -> (r: Result<u128, SecondsError>)
    ensures
        match seconds(arg@) {
            Ok(n) => r == Ok::<u128, SecondsError>(n as u128) && n <= u128::MAX,
            Err(e) => r == Err::<u128, SecondsError>(e),
        },
{
    let v = text::chars_of(arg);
    if v.len() == 0 {
        return Err(SecondsError::Empty);
    }
    let start: usize = if v[0] == '+' {
        1
    } else {
        0
    };
    let t: &[char] = &v.as_slice()[start..v.len()];
    assert(t@ == if arg@.first() == '+' {
        arg@.drop_first()
    } else {
        arg@
    });
    let mut k: usize = 0;
    while k < t.len() && '0' <= t[k] && t[k] <= '9'
        invariant
            k <= t.len(),
            forall|i: int| 0 <= i < k ==> text::is_digit(#[trigger] t@[i]),
        decreases t.len() - k,
    {
        k += 1;
    }
    proof {
        lemma_digit_run_is(t@, k as nat);
    }
    if k == 0 {
        assert(t@.take(0).len() == 0);
        return Err(SecondsError::InvalidDigit);
    }
    let digits: &[char] = &t[0..k];
    assert(digits@ == t@.take(k as int));
    assert forall|i: int| 0 <= i < digits@.len() implies text::is_digit(#[trigger] digits@[i]) by {
        assert(digits@[i] == t@[i]);
    }
    assert(digits@.first() != '+') by {
        assert(text::is_digit(digits@[0]));
    }
    match text::parse_unsigned(digits, 0xffff_ffff_ffff_ffff) {
        None => Err(SecondsError::TooLarge),
        Some(n) => {
            if k < t.len() {
                return Err(SecondsError::InvalidDigit);
            }
            Ok(n as u128 * 1_000_000_000)
        },
    }
}

/// The key and the value that `KEY:VALUE` stands for, parted at the first colon.
pub open spec fn key_val(s: Seq<char>) -> Option<(Seq<char>, Seq<char>)> {
    let k = text::first_of(s, seq![':']) as int;
    if k >= s.len() {
        None
    } else {
        Some((s.take(k), s.skip(k + 1)))
    }
}

/// Reads a header: `KEY:VALUE`.
pub fn parse_key_val(s: &str) -> (r: Result<(String, String), String>)
    ensures
        match key_val(s@) {
            Some((key, value)) => r matches Ok(p) && p.0@ == key && p.1@ == value,
            None => r matches Err(e) && e@ == "invalid argument (expected KEY:VALUE)"@,
        },
{
    let v = text::chars_of(s);
    let seps: [char; 1] = [':'];
    assert(seps@ == seq![':']);
    assert(v@ == v@.subrange(0, v@.len() as int));
    let k: usize = text::find_from(v.as_slice(), 0, seps.as_slice());
    if k >= v.len() {
        return Err("invalid argument (expected KEY:VALUE)".to_string());
    }
    let left: &[char] = &v.as_slice()[0..k];
    let right: &[char] = &v.as_slice()[k + 1..v.len()];
    assert(left@ == s@.take(k as int));
    assert(right@ == s@.skip(k + 1));
    Ok((text::string_of(left), text::string_of(right)))
}

/// The characters of an HTTP token, which a method or a header name is made of.
pub open spec fn token_char(c: char) -> bool {
    ||| 'a' <= c <= 'z'
    ||| 'A' <= c <= 'Z'
    ||| '0' <= c <= '9'
    ||| c == '!' || c == '#' || c == '$' || c == '%' || c == '&' || c == '\'' || c == '*'
    ||| c == '+' || c == '-' || c == '.' || c == '^' || c == '_' || c == '`' || c == '|'
    ||| c == '~'
}

/// Whether `s` is an HTTP token.
pub open spec fn is_token(s: Seq<char>) -> bool {
    s.len() > 0 && forall|i: int| 0 <= i < s.len() ==> token_char(#[trigger] s[i])
}

/// `http::Method::from_bytes`, on the bytes of `arg`: the method is accepted
/// where it is a token, and keeps the case of its letters.
#[verifier::external_body]
fn read_method(arg: &str) -> (r: Option<String>)
    ensures
        match r {
            Some(m) => is_token(arg@) && m@ == arg@,
            None => !is_token(arg@),
        },
{
    match http::Method::from_bytes(arg.as_bytes()) {
        Ok(m) => Some(m.as_str().to_string()),
        Err(_) => None,
    }
}

/// A value that is no HTTP method.
#[derive(Clone, Copy, Debug, PartialEq, Eq, Structural)]
pub struct InvalidMethod;

/// Reads an HTTP method.
pub fn parse_http_method(arg: &str) -> (r: Result<Option<String>, InvalidMethod>)
    ensures
        is_token(arg@) ==> (r matches Ok(Some(m)) && m@ == arg@),
        !is_token(arg@) ==> r is Err,
{
    match read_method(arg) {
        Some(m) => Ok(Some(m)),
        None => Err(InvalidMethod),
    }
}

// ---------------------------------------------------------------------------
// What reading gives back
// ---------------------------------------------------------------------------

/// A number of seconds is read back as it is written, with or without a plus sign, and
/// counts a thousand million nanoseconds each. It is too large where it does not fit, and
/// nothing else where it holds anything but digits.
pub proof fn law_seconds_read_back(n: nat, rest: Seq<char>)
    ensures
        n <= u64::MAX ==> seconds(text::decimal(n)) == Ok::<nat, SecondsError>(n * 1_000_000_000),
        n <= u64::MAX ==> seconds(seq!['+'] + text::decimal(n)) == Ok::<nat, SecondsError>(
            n * 1_000_000_000,
        ),
        n > u64::MAX ==> seconds(text::decimal(n)) == Err::<nat, SecondsError>(SecondsError::TooLarge),
        n <= u64::MAX && rest.len() > 0 && !('0' <= rest[0] <= '9') ==> seconds(text::decimal(n) + rest)
            == Err::<nat, SecondsError>(SecondsError::InvalidDigit),
        rest.len() > 0 && rest[0] != '+' && !('0' <= rest[0] <= '9') ==> seconds(rest) == Err::<
            nat,
            SecondsError,
        >(SecondsError::InvalidDigit),
        seconds(Seq::empty()) == Err::<nat, SecondsError>(SecondsError::Empty),
        seconds(seq!['+']) == Err::<nat, SecondsError>(SecondsError::InvalidDigit),
{
    let d = text::decimal(n);
    text::law_decimal_digits(n, 0);
    text::law_decimal_reads_back(n, n);
    assert('0' <= d[0] <= '9');
    assert forall|i: int| 0 <= i < d.len() implies text::is_digit(#[trigger] d[i]) by {
        assert('0' <= d[i] <= '9');
    }
    lemma_digit_run_is(d, d.len());
    assert(d.take(d.len() as int) == d);
    assert(text::digits_value(d) == n);
    let plus = seq!['+'] + d;
    assert(plus.first() == '+');
    assert(plus.drop_first() == d);
    if rest.len() > 0 && !('0' <= rest[0] <= '9') {
        let s = d + rest;
        assert forall|i: int| 0 <= i < d.len() implies text::is_digit(#[trigger] s[i]) by {
            assert(s[i] == d[i]);
        }
        assert(s[d.len() as int] == rest[0]);
        assert(s.first() == d[0]);
        lemma_digit_run_is(s, d.len());
        assert(s.take(d.len() as int) == d);
        lemma_digit_run_is(rest, 0);
        assert(rest.take(0) == Seq::<char>::empty());
    }
    let one = seq!['+'];
    assert(one.drop_first() == Seq::<char>::empty());
    assert(one.drop_first().take(0) == Seq::<char>::empty());
    lemma_digit_run_is(one.drop_first(), 0);
}

/// A key and a value are read back as they are written with a colon between them, whatever
/// colons the value holds. Without a colon there are none.
pub proof fn law_key_and_value_read_back(key: Seq<char>, value: Seq<char>)
    requires
        forall|i: int| 0 <= i < key.len() ==> #[trigger] key[i] != ':',
    ensures
        key_val(key + seq![':'] + value) == Some((key, value)),
        key_val(key) is None,
{
    let s = key + seq![':'] + value;
    let seps = seq![':'];
    assert(seps[0] == ':');
    assert forall|i: int| 0 <= i < key.len() implies !seps.contains(#[trigger] s[i]) by {
        assert(s[i] == key[i]);
    }
    assert(s[key.len() as int] == ':');
    text::lemma_first_of_is(s, seps, key.len());
    assert(s.take(key.len() as int) == key);
    assert(s.skip(key.len() as int + 1) == value);
    text::lemma_first_of_is(key, seps, key.len());
}

/// Letters, digits and hyphens make a token. White space, control characters, separators
/// and what is not ASCII do not.
pub proof fn law_tokens(s: Seq<char>, i: int)
    ensures
        s.len() == 0 ==> !is_token(s),
        s.len() > 0 && (forall|j: int|
            0 <= j < s.len() ==> 'a' <= #[trigger] s[j] <= 'z' || 'A' <= s[j] <= 'Z' || '0' <= s[j] <= '9'
                || s[j] == '-' || s[j] == '_') ==> is_token(s),
        0 <= i < s.len() && (s[i] <= ' ' || s[i] >= '\u{7f}' || s[i] == '(' || s[i] == ')' || s[i] == '<'
            || s[i] == '>' || s[i] == '@' || s[i] == ',' || s[i] == ';' || s[i] == ':' || s[i] == '\\'
            || s[i] == '"' || s[i] == '/' || s[i] == '[' || s[i] == ']' || s[i] == '?' || s[i] == '='
            || s[i] == '{' || s[i] == '}') ==> !is_token(s),
        0 <= i < s.len() && s[i] > ' ' && s[i] < '\u{7f}' && !(s[i] == '(' || s[i] == ')' || s[i] == '<'
            || s[i] == '>' || s[i] == '@' || s[i] == ',' || s[i] == ';' || s[i] == ':' || s[i] == '\\'
            || s[i] == '"' || s[i] == '/' || s[i] == '[' || s[i] == ']' || s[i] == '?' || s[i] == '='
            || s[i] == '{' || s[i] == '}') ==> token_char(s[i]),
{
}

/// Settings that agree differ in nothing but the method, the body, the client and what is
/// known of the source ports.
pub proof fn law_same_settings(a: Options, b: Options)
    requires
        same_settings(a, b),
    ensures
        b == (Options {
            method: b.method,
            body: b.body,
            client_type: b.client_type,
            rss: b.rss,
            total_connections: b.total_connections,
            ..a
        }),
{
}

} // verus!
