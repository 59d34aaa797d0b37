//! The request that a task sends over and over, and where it sends it.
use crate::client;
use crate::client::{ClientType, Http1, Http2};
use crate::headers;
use crate::headers::HeaderError;
use crate::http1;
use crate::options;
use crate::options::Options;
use crate::text;
use crate::uri;
use crate::uri::Uri;
use vstd::prelude::*;

verus! {

/// Why a request cannot be sent.
#[derive(Clone, Debug)]
pub enum PlanError {
    /// The URI is none.
    Uri(String),
    /// There is no host to connect to.
    NoHost,
    /// The URI has no host, and the client looks for it nowhere else.
    HostNotFound,
    /// A header or a trailer is none.
    Headers(HeaderError),
}

impl PlanError {
    /// The words for the refusal.
    pub fn message(&self) -> (s: String)
        ensures
            match *self {
                PlanError::Uri(m) => s@ == m@,
                PlanError::NoHost => s@ == "no host specified in uri"@,
                PlanError::HostNotFound => s@ == "host not found"@,
                PlanError::Headers(e) => s@ == headers::header_message(e),
            },
    {
        match self {
            PlanError::Uri(m) => m.clone(),
            PlanError::NoHost => "no host specified in uri".to_string(),
            PlanError::HostNotFound => "host not found".to_string(),
            PlanError::Headers(e) => e.message().to_string(),
        }
    }

    /// The exit code that stands for the refusal.
    pub fn exit_code(&self) -> (n: i32)
        ensures
            n == (if *self is Headers {
                2i32
            } else if *self is HostNotFound {
                3i32
            } else {
                1i32
            }),
    {
        match self {
            PlanError::Headers(_) => 2,
            PlanError::HostNotFound => 3,
            _ => 1,
        }
    }
}

/// A request and where to send it.
#[derive(Debug)]
pub struct Plan {
    /// The URI as it was given.
    pub uri: Uri,
    /// The URI on the request.
    pub target: Uri,
    pub host: String,
    pub port: u16,
    /// The host and the port as one text.
    pub endpoint: String,
    /// The name that a TLS server is asked for.
    pub server_name: Option<String>,
    pub method: String,
    pub headers: http::HeaderMap,
    /// The headers of the last request over a connection.
    pub closing: http::HeaderMap,
    pub trailers: Option<http::HeaderMap>,
}

/// Whether the requests of a client name their host in a header.
pub open spec fn names_host(client: ClientType, opts: Options) -> bool {
    !(opts.http2 || client is HyperH2 || client is Reqwest)
}

/// Whether the requests of a client keep the whole URI.
pub open spec fn keeps_uri(client: ClientType, opts: Options) -> bool {
    ||| opts.absolute_uri
    ||| opts.http2
    ||| client is HyperH2
    ||| client is HyperLegacy
    ||| client is HyperRt1
    ||| client is Reqwest
}

/// The method of the requests: tool servers are called with `POST`.
pub open spec fn method_of(client: ClientType, opts: Options) -> Seq<char> {
    if client is HyperMcp {
        "POST"@
    } else {
        match opts.method {
            Some(m) => m@,
            None => "GET"@,
        }
    }
}

/// Why a request cannot be sent to a URI, if it cannot.
pub open spec fn plan_refused(
    u: uri::UriView,
    client: ClientType,
    opts: Options,
) -> Option<PlanError> {
    let named = names_host(client, opts);
    if (client is HyperLegacy || client is HyperRt1) && u.host is None {
        Some(PlanError::HostNotFound)
    } else if uri::conn_address(opts, u) is None {
        Some(PlanError::NoHost)
    } else if let Some(e) = headers::headers_refused(u, opts, named) {
        Some(PlanError::Headers(e))
    } else if let Some(e) = headers::trailers_refused(opts) {
        Some(PlanError::Headers(e))
    } else {
        None
    }
}

/// Whether a plan is the one for a URI.
pub open spec fn plan_for(p: Plan, u: uri::UriView, client: ClientType, opts: Options) -> bool {
    let named = names_host(client, opts);
    let address = uri::conn_address(opts, u)->0;
    let entries = headers::request_headers(u, opts, named);
    &&& p.uri@ == u
    &&& p.target@ == (if keeps_uri(client, opts) {
        u
    } else {
        uri::origin_of(u)
    })
    &&& p.host@ == address.0 && p.port == address.1
    &&& p.endpoint@ == uri::endpoint(address.0, address.1)
    &&& uri::opt_text(p.server_name) == uri::server_name(opts, u)
    &&& p.method@ == method_of(client, opts)
    &&& headers::header_entries(p.headers) == entries
    &&& headers::header_entries(p.closing) == headers::closing_entries(entries)
    &&& match p.trailers {
        Some(map) => opts.trailers@.len() > 0 && headers::header_entries(map)
            == headers::all_appended(Seq::empty(), opts.trailers@),
        None => opts.trailers@.len() == 0,
    }
}

/// Whether the header maps of a plan have no more names than those that were given
/// and those that the library adds: the announcement of the trailers, the host, and
/// on the last request the wish to close.
pub open spec fn fits_limit(p: Plan, opts: Options) -> bool {
    &&& headers::header_entries(p.headers).len() <= opts.headers@.len() + 2
    &&& headers::header_entries(p.closing).len() <= opts.headers@.len() + 3
    &&& headers::header_entries(p.closing).len() < headers::NAME_LIMIT
}

/// The request to a URI, and where to send it.
pub fn plan_request(uri: Uri, client: ClientType, opts: &Options) -> (r: Result<Plan, PlanError>)
    requires
        opts.headers@.len() + 3 < headers::NAME_LIMIT,
        opts.trailers@.len() <= headers::NAME_LIMIT,
    ensures
        match r {
            Ok(p) => {
                &&& plan_refused(uri@, client, *opts) is None
                &&& plan_for(p, uri@, client, *opts)
                &&& fits_limit(p, *opts)
                &&& uri::is_parsed(uri@) || !keeps_uri(client, *opts) ==> uri::is_parsed(p.target@)
            },
            Err(e) => plan_refused(uri@, client, *opts) == Some(e),
        },
{
    let named: bool = !(opts.http2 || match client {
        ClientType::HyperH2 | ClientType::Reqwest => true,
        _ => false,
    });
    let whole: bool = opts.absolute_uri || opts.http2 || match client {
        ClientType::HyperH2
        | ClientType::HyperLegacy
        | ClientType::HyperRt1
        | ClientType::Reqwest => true,
        _ => false,
    };
    let within: bool = match client {
        ClientType::HyperLegacy | ClientType::HyperRt1 => true,
        _ => false,
    };
    if within && uri.host.is_none() {
        return Err(PlanError::HostNotFound);
    }
    let (host, port) = match uri::get_conn_address(opts, &uri) {
        Some(a) => a,
        None => {
            return Err(PlanError::NoHost);
        },
    };
    let headers = match headers::collect_headers(&uri, opts, named) {
        Ok(map) => map,
        Err(e) => {
            return Err(PlanError::Headers(e));
        },
    };
    let trailers = match headers::build_trailers(opts) {
        Ok(t) => t,
        Err(e) => {
            return Err(PlanError::Headers(e));
        },
    };
    let closing = headers::closing_headers(&headers);
    let target = uri::request_uri(&uri, whole);
    let endpoint = uri::build_conn_endpoint(host.as_str(), port);
    let server_name: Option<String> = match uri::tls_server_name(opts, &uri) {
        Some(name) => Some(name.to_string()),
        None => None,
    };
    let method: String = match client {
        ClientType::HyperMcp => "POST".to_string(),
        _ => match &opts.method {
            Some(m) => m.clone(),
            None => "GET".to_string(),
        },
    };
    Ok(
        Plan {
            uri,
            target,
            host,
            port,
            endpoint,
            server_name,
            method,
            headers,
            closing,
            trailers,
        },
    )
}

/// The URI of a task: the URIs are dealt out in turn.
pub open spec fn task_uri(cid: usize, opts: Options) -> Seq<char> {
    opts.uri@[cid as int % opts.uri@.len() as int]@
}

/// The request of a task, and where to send it.
pub fn prepare(cid: usize, client: ClientType, opts: &Options) -> (r: Result<Plan, PlanError>)
    requires
        opts.uri@.len() > 0,
        opts.headers@.len() + 3 < headers::NAME_LIMIT,
        opts.trailers@.len() <= headers::NAME_LIMIT,
    ensures
        match uri::uri_or_complaint(uri::parsed_uri(task_uri(cid, *opts))) {
            Err(m) => r matches Err(PlanError::Uri(e)) && e@ == m,
            Ok(u) => match r {
                Ok(p) => {
                    &&& plan_refused(u, client, *opts) is None
                    &&& plan_for(p, u, client, *opts)
                    &&& fits_limit(p, *opts)
                    &&& uri::is_parsed(p.target@)
                },
                Err(e) => plan_refused(u, client, *opts) == Some(e),
            },
        },
{
    let text = opts.uri[cid % opts.uri.len()].as_str();
    match uri::parse_uri(text) {
        Ok(u) => plan_request(u, client, opts),
        Err(e) => Err(PlanError::Uri(e)),
    }
}

/// The bytes of the request of a plan with a body, for a client that writes them
/// to the socket itself: with an explicit `Content-Length`, and without trailers.
pub fn wire_request(plan: &Plan, body: &[u8], close: bool) -> (r: Result<Vec<u8>, String>)
    requires
        headers::header_entries(plan.headers).len() < headers::NAME_LIMIT,
        headers::header_entries(plan.closing).len() < headers::NAME_LIMIT,
    ensures
        match r {
            Ok(bytes) => {
                &&& http1::encodes(plan.method@, plan.target.source@)
                &&& bytes@ == http1::request_bytes(
                    plan.method@,
                    http1::wire_target(uri::parsed_uri(plan.target.source@)->Ok_0),
                    headers::with_length(
                        headers::header_entries(
                            if close {
                                plan.closing
                            } else {
                                plan.headers
                            },
                        ),
                        body@.len() as usize,
                    ),
                    body@,
                )
            },
            Err(_) => !http1::encodes(plan.method@, plan.target.source@),
        },
        uri::is_parsed(plan.target@) ==> (r is Ok <==> options::is_token(plan.method@)),
{
    let map = if close {
        headers::copy_map(&plan.closing)
    } else {
        headers::copy_map(&plan.headers)
    };
    let map = headers::ensure_content_length(map, body.len());
    http1::encode_request(plan.method.as_str(), plan.target.source.as_str(), &map, body)
}

/// `--host` does not lead the clients `hyper-legacy` and `hyper-rt1` elsewhere: they
/// connect to the host of the URI, and without one they do not connect.
pub proof fn law_host_is_not_for_legacy_clients(
    p: Plan,
    u: uri::UriView,
    client: ClientType,
    opts: Options,
)
    requires
        client is HyperLegacy || client is HyperRt1,
    ensures
        u.host is None ==> plan_refused(u, client, opts) == Some(PlanError::HostNotFound),
        plan_refused(u, client, opts) is None && plan_for(p, u, client, opts) ==> u.host == Some(
            p.host@,
        ) && p.target@ == u,
{
}

// ---------------------------------------------------------------------------
// What is shown when a task first connects
// ---------------------------------------------------------------------------

/// A number in at least `width` characters: spaces stand before it.
pub open spec fn aligned(n: nat, width: nat) -> Seq<char> {
    let d = text::decimal(n);
    if d.len() >= width {
        d
    } else {
        Seq::new((width - d.len()) as nat, |i: int| ' ') + d
    }
}

/// A number in at least `width` characters.
fn align(n: usize, width: usize) -> (s: String)
    ensures
        s@ == aligned(n as nat, width as nat),
{
    let d = text::decimal_string(n as u64);
    let len: usize = d.as_str().unicode_len();
    let mut s = String::new();
    let mut k: usize = 0;
    let room: usize = if len < width {
        width - len
    } else {
        0
    };
    while k < room
        invariant
            k <= room,
            s@ == Seq::new(k as nat, |i: int| ' '),
        decreases room - k,
    {
        s.push(' ');
        k += 1;
        assert(s@ == Seq::new(k as nat, |i: int| ' '));
    }
    s.append(d.as_str());
    assert(s@ == aligned(n as nat, width as nat));
    s
}

/// What is shown when a task first connects.
pub open spec fn announced(
    client: ClientType,
    tid: usize,
    plan: Plan,
    opts: Options,
) -> Seq<char> {
    let at = " -> connecting to "@ + plan.host@ + ":"@ + text::decimal(plan.port as nat);
    let version = client::version_name(opts.http2);
    let two = " ["@ + aligned(tid as nat, 2) + "]"@;
    let three = "["@ + aligned(tid as nat, 3) + "] "@;
    let name = client::client_name(client);
    match client {
        ClientType::Hyper | ClientType::HyperChunked | ClientType::Auto => (if client is Auto {
            "hyper"@
        } else {
            name
        }) + two + at + ", uri = "@ + plan.uri.text@ + " HTTP/1.1..."@,
        ClientType::HyperH2 => name + two + at + ", method = "@ + plan.method@ + " uri = "@
            + plan.uri.text@ + " HTTP2..."@,
        ClientType::HyperMcp => name + two + at + ", method = POST uri = "@ + plan.uri.text@ + " "@
            + version + " (transport "@ + (if opts.mcp_sse {
            "sse"@
        } else {
            "streamableHttp"@
        }) + ")..."@,
        ClientType::HyperLegacy | ClientType::Reqwest => three + name + " -> connecting to "@
            + plan.uri.text@ + " "@ + version + "..."@,
        ClientType::HyperRt1 => name + two + " -> connecting. "@ + plan.method@ + " "@
            + plan.uri.text@ + " "@ + version + "..."@,
        ClientType::TokioUring => "io-uring"@ + two + at + ", method = "@ + plan.method@
            + " uri = "@ + plan.uri.text@ + " ..."@,
        _ => name + two + at + ", method = "@ + plan.method@ + " uri = "@ + plan.uri.text@
            + " ..."@,
    }
}

/// What is shown when a task first connects. `tid` is the number of its engine.
pub fn announcement(client: ClientType, tid: usize, plan: &Plan, opts: &Options) -> (s: String)
    ensures
        s@ == announced(client, tid, *plan, *opts),
{
    let mut at = " -> connecting to ".to_string();
    at.append(plan.host.as_str());
    at.append(":");
    at.append(text::decimal_string(plan.port as u64).as_str());
    let version = if opts.http2 {
        Http2::scheme()
    } else {
        Http1::scheme()
    };
    let mut two = " [".to_string();
    two.append(align(tid, 2).as_str());
    two.append("]");
    let mut s = match client {
        ClientType::Auto => "hyper".to_string(),
        ClientType::TokioUring => "io-uring".to_string(),
        ClientType::HyperLegacy | ClientType::Reqwest => {
            let mut three = "[".to_string();
            three.append(align(tid, 3).as_str());
            three.append("] ");
            three.append(client.name());
            three
        },
        _ => client.name().to_string(),
    };
    match client {
        ClientType::Hyper | ClientType::HyperChunked | ClientType::Auto => {
            s.append(two.as_str());
            s.append(at.as_str());
            s.append(", uri = ");
            s.append(plan.uri.text.as_str());
            s.append(" HTTP/1.1...");
        },
        ClientType::HyperMcp => {
            s.append(two.as_str());
            s.append(at.as_str());
            s.append(", method = POST uri = ");
            s.append(plan.uri.text.as_str());
            s.append(" ");
            s.append(version);
            s.append(" (transport ");
            if opts.mcp_sse {
                s.append("sse");
            } else {
                s.append("streamableHttp");
            }
            s.append(")...");
        },
        ClientType::HyperLegacy | ClientType::Reqwest => {
            s.append(" -> connecting to ");
            s.append(plan.uri.text.as_str());
            s.append(" ");
            s.append(version);
            s.append("...");
        },
        ClientType::HyperRt1 => {
            s.append(two.as_str());
            s.append(" -> connecting. ");
            s.append(plan.method.as_str());
            s.append(" ");
            s.append(plan.uri.text.as_str());
            s.append(" ");
            s.append(version);
            s.append("...");
        },
        _ => {
            s.append(two.as_str());
            s.append(at.as_str());
            s.append(", method = ");
            s.append(plan.method.as_str());
            s.append(" uri = ");
            s.append(plan.uri.text.as_str());
            match client {
                ClientType::HyperH2 => {
                    s.append(" HTTP2...");
                },
                _ => {
                    s.append(" ...");
                },
            }
        },
    }
    s
}

// ---------------------------------------------------------------------------
// What a plan keeps to
// ---------------------------------------------------------------------------

/// The requests of all clients name their host in a header but those over HTTP/2 and
/// those of `reqwest`, which do it themselves.
pub proof fn law_host_is_named(client: ClientType, opts: Options)
    ensures
        opts.http2 || client == ClientType::HyperH2 || client == ClientType::Reqwest ==> !names_host(
            client,
            opts,
        ),
        !opts.http2 && client != ClientType::HyperH2 && client != ClientType::Reqwest ==> names_host(
            client,
            opts,
        ),
{
}

/// A request goes out with the path and query alone, unless the whole URI is asked for,
/// HTTP/2 is spoken, or the client needs the whole URI to find the server.
pub proof fn law_target_of_a_request(p: Plan, u: uri::UriView, client: ClientType, opts: Options)
    requires
        plan_for(p, u, client, opts),
    ensures
        opts.absolute_uri || opts.http2 ==> p.target@ == u,
        client == ClientType::HyperH2 || client == ClientType::HyperLegacy || client
            == ClientType::HyperRt1 || client == ClientType::Reqwest ==> p.target@ == u,
        !opts.absolute_uri && !opts.http2 && (client == ClientType::Hyper || client
            == ClientType::HyperMcp || client == ClientType::HyperChunked || client
            == ClientType::TokioUring || client == ClientType::Monoio || client == ClientType::Compio)
            ==> p.target@ == uri::origin_of(u),
{
}

/// A plan connects to the host of the URI, or to `--host` where the URI has none, and to
/// the port of `--port`, or else that of the URI, or else the usual one.
pub proof fn law_plan_connects_there(p: Plan, u: uri::UriView, client: ClientType, opts: Options)
    requires
        plan_refused(u, client, opts) is None,
        plan_for(p, u, client, opts),
    ensures
        u.host matches Some(h) ==> p.host@ == h,
        u.host is None ==> opts.host is Some && p.host@ == opts.host->0@,
        opts.port matches Some(n) ==> p.port == n,
        opts.port is None ==> (u.port matches Some((t, n)) ==> p.port == n),
        opts.port is None && u.port is None && !opts.http2 && u.scheme != Some("https"@) ==> p.port == 80,
        opts.port is None && u.port is None && (opts.http2 || u.scheme == Some("https"@)) ==> p.port
            == 443,
        p.endpoint@ == p.host@ + seq![':'] + text::decimal(p.port as nat),
        u.scheme != Some("https"@) ==> p.server_name is None,
        u.scheme == Some("https"@) && opts.sni is Some ==> p.server_name is Some && p.server_name->0@
            == opts.sni->0@,
        u.scheme == Some("https"@) && opts.sni is None && u.host is Some ==> p.server_name is Some
            && p.server_name->0@ == u.host->0,
{
    reveal_strlit(":");
    assert(":"@ == seq![':']);
}

/// Tools are called with `POST`. Other requests have the method that is asked for, and
/// `GET` where none is.
pub proof fn law_method_of_a_request(p: Plan, u: uri::UriView, client: ClientType, opts: Options)
    requires
        plan_for(p, u, client, opts),
    ensures
        client == ClientType::HyperMcp ==> p.method@ == "POST"@,
        client != ClientType::HyperMcp && opts.method is Some ==> p.method@ == opts.method->0@,
        client != ClientType::HyperMcp && opts.method is None ==> p.method@ == "GET"@,
{
}

/// A plan has the headers of its requests, those of the last one over a connection, which
/// asks to close it, and the trailers that were given.
pub proof fn law_headers_of_a_plan(
    p: Plan,
    u: uri::UriView,
    client: ClientType,
    opts: Options,
    name: Seq<char>,
)
    requires
        plan_for(p, u, client, opts),
    ensures
        ({
            let sent = headers::values_under(headers::header_entries(p.headers), name);
            let last = headers::values_under(headers::header_entries(p.closing), name);
            let given = headers::values_given(opts.headers@, name);
            &&& name != "host"@ && name != "trailer"@ ==> sent == given
            &&& name == "host"@ && given.len() > 0 ==> sent == given
            &&& name == "connection"@ ==> last == seq![seq![99u8, 108, 111, 115, 101]]
            &&& name != "connection"@ ==> last == sent
        }),
        p.trailers is Some <==> opts.trailers@.len() > 0,
        p.trailers matches Some(map) ==> headers::values_under(headers::header_entries(map), name)
            == headers::values_given(opts.trailers@, name),
{
    headers::law_request_has_these_headers(u, opts, names_host(client, opts), name);
    headers::law_last_request_asks_to_close(headers::header_entries(p.headers), name);
    headers::law_headers_are_those_given(Seq::empty(), opts.trailers@, name);
    let given = headers::values_given(opts.trailers@, name);
    assert(Seq::<Seq<u8>>::empty() + given == given);
}

/// A request is refused exactly where there is no host to connect to, or a header or a
/// trailer is none.
pub proof fn law_request_is_refused(u: uri::UriView, client: ClientType, opts: Options)
    ensures
        u.host is None && opts.host is None ==> plan_refused(u, client, opts) is Some,
        u.host is Some && headers::headers_refused(u, opts, names_host(client, opts)) is None
            && headers::trailers_refused(opts) is None ==> plan_refused(u, client, opts) is None,
        headers::headers_refused(u, opts, names_host(client, opts)) is Some ==> plan_refused(
            u,
            client,
            opts,
        ) is Some,
        headers::trailers_refused(opts) is Some ==> plan_refused(u, client, opts) is Some,
{
}

/// The tasks take the URIs in turn: the first tasks the first URIs, and a task has the same
/// URI as the one that is as many places before it as there are URIs.
pub proof fn law_uris_take_turns(cid: usize, later: usize, opts: Options)
    requires
        opts.uri@.len() > 0,
    ensures
        cid < opts.uri@.len() ==> task_uri(cid, opts) == opts.uri@[cid as int]@,
        later == cid + opts.uri@.len() ==> task_uri(later, opts) == task_uri(cid, opts),
{
    let n = opts.uri@.len() as int;
    if cid < n {
        vstd::arithmetic::div_mod::lemma_small_mod(cid as nat, n as nat);
    }
    if later == cid + n {
        vstd::arithmetic::div_mod::lemma_mod_add_multiples_vanish(cid as int, n);
    }
}

/// A number that is aligned ends with its digits, has the width that is asked for where
/// that is enough, and nothing but spaces before it.
pub proof fn law_numbers_are_aligned(n: nat, width: nat, i: int)
    ensures
        aligned(n, width).len() >= width,
        aligned(n, width).len() >= text::decimal(n).len(),
        aligned(n, width).len() == width || aligned(n, width).len() == text::decimal(n).len(),
        aligned(n, width).skip(aligned(n, width).len() - text::decimal(n).len()) == text::decimal(n),
        0 <= i < aligned(n, width).len() - text::decimal(n).len() ==> aligned(n, width)[i] == ' ',
{
    let d = text::decimal(n);
    let a = aligned(n, width);
    assert(a.skip(a.len() - d.len()) == d);
}

proof fn lemma_inside(hay: Seq<char>, before: Seq<char>, needle: Seq<char>, behind: Seq<char>)
    requires
        hay == before + needle + behind,
    ensures
        text::holds(hay, needle),
{
    text::law_held_text_stands_inside(hay, needle);
}

/// What is shown when a task first connects names the URI, and for the clients that
/// connect by themselves the host and the port.
pub proof fn law_announcement_names_the_place(
    client: ClientType,
    tid: usize,
    plan: Plan,
    opts: Options,
)
    ensures
        text::holds(announced(client, tid, plan, opts), plan.uri.text@),
        client != ClientType::HyperLegacy && client != ClientType::Reqwest && client
            != ClientType::HyperRt1 ==> text::holds(
            announced(client, tid, plan, opts),
            plan.host@ + seq![':'] + text::decimal(plan.port as nat),
        ),
{
    reveal_strlit(":");
    assert(":"@ == seq![':']);
    let s = announced(client, tid, plan, opts);
    let place = plan.host@ + seq![':'] + text::decimal(plan.port as nat);
    let to = " -> connecting to "@;
    let at = to + plan.host@ + ":"@ + text::decimal(plan.port as nat);
    assert(at == to + place);
    let version = client::version_name(opts.http2);
    let two = " ["@ + aligned(tid as nat, 2) + "]"@;
    let three = "["@ + aligned(tid as nat, 3) + "] "@;
    let name = client::client_name(client);
    let text = plan.uri.text@;
    match client {
        ClientType::Hyper | ClientType::HyperChunked | ClientType::Auto => {
            let n = if client is Auto {
                "hyper"@
            } else {
                name
            };
            lemma_inside(s, n + two + at + ", uri = "@, text, " HTTP/1.1..."@);
            assert(s == (n + two + to) + place + (", uri = "@ + text + " HTTP/1.1..."@));
            lemma_inside(s, n + two + to, place, ", uri = "@ + text + " HTTP/1.1..."@);
        },
        ClientType::HyperH2 => {
            let m = ", method = "@ + plan.method@ + " uri = "@;
            assert(s == (name + two + at + m) + text + " HTTP2..."@);
            lemma_inside(s, name + two + at + m, text, " HTTP2..."@);
            assert(s == (name + two + to) + place + (m + text + " HTTP2..."@));
            lemma_inside(s, name + two + to, place, m + text + " HTTP2..."@);
        },
        ClientType::HyperMcp => {
            let m = ", method = POST uri = "@;
            let e = " "@ + version + " (transport "@ + (if opts.mcp_sse {
                "sse"@
            } else {
                "streamableHttp"@
            }) + ")..."@;
            assert(s == (name + two + at + m) + text + e);
            lemma_inside(s, name + two + at + m, text, e);
            assert(s == (name + two + to) + place + (m + text + e));
            lemma_inside(s, name + two + to, place, m + text + e);
        },
        ClientType::HyperLegacy | ClientType::Reqwest => {
            let e = " "@ + version + "..."@;
            assert(s == (three + name + to) + text + e);
            lemma_inside(s, three + name + to, text, e);
        },
        ClientType::HyperRt1 => {
            let m = " -> connecting. "@ + plan.method@ + " "@;
            let e = " "@ + version + "..."@;
            assert(s == (name + two + m) + text + e);
            lemma_inside(s, name + two + m, text, e);
        },
        _ => {
            let n = if client is TokioUring {
                "io-uring"@
            } else {
                name
            };
            let m = ", method = "@ + plan.method@ + " uri = "@;
            assert(s == (n + two + at + m) + text + " ..."@);
            lemma_inside(s, n + two + at + m, text, " ..."@);
            assert(s == (n + two + to) + place + (m + text + " ..."@));
            lemma_inside(s, n + two + to, place, m + text + " ..."@);
        },
    }
}

} // verus!
