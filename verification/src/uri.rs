//! URIs, and where and how to reach what they name.
use crate::options::Options;
use crate::text;
use vstd::prelude::*;

verus! {

/// A URI by its parts, each as it was written.
#[derive(Clone, Debug, PartialEq, Eq)]
pub struct Uri {
    /// The whole URI, as it is shown.
    pub text: String,
    /// The whole URI, as it was written. Where it was put together of parts, this
    /// is how it is shown.
    pub source: String,
    pub scheme: Option<String>,
    /// The host and the port, with what else stands between the scheme and the path.
    pub authority: Option<String>,
    pub host: Option<String>,
    /// The port, as it was written and as a number.
    pub port: Option<(String, u16)>,
    pub path_and_query: Option<String>,
}

/// The parts of a URI, as text.
pub struct UriView {
    pub text: Seq<char>,
    pub source: Seq<char>,
    pub scheme: Option<Seq<char>>,
    pub authority: Option<Seq<char>>,
    pub host: Option<Seq<char>>,
    pub port: Option<(Seq<char>, u16)>,
    pub path_and_query: Option<Seq<char>>,
}

/// The text of an optional string.
pub open spec fn opt_text(s: Option<String>) -> Option<Seq<char>> {
    match s {
        Some(t) => Some(t@),
        None => None,
    }
}

impl View for Uri {
    type V = UriView;

    open spec fn view(&self) -> UriView {
        UriView {
            text: self.text@,
            source: self.source@,
            scheme: opt_text(self.scheme),
            authority: opt_text(self.authority),
            host: opt_text(self.host),
            port: match self.port {
                Some((t, n)) => Some((t@, n)),
                None => None,
            },
            path_and_query: opt_text(self.path_and_query),
        }
    }
}

/// What `http::Uri` makes of a text: the parts of the URI, or its complaint.
pub uninterp spec fn parsed_uri(s: Seq<char>) -> Result<UriView, Seq<char>>;

/// Whether a URI, or a complaint, is the one that `want` describes.
pub open spec fn same_uri(r: Result<Uri, String>, want: Result<UriView, Seq<char>>) -> bool {
    match (r, want) {
        (Ok(a), Ok(b)) => a@ == b,
        (Err(a), Err(b)) => a@ == b,
        _ => false,
    }
}

/// Whether a URI is what `http::Uri` makes of the text that it was written as.
pub open spec fn is_parsed(u: UriView) -> bool {
    parsed_uri(u.source) == Ok::<UriView, Seq<char>>(u)
}

/// Parses a text with `http::Uri` and reads off its parts: `scheme_str`,
/// `authority`, `host`, `port`, `path_and_query` and the text that it displays. The
/// result depends on the text alone. The text `/` is the root path and nothing
/// else. Of what other texts are, nothing is said.
#[verifier::external_body]
pub(crate) fn read_uri(s: &str) -> (r: Result<Uri, String>)
    ensures
        same_uri(r, parsed_uri(s@)),
        match r {
            Ok(u) => u.source@ == s@ && (s@ == "/"@ ==> u@ == root_uri()),
            Err(_) => s@ != "/"@,
        },
{
    match s.parse::<http::Uri>() {
        Ok(u) => Ok(
            Uri {
                text: u.to_string(),
                source: s.to_string(),
                scheme: u.scheme_str().map(String::from),
                authority: u.authority().map(|a| a.as_str().to_string()),
                host: u.host().map(String::from),
                port: u.port().map(|p| (p.as_str().to_string(), p.as_u16())),
                path_and_query: u.path_and_query().map(|p| p.as_str().to_string()),
            },
        ),
        Err(e) => Err(e.to_string()),
    }
}

/// A URI, or the complaint that a text is none.
pub open spec fn uri_or_complaint(parsed: Result<UriView, Seq<char>>) -> Result<UriView, Seq<char>> {
    match parsed {
        Ok(u) => Ok(u),
        Err(e) => Err("invalid uri: "@ + e),
    }
}

/// Words the complaint that a text is no URI.
pub fn explain_uri(parsed: Result<Uri, String>) -> (r: Result<Uri, String>)
    ensures
        match parsed {
            Ok(u) => r == Ok::<Uri, String>(u),
            Err(e) => r matches Err(m) && m@ == "invalid uri: "@ + e@,
        },
{
    match parsed {
        Ok(u) => Ok(u),
        Err(e) => {
            let mut m = "invalid uri: ".to_string();
            m.append(e.as_str());
            Err(m)
        },
    }
}

/// Reads a URI.
pub fn parse_uri(s: &str) -> (r: Result<Uri, String>)
    ensures
        same_uri(r, uri_or_complaint(parsed_uri(s@))),
        r matches Ok(u) ==> u.source@ == s@ && is_parsed(u@),
{
    explain_uri(read_uri(s))
}

// ---------------------------------------------------------------------------
// The URI of a request
// ---------------------------------------------------------------------------

/// The URI that is nothing but the root path.
pub open spec fn root_uri() -> UriView {
    UriView {
        text: "/"@,
        source: "/"@,
        scheme: None,
        authority: None,
        host: None,
        port: None,
        path_and_query: Some("/"@),
    }
}

/// A URI, or the root where there is none.
pub fn or_root(parsed: Result<Uri, String>) -> (u: Uri)
    ensures
        match parsed {
            Ok(p) => u == p,
            Err(_) => u@ == root_uri() && is_parsed(u@),
        },
{
    match parsed {
        Ok(p) => p,
        Err(_) => read_uri("/").unwrap(),
    }
}

/// The origin form of a URI: its path and query alone, or the root where it has
/// none or they make no URI by themselves.
pub open spec fn origin_of(u: UriView) -> UriView {
    match u.path_and_query {
        Some(pq) => if pq.len() == 0 {
            root_uri()
        } else {
            match parsed_uri(pq) {
                Ok(o) => o,
                Err(_) => root_uri(),
            }
        },
        None => root_uri(),
    }
}

/// The path and query of a URI as a URI of its own.
pub fn origin_form(uri: &Uri) -> (o: Uri)
    ensures
        o@ == origin_of(uri@),
        is_parsed(o@),
{
    match &uri.path_and_query {
        Some(pq) => {
            if pq.as_str().is_empty() {
                or_root(Err(String::new()))
            } else {
                or_root(read_uri(pq.as_str()))
            }
        },
        None => or_root(Err(String::new())),
    }
}

/// A copy of a URI.
pub fn copy_uri(uri: &Uri) -> (u: Uri)
    ensures
        u@ == uri@,
{
    Uri {
        text: uri.text.clone(),
        source: uri.source.clone(),
        scheme: copy_text(&uri.scheme),
        authority: copy_text(&uri.authority),
        host: copy_text(&uri.host),
        port: match &uri.port {
            Some((t, n)) => Some((t.clone(), *n)),
            None => None,
        },
        path_and_query: copy_text(&uri.path_and_query),
    }
}

/// A copy of an optional string.
pub fn copy_text(s: &Option<String>) -> (r: Option<String>)
    ensures
        opt_text(r) == opt_text(*s),
{
    match s {
        Some(t) => Some(t.clone()),
        None => None,
    }
}

/// The URI to put on a request.
///
/// HTTP/1 servers expect the origin form. The URI stays whole where `absolute`
/// is set, and must stay whole for HTTP/2, whose pseudo headers are derived from
/// it.
pub fn request_uri(uri: &Uri, absolute: bool) -> (r: Uri)
    ensures
        r@ == if absolute {
            uri@
        } else {
            origin_of(uri@)
        },
        !absolute ==> is_parsed(r@),
{
    if absolute {
        copy_uri(uri)
    } else {
        origin_form(uri)
    }
}

/// What `http::uri::PathAndQuery` makes of a text: the path and query, or its
/// complaint.
pub uninterp spec fn parsed_path(s: Seq<char>) -> Result<Seq<char>, Seq<char>>;

/// Whether a text, or a complaint, is the one that `want` describes.
pub open spec fn same_text(r: Result<String, String>, want: Result<Seq<char>, Seq<char>>) -> bool {
    match (r, want) {
        (Ok(a), Ok(b)) => a@ == b,
        (Err(a), Err(b)) => a@ == b,
        _ => false,
    }
}

/// Parses a text with `http::uri::PathAndQuery`. The result depends on the text
/// alone. Of what it is, nothing is said.
#[verifier::external_body]
fn read_path(s: &str) -> (r: Result<String, String>)
    ensures
        same_text(r, parsed_path(s@)),
{
    match s.parse::<http::uri::PathAndQuery>() {
        Ok(p) => Ok(p.as_str().to_string()),
        Err(e) => Err(e.to_string()),
    }
}

/// How a path and query is shown in a URI: a query without a path follows the
/// root path.
pub open spec fn shown_path(pq: Seq<char>) -> Seq<char> {
    if pq.len() > 0 && pq[0] == '?' {
        "/"@ + pq
    } else {
        pq
    }
}

/// The URI `base` with another path and query. `path` is how they were written.
pub open spec fn with_path(base: UriView, path: Seq<char>, pq: Seq<char>) -> UriView {
    let text = match (base.scheme, base.authority) {
        (Some(scheme), Some(authority)) => scheme + "://"@ + authority + shown_path(pq),
        _ => if path.len() > 0 && path[0] == '#' {
            Seq::empty()
        } else {
            shown_path(pq)
        },
    };
    UriView { text, source: text, path_and_query: Some(pq), ..base }
}

/// A URI, given by its text, with another path and query, or the complaint of
/// `http`: scheme and authority are both there or both missing.
pub open spec fn rebuilt_uri(base: Seq<char>, path: Seq<char>) -> Result<UriView, Seq<char>> {
    match (parsed_uri(base), parsed_path(path)) {
        (Err(e), _) => Err(e),
        (Ok(_), Err(e)) => Err(e),
        (Ok(b), Ok(pq)) => if b.scheme is Some && b.authority is None {
            Err("authority missing"@)
        } else if b.scheme is None && b.authority is Some {
            Err("scheme missing"@)
        } else {
            Ok(with_path(b, path, pq))
        },
    }
}

/// Takes a URI apart with `http::Uri::into_parts`, gives it another path and
/// query, and puts it together with `http::Uri::from_parts`: scheme and authority
/// stay, and with them host and port, and it fails where there is one of the two
/// without the other. The two texts are parsed as `read_uri` and `read_path` parse
/// them.
#[verifier::external_body]
fn rebuild(base: &str, path: &str) -> (r: Result<Uri, String>)
    requires
        parsed_uri(base@) is Ok,
        parsed_path(path@) is Ok,
    ensures
        same_uri(r, rebuilt_uri(base@, path@)),
{
    let mut parts = base.parse::<http::Uri>().unwrap().into_parts();
    parts.path_and_query = path.parse().ok();
    let u = http::Uri::from_parts(parts).map_err(|e| e.to_string())?;
    Ok(
        Uri {
            text: u.to_string(),
            source: u.to_string(),
            scheme: u.scheme_str().map(String::from),
            authority: u.authority().map(|a| a.as_str().to_string()),
            host: u.host().map(String::from),
            port: u.port().map(|p| (p.as_str().to_string(), p.as_u16())),
            path_and_query: u.path_and_query().map(|p| p.as_str().to_string()),
        },
    )
}

/// Where a server that was reached at one URI says that it is to be reached: at
/// another URI, or at another path of the same server.
pub open spec fn moved(base: Seq<char>, place: Seq<char>) -> Result<UriView, Seq<char>> {
    if text::stands_at(place, "http://"@, 0) || text::stands_at(place, "https://"@, 0) {
        match parsed_uri(place) {
            Ok(u) => Ok(u),
            Err(e) => Err("invalid uri from SSE: "@ + e),
        }
    } else {
        match parsed_path(place) {
            Err(e) => Err("invalid path from SSE: "@ + e),
            Ok(_) => match rebuilt_uri(base, place) {
                Ok(u) => Ok(u),
                Err(e) => Err("invalid new uri: "@ + e),
            },
        }
    }
}

/// Words a complaint.
pub fn complain(what: &str, e: &str) -> (m: String)
    ensures
        m@ == what@ + e@,
{
    let mut m = what.to_string();
    m.append(e);
    m
}

/// Where a server says that it is to be reached. `base` is the URI at which it was
/// reached.
pub fn move_to(base: &str, place: &str) -> (r: Result<Uri, String>)
    ensures
        same_uri(r, moved(base@, place@)),
{
    let v = text::chars_of(place);
    let plain = text::chars_of("http://");
    let secure = text::chars_of("https://");
    if text::found_at(v.as_slice(), plain.as_slice(), 0) || text::found_at(
        v.as_slice(),
        secure.as_slice(),
        0,
    ) {
        match read_uri(place) {
            Ok(u) => Ok(u),
            Err(e) => Err(complain("invalid uri from SSE: ", e.as_str())),
        }
    } else {
        match read_path(place) {
            Err(e) => Err(complain("invalid path from SSE: ", e.as_str())),
            Ok(_) => {
                let rebuilt = match read_uri(base) {
                    Ok(_) => rebuild(base, place),
                    Err(e) => Err(e),
                };
                match rebuilt {
                    Ok(u) => Ok(u),
                    Err(e) => Err(complain("invalid new uri: ", e.as_str())),
                }
            },
        }
    }
}

/// A server that moves to a path stays the server that it is: where a place is no
/// URI of its own, scheme, authority, host and port are those of the URI at which
/// the server was reached, and path and query are those of the place. That such a
/// move fails is owed to one of the two texts, or to a URI that has a scheme or an
/// authority and lacks the other.
pub proof fn law_moved_path_keeps_the_server(base: Seq<char>, place: Seq<char>)
    requires
        !text::stands_at(place, "http://"@, 0),
        !text::stands_at(place, "https://"@, 0),
    ensures
        moved(base, place) is Ok <==> parsed_path(place) is Ok && (parsed_uri(base) matches Ok(b)
            && (b.scheme is Some <==> b.authority is Some)),
        moved(base, place) matches Ok(u) ==> {
            let b = parsed_uri(base)->Ok_0;
            &&& u.scheme == b.scheme
            &&& u.authority == b.authority
            &&& u.host == b.host
            &&& u.port == b.port
            &&& u.path_and_query == Some(parsed_path(place)->Ok_0)
        },
{
}

// ---------------------------------------------------------------------------
// Where to connect
// ---------------------------------------------------------------------------

/// Whether the scheme of a URI is `https`.
pub open spec fn is_https(u: UriView) -> bool {
    u.scheme == Some("https"@)
}

/// Tells whether the scheme of a URI is `https`.
pub fn has_https(uri: &Uri) -> (r: bool)
    ensures
        r == is_https(uri@),
{
    match &uri.scheme {
        Some(s) => text::same_str(s.as_str(), "https"),
        None => false,
    }
}

/// The host and the port to connect to: those of the URI. `--host` stands in for
/// a host that the URI lacks, `--port` overrides the port.
pub open spec fn conn_address(opts: Options, u: UriView) -> Option<(Seq<char>, u16)> {
    let host = match u.host {
        Some(h) => Some(h),
        None => opt_text(opts.host),
    };
    let port: u16 = match (opts.port, u.port) {
        (Some(p), _) => p,
        (None, Some((_, p))) => p,
        (None, None) => if is_https(u) || opts.http2 {
            443
        } else {
            80
        },
    };
    match host {
        Some(h) => Some((h, port)),
        None => None,
    }
}

/// The host and the port to connect to.
pub fn get_conn_address(opts: &Options, uri: &Uri) -> (r: Option<(String, u16)>)
    ensures
        match conn_address(*opts, uri@) {
            Some((host, port)) => r matches Some(a) && a.0@ == host && a.1 == port,
            None => r is None,
        },
{
    let host: String = match &uri.host {
        Some(h) => h.clone(),
        None => match &opts.host {
            Some(h) => h.clone(),
            None => {
                return None;
            },
        },
    };
    let mut port: u16 = match &uri.port {
        Some((_, p)) => *p,
        None => if has_https(uri) || opts.http2 {
            443
        } else {
            80
        },
    };
    match opts.port {
        Some(p) => {
            port = p;
        },
        None => {},
    }
    Some((host, port))
}

/// The name that a TLS server is asked for: `--sni`, or the host of the URI.
/// Other schemes than `https` have none.
pub open spec fn server_name(opts: Options, u: UriView) -> Option<Seq<char>> {
    if !is_https(u) {
        None
    } else {
        match opt_text(opts.sni) {
            Some(name) => Some(name),
            None => u.host,
        }
    }
}

/// The name that a TLS server is asked for.
pub fn tls_server_name<'a>(opts: &'a Options, uri: &'a Uri) -> (r: Option<&'a str>)
    ensures
        match server_name(*opts, uri@) {
            Some(name) => r matches Some(n) && n@ == name,
            None => r is None,
        },
{
    if !has_https(uri) {
        return None;
    }
    match &opts.sni {
        Some(name) => Some(name.as_str()),
        None => match &uri.host {
            Some(h) => Some(h.as_str()),
            None => None,
        },
    }
}

/// A host and a port as one text.
pub open spec fn endpoint(host: Seq<char>, port: u16) -> Seq<char> {
    host + ":"@ + text::decimal(port as nat)
}

/// A host and a port as one text.
pub fn build_conn_endpoint(host: &str, port: u16) -> (s: String)
    ensures
        s@ == endpoint(host@, port),
{
    let mut s = host.to_string();
    s.append(":");
    s.append(text::decimal_string(port as u64).as_str());
    s
}

// ---------------------------------------------------------------------------
// What addresses keep to
// ---------------------------------------------------------------------------

/// The host of the URI comes before `--host`, and `--port` before the port of the URI.
/// Without either port it is 443 for `https` and for HTTP/2, and 80 otherwise. Without a
/// host there is nowhere to connect to.
pub proof fn law_where_to_connect(opts: Options, u: UriView, h: Seq<char>, t: Seq<char>, n: u16)
    ensures
        u.host == Some(h) ==> conn_address(opts, u) is Some && (conn_address(opts, u)->0).0 == h,
        u.host is None && opts.host is Some && opts.host->0@ == h ==> conn_address(opts, u) is Some && (
        conn_address(opts, u)->0).0 == h,
        u.host is None && opts.host is None ==> conn_address(opts, u) is None,
        conn_address(opts, u) is Some && opts.port == Some(n) ==> (conn_address(opts, u)->0).1 == n,
        conn_address(opts, u) is Some && opts.port is None && u.port == Some((t, n)) ==> (conn_address(
            opts,
            u,
        )->0).1 == n,
        conn_address(opts, u) is Some && opts.port is None && u.port is None && (opts.http2 || u.scheme
            == Some("https"@)) ==> (conn_address(opts, u)->0).1 == 443,
        conn_address(opts, u) is Some && opts.port is None && u.port is None && !opts.http2 && u.scheme
            != Some("https"@) ==> (conn_address(opts, u)->0).1 == 80,
{
}

/// A TLS server is asked for by `--sni`, or else by the host of the URI, and only where the
/// scheme is `https`.
pub proof fn law_server_name(opts: Options, u: UriView)
    ensures
        u.scheme != Some("https"@) ==> server_name(opts, u) is None,
        u.scheme == Some("https"@) && opts.sni is Some ==> server_name(opts, u) == Some(opts.sni->0@),
        u.scheme == Some("https"@) && opts.sni is None ==> server_name(opts, u) == u.host,
{
}

/// The port can be read off an endpoint, and the host stands before it.
pub proof fn law_endpoint_reads_back(host: Seq<char>, port: u16)
    ensures
        ({
            let e = endpoint(host, port);
            &&& e.take(host.len() as int) == host
            &&& e.len() > host.len() && e[host.len() as int] == ':'
            &&& text::unsigned_value(e.skip(host.len() as int + 1), 65535) == Some(port as nat)
        }),
{
    reveal_strlit(":");
    let e = endpoint(host, port);
    assert(e.take(host.len() as int) == host);
    assert(e.skip(host.len() as int + 1) == text::decimal(port as nat));
    text::law_decimal_reads_back(port as nat, 65535);
}

/// The origin form of a URI is its path and query read as a URI, and the root path where
/// there are none or they make no URI.
pub proof fn law_origin_form(u: UriView, pq: Seq<char>)
    ensures
        u.path_and_query == Some(pq) && pq.len() > 0 && parsed_uri(pq) is Ok ==> origin_of(u)
            == parsed_uri(pq)->Ok_0,
        u.path_and_query == Some(pq) && pq.len() > 0 && parsed_uri(pq) is Err ==> origin_of(
            u,
        ).path_and_query == Some(seq!['/']) && origin_of(u).scheme is None,
        u.path_and_query is None || (u.path_and_query == Some(pq) && pq.len() == 0) ==> {
            &&& origin_of(u).path_and_query == Some(seq!['/'])
            &&& origin_of(u).text == seq!['/']
            &&& origin_of(u).source == seq!['/']
            &&& origin_of(u).scheme is None
            &&& origin_of(u).authority is None
            &&& origin_of(u).host is None
            &&& origin_of(u).port is None
        },
{
    reveal_strlit("/");
    assert("/"@ == seq!['/']);
}

/// A text that is no URI is complained of; one that is stays what it is.
pub proof fn law_complaint_keeps_its_reason(parsed: Result<UriView, Seq<char>>)
    ensures
        parsed is Ok ==> uri_or_complaint(parsed) == parsed,
        parsed matches Err(e) ==> (uri_or_complaint(parsed) matches Err(m) && m.len() > e.len()
            && m.skip(m.len() - e.len()) == e),
{
    reveal_strlit("invalid uri: ");
    if let Err(e) = parsed {
        let m = "invalid uri: "@ + e;
        assert(m.skip(m.len() - e.len()) == e);
    }
}

/// A server that moves to a URI of its own is to be reached there, wherever it was
/// reached before.
pub proof fn law_moved_uri_is_followed(base: Seq<char>, other: Seq<char>, rest: Seq<char>, secure: bool)
    ensures
        ({
            let place = (if secure {
                "https://"@
            } else {
                "http://"@
            }) + rest;
            &&& moved(base, place) is Ok <==> parsed_uri(place) is Ok
            &&& parsed_uri(place) is Ok ==> moved(base, place) == parsed_uri(place)
            &&& moved(base, place) == moved(other, place)
        }),
{
    let start = if secure {
        "https://"@
    } else {
        "http://"@
    };
    let place = start + rest;
    assert(text::stands_at(place, start, 0));
}

/// A URI whose path changes is shown as scheme, authority and the new path, in this order.
pub proof fn law_moved_path_is_shown(base: UriView, path: Seq<char>, pq: Seq<char>, scheme: Seq<char>, authority: Seq<char>)
    requires
        base.scheme == Some(scheme),
        base.authority == Some(authority),
    ensures
        ({
            let u = with_path(base, path, pq);
            let start = scheme + seq![':', '/', '/'] + authority;
            &&& pq.len() == 0 || pq[0] != '?' ==> u.text == start + pq
            &&& pq.len() > 0 && pq[0] == '?' ==> u.text == start + seq!['/'] + pq
            &&& u.source == u.text
        }),
{
    reveal_strlit("://");
    reveal_strlit("/");
    assert("://"@ == seq![':', '/', '/']);
    assert("/"@ == seq!['/']);
    let start = scheme + seq![':', '/', '/'] + authority;
    assert(start + (seq!['/'] + pq) == start + seq!['/'] + pq);
}

/// A result is the one that is described where both are there and equal, or both are
/// refused with the same words.
pub proof fn law_results_agree(
    r: Result<Uri, String>,
    a: Result<UriView, Seq<char>>,
    s: Result<String, String>,
    b: Result<Seq<char>, Seq<char>>,
)
    ensures
        same_uri(r, a) ==> (r is Ok <==> a is Ok) && (r is Ok ==> r->Ok_0@ == a->Ok_0) && (r is Err
            ==> r->Err_0@ == a->Err_0),
        same_text(s, b) ==> (s is Ok <==> b is Ok) && (s is Ok ==> s->Ok_0@ == b->Ok_0) && (s is Err
            ==> s->Err_0@ == b->Err_0),
{
}

/// The parts of a URI are seen as they are.
pub proof fn law_parts_are_seen(u: Uri)
    ensures
        u@.text == u.text@ && u@.source == u.source@,
        u.scheme is None <==> u@.scheme is None,
        u.scheme matches Some(s) ==> u@.scheme == Some(s@),
        u.authority is None <==> u@.authority is None,
        u.authority matches Some(s) ==> u@.authority == Some(s@),
        u.host is None <==> u@.host is None,
        u.host matches Some(s) ==> u@.host == Some(s@),
        u.port is None <==> u@.port is None,
        u.port matches Some(p) ==> u@.port == Some((p.0@, p.1)),
        u.path_and_query is None <==> u@.path_and_query is None,
        u.path_and_query matches Some(s) ==> u@.path_and_query == Some(s@),
{
}

/// A URI that was parsed is what its own text is read as, and no other URI has that text.
pub proof fn law_parsed_uri_reads_back(u: UriView, v: UriView)
    requires
        is_parsed(u),
    ensures
        parsed_uri(u.source) == Ok::<UriView, Seq<char>>(u),
        is_parsed(v) && v.source == u.source ==> v == u,
{
}

} // verus!
