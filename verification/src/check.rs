//! Whether the settings of a run go together, and what they leave open.
use crate::client;
use crate::client::ClientType;
use crate::options;
use crate::options::Options;
use crate::text;
use crate::uri;
use vstd::prelude::*;

verus! {

/// Why settings were refused.
#[derive(Clone, Debug)]
pub enum OptionsError {
    /// A `TRACE` request has a body.
    TraceBody,
    /// A client other than the one for tool servers is to call tools.
    Mcp,
    /// A client that cannot send trailers is to send some.
    Trailers,
    /// A client that speaks HTTP/1 alone is to use HTTP/2.
    Http2(ClientType),
    /// A client whose runtime has one thread is to have more.
    OneThread(ClientType),
    /// `reqwest` is to ask for another server name.
    ReqwestSni,
    /// A client that always keeps the whole URI is asked to.
    AbsoluteUri,
    /// A URI has another scheme than `http` and `https`.
    Scheme(String),
    /// A client that cannot reach `https` URIs is to reach one.
    Https(ClientType),
    /// A server name is given, and no URI is `https`.
    SniWithoutHttps,
    /// The server name is empty.
    EmptySni,
    /// The threads cannot be dealt out evenly.
    Threads,
}

/// The words for a refusal.
pub open spec fn options_message(e: OptionsError) -> Seq<char> {
    match e {
        OptionsError::TraceBody => "TRACE method cannot have a body!"@,
        OptionsError::Mcp => "MCP not supported with this client!"@,
        OptionsError::Trailers =>
            "Trailers are only supported with hyper-chunked or hyper-h2 clients!"@,
        OptionsError::Http2(c) => "HTTP/2 not supported with "@ + client::client_name(c)
            + " client!"@,
        OptionsError::OneThread(c) => "Multithreaded runtime not supported with "@ + (
        if c is TokioUring {
            "io-uring"@
        } else {
            client::client_name(c)
        }) + " client!"@,
        OptionsError::ReqwestSni => "SNI option not available with reqwest client!"@,
        OptionsError::AbsoluteUri => "--absolute-uri is not available with this client!"@,
        OptionsError::Scheme(s) => "Unsupported URI scheme '"@ + s@
            + "' (expected http or https)"@,
        OptionsError::Https(c) => "HTTPS is not supported with "@ + client::client_name(c)
            + " client!"@,
        OptionsError::SniWithoutHttps => "--sni requires an https:// URI"@,
        OptionsError::EmptySni => "SNI server name cannot be empty"@,
        OptionsError::Threads =>
            "The number of threads must be an exact multiple of the thread count for each individual runtime"@,
    }
}

impl OptionsError {
    /// The words for the refusal.
    pub fn message(&self) -> (s: String)
        ensures
            s@ == options_message(*self),
    {
        match self {
            OptionsError::TraceBody => "TRACE method cannot have a body!".to_string(),
            OptionsError::Mcp => "MCP not supported with this client!".to_string(),
            OptionsError::Trailers =>
                "Trailers are only supported with hyper-chunked or hyper-h2 clients!".to_string(),
            OptionsError::Http2(c) => {
                let mut s = "HTTP/2 not supported with ".to_string();
                s.append(c.name());
                s.append(" client!");
                s
            },
            OptionsError::OneThread(c) => {
                let mut s = "Multithreaded runtime not supported with ".to_string();
                match c {
                    ClientType::TokioUring => {
                        s.append("io-uring");
                    },
                    _ => {
                        s.append(c.name());
                    },
                }
                s.append(" client!");
                s
            },
            OptionsError::ReqwestSni => "SNI option not available with reqwest client!".to_string(),
            OptionsError::AbsoluteUri =>
                "--absolute-uri is not available with this client!".to_string(),
            OptionsError::Scheme(scheme) => {
                let mut s = "Unsupported URI scheme '".to_string();
                s.append(scheme.as_str());
                s.append("' (expected http or https)");
                s
            },
            OptionsError::Https(c) => {
                let mut s = "HTTPS is not supported with ".to_string();
                s.append(c.name());
                s.append(" client!");
                s
            },
            OptionsError::SniWithoutHttps => "--sni requires an https:// URI".to_string(),
            OptionsError::EmptySni => "SNI server name cannot be empty".to_string(),
            OptionsError::Threads =>
                "The number of threads must be an exact multiple of the thread count for each individual runtime".to_string(),
        }
    }
}

/// What is to be done with settings that were not refused.
#[derive(Clone, Copy, Debug, PartialEq, Eq, Structural)]
pub enum Outcome {
    /// Run. Where `tls` is set, encrypted connections will be opened.
    Run { tls: bool },
    /// List the clients and exit.
    Help,
    /// Complain that no URI was given and exit.
    MissingUri,
}

// ---------------------------------------------------------------------------
// What does not depend on the URIs
// ---------------------------------------------------------------------------

/// Whether a method is `TRACE`.
pub open spec fn is_trace(opts: Options) -> bool {
    uri::opt_text(opts.method) == Some("TRACE"@)
}

/// The client once it is known whether there are trailers.
pub open spec fn chosen_client(opts: Options) -> ClientType {
    if opts.trailers@.len() > 0 && opts.client_type is Auto {
        ClientType::HyperChunked
    } else {
        opts.client_type
    }
}

/// Whether a client makes nothing of an empty list of URIs.
pub open spec fn wants_uri(c: ClientType) -> bool {
    c is TokioUring || c is Auto || c is HyperLegacy || c is Hyper || c is HyperRt1 || c is HyperH2
}

/// Whether a client speaks HTTP/1 alone, on a runtime with one thread.
pub open spec fn one_version(c: ClientType) -> bool {
    c is TokioUring || c is Monoio || c is Compio
}

/// Why the settings are refused whatever the URIs are, if they are.
pub open spec fn refused_early(opts: Options) -> Option<OptionsError> {
    let c = chosen_client(opts);
    if is_trace(opts) && opts.body@.len() > 0 {
        Some(OptionsError::TraceBody)
    } else if (opts.mcp || opts.mcp_sse) && !(opts.client_type is Auto)
        && !(opts.client_type is HyperMcp) {
        Some(OptionsError::Mcp)
    } else if opts.trailers@.len() > 0 && !(c is HyperChunked) && !(c is HyperH2) {
        Some(OptionsError::Trailers)
    } else if one_version(c) && opts.http2 {
        Some(OptionsError::Http2(c))
    } else if one_version(c) && (opts.multithreaded matches Some(n) && n > 1) {
        Some(OptionsError::OneThread(c))
    } else if wants_uri(c) && opts.uri@.len() == 0 {
        None
    } else if c is Reqwest && opts.sni is Some {
        Some(OptionsError::ReqwestSni)
    } else if (c is HyperLegacy || c is HyperRt1 || c is Reqwest) && opts.absolute_uri {
        Some(OptionsError::AbsoluteUri)
    } else {
        None
    }
}

/// What is done instead of a run, if anything is.
pub open spec fn instead_of_run(opts: Options) -> Option<Outcome> {
    let c = chosen_client(opts);
    if wants_uri(c) && opts.uri@.len() == 0 {
        Some(Outcome::MissingUri)
    } else if c is Help {
        Some(Outcome::Help)
    } else {
        None
    }
}

/// Whether `b` is `a` with what it leaves open filled in: a request with
/// trailers has a body, `GET` is the method without a body and `POST` that with
/// one, and the client is chosen.
pub open spec fn completed(a: Options, b: Options) -> bool {
    &&& options::same_settings(a, b)
    &&& b.total_connections == a.total_connections && b.rss == a.rss
    &&& b.client_type == chosen_client(a)
    &&& if a.trailers@.len() > 0 && a.body@.len() == 0 {
        b.body@.len() == 1 && b.body@[0]@.len() == 0
    } else {
        b.body@ == a.body@
    }
    &&& uri::opt_text(b.method) == (match a.method {
        Some(m) => Some(m@),
        None => if b.body@.len() == 0 {
            Some("GET"@)
        } else {
            Some("POST"@)
        },
    })
}

/// The client once it is known whether there are trailers.
fn choose_client(opts: &Options) -> (c: ClientType)
    ensures
        c == chosen_client(*opts),
{
    match opts.client_type {
        ClientType::Auto => if opts.trailers.len() > 0 {
            ClientType::HyperChunked
        } else {
            ClientType::Auto
        },
        c => c,
    }
}

/// Why the settings are refused whatever the URIs are, if they are.
fn refuse_early(opts: &Options) -> (r: Option<OptionsError>)
    ensures
        r == refused_early(*opts),
{
    let trace: bool = match &opts.method {
        Some(m) => text::same_str(m.as_str(), "TRACE"),
        None => false,
    };
    if trace && opts.body.len() > 0 {
        return Some(OptionsError::TraceBody);
    }
    let tools: bool = match opts.client_type {
        ClientType::Auto | ClientType::HyperMcp => true,
        _ => false,
    };
    if (opts.mcp || opts.mcp_sse) && !tools {
        return Some(OptionsError::Mcp);
    }
    let no_uri: bool = opts.uri.len() == 0;
    let trailers: bool = opts.trailers.len() > 0;
    match choose_client(opts) {
        ClientType::HyperChunked | ClientType::HyperH2 => None,
        _ if trailers => Some(OptionsError::Trailers),
        c @ (ClientType::TokioUring | ClientType::Monoio | ClientType::Compio) => {
            if opts.http2 {
                return Some(OptionsError::Http2(c));
            }
            match opts.multithreaded {
                Some(n) => if n > 1 {
                    Some(OptionsError::OneThread(c))
                } else {
                    None
                },
                None => None,
            }
        },
        ClientType::HyperLegacy | ClientType::HyperRt1 => if !no_uri && opts.absolute_uri {
            Some(OptionsError::AbsoluteUri)
        } else {
            None
        },
        ClientType::Reqwest => if opts.sni.is_some() {
            Some(OptionsError::ReqwestSni)
        } else if opts.absolute_uri {
            Some(OptionsError::AbsoluteUri)
        } else {
            None
        },
        _ => None,
    }
}

/// What is done instead of a run, if anything is.
fn divert(opts: &Options) -> (r: Option<Outcome>)
    ensures
        r == instead_of_run(*opts),
{
    match choose_client(opts) {
        ClientType::TokioUring
        | ClientType::Auto
        | ClientType::HyperLegacy
        | ClientType::Hyper
        | ClientType::HyperRt1
        | ClientType::HyperH2 => if opts.uri.len() == 0 {
            Some(Outcome::MissingUri)
        } else {
            None
        },
        ClientType::Help => Some(Outcome::Help),
        _ => None,
    }
}

/// The body of the requests: one with trailers has a body.
fn choose_body(opts: &Options) -> (body: Vec<String>)
    ensures
        if opts.trailers@.len() > 0 && opts.body@.len() == 0 {
            body@.len() == 1 && body@[0]@.len() == 0
        } else {
            body@ == opts.body@
        },
{
    let mut body: Vec<String> = Vec::new();
    let mut i: usize = 0;
    while i < opts.body.len()
        invariant
            i <= opts.body.len(),
            body@ == opts.body@.take(i as int),
        decreases opts.body.len() - i,
    {
        body.push(opts.body[i].clone());
        i += 1;
    }
    assert(opts.body@.take(opts.body@.len() as int) == opts.body@);
    if opts.trailers.len() > 0 && opts.body.len() == 0 {
        body.push(String::new());
    }
    body
}

/// The method of the requests: `GET` without a body and `POST` with one, unless
/// it is given.
fn choose_method(opts: &Options, body: &Vec<String>) -> (method: String)
    ensures
        method@ == (match opts.method {
            Some(m) => m@,
            None => if body@.len() == 0 {
                "GET"@
            } else {
                "POST"@
            },
        }),
{
    match &opts.method {
        Some(m) => m.clone(),
        None => if body.len() == 0 {
            "GET".to_string()
        } else {
            "POST".to_string()
        },
    }
}

/// Sets what the settings left open.
fn fill_in(opts: &mut Options, client_type: ClientType, body: Vec<String>, method: String)
    ensures
        options::same_settings(*old(opts), *final(opts)),
        final(opts).total_connections == old(opts).total_connections,
        final(opts).rss == old(opts).rss,
        final(opts).client_type == client_type,
        final(opts).body == body,
        final(opts).method == Some(method),
{
    opts.client_type = client_type;
    opts.body = body;
    opts.method = Some(method);
}

/// What becomes of settings that are refused whatever the URIs are: a body that
/// `TRACE` has is noticed before anything is filled in, everything else after that.
pub open spec fn left_behind(e: OptionsError, a: Options, b: Options) -> bool {
    if e is TraceBody {
        b == a
    } else {
        completed(a, b)
    }
}

/// Fills in what the settings leave open, and checks what does not depend on what
/// the URIs are. A body that `TRACE` has is refused before anything is filled in.
pub fn complete_options(opts: &mut Options) -> (r: Result<Option<Outcome>, OptionsError>)
    ensures
        match r {
            Ok(outcome) => {
                &&& refused_early(*old(opts)) is None
                &&& outcome == instead_of_run(*old(opts))
                &&& completed(*old(opts), *final(opts))
            },
            Err(e) => refused_early(*old(opts)) == Some(e) && left_behind(
                e,
                *old(opts),
                *final(opts),
            ),
        },
{
    let refused = refuse_early(opts);
    if let Some(OptionsError::TraceBody) = &refused {
        return Err(OptionsError::TraceBody);
    }
    let outcome = divert(opts);
    let client_type = choose_client(opts);
    let body = choose_body(opts);
    let method = choose_method(opts, &body);
    fill_in(opts, client_type, body, method);
    match refused {
        Some(e) => Err(e),
        None => Ok(outcome),
    }
}

// ---------------------------------------------------------------------------
// What depends on the URIs
// ---------------------------------------------------------------------------

/// Whether a scheme is `want`, whatever the case of its letters.
pub open spec fn scheme_is(scheme: Seq<char>, want: Seq<char>) -> bool {
    text::ascii_lowered(scheme) == text::ascii_lowered(want)
}

/// The schemes of a list of URIs.
pub open spec fn schemes_view(schemes: Seq<Option<String>>) -> Seq<Option<Seq<char>>> {
    schemes.map_values(|s: Option<String>| uri::opt_text(s))
}

/// Whether a URI may have a scheme.
pub open spec fn known_scheme(scheme: Option<Seq<char>>) -> bool {
    match scheme {
        Some(s) => scheme_is(s, "http"@) || scheme_is(s, "https"@),
        None => true,
    }
}

/// The number of URIs before the first whose scheme is neither `http` nor
/// `https`.
pub open spec fn known_prefix(schemes: Seq<Option<Seq<char>>>) -> nat
    decreases schemes.len(),
{
    if schemes.len() == 0 || !known_scheme(schemes.first()) {
        0
    } else {
        1 + known_prefix(schemes.drop_first())
    }
}

/// Whether any scheme is `https`.
pub open spec fn any_https(schemes: Seq<Option<Seq<char>>>) -> bool {
    exists|i: int|
        0 <= i < schemes.len() && ((#[trigger] schemes[i]) matches Some(s) && scheme_is(
            s,
            "https"@,
        ))
}

/// Whether `a` is a multiple of `b`. Nothing but 0 is a multiple of 0.
pub open spec fn multiple_of(a: nat, b: nat) -> bool {
    if b == 0 {
        a == 0
    } else {
        a % b == 0
    }
}

/// Why the settings are refused for the schemes of the URIs or for what comes
/// after them: whether `e` is the reason, or says that there is none.
pub open spec fn refused_late(
    schemes: Seq<Option<Seq<char>>>,
    opts: Options,
    e: Option<OptionsError>,
) -> bool {
    let k = known_prefix(schemes) as int;
    if k < schemes.len() {
        e matches Some(OptionsError::Scheme(s)) && Some(s@) == schemes[k]
    } else if any_https(schemes) && !client::https_client(opts.client_type) {
        e == Some(OptionsError::Https(opts.client_type))
    } else if !any_https(schemes) && opts.sni is Some {
        e == Some(OptionsError::SniWithoutHttps)
    } else if opts.sni matches Some(name) && name@.len() == 0 {
        e == Some(OptionsError::EmptySni)
    } else if opts.multithreaded matches Some(n) && !multiple_of(opts.threads as nat, n as nat) {
        e == Some(OptionsError::Threads)
    } else {
        e is None
    }
}

proof fn lemma_known_prefix_is(schemes: Seq<Option<Seq<char>>>, k: nat)
    requires
        k <= schemes.len(),
        k < schemes.len() ==> !known_scheme(schemes[k as int]),
        forall|i: int| 0 <= i < k ==> known_scheme(#[trigger] schemes[i]),
    ensures
        known_prefix(schemes) == k,
    decreases schemes.len(),
{
    if k > 0 {
        assert(known_scheme(schemes[0]));
        let t = schemes.drop_first();
        assert forall|i: int| 0 <= i < k - 1 implies known_scheme(#[trigger] t[i]) by {
            assert(t[i] == schemes[i + 1]);
        }
        lemma_known_prefix_is(t, (k - 1) as nat);
    }
}

/// Checks the schemes of the URIs and what comes after them. The result says
/// whether encrypted connections will be opened.
pub fn check_schemes(schemes: &Vec<Option<String>>, opts: &Options) -> (r: Result<
    bool,
    OptionsError,
>)
    ensures
        match r {
            Ok(tls) => {
                &&& refused_late(schemes_view(schemes@), *opts, None)
                &&& tls == any_https(schemes_view(schemes@))
            },
            Err(e) => refused_late(schemes_view(schemes@), *opts, Some(e)),
        },
{
    let ghost all = schemes_view(schemes@);
    let http = text::chars_of("http");
    let https = text::chars_of("https");
    let mut tls: bool = false;
    let mut i: usize = 0;
    while i < schemes.len()
        invariant
            i <= schemes.len(),
            all == schemes_view(schemes@),
            http@ == "http"@,
            https@ == "https"@,
            forall|j: int| 0 <= j < i ==> known_scheme(#[trigger] all[j]),
            tls == any_https(all.take(i as int)),
        decreases schemes.len() - i,
    {
        let ghost before = all.take(i as int);
        let ghost after = all.take(i + 1);
        assert(all[i as int] == uri::opt_text(schemes@[i as int]));
        assert(after.drop_last() == before);
        assert(forall|j: int| 0 <= j < i ==> after[j] == before[j]);
        match &schemes[i] {
            Some(s) => {
                let v = text::chars_of(s.as_str());
                let secure: bool = text::same_ignoring_case(v.as_slice(), https.as_slice());
                if !secure && !text::same_ignoring_case(v.as_slice(), http.as_slice()) {
                    proof {
                        lemma_known_prefix_is(all, i as nat);
                    }
                    return Err(OptionsError::Scheme(s.clone()));
                }
                if secure {
                    tls = true;
                    assert(after[i as int] == all[i as int]);
                }
            },
            None => {},
        }
        proof {
            if any_https(before) {
                let j = choose|j: int|
                    0 <= j < before.len() && ((#[trigger] before[j]) matches Some(s) && scheme_is(
                        s,
                        "https"@,
                    ));
                assert(after[j] == before[j]);
            }
            if any_https(after) {
                let j = choose|j: int|
                    0 <= j < after.len() && ((#[trigger] after[j]) matches Some(s) && scheme_is(
                        s,
                        "https"@,
                    ));
                if j < i {
                    assert(after[j] == before[j]);
                }
            }
        }
        i += 1;
    }
    proof {
        lemma_known_prefix_is(all, all.len());
        assert(all.take(all.len() as int) == all);
    }
    if tls {
        if !opts.client_type.supports_https() {
            return Err(OptionsError::Https(opts.client_type));
        }
    } else if opts.sni.is_some() {
        return Err(OptionsError::SniWithoutHttps);
    }
    match &opts.sni {
        Some(name) => {
            if name.as_str().is_empty() {
                return Err(OptionsError::EmptySni);
            }
        },
        None => {},
    }
    match opts.multithreaded {
        Some(n) => {
            let even: bool = if n == 0 {
                opts.threads == 0
            } else {
                opts.threads % n == 0
            };
            if !even {
                return Err(OptionsError::Threads);
            }
        },
        None => {},
    }
    Ok(tls)
}

/// The scheme of a URI, where it is one and has one.
pub open spec fn scheme_of(s: Seq<char>) -> Option<Seq<char>> {
    match uri::parsed_uri(s) {
        Ok(u) => u.scheme,
        Err(_) => None,
    }
}

/// The schemes of the URIs of a run.
pub open spec fn schemes_of(uris: Seq<String>) -> Seq<Option<Seq<char>>> {
    uris.map_values(|s: String| scheme_of(s@))
}

/// The schemes of the URIs of a run.
fn read_schemes(uris: &Vec<String>) -> (schemes: Vec<Option<String>>)
    ensures
        schemes_view(schemes@) == schemes_of(uris@),
{
    let mut schemes: Vec<Option<String>> = Vec::new();
    let mut i: usize = 0;
    while i < uris.len()
        invariant
            i <= uris.len(),
            schemes.len() == i,
            forall|j: int|
                0 <= j < i ==> uri::opt_text(#[trigger] schemes@[j]) == scheme_of(uris@[j]@),
        decreases uris.len() - i,
    {
        let scheme: Option<String> = match uri::read_uri(uris[i].as_str()) {
            Ok(u) => u.scheme,
            Err(_) => None,
        };
        schemes.push(scheme);
        i += 1;
    }
    assert(schemes_view(schemes@) == schemes_of(uris@));
    schemes
}

/// Checks the settings of a run and fills in what they leave open, before most of
/// what can be refused is refused.
pub fn check_options(opts: &mut Options) -> (r: Result<Outcome, OptionsError>)
    ensures
        match r {
            Err(e) => match refused_early(*old(opts)) {
                Some(early) => e == early && left_behind(e, *old(opts), *final(opts)),
                None => {
                    &&& instead_of_run(*old(opts)) is None
                    &&& completed(*old(opts), *final(opts))
                    &&& refused_late(schemes_of(old(opts).uri@), *final(opts), Some(e))
                },
            },
            Ok(outcome) => {
                &&& refused_early(*old(opts)) is None
                &&& completed(*old(opts), *final(opts))
                &&& match instead_of_run(*old(opts)) {
                    Some(other) => outcome == other,
                    None => {
                        &&& refused_late(schemes_of(old(opts).uri@), *final(opts), None)
                        &&& outcome == (Outcome::Run { tls: any_https(schemes_of(old(opts).uri@)) })
                    },
                }
            },
        },
{
    match complete_options(opts) {
        Err(e) => Err(e),
        Ok(Some(outcome)) => Ok(outcome),
        Ok(None) => {
            let schemes = read_schemes(&opts.uri);
            match check_schemes(&schemes, opts) {
                Ok(tls) => Ok(Outcome::Run { tls }),
                Err(e) => Err(e),
            }
        },
    }
}

/// The client that does the work of a run: where none is asked for, `hyper`, or
/// the one for tool servers.
pub open spec fn working_client(opts: Options) -> ClientType {
    if opts.client_type is Auto {
        if opts.mcp || opts.mcp_sse {
            ClientType::HyperMcp
        } else {
            ClientType::Hyper
        }
    } else {
        opts.client_type
    }
}

/// The client that does the work of a run.
pub fn select_client(opts: &Options) -> (c: ClientType)
    ensures
        c == working_client(*opts),
{
    match opts.client_type {
        ClientType::Auto => if opts.mcp || opts.mcp_sse {
            ClientType::HyperMcp
        } else {
            ClientType::Hyper
        },
        c => c,
    }
}

// ---------------------------------------------------------------------------
// What holds of settings that were accepted
// ---------------------------------------------------------------------------

proof fn lemma_known_prefix(schemes: Seq<Option<Seq<char>>>)
    ensures
        known_prefix(schemes) <= schemes.len(),
        forall|i: int| 0 <= i < known_prefix(schemes) ==> known_scheme(#[trigger] schemes[i]),
    decreases schemes.len(),
{
    if schemes.len() > 0 && known_scheme(schemes.first()) {
        let t = schemes.drop_first();
        lemma_known_prefix(t);
        assert forall|i: int| 0 <= i < known_prefix(schemes) implies known_scheme(
            #[trigger] schemes[i],
        ) by {
            if i > 0 {
                assert(schemes[i] == t[i - 1]);
            }
        }
    }
}

/// Settings that were accepted go together: `given` are the settings before they
/// were completed.
pub proof fn law_accepted_settings_go_together(
    given: Options,
    opts: Options,
    schemes: Seq<Option<Seq<char>>>,
)
    requires
        refused_early(given) is None,
        instead_of_run(given) is None,
        completed(given, opts),
        refused_late(schemes, opts, None),
    ensures
        opts.method is Some,
        is_trace(given) ==> given.body@.len() == 0,
        opts.trailers@.len() > 0 ==> opts.body@.len() > 0 && (opts.client_type is HyperChunked
            || opts.client_type is HyperH2),
        opts.mcp || opts.mcp_sse ==> given.client_type is Auto || given.client_type is HyperMcp,
        one_version(opts.client_type) ==> !opts.http2 && !(opts.multithreaded matches Some(n) && n > 1),
        forall|i: int| 0 <= i < schemes.len() ==> known_scheme(#[trigger] schemes[i]),
        any_https(schemes) ==> client::https_client(opts.client_type),
        opts.sni matches Some(name) ==> any_https(schemes) && name@.len() > 0,
        opts.multithreaded matches Some(n) ==> multiple_of(opts.threads as nat, n as nat),
{
    lemma_known_prefix(schemes);
}

/// Completing settings once more changes nothing.
pub proof fn law_completed_settings_stay(a: Options, b: Options, c: Options)
    requires
        completed(a, b),
        completed(b, c),
    ensures
        c.client_type == b.client_type,
        c.body@ == b.body@,
        uri::opt_text(c.method) == uri::opt_text(b.method),
        options::same_settings(a, c),
{
}

/// Settings are refused, whatever the URIs are, for these reasons: a `TRACE` with a body,
/// tools with a client that calls none, trailers with a client that sends none, HTTP/2 or
/// more threads with a client that has neither, a server name with `reqwest`, and the whole
/// URI with a client that keeps it anyway.
pub proof fn law_settings_are_refused(opts: Options)
    ensures
        ({
            let c = opts.client_type;
            let trace = opts.method is Some && opts.method->0@ == "TRACE"@ && opts.body@.len() > 0;
            let tools = (opts.mcp || opts.mcp_sse) && c != ClientType::Auto && c
                != ClientType::HyperMcp;
            let trailers = opts.trailers@.len() > 0 && c != ClientType::Auto && c
                != ClientType::HyperChunked && c != ClientType::HyperH2;
            let single = c == ClientType::TokioUring || c == ClientType::Monoio || c
                == ClientType::Compio;
            let whole = opts.absolute_uri && (c == ClientType::Reqwest || (opts.uri@.len() > 0 && (c
                == ClientType::HyperLegacy || c == ClientType::HyperRt1)));
            &&& trace ==> refused_early(opts) == Some(OptionsError::TraceBody)
            &&& !trace && tools ==> refused_early(opts) == Some(OptionsError::Mcp)
            &&& !trace && !tools && trailers ==> refused_early(opts) == Some(OptionsError::Trailers)
            &&& single && opts.http2 ==> refused_early(opts) is Some
            &&& single && opts.http2 && !trace && !tools && !trailers ==> refused_early(opts) == Some(
                OptionsError::Http2(c),
            )
            &&& single && opts.multithreaded is Some && opts.multithreaded->0 > 1 ==> refused_early(opts)
                is Some
            &&& c == ClientType::Reqwest && opts.sni is Some ==> refused_early(opts) is Some
            &&& whole ==> refused_early(opts) is Some
            &&& refused_early(opts) is Some ==> {
                ||| trace
                ||| tools
                ||| trailers
                ||| single && opts.http2
                ||| single && opts.multithreaded is Some && opts.multithreaded->0 > 1
                ||| c == ClientType::Reqwest && opts.sni is Some
                ||| whole
            }
        }),
{
}

/// What is left open is filled in: without a method, requests with a body or with trailers
/// are `POST` and others are `GET`; requests with trailers have a body; and a client is
/// chosen for them where none was asked for. What was given stays.
pub proof fn law_what_is_filled_in(a: Options, b: Options)
    requires
        completed(a, b),
    ensures
        a.method is Some ==> b.method is Some && b.method->0@ == a.method->0@,
        a.method is None && a.body@.len() == 0 && a.trailers@.len() == 0 ==> b.method is Some
            && b.method->0@ == "GET"@,
        a.method is None && (a.body@.len() > 0 || a.trailers@.len() > 0) ==> b.method is Some
            && b.method->0@ == "POST"@,
        a.body@.len() > 0 || a.trailers@.len() == 0 ==> b.body@ == a.body@,
        a.body@.len() == 0 && a.trailers@.len() > 0 ==> b.body@.len() == 1 && b.body@[0]@.len() == 0,
        a.client_type != ClientType::Auto ==> b.client_type == a.client_type,
        a.client_type == ClientType::Auto && a.trailers@.len() > 0 ==> b.client_type
            == ClientType::HyperChunked,
        a.client_type == ClientType::Auto && a.trailers@.len() == 0 ==> b.client_type == ClientType::Auto,
        b.threads == a.threads && b.connections == a.connections && b.duration == a.duration,
        b.requests == a.requests && b.headers == a.headers && b.trailers == a.trailers,
        b.uri == a.uri && b.host == a.host && b.port == a.port && b.sni == a.sni,
        b.cps == a.cps && b.rpc == a.rpc && b.http2 == a.http2 && b.latency == a.latency,
        b.mcp == a.mcp && b.mcp_sse == a.mcp_sse && b.insecure == a.insecure,
        b.absolute_uri == a.absolute_uri && b.multithreaded == a.multithreaded,
        b.local_addr == a.local_addr && b.local_port_range == a.local_port_range,
        b.rss_key == a.rss_key && b.rss_indir == a.rss_indir && b.rss == a.rss,
        b.conn_base == a.conn_base && b.total_connections == a.total_connections,
{
}

/// Without a URI there is no run for most clients, and asking for help lists the clients.
/// Otherwise there is a run.
pub proof fn law_when_there_is_a_run(opts: Options)
    ensures
        opts.uri@.len() > 0 ==> (instead_of_run(opts) is Some <==> opts.client_type == ClientType::Help),
        opts.client_type == ClientType::Help ==> instead_of_run(opts) == Some(Outcome::Help),
        opts.uri@.len() == 0 && opts.trailers@.len() == 0 && (opts.client_type == ClientType::Auto
            || opts.client_type == ClientType::Hyper || opts.client_type == ClientType::HyperH2
            || opts.client_type == ClientType::HyperLegacy || opts.client_type == ClientType::HyperRt1
            || opts.client_type == ClientType::TokioUring) ==> instead_of_run(opts) == Some(
            Outcome::MissingUri,
        ),
        opts.client_type == ClientType::Reqwest || opts.client_type == ClientType::HyperMcp
            || opts.client_type == ClientType::HyperChunked || opts.client_type == ClientType::Monoio
            || opts.client_type == ClientType::Compio ==> instead_of_run(opts) is None,
{
}

/// The schemes `http` and `https`, in either case of their letters, and no scheme at all
/// are known. No other is.
pub proof fn law_known_schemes(s: Seq<char>)
    ensures
        known_scheme(None),
        known_scheme(Some(s)) <==> text::ascii_lowered(s) == "http"@ || text::ascii_lowered(s)
            == "https"@,
        any_https(seq![Some(s)]) <==> text::ascii_lowered(s) == "https"@,
        !any_https(seq![None::<Seq<char>>]),
{
    reveal_strlit("http");
    reveal_strlit("https");
    assert(text::ascii_lowered("http"@) == "http"@);
    assert(text::ascii_lowered("https"@) == "https"@);
    let one = seq![Some(s)];
    assert(one[0] == Some(s));
}

/// Encrypted connections are opened where any of the URIs asks for them.
pub proof fn law_any_https(a: Seq<Option<Seq<char>>>, b: Seq<Option<Seq<char>>>)
    ensures
        any_https(a + b) <==> any_https(a) || any_https(b),
        !any_https(Seq::empty()),
{
    let c = a + b;
    if any_https(a) {
        let i = choose|i: int|
            0 <= i < a.len() && ((#[trigger] a[i]) matches Some(s) && scheme_is(s, "https"@));
        assert(c[i] == a[i]);
    }
    if any_https(b) {
        let i = choose|i: int|
            0 <= i < b.len() && ((#[trigger] b[i]) matches Some(s) && scheme_is(s, "https"@));
        assert(c[a.len() + i] == b[i]);
    }
    if any_https(c) {
        let i = choose|i: int|
            0 <= i < c.len() && ((#[trigger] c[i]) matches Some(s) && scheme_is(s, "https"@));
        if i < a.len() {
            assert(a[i] == c[i]);
        } else {
            assert(b[i - a.len()] == c[i]);
        }
    }
}

/// Settings are accepted for the schemes of their URIs exactly where every scheme is known,
/// the client can reach `https` where it has to, a server name is not empty and is given
/// for `https` alone, and the threads can be dealt out evenly.
pub proof fn law_late_refusals(schemes: Seq<Option<Seq<char>>>, opts: Options)
    ensures
        refused_late(schemes, opts, None) <==> {
            &&& forall|i: int| 0 <= i < schemes.len() ==> known_scheme(#[trigger] schemes[i])
            &&& any_https(schemes) ==> client::https_client(opts.client_type)
            &&& opts.sni is Some ==> any_https(schemes) && opts.sni->0@.len() > 0
            &&& opts.multithreaded is Some ==> exists|k: nat|
                opts.threads == #[trigger] (k * opts.multithreaded->0)
        },
{
    lemma_known_prefix(schemes);
    let p = known_prefix(schemes) as int;
    if p < schemes.len() {
        lemma_known_prefix_stops(schemes);
        assert(!known_scheme(schemes[p]));
    }
    if let Some(n) = opts.multithreaded {
        law_multiples(opts.threads as nat, n as nat);
        if exists|k: nat| opts.threads == #[trigger] (k * n) {
            let k = choose|k: nat| opts.threads == #[trigger] (k * n);
            assert(opts.threads as nat == k * (n as nat));
        }
        if multiple_of(opts.threads as nat, n as nat) {
            let k = choose|k: nat| opts.threads as nat == #[trigger] (k * (n as nat));
            assert(opts.threads == k * n);
        }
    }
}

proof fn lemma_known_prefix_stops(schemes: Seq<Option<Seq<char>>>)
    requires
        known_prefix(schemes) < schemes.len(),
    ensures
        !known_scheme(schemes[known_prefix(schemes) as int]),
    decreases schemes.len(),
{
    if known_scheme(schemes.first()) {
        lemma_known_prefix_stops(schemes.drop_first());
    }
}

/// A number is a multiple of another exactly where it is some number of times the other.
pub proof fn law_multiples(a: nat, b: nat)
    ensures
        multiple_of(a, b) <==> exists|k: nat| a == #[trigger] (k * b),
{
    if multiple_of(a, b) {
        if b == 0 {
            assert(a == 0nat * b);
        } else {
            vstd::arithmetic::div_mod::lemma_fundamental_div_mod(a as int, b as int);
            let k = (a / b) as nat;
            assert(k * b == b * (a / b)) by (nonlinear_arith)
                requires
                    k == a / b,
            ;
            assert(a == k * b);
        }
    }
    if exists|k: nat| a == #[trigger] (k * b) {
        let k = choose|k: nat| a == #[trigger] (k * b);
        if b == 0 {
            assert(k * b == 0) by (nonlinear_arith)
                requires
                    b == 0,
            ;
        } else {
            vstd::arithmetic::div_mod::lemma_mod_multiples_basic(k as int, b as int);
        }
    }
}

/// The first URI whose scheme is not known is the one that is named.
pub proof fn law_first_unknown_scheme_is_named(
    schemes: Seq<Option<Seq<char>>>,
    opts: Options,
    k: int,
    e: OptionsError,
)
    requires
        0 <= k < schemes.len(),
        !known_scheme(schemes[k]),
        forall|i: int| 0 <= i < k ==> known_scheme(#[trigger] schemes[i]),
        refused_late(schemes, opts, Some(e)),
    ensures
        e matches OptionsError::Scheme(s) && schemes[k] == Some(s@),
{
    lemma_known_prefix_is(schemes, k as nat);
}

/// Where no client is asked for, tools are called by the one for tools, and everything else
/// is sent by `hyper`.
pub proof fn law_client_that_works(opts: Options)
    ensures
        opts.client_type != ClientType::Auto ==> working_client(opts) == opts.client_type,
        opts.client_type == ClientType::Auto && (opts.mcp || opts.mcp_sse) ==> working_client(opts)
            == ClientType::HyperMcp,
        opts.client_type == ClientType::Auto && !opts.mcp && !opts.mcp_sse ==> working_client(opts)
            == ClientType::Hyper,
{
}

/// A `TRACE` with a body leaves the settings as they were. Any other refusal finds them
/// filled in.
pub proof fn law_what_a_refusal_leaves(e: OptionsError, a: Options, b: Options)
    requires
        left_behind(e, a, b),
    ensures
        e is TraceBody ==> b == a,
        !(e is TraceBody) ==> completed(a, b),
{
}

} // verus!
