//! The clients that can generate the load.
use vstd::prelude::*;

verus! {

/// Which client generates the load.
#[derive(Clone, Copy, Debug, PartialEq, Eq, Structural)]
pub enum ClientType {
    Auto,
    Hyper,
    HyperMcp,
    HyperChunked,
    HyperH2,
    HyperLegacy,
    HyperRt1,
    Reqwest,
    TokioUring,
    Monoio,
    Compio,
    Help,
}

/// The name of a client on the command line.
pub open spec fn client_name(c: ClientType) -> Seq<char> {
    match c {
        ClientType::Auto => "auto"@,
        ClientType::Hyper => "hyper"@,
        ClientType::HyperMcp => "hyper-mcp"@,
        ClientType::HyperChunked => "hyper-chunked"@,
        ClientType::HyperH2 => "hyper-h2"@,
        ClientType::HyperLegacy => "hyper-legacy"@,
        ClientType::HyperRt1 => "hyper-rt1"@,
        ClientType::Reqwest => "reqwest"@,
        ClientType::TokioUring => "tokio-uring"@,
        ClientType::Monoio => "monoio"@,
        ClientType::Compio => "compio"@,
        ClientType::Help => "help"@,
    }
}

/// Whether a client can reach `https` URIs.
pub open spec fn https_client(c: ClientType) -> bool {
    ||| c is Auto
    ||| c is Hyper
    ||| c is HyperMcp
    ||| c is HyperChunked
    ||| c is HyperH2
    ||| c is Reqwest
}

impl ClientType {
    /// The name of the client on the command line.
    pub fn name(&self) -> (s: &'static str)
        ensures
            s@ == client_name(*self),
    {
        match self {
            ClientType::Auto => "auto",
            ClientType::Hyper => "hyper",
            ClientType::HyperMcp => "hyper-mcp",
            ClientType::HyperChunked => "hyper-chunked",
            ClientType::HyperH2 => "hyper-h2",
            ClientType::HyperLegacy => "hyper-legacy",
            ClientType::HyperRt1 => "hyper-rt1",
            ClientType::Reqwest => "reqwest",
            ClientType::TokioUring => "tokio-uring",
            ClientType::Monoio => "monoio",
            ClientType::Compio => "compio",
            ClientType::Help => "help",
        }
    }

    /// Whether the client can reach `https` URIs.
    pub fn supports_https(&self) -> (r: bool)
        ensures
            r == https_client(*self),
    {
        match self {
            ClientType::Auto
            | ClientType::Hyper
            | ClientType::HyperMcp
            | ClientType::HyperChunked
            | ClientType::HyperH2
            | ClientType::Reqwest => true,
            _ => false,
        }
    }
}

/// Connections that speak HTTP/1.1.
#[derive(Clone, Copy, Debug, PartialEq, Eq, Structural)]
pub struct Http1;

/// Connections that speak HTTP/2.
#[derive(Clone, Copy, Debug, PartialEq, Eq, Structural)]
pub struct Http2;

/// The name of a version of HTTP.
pub open spec fn version_name(http2: bool) -> Seq<char> {
    if http2 {
        "HTTP/2"@
    } else {
        "HTTP/1.1"@
    }
}

impl Http1 {
    /// The name of the version of HTTP.
    pub fn scheme() -> (s: &'static str)
        ensures
            s@ == version_name(false),
    {
        "HTTP/1.1"
    }
}

impl Http2 {
    /// The name of the version of HTTP.
    pub fn scheme() -> (s: &'static str)
        ensures
            s@ == version_name(true),
    {
        "HTTP/2"
    }
}

/// No two clients have the same name.
pub proof fn law_names_differ(a: ClientType, b: ClientType)
    requires
        client_name(a) == client_name(b),
    ensures
        a == b,
{
    reveal_strlit("auto");
    reveal_strlit("hyper");
    reveal_strlit("hyper-mcp");
    reveal_strlit("hyper-chunked");
    reveal_strlit("hyper-h2");
    reveal_strlit("hyper-legacy");
    reveal_strlit("hyper-rt1");
    reveal_strlit("reqwest");
    reveal_strlit("tokio-uring");
    reveal_strlit("monoio");
    reveal_strlit("compio");
    reveal_strlit("help");
    assert("auto"@.len() == 4 && "hyper"@.len() == 5 && "hyper-mcp"@.len() == 9);
    assert("hyper-chunked"@.len() == 13 && "hyper-h2"@.len() == 8 && "hyper-legacy"@.len() == 12);
    assert("hyper-rt1"@.len() == 9 && "reqwest"@.len() == 7 && "tokio-uring"@.len() == 11);
    assert("monoio"@.len() == 6 && "compio"@.len() == 6 && "help"@.len() == 4);
    assert("auto"@[0] == 'a' && "help"@[0] == 'h');
    assert("monoio"@[0] == 'm' && "compio"@[0] == 'c');
    assert("hyper-mcp"@[6] == 'm' && "hyper-rt1"@[6] == 'r');
}

/// The clients that cannot reach `https` URIs are those that speak plain HTTP/1 or leave
/// connecting to others.
pub proof fn law_clients_without_https(c: ClientType)
    ensures
        https_client(c) <==> !(c == ClientType::HyperLegacy || c == ClientType::HyperRt1 || c
            == ClientType::TokioUring || c == ClientType::Monoio || c == ClientType::Compio || c
            == ClientType::Help),
{
}

} // verus!
