//! From the settings to the source ports of a run.
//!
//! What has to be found out on the way (the contents of a file, the addresses of
//! a host) is asked for: `init_source_ports` is called again with the answer.
use crate::client;
use crate::client::ClientType;
use crate::net::{IpAddr, SocketAddr};
use crate::options;
use crate::options::Options;
use crate::rss::parse;
use crate::rss::ports;
use crate::rss::source;
use crate::rss::RssState;
use crate::text;
use crate::uri;
use vstd::prelude::*;

verus! {

/// The source ports that are searched by default: the unprivileged ones.
pub const DEFAULT_PORT_MIN: u16 = 1024;

pub const DEFAULT_PORT_MAX: u16 = 65535;

/// What was found where a setting may name a file.
#[derive(Clone, Debug)]
pub enum SpecFile {
    /// The setting names no file.
    NoFile,
    /// The contents of the file.
    Contents(String),
    /// Why the file cannot be read.
    Unreadable(String),
}

/// What was found for the host of a URI.
#[derive(Clone, Debug)]
pub enum HostReply {
    /// The host is an address.
    Literal(IpAddr),
    /// The addresses of the host.
    Addresses(Vec<SocketAddr>),
    /// Why the host has none.
    Unresolved(String),
}

/// What was found for the source address.
#[derive(Clone, Debug)]
pub enum SourceReply {
    /// The address that the kernel uses.
    Address(IpAddr),
    /// Why it is not known.
    Unknown(String),
}

/// What has been found out so far.
#[derive(Clone, Debug)]
pub struct Replies {
    pub key: Option<SpecFile>,
    pub indir: Option<SpecFile>,
    pub host: Option<HostReply>,
    pub source: Option<SourceReply>,
}

/// What has to be found out.
#[derive(Clone, Debug)]
pub enum Request {
    /// The file that the setting for the key may name.
    Key(String),
    /// The file that the setting for the indirection table may name.
    Indir(String),
    /// The addresses of a host, for a port.
    Host(String, u16),
    /// The source address of a connection.
    Source(SocketAddr),
}

/// Why the source ports cannot be set up.
#[derive(Clone, Debug)]
pub enum SourceError {
    /// For a reason that is told in words.
    Said(String),
    /// The addresses of the source and of the destination are of different
    /// families.
    Families(IpAddr, IpAddr),
}

/// How far the setup has come.
#[derive(Clone, Debug)]
pub enum Progress {
    /// Something has to be found out.
    Need(Request),
    /// The setup has failed.
    Fail(SourceError),
    /// The setup is done, with source ports where there is a port list.
    Done(Option<RssState>),
}

/// `Progress`, as mathematical values.
pub enum ProgressView {
    NeedKey(Seq<char>),
    NeedIndir(Seq<char>),
    NeedHost(Seq<char>, u16),
    NeedSource(IpAddr, u16),
    Said(Seq<char>),
    Families(IpAddr, IpAddr),
    Done,
    Ports { src: IpAddr, queues: nat, ports: Seq<u16> },
}

impl View for Progress {
    type V = ProgressView;

    open spec fn view(&self) -> ProgressView {
        match *self {
            Progress::Need(Request::Key(s)) => ProgressView::NeedKey(s@),
            Progress::Need(Request::Indir(s)) => ProgressView::NeedIndir(s@),
            Progress::Need(Request::Host(s, p)) => ProgressView::NeedHost(s@, p),
            Progress::Need(Request::Source(a)) => ProgressView::NeedSource(a.ip, a.port),
            Progress::Fail(SourceError::Said(s)) => ProgressView::Said(s@),
            Progress::Fail(SourceError::Families(a, b)) => ProgressView::Families(a, b),
            Progress::Done(None) => ProgressView::Done,
            Progress::Done(Some(rss)) => ProgressView::Ports {
                src: rss.src,
                queues: rss.num_queues as nat,
                ports: rss.ports@,
            },
        }
    }
}

// ---------------------------------------------------------------------------
// Which settings go together
// ---------------------------------------------------------------------------

/// Whether a client can bind its connections to source ports.
pub open spec fn binds_ports(c: ClientType) -> bool {
    c is Auto || c is Hyper || c is HyperChunked || c is HyperH2 || c is HyperMcp || c is Compio
}

/// Whether a client can bind its connections to a source port.
pub fn supports_source_ports(c: ClientType) -> (r: bool)
    ensures
        r == binds_ports(c),
{
    match c {
        ClientType::Auto
        | ClientType::Hyper
        | ClientType::HyperChunked
        | ClientType::HyperH2
        | ClientType::HyperMcp
        | ClientType::Compio => true,
        _ => false,
    }
}

/// Whether a client opens its sockets in a way that rules out a source address.
pub open spec fn cannot_bind(c: ClientType) -> bool {
    c is TokioUring || c is Monoio
}

/// Whether a client opens its sockets in a way that rules out a source address.
pub fn is_raw_socket_client(c: ClientType) -> (r: bool)
    ensures
        r == cannot_bind(c),
{
    match c {
        ClientType::TokioUring | ClientType::Monoio => true,
        _ => false,
    }
}

/// Whether source ports are asked for.
pub open spec fn manual(o: Options) -> bool {
    o.local_port_range is Some || o.rss_key is Some || o.rss_indir is Some
}

/// The number of ports of a range.
pub open spec fn range_len(range: (u16, u16)) -> nat {
    (range.1 - range.0 + 1) as nat
}

/// How the setup ends where it can end without a port list, if it does.
pub open spec fn early(o: Options) -> Option<ProgressView> {
    if !manual(o) && o.local_addr is None {
        Some(ProgressView::Done)
    } else if o.rpc != u32::MAX {
        Some(
            ProgressView::Said(
                "--local-addr/--local-port-range/--rss-* need persistent connections (omit --rpc); with --rpc N all connections use kernel-assigned ports"@,
            ),
        )
    } else if manual(o) && !binds_ports(o.client_type) {
        Some(
            ProgressView::Said(
                "--local-port-range/--rss-* need a direct-connect client (hyper, hyper-chunked, hyper-h2, compio); not supported with '"@
                    + client::client_name(o.client_type) + "'"@,
            ),
        )
    } else if o.local_addr is Some && cannot_bind(o.client_type) {
        Some(
            ProgressView::Said(
                "--local-addr is not supported with '"@ + client::client_name(o.client_type)
                    + "' client"@,
            ),
        )
    } else if o.connections == 0 {
        Some(ProgressView::Done)
    } else if o.local_port_range matches Some(range) && range_len(range) < o.connections {
        Some(
            ProgressView::Said(
                "--local-port-range holds "@ + text::decimal(range_len(o.local_port_range->0))
                    + " ports but "@ + text::decimal(o.connections as nat)
                    + " connections were requested; widen the range"@,
            ),
        )
    } else if o.rss_key is None && o.rss_indir is None {
        Some(ProgressView::Done)
    } else if o.rss_key is None {
        Some(
            ProgressView::Said(
                "--rss-indir needs --rss-key (dump it on the server with `ethtool --show-rxfh <iface>`, then pass --rss-key @file)"@,
            ),
        )
    } else if o.rss_indir is None {
        Some(
            ProgressView::Said(
                "--rss-key needs --rss-indir (queue count, queue list, or @file with `ethtool -x` output)"@,
            ),
        )
    } else {
        None
    }
}

/// A failure that is told in words.
fn said(s: String) -> (p: Progress)
    ensures
        p@ == ProgressView::Said(s@),
{
    Progress::Fail(SourceError::Said(s))
}

/// How the setup ends where it can end without a port list, if it does.
fn end_early(o: &Options) -> (r: Option<Progress>)
    requires
        o.local_port_range matches Some(range) ==> range.0 <= range.1,
    ensures
        match r {
            Some(p) => early(*o) == Some(p@),
            None => early(*o) is None,
        },
{
    let wanted: bool = o.local_port_range.is_some() || o.rss_key.is_some()
        || o.rss_indir.is_some();
    if !wanted && o.local_addr.is_none() {
        return Some(Progress::Done(None));
    }
    if o.rpc != 0xffff_ffff {
        return Some(
            said(
                "--local-addr/--local-port-range/--rss-* need persistent connections (omit --rpc); with --rpc N all connections use kernel-assigned ports".to_string(),
            ),
        );
    }
    if wanted && !supports_source_ports(o.client_type) {
        let mut s =
            "--local-port-range/--rss-* need a direct-connect client (hyper, hyper-chunked, hyper-h2, compio); not supported with '".to_string();
        s.append(o.client_type.name());
        s.append("'");
        return Some(said(s));
    }
    if o.local_addr.is_some() && is_raw_socket_client(o.client_type) {
        let mut s = "--local-addr is not supported with '".to_string();
        s.append(o.client_type.name());
        s.append("' client");
        return Some(said(s));
    }
    if o.connections == 0 {
        return Some(Progress::Done(None));
    }
    match o.local_port_range {
        Some((start, end)) => {
            let len: usize = (end as u32 - start as u32 + 1) as usize;
            if len < o.connections {
                let mut s = "--local-port-range holds ".to_string();
                s.append(text::decimal_string(len as u64).as_str());
                s.append(" ports but ");
                s.append(text::decimal_string(o.connections as u64).as_str());
                s.append(" connections were requested; widen the range");
                return Some(said(s));
            }
        },
        None => {},
    }
    if o.rss_key.is_none() && o.rss_indir.is_none() {
        return Some(Progress::Done(None));
    }
    if o.rss_key.is_none() {
        return Some(
            said(
                "--rss-indir needs --rss-key (dump it on the server with `ethtool --show-rxfh <iface>`, then pass --rss-key @file)".to_string(),
            ),
        );
    }
    if o.rss_indir.is_none() {
        return Some(
            said(
                "--rss-key needs --rss-indir (queue count, queue list, or @file with `ethtool -x` output)".to_string(),
            ),
        );
    }
    None
}

// ---------------------------------------------------------------------------
// The key and the indirection table
// ---------------------------------------------------------------------------

/// The file that a setting names: the one behind an at sign, or the setting
/// itself where it is the path of a file.
pub open spec fn named_file(spec: Seq<char>, is_file: bool) -> Option<Seq<char>> {
    if spec.len() > 0 && spec.first() == '@' {
        Some(spec.drop_first())
    } else if is_file {
        Some(spec)
    } else {
        None
    }
}

/// The file that a setting names. `is_file` says whether the setting is the path
/// of a file.
pub fn spec_path(spec: &str, is_file: bool) -> (r: Option<String>)
    ensures
        uri::opt_text(r) == named_file(spec@, is_file),
{
    let v = text::chars_of(spec);
    if v.len() > 0 && v[0] == '@' {
        let rest: &[char] = &v.as_slice()[1..v.len()];
        assert(rest@ == spec@.drop_first());
        return Some(text::string_of(rest));
    }
    if is_file {
        Some(spec.to_string())
    } else {
        None
    }
}

/// The words for a file that cannot be read.
pub fn unreadable(path: &str, why: &str) -> (s: String)
    ensures
        s@ == "cannot read '"@ + path@ + "': "@ + why@,
{
    let mut s = "cannot read '".to_string();
    s.append(path);
    s.append("': ");
    s.append(why);
    s
}

/// The key that a setting stands for: the one in the output of `ethtool`, a file
/// in hexadecimal, or the setting itself in hexadecimal.
pub open spec fn key_of(spec: Seq<char>, file: SpecFile) -> Result<Seq<u8>, Seq<char>> {
    match file {
        SpecFile::Unreadable(why) => Err(why@),
        SpecFile::Contents(c) => match parse::ethtool_key(c@) {
            Some(key) => Ok(key),
            None => match parse::hex_key(c@) {
                Ok(key) => Ok(key),
                Err(e) => Err("cannot parse RSS key from file: "@ + e),
            },
        },
        SpecFile::NoFile => match parse::hex_key(spec) {
            Ok(key) => Ok(key),
            Err(e) => Err("invalid --rss-key: "@ + e),
        },
    }
}

/// `prefix`, then the complaint.
fn complain<T>(prefix: &str, r: Result<Vec<T>, String>) -> (s: Result<Vec<T>, String>)
    ensures
        match r {
            Ok(v) => s == Ok::<Vec<T>, String>(v),
            Err(e) => s matches Err(m) && m@ == prefix@ + e@,
        },
{
    match r {
        Ok(v) => Ok(v),
        Err(e) => {
            let mut m = prefix.to_string();
            m.append(e.as_str());
            Err(m)
        },
    }
}

/// The key that `--rss-key` stands for.
pub fn resolve_key(spec: &str, file: &SpecFile) -> (r: Result<Vec<u8>, String>)
    ensures
        parse::same_list(r, key_of(spec@, *file)),
{
    match file {
        SpecFile::Unreadable(why) => Err(why.clone()),
        SpecFile::Contents(c) => match parse::extract_ethtool_key(c.as_str()) {
            Some(key) => Ok(key),
            None => complain("cannot parse RSS key from file: ", parse::parse_hex_key(c.as_str())),
        },
        SpecFile::NoFile => complain("invalid --rss-key: ", parse::parse_hex_key(spec)),
    }
}

/// The indirection table that a setting stands for: the one in the output of
/// `ethtool`, a file in the inline form, or the setting itself in the inline
/// form.
pub open spec fn indir_of(spec: Seq<char>, file: SpecFile) -> Result<Seq<u32>, Seq<char>> {
    match file {
        SpecFile::Unreadable(why) => Err(why@),
        SpecFile::Contents(c) => match parse::ethtool_indir(c@) {
            Some(table) => Ok(table),
            None => match parse::indir_inline(c@) {
                Ok(table) => Ok(table),
                Err(e) => Err("cannot parse RSS indirection table from file: "@ + e),
            },
        },
        SpecFile::NoFile => match parse::indir_inline(spec) {
            Ok(table) => Ok(table),
            Err(e) => Err("invalid --rss-indir: "@ + e),
        },
    }
}

/// The indirection table that `--rss-indir` stands for.
pub fn resolve_indir(spec: &str, file: &SpecFile) -> (r: Result<Vec<u32>, String>)
    ensures
        parse::same_list(r, indir_of(spec@, *file)),
{
    match file {
        SpecFile::Unreadable(why) => Err(why.clone()),
        SpecFile::Contents(c) => match parse::extract_ethtool_indir(c.as_str()) {
            Some(table) => Ok(table),
            None => complain(
                "cannot parse RSS indirection table from file: ",
                parse::parse_indir_inline(c.as_str()),
            ),
        },
        SpecFile::NoFile => complain("invalid --rss-indir: ", parse::parse_indir_inline(spec)),
    }
}

/// A table that is accepted has an entry, and a key that is accepted has at
/// least four bytes.
pub proof fn law_key_and_table_are_not_empty(spec: Seq<char>, file: SpecFile)
    ensures
        key_of(spec, file) matches Ok(key) ==> key.len() >= 4,
        indir_of(spec, file) matches Ok(table) ==> table.len() > 0,
{
    match file {
        SpecFile::Contents(c) => {
            if parse::indir_inline(c@) is Ok {
                parse::law_indir_is_a_power_of_two(c@);
            }
        },
        _ => {
            if parse::indir_inline(spec) is Ok {
                parse::law_indir_is_a_power_of_two(spec);
            }
        },
    }
}

// ---------------------------------------------------------------------------
// The destination
// ---------------------------------------------------------------------------

/// The port of a URI: the one that it names, or the one of its scheme. `--port`
/// overrides both.
pub open spec fn port_of(u: uri::UriView, o: Options) -> u16 {
    match (o.port, u.port) {
        (Some(p), _) => p,
        (None, Some((_, p))) => p,
        (None, None) => if uri::is_https(u) {
            443
        } else {
            80
        },
    }
}

/// The port of a URI.
fn uri_port(u: &uri::Uri, o: &Options) -> (p: u16)
    ensures
        p == port_of(u@, *o),
{
    match o.port {
        Some(p) => p,
        None => match &u.port {
            Some((_, p)) => *p,
            None => if uri::has_https(u) {
                443
            } else {
                80
            },
        },
    }
}

/// The destination that a further URI names, as text: a URI without a host names
/// that of the first, and a text that is no URI stands for itself.
pub open spec fn named_by(
    s: Seq<char>,
    parsed: Result<uri::UriView, Seq<char>>,
    host: Seq<char>,
    o: Options,
) -> Seq<char> {
    match parsed {
        Ok(u) => uri::endpoint(
            match u.host {
                Some(h) => h,
                None => host,
            },
            port_of(u, o),
        ),
        Err(_) => s,
    }
}

/// The destination that a further URI names, as text.
pub fn further_destination(
    s: &str,
    parsed: Result<uri::Uri, String>,
    host: &str,
    o: &Options,
) -> (r: String)
    ensures
        r@ == named_by(
            s@,
            match parsed {
                Ok(u) => Ok(u@),
                Err(e) => Err(e@),
            },
            host@,
            *o,
        ),
{
    match parsed {
        Ok(u) => {
            let port: u16 = uri_port(&u, o);
            match &u.host {
                Some(h) => uri::build_conn_endpoint(h.as_str(), port),
                None => uri::build_conn_endpoint(host, port),
            }
        },
        Err(_) => s.to_string(),
    }
}

/// Whether any of the URIs from place `i` on names another destination.
pub open spec fn mixed_from(uris: Seq<String>, i: int, host: Seq<char>, port: u16, o: Options) -> bool {
    exists|j: int|
        i <= j < uris.len() && named_by(
            (#[trigger] uris[j])@,
            uri::parsed_uri(uris[j]@),
            host,
            o,
        ) != uri::endpoint(host, port)
}

/// Whether the URIs name several destinations.
fn has_mixed(o: &Options, host: &str, port: u16) -> (r: bool)
    ensures
        r == mixed_from(o.uri@, 1, host@, port, *o),
{
    let first = uri::build_conn_endpoint(host, port);
    let mut i: usize = 1;
    while i < o.uri.len()
        invariant
            1 <= i,
            first@ == uri::endpoint(host@, port),
            forall|j: int|
                1 <= j < i && j < o.uri@.len() ==> named_by(
                    (#[trigger] o.uri@[j])@,
                    uri::parsed_uri(o.uri@[j]@),
                    host@,
                    *o,
                ) == uri::endpoint(host@, port),
        decreases o.uri.len() - i,
    {
        let s = o.uri[i].as_str();
        let other = further_destination(s, uri::read_uri(s), host, o);
        if !text::same_str(other.as_str(), first.as_str()) {
            assert(named_by(o.uri@[i as int]@, uri::parsed_uri(o.uri@[i as int]@), host@, *o)
                != uri::endpoint(host@, port));
            return true;
        }
        i += 1;
    }
    false
}

/// The host and the port of the first URI, or why there is none.
pub open spec fn destination(o: Options) -> Result<(Seq<char>, u16), Seq<char>> {
    if o.uri@.len() == 0 {
        Err("missing URI"@)
    } else {
        destination_of(uri::uri_or_complaint(uri::parsed_uri(o.uri@[0]@)), o)
    }
}

/// The host and the port of a URI, or why there is none.
pub open spec fn destination_of(parsed: Result<uri::UriView, Seq<char>>, o: Options) -> Result<
    (Seq<char>, u16),
    Seq<char>,
> {
    match parsed {
        Err(e) => Err(e),
        Ok(u) => match u.host {
            Some(h) => Ok((h, port_of(u, o))),
            None => Err("no host in uri"@),
        },
    }
}

/// The host and the port of a URI that has been read.
pub fn read_destination(parsed: Result<uri::Uri, String>, o: &Options) -> (r: Result<
    (String, u16),
    String,
>)
    ensures
        match (
            destination_of(
                match parsed {
                    Ok(u) => Ok(u@),
                    Err(e) => Err(e@),
                },
                *o,
            ),
            r,
        ) {
            (Ok(want), Ok(d)) => d.0@ == want.0 && d.1 == want.1,
            (Err(want), Err(e)) => e@ == want,
            _ => false,
        },
{
    match parsed {
        Err(e) => Err(e),
        Ok(u) => match &u.host {
            Some(h) => Ok((h.clone(), uri_port(&u, o))),
            None => Err("no host in uri".to_string()),
        },
    }
}

/// The host and the port of the first URI.
fn find_destination(o: &Options) -> (r: Result<(String, u16), String>)
    ensures
        match (destination(*o), r) {
            (Ok(want), Ok(d)) => d.0@ == want.0 && d.1 == want.1,
            (Err(want), Err(e)) => e@ == want,
            _ => false,
        },
{
    if o.uri.len() == 0 {
        return Err("missing URI".to_string());
    }
    read_destination(uri::parse_uri(o.uri[0].as_str()), o)
}

// ---------------------------------------------------------------------------
// Addresses
// ---------------------------------------------------------------------------

/// The number of addresses before the first of a family.
pub open spec fn family_prefix(list: Seq<SocketAddr>, v4: bool) -> nat
    decreases list.len(),
{
    if list.len() == 0 || (list.first().ip is V4) == v4 {
        0
    } else {
        1 + family_prefix(list.drop_first(), v4)
    }
}

/// The address to use of several: the first of the family that is preferred, or
/// the first of all.
pub open spec fn preferred(list: Seq<SocketAddr>, prefer: Option<IpAddr>) -> IpAddr {
    match prefer {
        Some(p) => {
            let k = family_prefix(list, p is V4) as int;
            if k < list.len() {
                list[k].ip
            } else {
                list[0].ip
            }
        },
        None => list[0].ip,
    }
}

proof fn lemma_family_prefix_is(list: Seq<SocketAddr>, v4: bool, k: nat)
    requires
        k <= list.len(),
        k < list.len() ==> (list[k as int].ip is V4) == v4,
        forall|i: int| 0 <= i < k ==> ((#[trigger] list[i]).ip is V4) != v4,
    ensures
        family_prefix(list, v4) == k,
    decreases list.len(),
{
    if k > 0 {
        assert((list[0].ip is V4) != v4);
        let t = list.drop_first();
        assert forall|i: int| 0 <= i < k - 1 implies ((#[trigger] t[i]).ip is V4) != v4 by {
            assert(t[i] == list[i + 1]);
        }
        lemma_family_prefix_is(t, v4, (k - 1) as nat);
    }
}

/// The place of the first address of a family, or the number of addresses.
pub fn first_of_family(list: &Vec<SocketAddr>, v4: bool) -> (k: usize)
    ensures
        k == family_prefix(list@, v4),
        k <= list.len(),
{
    let mut k: usize = 0;
    while k < list.len() && list[k].ip.is_ipv4() != v4
        invariant
            k <= list.len(),
            forall|i: int| 0 <= i < k ==> ((#[trigger] list@[i]).ip is V4) != v4,
        decreases list.len() - k,
    {
        k += 1;
    }
    proof {
        lemma_family_prefix_is(list@, v4, k as nat);
    }
    k
}

/// The address of a host, or why it has none.
pub open spec fn host_address(
    host: Seq<char>,
    reply: HostReply,
    prefer: Option<IpAddr>,
) -> Result<IpAddr, Seq<char>> {
    match reply {
        HostReply::Literal(ip) => Ok(ip),
        HostReply::Unresolved(why) => Err("cannot resolve '"@ + host + "': "@ + why@),
        HostReply::Addresses(list) => if list@.len() == 0 {
            Err("cannot resolve '"@ + host + "'"@)
        } else {
            Ok(preferred(list@, prefer))
        },
    }
}

/// The address of a host: an address of the family of `prefer`, if it has one.
pub fn resolve_host(host: &str, reply: &HostReply, prefer: Option<IpAddr>) -> (r: Result<
    IpAddr,
    String,
>)
    ensures
        parse::same_result(r, host_address(host@, *reply, prefer)),
{
    match reply {
        HostReply::Literal(ip) => Ok(*ip),
        HostReply::Unresolved(why) => {
            let mut s = "cannot resolve '".to_string();
            s.append(host);
            s.append("': ");
            s.append(why.as_str());
            Err(s)
        },
        HostReply::Addresses(list) => {
            if list.len() == 0 {
                let mut s = "cannot resolve '".to_string();
                s.append(host);
                s.append("'");
                return Err(s);
            }
            match prefer {
                Some(p) => {
                    let k: usize = first_of_family(list, p.is_ipv4());
                    if k < list.len() {
                        return Ok(list[k].ip);
                    }
                },
                None => {},
            }
            Ok(list[0].ip)
        },
    }
}

// ---------------------------------------------------------------------------
// The port list
// ---------------------------------------------------------------------------

/// The ports from `min` to `max`.
pub open spec fn port_list(min: u16, max: u16) -> Seq<u16> {
    Seq::new((max - min + 1) as nat, |i: int| (min + i) as u16)
}

/// The ports from `min` to `max`.
fn list_ports(min: u16, max: u16) -> (v: Vec<u16>)
    requires
        min <= max,
    ensures
        v@ == port_list(min, max),
{
    let mut v: Vec<u16> = Vec::new();
    let mut p: u32 = min as u32;
    while p <= max as u32
        invariant
            min <= p <= max + 1,
            v@ == port_list(min, max).take(p - min),
        decreases max + 1 - p,
    {
        v.push(p as u16);
        p += 1;
    }
    assert(port_list(min, max).take(max - min + 1) == port_list(min, max));
    v
}

/// The source ports that are searched.
pub open spec fn searched(o: Options) -> (u16, u16) {
    match o.local_port_range {
        Some(range) => range,
        None => (DEFAULT_PORT_MIN, DEFAULT_PORT_MAX),
    }
}

/// The port list of a run, or why there is none.
pub open spec fn ports_stage(
    o: Options,
    key: Seq<u8>,
    indir: Seq<u32>,
    src: IpAddr,
    dst: IpAddr,
    dport: u16,
) -> ProgressView {
    let (min, max) = searched(o);
    let list = ports::ports_in(
        ports::balanced(key, indir, src, dst, dport, port_list(min, max)),
    );
    if !src.same_family(dst) {
        ProgressView::Families(src, dst)
    } else if range_len((min, max)) < o.connections {
        ProgressView::Said(
            "port range holds "@ + text::decimal(range_len((min, max))) + " ports but "@
                + text::decimal(o.connections as nat) + " connections were requested"@,
        )
    } else if indir.len() > u32::MAX {
        ProgressView::Said("RSS indirection table is too large"@)
    } else if list.len() < o.connections {
        ProgressView::Said(
            "only "@ + text::decimal(list.len())
                + " usable source ports found; widen --local-port-range"@,
        )
    } else {
        ProgressView::Ports { src, queues: indir.to_set().len(), ports: list }
    }
}

/// The port list of a run, or why there is none.
fn choose_ports(
    o: &Options,
    key: &Vec<u8>,
    indir: &Vec<u32>,
    src: IpAddr,
    dst: IpAddr,
    dport: u16,
) -> (p: Progress)
    requires
        o.local_port_range matches Some(range) ==> range.0 <= range.1,
    ensures
        p@ == ports_stage(*o, key@, indir@, src, dst, dport),
{
    if src.is_ipv4() != dst.is_ipv4() {
        return Progress::Fail(SourceError::Families(src, dst));
    }
    let (min, max): (u16, u16) = match o.local_port_range {
        Some(range) => range,
        None => (DEFAULT_PORT_MIN, DEFAULT_PORT_MAX),
    };
    let len: usize = (max as u32 - min as u32 + 1) as usize;
    if len < o.connections {
        let mut s = "port range holds ".to_string();
        s.append(text::decimal_string(len as u64).as_str());
        s.append(" ports but ");
        s.append(text::decimal_string(o.connections as u64).as_str());
        s.append(" connections were requested");
        return said(s);
    }
    if indir.len() as u64 > 0xffff_ffff {
        return said("RSS indirection table is too large".to_string());
    }
    let candidates = list_ports(min, max);
    let (list, _queues) = ports::build_balanced_ports(
        key.as_slice(),
        indir.as_slice(),
        src,
        dst,
        dport,
        candidates.as_slice(),
    );
    if list.len() < o.connections {
        let mut s = "only ".to_string();
        s.append(text::decimal_string(list.len() as u64).as_str());
        s.append(" usable source ports found; widen --local-port-range");
        return said(s);
    }
    let num_queues: usize = source::distinct_queues(indir.as_slice());
    Progress::Done(Some(RssState { src, num_queues, ports: list }))
}

// ---------------------------------------------------------------------------
// The whole setup
// ---------------------------------------------------------------------------

/// The warning that a key is of an unusual length, where it is.
pub open spec fn key_warning(key: Seq<u8>) -> Seq<Seq<char>> {
    if key.len() == 40 {
        Seq::empty()
    } else {
        seq![
            "warning: RSS key is "@ + text::decimal(key.len())
                + " bytes (standard is 40); hash prediction assumes the NIC uses this exact key"@,
        ]
    }
}

/// The warning that the URIs name several destinations, where they do.
pub open spec fn mixed_warning(o: Options, host: Seq<char>, port: u16) -> Seq<Seq<char>> {
    if mixed_from(o.uri@, 1, host, port, o) {
        seq![
            "warning: RSS balancing is computed for "@ + uri::endpoint(host, port)
                + "; other URIs may hash to different server queues"@,
        ]
    } else {
        Seq::empty()
    }
}

/// The source address, or how the setup goes on where it is not known.
pub open spec fn source_stage(
    o: Options,
    reply: Option<SourceReply>,
    dst: IpAddr,
    dport: u16,
) -> Result<IpAddr, ProgressView> {
    match (o.local_addr, reply) {
        (Some(ip), _) => Ok(ip),
        (None, None) => Err(ProgressView::NeedSource(dst, dport)),
        (None, Some(SourceReply::Address(ip))) => Ok(ip),
        (None, Some(SourceReply::Unknown(why))) => Err(
            ProgressView::Said(
                "cannot detect source IP: "@ + why@
                    + " (specify the source IP explicitly with --local-addr)"@,
            ),
        ),
    }
}

/// How far the setup comes once the key, the table and the destination are
/// known.
pub open spec fn address_stage(
    o: Options,
    r: Replies,
    key: Seq<u8>,
    indir: Seq<u32>,
    host: Seq<char>,
    port: u16,
) -> (Seq<Seq<char>>, ProgressView) {
    match r.host {
        None => (Seq::empty(), ProgressView::NeedHost(host, port)),
        Some(reply) => match host_address(host, reply, o.local_addr) {
            Err(e) => (Seq::empty(), ProgressView::Said(e)),
            Ok(dst) => (
                mixed_warning(o, host, port),
                match source_stage(o, r.source, dst, port) {
                    Err(p) => p,
                    Ok(src) => ports_stage(o, key, indir, src, dst, port),
                },
            ),
        },
    }
}

/// How far the setup comes with a key and a table, and what it warns of.
pub open spec fn rss_stage(o: Options, r: Replies) -> (Seq<Seq<char>>, ProgressView) {
    match r.key {
        None => (Seq::empty(), ProgressView::NeedKey(o.rss_key->0@)),
        Some(key_file) => match key_of(o.rss_key->0@, key_file) {
            Err(e) => (Seq::empty(), ProgressView::Said(e)),
            Ok(key) => match r.indir {
                None => (key_warning(key), ProgressView::NeedIndir(o.rss_indir->0@)),
                Some(indir_file) => match indir_of(o.rss_indir->0@, indir_file) {
                    Err(e) => (key_warning(key), ProgressView::Said(e)),
                    Ok(indir) => match destination(o) {
                        Err(e) => (key_warning(key), ProgressView::Said(e)),
                        Ok((host, port)) => {
                            let (warnings, p) = address_stage(o, r, key, indir, host, port);
                            (key_warning(key) + warnings, p)
                        },
                    },
                },
            },
        },
    }
}

/// How far the setup comes, and what it warns of.
pub open spec fn setup_stage(o: Options, r: Replies) -> (Seq<Seq<char>>, ProgressView) {
    match early(o) {
        Some(p) => (Seq::empty(), p),
        None => rss_stage(o, r),
    }
}

/// The texts of a list of strings.
pub open spec fn texts(v: Seq<String>) -> Seq<Seq<char>> {
    v.map_values(|s: String| s@)
}

/// The source address, or how the setup goes on where it is not known.
fn find_source(o: &Options, reply: &Option<SourceReply>, dst: IpAddr, dport: u16) -> (r: Result<
    IpAddr,
    Progress,
>)
    ensures
        match (r, source_stage(*o, *reply, dst, dport)) {
            (Ok(a), Ok(b)) => a == b,
            (Err(a), Err(b)) => a@ == b,
            _ => false,
        },
{
    match o.local_addr {
        Some(ip) => Ok(ip),
        None => match reply {
            None => Err(Progress::Need(Request::Source(SocketAddr { ip: dst, port: dport }))),
            Some(SourceReply::Address(ip)) => Ok(*ip),
            Some(SourceReply::Unknown(why)) => {
                let mut s = "cannot detect source IP: ".to_string();
                s.append(why.as_str());
                s.append(" (specify the source IP explicitly with --local-addr)");
                Err(said(s))
            },
        },
    }
}

/// Adds a warning.
fn warn(warnings: &mut Vec<String>, s: String)
    ensures
        texts(final(warnings)@) == texts(old(warnings)@) + seq![s@],
{
    let ghost before = texts(warnings@);
    warnings.push(s);
    assert(texts(warnings@) == before + seq![s@]);
}

/// Goes on once the key, the table and the destination are known.
fn advance_addresses(
    o: &Options,
    r: &Replies,
    key: &Vec<u8>,
    indir: &Vec<u32>,
    host: &str,
    port: u16,
    warnings: &mut Vec<String>,
) -> (p: Progress)
    requires
        o.local_port_range matches Some(range) ==> range.0 <= range.1,
    ensures
        ({
            let (more, want) = address_stage(*o, *r, key@, indir@, host@, port);
            p@ == want && texts(final(warnings)@) == texts(old(warnings)@) + more
        }),
{
    let ghost before = texts(warnings@);
    assert(before + Seq::<Seq<char>>::empty() == before);
    let dst: IpAddr = match &r.host {
        None => {
            return Progress::Need(Request::Host(host.to_string(), port));
        },
        Some(reply) => match resolve_host(host, reply, o.local_addr) {
            Ok(ip) => ip,
            Err(e) => {
                return said(e);
            },
        },
    };
    if has_mixed(o, host, port) {
        let mut s = "warning: RSS balancing is computed for ".to_string();
        s.append(uri::build_conn_endpoint(host, port).as_str());
        s.append("; other URIs may hash to different server queues");
        warn(warnings, s);
    }
    match find_source(o, &r.source, dst, port) {
        Err(p) => p,
        Ok(src) => choose_ports(o, key, indir, src, dst, port),
    }
}

/// Goes on with a key and a table.
fn advance_rss(o: &Options, r: &Replies, warnings: &mut Vec<String>) -> (p: Progress)
    requires
        o.local_port_range matches Some(range) ==> range.0 <= range.1,
        o.rss_key is Some,
        o.rss_indir is Some,
    ensures
        ({
            let (more, want) = rss_stage(*o, *r);
            p@ == want && texts(final(warnings)@) == texts(old(warnings)@) + more
        }),
{
    let ghost before = texts(warnings@);
    assert(before + Seq::<Seq<char>>::empty() == before);
    let key_spec: &str = match &o.rss_key {
        Some(s) => s.as_str(),
        None => "",
    };
    let indir_spec: &str = match &o.rss_indir {
        Some(s) => s.as_str(),
        None => "",
    };
    let key: Vec<u8> = match &r.key {
        None => {
            return Progress::Need(Request::Key(key_spec.to_string()));
        },
        Some(file) => match resolve_key(key_spec, file) {
            Ok(key) => key,
            Err(e) => {
                return said(e);
            },
        },
    };
    if key.len() != 40 {
        let mut s = "warning: RSS key is ".to_string();
        s.append(text::decimal_string(key.len() as u64).as_str());
        s.append(" bytes (standard is 40); hash prediction assumes the NIC uses this exact key");
        warn(warnings, s);
    }
    let ghost warned = texts(warnings@);
    assert(warned == before + key_warning(key@));
    let indir: Vec<u32> = match &r.indir {
        None => {
            return Progress::Need(Request::Indir(indir_spec.to_string()));
        },
        Some(file) => match resolve_indir(indir_spec, file) {
            Ok(table) => table,
            Err(e) => {
                return said(e);
            },
        },
    };
    let (host, port) = match find_destination(o) {
        Ok(d) => d,
        Err(e) => {
            return said(e);
        },
    };
    let p = advance_addresses(o, r, &key, &indir, host.as_str(), port, warnings);
    proof {
        let (more, want) = address_stage(*o, *r, key@, indir@, host@, port);
        assert(before + (key_warning(key@) + more) == (before + key_warning(key@)) + more);
    }
    p
}

/// How far the setup comes with what has been found out, and what it warns of.
pub fn plan_sources(o: &Options, r: &Replies) -> (res: (Vec<String>, Progress))
    requires
        o.local_port_range matches Some(range) ==> range.0 <= range.1,
    ensures
        texts(res.0@) == setup_stage(*o, *r).0,
        res.1@ == setup_stage(*o, *r).1,
{
    let mut warnings: Vec<String> = Vec::new();
    assert(texts(warnings@) == Seq::<Seq<char>>::empty());
    match end_early(o) {
        Some(p) => (warnings, p),
        None => {
            let p = advance_rss(o, r, &mut warnings);
            assert(Seq::<Seq<char>>::empty() + setup_stage(*o, *r).0 == setup_stage(*o, *r).0);
            (warnings, p)
        },
    }
}

/// Whether the settings ask for source addresses at all.
pub open spec fn asks_for_sources(o: Options) -> bool {
    manual(o) || o.local_addr is Some
}

/// Sets the number of connections of the whole run.
fn set_total(opts: &mut Options, total: usize)
    ensures
        options::same_settings(*old(opts), *final(opts)),
        final(opts).method == old(opts).method,
        final(opts).body == old(opts).body,
        final(opts).client_type == old(opts).client_type,
        final(opts).total_connections == total,
        final(opts).rss == old(opts).rss,
{
    opts.total_connections = total;
}

/// Sets the number of connections of the whole run, and the port list.
fn set_ports(opts: &mut Options, total: usize, list: RssState)
    ensures
        options::same_settings(*old(opts), *final(opts)),
        final(opts).method == old(opts).method,
        final(opts).body == old(opts).body,
        final(opts).client_type == old(opts).client_type,
        final(opts).total_connections == total,
        final(opts).rss == Some(list),
{
    opts.total_connections = total;
    opts.rss = Some(list);
}

/// Checks the settings of the source ports and computes the port list.
///
/// The result says what has to be found out, or nothing where the setup is done.
/// Beside it stands what the user is to be warned of, from the start on. Once the
/// answer is among `replies`, the setup is to be called again. The source address
/// of each connection is then found by `source_candidates`.
pub fn init_source_ports(opts: &mut Options, replies: &Replies) -> (r: (
    Vec<String>,
    Result<Option<Request>, SourceError>,
))
    requires
        old(opts).local_port_range matches Some(range) ==> range.0 <= range.1,
    ensures
        texts(r.0@) == setup_stage(*old(opts), *replies).0,
        match r.1 {
            Ok(Some(request)) => Progress::Need(request)@ == setup_stage(*old(opts), *replies).1,
            Err(e) => Progress::Fail(e)@ == setup_stage(*old(opts), *replies).1,
            Ok(None) => setup_stage(*old(opts), *replies).1 is Done || setup_stage(
                *old(opts),
                *replies,
            ).1 is Ports,
        },
        options::same_settings(*old(opts), *final(opts)),
        final(opts).method == old(opts).method,
        final(opts).body == old(opts).body,
        final(opts).client_type == old(opts).client_type,
        final(opts).total_connections == (if asks_for_sources(*old(opts)) {
            old(opts).connections
        } else {
            old(opts).total_connections
        }),
        match setup_stage(*old(opts), *replies).1 {
            ProgressView::Ports { src, queues, ports } => final(opts).rss matches Some(rss)
                && rss.src == src && rss.num_queues == queues && rss.ports@ == ports,
            _ => final(opts).rss == old(opts).rss,
        },
{
    let asks: bool = opts.local_port_range.is_some() || opts.rss_key.is_some()
        || opts.rss_indir.is_some() || opts.local_addr.is_some();
    let total: usize = if asks {
        opts.connections
    } else {
        opts.total_connections
    };
    let (warnings, p) = plan_sources(opts, replies);
    match p {
        Progress::Need(request) => {
            set_total(opts, total);
            (warnings, Ok(Some(request)))
        },
        Progress::Fail(e) => {
            set_total(opts, total);
            (warnings, Err(e))
        },
        Progress::Done(None) => {
            set_total(opts, total);
            (warnings, Ok(None))
        },
        Progress::Done(Some(list)) => {
            set_ports(opts, total, list);
            (warnings, Ok(None))
        },
    }
}

/// Source ports that were set up can be used: there is a port for every
/// connection, and every address that is asked for can be computed.
pub proof fn law_setup_makes_sources_valid(before: Options, after: Options, r: Replies)
    requires
        before.local_port_range matches Some(range) ==> range.0 <= range.1,
        options::same_settings(before, after),
        after.total_connections == before.connections,
        setup_stage(before, r).1 is Ports,
        setup_stage(before, r).1 matches ProgressView::Ports { src, queues, ports } ==> (
        after.rss matches Some(rss) && rss.src == src && rss.num_queues == queues && rss.ports@
            == ports),
    ensures
        source::selects_sources(after),
        source::sources_valid(after),
        after.rss->0.ports@.len() >= after.total_connections,
{
    let (min, max) = searched(before);
    let key = key_of(before.rss_key->0@, r.key->0)->Ok_0;
    let indir = indir_of(before.rss_indir->0@, r.indir->0)->Ok_0;
    let (host, port) = destination(before)->Ok_0;
    let dst = host_address(host, r.host->0, before.local_addr)->Ok_0;
    let src = source_stage(before, r.source, dst, port)->Ok_0;
    law_key_and_table_are_not_empty(before.rss_key->0@, r.key->0);
    law_key_and_table_are_not_empty(before.rss_indir->0@, r.indir->0);
    let list = port_list(min, max);
    assert(setup_stage(before, r).1 == ports_stage(before, key, indir, src, dst, port));
    ports::law_ports_are_the_candidates(key, indir, src, dst, port, list);
    assert(indir.to_set().len() <= indir.len()) by {
        indir.lemma_cardinality_of_set();
    }
}

/// With a port list, no port is left out and none is listed twice: the list
/// holds every port that was searched exactly once.
pub proof fn law_port_list_is_complete(
    o: Options,
    key: Seq<u8>,
    indir: Seq<u32>,
    src: IpAddr,
    dst: IpAddr,
    dport: u16,
)
    requires
        o.local_port_range matches Some(range) ==> range.0 <= range.1,
        key.len() > 0,
        indir.len() > 0,
        ports_stage(o, key, indir, src, dst, dport) is Ports,
    ensures
        ({
            let list = ports_stage(o, key, indir, src, dst, dport)->ports;
            let (min, max) = searched(o);
            &&& list.no_duplicates()
            &&& forall|p: u16| list.contains(p) <==> min <= p <= max
        }),
{
    broadcast use vstd::seq_lib::group_to_multiset_ensures;

    let (min, max) = searched(o);
    let all = port_list(min, max);
    let list = ports_stage(o, key, indir, src, dst, dport)->ports;
    ports::law_ports_are_the_candidates(key, indir, src, dst, dport, all);
    assert(all.no_duplicates());
    all.lemma_multiset_has_no_duplicates();
    assert(list.to_multiset() == all.to_multiset());
    list.lemma_multiset_has_no_duplicates_conv();
    assert forall|p: u16| list.contains(p) <==> min <= p <= max by {
        assert(list.contains(p) <==> list.to_multiset().count(p) > 0);
        assert(all.contains(p) <==> all.to_multiset().count(p) > 0);
        if min <= p <= max {
            assert(all[p - min] == p);
        }
    }
}

/// Source ports are set up for connections that are kept open, by clients that open them
/// themselves, from ranges with a port for each connection, and with both a key and a table
/// or with neither. What else is asked for is refused, and what is not asked for is not set
/// up.
pub proof fn law_which_settings_go_together(o: Options)
    ensures
        ({
            let c = o.client_type;
            let ports = o.local_port_range is Some || o.rss_key is Some || o.rss_indir is Some;
            let asked = ports || o.local_addr is Some;
            let by_itself = c == ClientType::Auto || c == ClientType::Hyper || c
                == ClientType::HyperChunked || c == ClientType::HyperH2 || c == ClientType::HyperMcp || c
                == ClientType::Compio;
            let raw = c == ClientType::TokioUring || c == ClientType::Monoio;
            let usable = o.rpc == u32::MAX && (ports ==> by_itself) && !(o.local_addr is Some && raw);
            let narrow = o.local_port_range is Some && (o.local_port_range->0).1 - (
            o.local_port_range->0).0 + 1 < o.connections;
            &&& !asked ==> early(o) == Some(ProgressView::Done)
            &&& asked && !usable ==> early(o) is Some && early(o)->0 is Said
            &&& asked && usable && o.connections == 0 ==> early(o) == Some(ProgressView::Done)
            &&& o.local_port_range is Some && (o.local_port_range->0).0 <= (o.local_port_range->0).1
                && asked && usable && o.connections > 0 && narrow ==> early(o) is Some && early(o)->0 is Said
            &&& (o.local_port_range is Some ==> (o.local_port_range->0).0 <= (
            o.local_port_range->0).1) && asked && usable && o.connections > 0 && !narrow ==> {
                &&& o.rss_key is None && o.rss_indir is None ==> early(o) == Some(ProgressView::Done)
                &&& o.rss_key is Some && o.rss_indir is Some ==> early(o) is None
                &&& o.rss_key is Some && o.rss_indir is None ==> early(o) is Some && early(o)->0 is Said
                &&& o.rss_key is None && o.rss_indir is Some ==> early(o) is Some && early(o)->0 is Said
            }
        }),
{
}

/// A setting that starts with an at sign names the file behind it, and one that is a path
/// names the file there. Any other names none.
pub proof fn law_settings_can_name_files(spec: Seq<char>, path: Seq<char>, is_file: bool)
    ensures
        named_file(seq!['@'] + path, is_file) == Some(path),
        spec.len() == 0 || spec[0] != '@' ==> named_file(spec, true) == Some(spec) && named_file(spec, false)
            is None,
{
    assert((seq!['@'] + path).drop_first() == path);
}

/// The output of `ethtool` in a file comes first, then what stands in the file by itself. A
/// setting that names no file stands for itself, and a file that cannot be read for
/// nothing.
pub proof fn law_where_key_and_table_come_from(spec: Seq<char>, c: String, why: String)
    ensures
        parse::ethtool_key(c@) matches Some(key) ==> key_of(spec, SpecFile::Contents(c)) == Ok::<
            Seq<u8>,
            Seq<char>,
        >(key),
        parse::ethtool_key(c@) is None && parse::hex_key(c@) is Ok ==> key_of(spec, SpecFile::Contents(c))
            == parse::hex_key(c@),
        parse::ethtool_key(c@) is None && parse::hex_key(c@) is Err ==> key_of(
            spec,
            SpecFile::Contents(c),
        ) is Err,
        parse::hex_key(spec) is Ok ==> key_of(spec, SpecFile::NoFile) == parse::hex_key(spec),
        parse::hex_key(spec) is Err ==> key_of(spec, SpecFile::NoFile) is Err,
        key_of(spec, SpecFile::Unreadable(why)) is Err,
        parse::ethtool_indir(c@) matches Some(table) ==> indir_of(spec, SpecFile::Contents(c)) == Ok::<
            Seq<u32>,
            Seq<char>,
        >(table),
        parse::ethtool_indir(c@) is None && parse::indir_inline(c@) is Ok ==> indir_of(
            spec,
            SpecFile::Contents(c),
        ) == parse::indir_inline(c@),
        parse::ethtool_indir(c@) is None && parse::indir_inline(c@) is Err ==> indir_of(
            spec,
            SpecFile::Contents(c),
        ) is Err,
        parse::indir_inline(spec) is Ok ==> indir_of(spec, SpecFile::NoFile) == parse::indir_inline(spec),
        parse::indir_inline(spec) is Err ==> indir_of(spec, SpecFile::NoFile) is Err,
        indir_of(spec, SpecFile::Unreadable(why)) is Err,
{
}

/// The port of a URI is that of `--port`, or else the one that it names, or else 443 for
/// `https` and 80 for anything else.
pub proof fn law_port_of_a_uri(u: uri::UriView, o: Options, t: Seq<char>, n: u16)
    ensures
        o.port == Some(n) ==> port_of(u, o) == n,
        o.port is None && u.port == Some((t, n)) ==> port_of(u, o) == n,
        o.port is None && u.port is None && u.scheme == Some("https"@) ==> port_of(u, o) == 443,
        o.port is None && u.port is None && u.scheme != Some("https"@) ==> port_of(u, o) == 80,
{
}

/// The destination is the host and the port of the first URI.
pub proof fn law_destination_is_the_first_uri(o: Options)
    ensures
        o.uri@.len() == 0 ==> destination(o) is Err,
        o.uri@.len() > 0 && uri::parsed_uri(o.uri@[0]@) is Err ==> destination(o) is Err,
        o.uri@.len() > 0 && uri::parsed_uri(o.uri@[0]@) is Ok && uri::parsed_uri(o.uri@[0]@)->Ok_0.host
            is None ==> destination(o) is Err,
        o.uri@.len() > 0 && uri::parsed_uri(o.uri@[0]@) is Ok && uri::parsed_uri(o.uri@[0]@)->Ok_0.host
            is Some ==> destination(o) == Ok::<(Seq<char>, u16), Seq<char>>(
            (
                uri::parsed_uri(o.uri@[0]@)->Ok_0.host->0,
                port_of(uri::parsed_uri(o.uri@[0]@)->Ok_0, o),
            ),
        ),
{
}

/// Of several addresses of a host, the first of the family of the source address is used,
/// and the first of all where there is none or no source address is given.
pub proof fn law_address_of_a_host(list: Vec<SocketAddr>, host: Seq<char>, p: IpAddr, k: int, why: String)
    requires
        list@.len() > 0,
    ensures
        0 <= k < list@.len() && list@[k].ip.same_family(p) && (forall|i: int|
            0 <= i < k ==> !(#[trigger] list@[i]).ip.same_family(p)) ==> host_address(
            host,
            HostReply::Addresses(list),
            Some(p),
        ) == Ok::<IpAddr, Seq<char>>(list@[k].ip),
        (forall|i: int| 0 <= i < list@.len() ==> !(#[trigger] list@[i]).ip.same_family(p))
            ==> host_address(host, HostReply::Addresses(list), Some(p)) == Ok::<IpAddr, Seq<char>>(
            list@[0].ip,
        ),
        host_address(host, HostReply::Addresses(list), None) == Ok::<IpAddr, Seq<char>>(list@[0].ip),
        host_address(host, HostReply::Literal(p), None) == Ok::<IpAddr, Seq<char>>(p),
        host_address(host, HostReply::Literal(p), Some(list@[0].ip)) == Ok::<IpAddr, Seq<char>>(p),
        host_address(host, HostReply::Unresolved(why), Some(p)) is Err,
{
    if 0 <= k < list@.len() && list@[k].ip.same_family(p) && (forall|i: int|
        0 <= i < k ==> !(#[trigger] list@[i]).ip.same_family(p)) {
        lemma_family_prefix_is(list@, p is V4, k as nat);
    }
    if forall|i: int| 0 <= i < list@.len() ==> !(#[trigger] list@[i]).ip.same_family(p) {
        lemma_family_prefix_is(list@, p is V4, list@.len());
    }
}

/// The ports that are searched are those of the range that is given, or those from 1024 on,
/// one behind the other.
pub proof fn law_searched_ports(o: Options, min: u16, max: u16, i: int)
    requires
        min <= max,
    ensures
        o.local_port_range == Some((min, max)) ==> searched(o) == (min, max),
        o.local_port_range is None ==> searched(o) == (1024u16, 65535u16),
        port_list(min, max).len() == max - min + 1,
        0 <= i <= max - min ==> port_list(min, max)[i] == min + i,
{
}

/// A port list is set up where the addresses are of one family and there is a port for each
/// connection: it is the balanced list of the ports that are searched, with the number of
/// different queues in the table.
pub proof fn law_port_list_is_balanced(
    o: Options,
    key: Seq<u8>,
    indir: Seq<u32>,
    src: IpAddr,
    dst: IpAddr,
    dport: u16,
)
    requires
        o.local_port_range matches Some(range) ==> range.0 <= range.1,
        key.len() > 0,
        0 < indir.len() <= u32::MAX,
    ensures
        ({
            let p = ports_stage(o, key, indir, src, dst, dport);
            let (min, max) = searched(o);
            &&& !src.same_family(dst) ==> p == ProgressView::Families(src, dst)
            &&& src.same_family(dst) && max - min + 1 < o.connections ==> p is Said
            &&& src.same_family(dst) && max - min + 1 >= o.connections ==> {
                &&& p is Ports
                &&& p->src == src
                &&& p->queues == indir.to_set().len()
                &&& p->ports == ports::ports_in(
                    ports::balanced(key, indir, src, dst, dport, port_list(min, max)),
                )
                &&& p->ports.len() == max - min + 1
            }
        }),
{
    let (min, max) = searched(o);
    if src.same_family(dst) {
        ports::law_ports_are_the_candidates(key, indir, src, dst, dport, port_list(min, max));
    }
}

/// The setup finds out one thing after the other: the key, the table, the addresses of the
/// host and, where none is given, the source address. What cannot be had ends it.
pub proof fn law_setup_asks_in_turn(o: Options, r: Replies)
    requires
        early(o) is None,
    ensures
        r.key is None ==> setup_stage(o, r).1 == ProgressView::NeedKey(o.rss_key->0@),
        r.key is Some && key_of(o.rss_key->0@, r.key->0) is Err ==> setup_stage(o, r).1 is Said,
        r.key is Some && key_of(o.rss_key->0@, r.key->0) is Ok && r.indir is None ==> setup_stage(o, r).1
            == ProgressView::NeedIndir(o.rss_indir->0@),
        r.key is Some && key_of(o.rss_key->0@, r.key->0) is Ok && r.indir is Some && indir_of(
            o.rss_indir->0@,
            r.indir->0,
        ) is Err ==> setup_stage(o, r).1 is Said,
        r.key is Some && key_of(o.rss_key->0@, r.key->0) is Ok && r.indir is Some && indir_of(
            o.rss_indir->0@,
            r.indir->0,
        ) is Ok ==> {
            &&& destination(o) is Err ==> setup_stage(o, r).1 is Said
            &&& destination(o) is Ok && r.host is None ==> setup_stage(o, r).1 == ProgressView::NeedHost(
                (destination(o)->Ok_0).0,
                (destination(o)->Ok_0).1,
            )
            &&& destination(o) is Ok && r.host is Some && host_address(
                (destination(o)->Ok_0).0,
                r.host->0,
                o.local_addr,
            ) is Err ==> setup_stage(o, r).1 is Said
            &&& destination(o) is Ok && r.host is Some && host_address(
                (destination(o)->Ok_0).0,
                r.host->0,
                o.local_addr,
            ) is Ok ==> {
                let dst = host_address(
                    (destination(o)->Ok_0).0,
                    r.host->0,
                    o.local_addr,
                )->Ok_0;
                let dport = (destination(o)->Ok_0).1;
                let key = key_of(o.rss_key->0@, r.key->0)->Ok_0;
                let indir = indir_of(o.rss_indir->0@, r.indir->0)->Ok_0;
                &&& o.local_addr is Some ==> setup_stage(o, r).1 == ports_stage(
                    o,
                    key,
                    indir,
                    o.local_addr->0,
                    dst,
                    dport,
                )
                &&& o.local_addr is None && r.source is None ==> setup_stage(o, r).1
                    == ProgressView::NeedSource(dst, dport)
                &&& o.local_addr is None && r.source is Some ==> match r.source->0 {
                    SourceReply::Address(ip) => setup_stage(o, r).1 == ports_stage(
                        o,
                        key,
                        indir,
                        ip,
                        dst,
                        dport,
                    ),
                    SourceReply::Unknown(_) => setup_stage(o, r).1 is Said,
                }
            }
        },
{
}

/// The user is warned of a key that has not 40 bytes, and of URIs that name different
/// destinations. Where neither is the case nothing is said.
pub proof fn law_when_the_user_is_warned(key: Seq<u8>, o: Options, host: Seq<char>, port: u16, j: int)
    ensures
        key_warning(key).len() == (if key.len() == 40 {
            0nat
        } else {
            1
        }),
        o.uri@.len() <= 1 ==> mixed_warning(o, host, port).len() == 0,
        1 <= j < o.uri@.len() && uri::parsed_uri(o.uri@[j]@) is Ok && ({
            let u = uri::parsed_uri(o.uri@[j]@)->Ok_0;
            u.host is Some && uri::endpoint(u.host->0, port_of(u, o)) != uri::endpoint(host, port)
        }) ==> mixed_warning(o, host, port).len() == 1,
        (forall|i: int|
            1 <= i < o.uri@.len() ==> ({
                let u = uri::parsed_uri((#[trigger] o.uri@[i])@)->Ok_0;
                &&& uri::parsed_uri(o.uri@[i]@) is Ok
                &&& u.host is None || u.host == Some(host)
                &&& port_of(u, o) == port
            })) ==> mixed_warning(o, host, port).len() == 0,
{
    if 1 <= j < o.uri@.len() && uri::parsed_uri(o.uri@[j]@) is Ok && ({
        let u = uri::parsed_uri(o.uri@[j]@)->Ok_0;
        u.host is Some && uri::endpoint(u.host->0, port_of(u, o)) != uri::endpoint(host, port)
    }) {
        assert(named_by(o.uri@[j]@, uri::parsed_uri(o.uri@[j]@), host, o) != uri::endpoint(host, port));
    }
}

/// The clients that can be given source ports are those that open their connections
/// themselves.
pub proof fn law_clients_that_bind(c: ClientType)
    ensures
        binds_ports(c) <==> !(c == ClientType::HyperLegacy || c == ClientType::HyperRt1 || c
            == ClientType::Reqwest || c == ClientType::TokioUring || c == ClientType::Monoio || c
            == ClientType::Help),
        cannot_bind(c) <==> c == ClientType::TokioUring || c == ClientType::Monoio,
{
}

} // verus!
