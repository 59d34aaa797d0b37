//! Opening a connection from one of several source addresses.
use crate::net::{IpAddr, SocketAddr};
use crate::rss::setup;
use vstd::prelude::*;

verus! {

/// Whether an address stands for every address of its family.
pub open spec fn is_wildcard(ip: IpAddr) -> bool {
    match ip {
        IpAddr::V4(b) => all_zero(b@),
        IpAddr::V6(b) => all_zero(b@),
    }
}

/// Whether every byte is 0.
pub open spec fn all_zero(s: Seq<u8>) -> bool {
    forall|i: int| 0 <= i < s.len() ==> #[trigger] s[i] == 0
}

/// Tells whether an address stands for every address of its family.
pub fn is_unspecified(ip: &IpAddr) -> (r: bool)
    ensures
        r == is_wildcard(*ip),
{
    match ip {
        IpAddr::V4(b) => zeros(b.as_slice()),
        IpAddr::V6(b) => zeros(b.as_slice()),
    }
}

/// Tells whether every byte is 0.
fn zeros(s: &[u8]) -> (r: bool)
    ensures
        r == all_zero(s@),
{
    let mut i: usize = 0;
    while i < s.len()
        invariant
            i <= s.len(),
            forall|j: int| 0 <= j < i ==> #[trigger] s@[j] == 0,
        decreases s.len() - i,
    {
        if s[i] != 0 {
            return false;
        }
        i += 1;
    }
    true
}

/// The address to connect to: the first of the family of the first source
/// address, or the first of all.
pub open spec fn remote_of(remotes: Seq<SocketAddr>, locals: Seq<SocketAddr>) -> SocketAddr {
    let k = setup::family_prefix(remotes, locals[0].ip is V4) as int;
    if locals.len() > 0 && k < remotes.len() {
        remotes[k]
    } else {
        remotes[0]
    }
}

/// The address to connect to, if there is one.
pub fn choose_remote(remotes: &Vec<SocketAddr>, locals: &Vec<SocketAddr>) -> (r: Option<SocketAddr>)
    ensures
        match r {
            Some(a) => remotes@.len() > 0 && a == remote_of(remotes@, locals@),
            None => remotes@.len() == 0,
        },
{
    if remotes.len() == 0 {
        return None;
    }
    if locals.len() > 0 {
        let k: usize = setup::first_of_family(remotes, locals[0].ip.is_ipv4());
        if k < remotes.len() {
            return Some(remotes[k]);
        }
    }
    Some(remotes[0])
}

/// Whether `b` is the address to bind to for a source address: a wildcard follows
/// the family of the address to connect to.
pub open spec fn binds_to(local: SocketAddr, remote: SocketAddr, b: SocketAddr) -> bool {
    if is_wildcard(local.ip) && !local.ip.same_family(remote.ip) {
        b.ip.same_family(remote.ip) && is_wildcard(b.ip) && b.port == local.port
    } else {
        b == local
    }
}

/// The address to bind to for a source address.
pub fn bind_address(local: SocketAddr, remote: SocketAddr) -> (b: SocketAddr)
    ensures
        binds_to(local, remote, b),
{
    if is_unspecified(&local.ip) && local.ip.is_ipv4() != remote.ip.is_ipv4() {
        SocketAddr { ip: remote.ip.unspecified(), port: local.port }
    } else {
        local
    }
}

/// The step at which an attempt to connect failed.
#[derive(Clone, Copy, Debug, PartialEq, Eq, Structural)]
pub enum DialStep {
    /// Opening the socket.
    Open,
    /// Binding it to the source address.
    Bind,
    /// Connecting it.
    Connect,
    /// Setting up the connection that was opened.
    Setup,
}

/// What the system found fault with.
#[derive(Clone, Copy, Debug, PartialEq, Eq, Structural)]
pub enum DialFault {
    /// The source address is in use.
    InUse,
    /// The source address is not available.
    NotAvailable,
    /// Anything else.
    Other,
}

/// What came of trying a source address.
#[derive(Clone, Debug)]
pub enum DialEvent {
    /// Nothing has been tried yet.
    Start,
    /// The attempt failed at a step, for a reason and in the words of the system.
    Failed(DialStep, DialFault, String),
}

/// Whether a failure is that of the source address, so that another one is to be
/// tried: the socket was not opened or not bound, or the address turned out to be
/// in use or not available when it was connected.
pub open spec fn gives_way(step: DialStep, fault: DialFault) -> bool {
    match step {
        DialStep::Open | DialStep::Bind => true,
        DialStep::Connect => fault is InUse || fault is NotAvailable,
        DialStep::Setup => false,
    }
}

/// Tells whether another source address is to be tried after a failure.
pub fn is_busy(step: DialStep, fault: DialFault) -> (r: bool)
    ensures
        r == gives_way(step, fault),
{
    match step {
        DialStep::Open | DialStep::Bind => true,
        DialStep::Connect => match fault {
            DialFault::InUse | DialFault::NotAvailable => true,
            DialFault::Other => false,
        },
        DialStep::Setup => false,
    }
}

/// What to do next to open a connection.
#[derive(Clone, Debug)]
pub enum DialAction {
    /// Bind to the first address and connect to the second.
    Try(SocketAddr, SocketAddr),
    /// Give up.
    Fail(String),
}

/// Opening a connection from one of several source addresses, in turn.
#[derive(Clone, Debug)]
pub struct Dialer {
    pub locals: Vec<SocketAddr>,
    pub remote: SocketAddr,
    /// The number of source addresses that were tried.
    pub tried: usize,
}

impl Dialer {
    /// Opening a connection from one of the source addresses to one of the
    /// addresses of an endpoint.
    pub fn new(endpoint: &str, remotes: &Vec<SocketAddr>, locals: Vec<SocketAddr>) -> (r: Result<
        Dialer,
        String,
    >)
        ensures
            match r {
                Ok(d) => remotes@.len() > 0 && d.locals == locals && d.tried == 0 && d.remote
                    == remote_of(remotes@, locals@),
                Err(e) => remotes@.len() == 0 && e@ == "cannot resolve '"@ + endpoint@ + "'"@,
            },
    {
        match choose_remote(remotes, &locals) {
            Some(remote) => Ok(Dialer { locals, remote, tried: 0 }),
            None => {
                let mut s = "cannot resolve '".to_string();
                s.append(endpoint);
                s.append("'");
                Err(s)
            },
        }
    }

    /// Says what to do next: a source address that is busy gives way to the next
    /// one. Any other failure, or a busy address when there is no other, ends the
    /// attempt.
    pub fn step(&mut self, event: DialEvent) -> (a: DialAction)
        requires
            old(self).tried <= old(self).locals@.len(),
        ensures
            final(self).locals == old(self).locals,
            final(self).remote == old(self).remote,
            match event {
                DialEvent::Failed(step, fault, e) if !gives_way(step, fault) => final(self).tried
                    == old(self).tried && (a matches DialAction::Fail(m) && m@ == e@),
                _ => if old(self).tried < old(self).locals@.len() {
                    &&& final(self).tried == old(self).tried + 1
                    &&& a matches DialAction::Try(b, r) && r == old(self).remote && binds_to(
                        old(self).locals@[old(self).tried as int],
                        old(self).remote,
                        b,
                    )
                } else {
                    &&& final(self).tried == old(self).tried
                    &&& a matches DialAction::Fail(m) && m@ == (match event {
                        DialEvent::Failed(_, _, e) => e@,
                        DialEvent::Start => "no usable source port"@,
                    })
                },
            },
    {
        let last: String = match event {
            DialEvent::Failed(step, fault, e) => {
                if !is_busy(step, fault) {
                    return DialAction::Fail(e);
                }
                e
            },
            DialEvent::Start => "no usable source port".to_string(),
        };
        if self.tried < self.locals.len() {
            let local: SocketAddr = self.locals[self.tried];
            self.tried = self.tried + 1;
            DialAction::Try(bind_address(local, self.remote), self.remote)
        } else {
            DialAction::Fail(last)
        }
    }
}

/// The address that is bound to is of the family of the address to connect to,
/// wherever the source address is a wildcard or of that family.
pub proof fn law_bound_address_matches_the_remote(
    local: SocketAddr,
    remote: SocketAddr,
    b: SocketAddr,
)
    requires
        binds_to(local, remote, b),
        is_wildcard(local.ip) || local.ip.same_family(remote.ip),
    ensures
        b.ip.same_family(remote.ip),
        b.port == local.port,
{
}

/// The address to connect to is the first of the family of the first source address, and
/// the first of all where there is none of that family or no source address.
pub proof fn law_remote_is_of_the_family(remotes: Seq<SocketAddr>, locals: Seq<SocketAddr>, k: int)
    requires
        remotes.len() > 0,
    ensures
        locals.len() > 0 && 0 <= k < remotes.len() && remotes[k].ip.same_family(locals[0].ip) && (forall|
            i: int,
        |
            0 <= i < k ==> !(#[trigger] remotes[i]).ip.same_family(locals[0].ip)) ==> remote_of(
            remotes,
            locals,
        ) == remotes[k],
        locals.len() == 0 ==> remote_of(remotes, locals) == remotes[0],
        locals.len() > 0 && (forall|i: int|
            0 <= i < remotes.len() ==> !(#[trigger] remotes[i]).ip.same_family(locals[0].ip))
            ==> remote_of(remotes, locals) == remotes[0],
{
    if locals.len() > 0 {
        lemma_family_prefix(remotes, locals[0].ip is V4, k);
    }
}

proof fn lemma_family_prefix(list: Seq<SocketAddr>, v4: bool, k: int)
    ensures
        0 <= k < list.len() && (list[k].ip is V4) == v4 && (forall|i: int|
            0 <= i < k ==> ((#[trigger] list[i]).ip is V4) != v4) ==> setup::family_prefix(list, v4) == k,
        (forall|i: int| 0 <= i < list.len() ==> ((#[trigger] list[i]).ip is V4) != v4)
            ==> setup::family_prefix(list, v4) == list.len(),
    decreases list.len(),
{
    if list.len() > 0 {
        let t = list.drop_first();
        lemma_family_prefix(t, v4, k - 1);
        assert forall|i: int| 0 <= i < t.len() implies #[trigger] t[i] == list[i + 1] by {}
        assert(list.first() == list[0]);
    }
}

/// A source address that is not a wildcard, or is one of the right family, is bound to as
/// it is.
pub proof fn law_source_address_is_kept(local: SocketAddr, remote: SocketAddr, b: SocketAddr)
    requires
        binds_to(local, remote, b),
    ensures
        local.ip.same_family(remote.ip) ==> b == local,
        (local.ip matches IpAddr::V4(x) && x@[0] != 0) ==> b == local,
        (local.ip matches IpAddr::V6(x) && x@[15] != 0) ==> b == local,
        b.port == local.port,
{
}

/// Another source address is tried where the socket could not be opened or bound, and where
/// connecting showed that the address is in use or not available, and only there.
pub proof fn law_other_address_is_tried(fault: DialFault)
    ensures
        gives_way(DialStep::Open, fault),
        gives_way(DialStep::Bind, fault),
        gives_way(DialStep::Connect, fault) <==> fault != DialFault::Other,
        !gives_way(DialStep::Setup, fault),
{
}

} // verus!
