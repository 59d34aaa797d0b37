//! Internet addresses as plain values.
use vstd::prelude::*;

verus! {

/// An internet address, by its bytes in network order.
#[derive(Clone, Copy, Debug, PartialEq, Eq)]
pub enum IpAddr {
    V4([u8; 4]),
    V6([u8; 16]),
}

/// An internet address and a port.
#[derive(Clone, Copy, Debug, PartialEq, Eq)]
pub struct SocketAddr {
    pub ip: IpAddr,
    pub port: u16,
}

impl IpAddr {
    /// Whether two addresses are of one family.
    pub open spec fn same_family(self, other: IpAddr) -> bool {
        (self is V4) == (other is V4)
    }

    /// Whether this is an IPv4 address.
    pub fn is_ipv4(&self) -> (r: bool)
        ensures
            r == (self is V4),
    {
        match self {
            IpAddr::V4(_) => true,
            IpAddr::V6(_) => false,
        }
    }

    /// The address that stands for every address of the family of `self`.
    pub fn unspecified(&self) -> (r: IpAddr)
        ensures
            self is V4 ==> (r matches IpAddr::V4(b) && b@ == Seq::new(4, |i: int| 0u8)),
            self is V6 ==> (r matches IpAddr::V6(b) && b@ == Seq::new(16, |i: int| 0u8)),
    {
        match self {
            IpAddr::V4(_) => {
                let b: [u8; 4] = [0, 0, 0, 0];
                assert(b@ == Seq::new(4, |i: int| 0u8));
                IpAddr::V4(b)
            },
            IpAddr::V6(_) => {
                let b: [u8; 16] = [0, 0, 0, 0, 0, 0, 0, 0, 0, 0, 0, 0, 0, 0, 0, 0];
                assert(b@ == Seq::new(16, |i: int| 0u8));
                IpAddr::V6(b)
            },
        }
    }
}

} // verus!
