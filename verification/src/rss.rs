//! Manual source ports and their assignment by receive queue.
//!
//! By default the kernel picks a source port for every connection. On the server
//! side, Receive Side Scaling hashes the two addresses and the two ports of a
//! connection with the Toeplitz function and so selects the receive queue that
//! handles it. Sequential ports do not hash uniformly: a benchmark can overload
//! a few queues of the server while others stay idle.
//!
//! Where the RSS configuration of the server is known, ports can be picked that
//! spread evenly over its queues.
use crate::net::IpAddr;
use vstd::prelude::*;

pub mod parse;
pub mod ports;
pub mod setup;
pub mod source;
pub mod toeplitz;

verus! {

/// The source ports of a run, computed once when it starts.
///
/// `ports` takes the queues of the server in turn: task `i` uses `ports[i]`, and
/// steps forward in whole rounds when it reconnects.
#[derive(Clone, Debug)]
pub struct RssState {
    pub src: IpAddr,
    pub num_queues: usize,
    pub ports: Vec<u16>,
}

} // verus!
