//! The address of a tracker or of a peer.

use vstd::prelude::*;

verus! {

/// An IPv4 address and a port.
#[derive(Clone, Copy, Debug, PartialEq, Eq)]
pub struct PeerEndpoint {
    /// The four bytes of the address, first byte first.
    pub ip: [u8; 4],
    /// The port, which is not zero.
    pub port: u16,
}

impl PeerEndpoint {
    /// An endpoint can be connected to: its port is not zero.
    pub open spec fn wf(self) -> bool {
        self.port != 0
    }

    /// The endpoint at `ip` and `port`, or `None` for port zero.
    pub fn new(ip: [u8; 4], port: u16) -> (r: Option<Self>)
        ensures
            r is Some <==> port != 0,
            r is Some ==> r->0.ip == ip && r->0.port == port && r->0.wf(),
    {
        if port == 0 {
            None
        } else {
            Some(Self { ip, port })
        }
    }
}

} // verus!
