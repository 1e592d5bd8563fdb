use vstd::prelude::*;

verus! {

/// Identity of one connected peer: its remote socket address. IPv4 addresses
/// are held in their IPv4-mapped IPv6 form.
#[derive(Clone, Copy, Debug, PartialEq, Eq, Hash, Structural)]
pub struct PeerId {
    pub ip: u128,
    pub port: u16,
}

impl PeerId {
    pub fn new(ip: u128, port: u16) -> (r: PeerId)
        ensures
            r.ip == ip,
            r.port == port,
    {
        PeerId { ip, port }
    }

    /// Whether two identities name the same peer.
    pub fn same_as(&self, other: &PeerId) -> (r: bool)
        ensures
            r == (*self == *other),
    {
        self.ip == other.ip && self.port == other.port
    }
}

} // verus!
