use vstd::prelude::*;

verus! {

/// Startup configuration: the relay listens on the loopback address at `port`.
pub struct Config {
    pub port: i32,
}

impl Config {
    /// The TCP port to listen on, or `None` when `port` is no TCP port number,
    /// in which case binding fails and the relay does not start.
    pub fn listen_port(&self) -> (r: Option<u16>)
        ensures
            r is Some <==> 0 <= self.port <= 65535,
            r matches Some(p) ==> p as int == self.port as int,
    {
        if 0 <= self.port && self.port <= 65535 {
            Some(self.port as u16)
        } else {
            None
        }
    }
}

} // verus!
