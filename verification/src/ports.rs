//! Ports for the endpoints of successive pairs.
use vstd::prelude::*;

verus! {

/// Hands out ports one after the other.
#[derive(Debug)]
pub struct PortRange {
    /// The port that is handed out next.
    pub next: u16,
}

impl PortRange {
    /// Hands out a port.
    pub fn take(&mut self) -> (port: u16)
        requires
            old(self).next < u16::MAX,
        ensures
            port == old(self).next,
            final(self).next == port + 1,
    {
        let port = self.next;
        self.next = port + 1;
        port
    }
}

/// The ports of servers and of clients.
#[derive(Debug)]
pub struct Ports {
    pub server: PortRange,
    pub client: PortRange,
}

impl Ports {
    /// There are ports for another pair.
    pub open spec fn available(self) -> bool {
        self.server.next < u16::MAX && self.client.next < u16::MAX
    }

    /// Whether there are ports for another pair.
    pub fn has_next(&self) -> (available: bool)
        ensures
            available == self.available(),
    {
        self.server.next < u16::MAX && self.client.next < u16::MAX
    }
}

impl Default for Ports {
    fn default() -> (ports: Ports)
        ensures
            ports.server.next == 4433,
            ports.client.next == 44433,
    {
        Ports { server: PortRange { next: 4433 }, client: PortRange { next: 44433 } }
    }
}

} // verus!
