//! The proxy service's settings.

use vstd::prelude::*;

verus! {

/// The HTTP proxy service for GIS applications: where it listens and how
/// many containers it runs at once.
pub struct ProxyServer {
    port: u16,
    max_workers: usize,
}

impl ProxyServer {
    pub closed spec fn port_spec(&self) -> u16 {
        self.port
    }

    pub closed spec fn max_workers_spec(&self) -> usize {
        self.max_workers
    }

    pub fn new(port: u16, max_workers: usize) -> (r: ProxyServer)
        ensures
            r.port_spec() == port,
            r.max_workers_spec() == max_workers,
    {
        ProxyServer { port, max_workers }
    }

    /// The port the service listens on.
    pub fn port(&self) -> (r: u16)
        ensures
            r == self.port_spec(),
    {
        self.port
    }

    /// The most containers the service runs at once.
    pub fn max_workers(&self) -> (r: usize)
        ensures
            r == self.max_workers_spec(),
    {
        self.max_workers
    }
}

} // verus!
