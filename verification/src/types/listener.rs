//! Listeners: the bound addresses that accept client connections.

use vstd::prelude::*;

verus! {

/// An IP address, by its bits in network order.
#[derive(Debug, Clone, Copy, PartialEq, Eq, Structural, Hash)]
pub enum IpAddr {
    V4(u32),
    V6(u128),
}

/// An IP address and a port.
#[derive(Debug, Clone, Copy, PartialEq, Eq, Structural)]
pub struct SocketAddr {
    pub ip: IpAddr,
    pub port: u16,
}

/// Unique identifier for a listener, referenced by routes.
#[derive(Debug, PartialEq, Eq, Hash)]
pub struct ListenerId(pub String);

impl Clone for ListenerId {
    fn clone(&self) -> (r: Self)
        ensures
            r == *self,
    {
        ListenerId(self.0.clone())
    }
}

/// Whether a listener terminates TLS or serves plaintext HTTP.
#[derive(Debug, Clone, Copy, PartialEq, Eq, Structural, Hash)]
pub enum ListenProtocol {
    /// Plaintext HTTP. Used for HTTP to HTTPS redirect listeners and
    /// internal-only VIPs.
    Http,
    /// TLS-terminating HTTPS. The TLS policy and certificate store apply.
    Https,
}

/// A bound address and port that accepts client connections.
#[derive(Debug, PartialEq, Eq)]
pub struct Listener {
    pub id: ListenerId,
    pub address: IpAddr,
    pub port: u16,
    pub protocol: ListenProtocol,
}

impl Listener {
    /// `true` when this listener terminates TLS.
    pub fn is_tls(&self) -> (r: bool)
        ensures
            r == (self.protocol == ListenProtocol::Https),
    {
        match self.protocol {
            ListenProtocol::Http => false,
            ListenProtocol::Https => true,
        }
    }
}

impl Clone for Listener {
    fn clone(&self) -> (r: Self)
        ensures
            r == *self,
    {
        Listener {
            id: self.id.clone(),
            address: self.address,
            port: self.port,
            protocol: self.protocol,
        }
    }
}

}
