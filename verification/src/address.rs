//! Addresses of peers.

use vstd::prelude::*;

verus! {

/// An internet address and a port, with the numbers in host byte order.
#[derive(Clone, Copy, Debug, PartialEq, Eq, Structural)]
pub enum SocketAddr {
    /// The address and the port.
    V4(u32, u16),
    /// The address, the port, the flow information and the scope.
    V6(u128, u16, u32, u32),
}

/// The port of an address.
pub open spec fn port_of(address: SocketAddr) -> u16 {
    match address {
        SocketAddr::V4(_, port) => port,
        SocketAddr::V6(_, port, _, _) => port,
    }
}

impl SocketAddr {
    /// The port.
    pub fn port(&self) -> (res: u16)
        ensures
            res == port_of(*self),
            match *self {
                SocketAddr::V4(_, port) => res == port,
                SocketAddr::V6(_, port, _, _) => res == port,
            },
    {
        match self {
            SocketAddr::V4(_, port) => *port,
            SocketAddr::V6(_, port, _, _) => *port,
        }
    }
}

} // verus!
