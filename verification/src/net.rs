//! Socket addresses held as plain integers, so that contracts and the
//! snapshot codec can speak of them directly.

use vstd::prelude::*;

verus! {

/// An IP address: a v4 address as its 32-bit value, or a v6 address as its
/// 128-bit value.
#[derive(Clone, Copy, PartialEq, Eq, Structural, Debug, Hash)]
pub enum IpAddress {
    V4(u32),
    V6(u128),
}

/// The address a listener binds or a backend is reached at.
#[derive(Clone, Copy, PartialEq, Eq, Structural, Debug, Hash)]
pub struct SocketAddress {
    pub ip: IpAddress,
    pub port: u16,
}

impl DeepView for IpAddress {
    type V = IpAddress;

    open spec fn deep_view(&self) -> IpAddress {
        *self
    }
}

impl DeepView for SocketAddress {
    type V = SocketAddress;

    open spec fn deep_view(&self) -> SocketAddress {
        *self
    }
}

impl SocketAddress {
    /// Builds a v4 address from its four dotted-quad bytes and a port.
    pub fn new_v4(a: u8, b: u8, c: u8, d: u8, port: u16) -> (r: SocketAddress)
        ensures
            r.ip == IpAddress::V4(
                ((a as u32) << 24u32) | ((b as u32) << 16u32) | ((c as u32) << 8u32) | (d as u32),
            ),
            r.port == port,
    {
        SocketAddress {
            ip: IpAddress::V4(
                ((a as u32) << 24u32) | ((b as u32) << 16u32) | ((c as u32) << 8u32) | (d as u32),
            ),
            port,
        }
    }
}

/// Total order on addresses: the IP first (all v4 addresses before all v6
/// addresses, numerically within a family), then the port.
pub open spec fn spec_addr_le(a: SocketAddress, b: SocketAddress) -> bool {
    if a.ip == b.ip {
        a.port <= b.port
    } else {
        spec_ip_lt(a.ip, b.ip)
    }
}

pub open spec fn spec_ip_lt(a: IpAddress, b: IpAddress) -> bool {
    match (a, b) {
        (IpAddress::V4(x), IpAddress::V4(y)) => x < y,
        (IpAddress::V4(_), IpAddress::V6(_)) => true,
        (IpAddress::V6(_), IpAddress::V4(_)) => false,
        (IpAddress::V6(x), IpAddress::V6(y)) => x < y,
    }
}

/// Compares two addresses, IP first and then port.
pub fn socketaddr_cmp(a: &SocketAddress, b: &SocketAddress) -> (r: core::cmp::Ordering)
    ensures
        r == core::cmp::Ordering::Equal <==> *a == *b,
        r == core::cmp::Ordering::Less <==> (*a != *b && spec_addr_le(*a, *b)),
        r == core::cmp::Ordering::Greater <==> (*a != *b && !spec_addr_le(*a, *b)),
{
    let ip_order = match (a.ip, b.ip) {
        (IpAddress::V4(x), IpAddress::V4(y)) => {
            if x < y {
                core::cmp::Ordering::Less
            } else if x == y {
                core::cmp::Ordering::Equal
            } else {
                core::cmp::Ordering::Greater
            }
        },
        (IpAddress::V4(_), IpAddress::V6(_)) => core::cmp::Ordering::Less,
        (IpAddress::V6(_), IpAddress::V4(_)) => core::cmp::Ordering::Greater,
        (IpAddress::V6(x), IpAddress::V6(y)) => {
            if x < y {
                core::cmp::Ordering::Less
            } else if x == y {
                core::cmp::Ordering::Equal
            } else {
                core::cmp::Ordering::Greater
            }
        },
    };
    match ip_order {
        core::cmp::Ordering::Equal => {
            if a.port < b.port {
                core::cmp::Ordering::Less
            } else if a.port == b.port {
                core::cmp::Ordering::Equal
            } else {
                core::cmp::Ordering::Greater
            }
        },
        other => other,
    }
}

} // verus!
