//! Internet addresses as plain numbers.

use vstd::prelude::*;

verus! {

/// An IPv4 or IPv6 address, in host byte order.
#[derive(Debug, Clone, Copy, PartialEq, Eq, Hash, Structural)]
pub enum IpAddr {
    /// The 32 bits of an IPv4 address.
    V4(u32),
    /// The 128 bits of an IPv6 address.
    V6(u128),
}

} // verus!
