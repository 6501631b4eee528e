//! mDNS: DNS messages (RFC 1035) as multicast DNS uses them, and the
//! queries and responses built from them.

pub mod packet;
pub mod query;
pub mod response;
pub mod wire;


use vstd::prelude::*;

verus! {

/// The IPv4 mDNS group.
pub const MDNS_IPV4: &'static str = "224.0.0.251";

/// The IPv6 mDNS group.
pub const MDNS_IPV6: &'static str = "ff02::fb";

/// The mDNS port.
pub const MDNS_PORT: u16 = 5353;

/// The default record lifetime, in seconds.
pub const DEFAULT_TTL: u32 = 120;

} // verus!
