//! The kinds of DNS records that browsing for services deals in.

use vstd::prelude::*;

verus! {

/// A DNS resource record type.
#[derive(Debug, Clone, Copy, PartialEq, Eq, Structural)]
pub enum DnsRecordType {
    /// A service pointer.
    Ptr,
    /// A service location.
    Srv,
    /// An IPv4 address.
    A,
    /// An IPv6 address.
    Aaaa,
    /// Text entries.
    Txt,
}

} // verus!
