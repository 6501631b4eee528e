//! Local-network file sharing: device discovery records, the bencode and
//! BitTorrent wire formats, piece bookkeeping and the transfer state model.

pub mod common;
pub mod discovery;
pub mod ffi;
pub mod mdns;
pub mod sdk;
pub mod sdk_ffi;
pub mod sdk_main;
pub mod torrent;
pub mod transport;
pub mod ui;

use vstd::prelude::*;

verus! {

/// The library's version.
pub const VERSION: &'static str = "0.1.0";

/// The service type under which devices announce themselves.
pub const DEFAULT_SERVICE_TYPE: &'static str = "_shareself._tcp.local";

/// The mDNS port.
pub const MDNS_PORT: u16 = 5353;

} // verus!
