//! BitTorrent: bencode, torrent metadata, pieces and the peer wire protocol.

pub mod bencode;
pub mod downloader;
pub mod metadata;
pub mod hash;
pub mod metainfo;
pub mod peer;
pub mod piece;
pub mod protocol;
pub mod seeder;

use vstd::prelude::*;

verus! {

/// The piece size used when none is given: 256 KiB, large enough for a LAN.
pub const DEFAULT_PIECE_LENGTH: u32 = 262144;

/// The default BitTorrent port.
pub const DEFAULT_BT_PORT: u16 = 6881;

} // verus!
