//! What a seeder decides for each connection: whether the peer may connect,
//! whether its handshake is for our torrent, and how to answer each of its
//! messages.

use vstd::prelude::*;
use crate::common::error::Error;
use crate::common::text::{concat, str_eq};
use crate::torrent::piece::same_hash;
use crate::torrent::protocol::{Handshake, Message};

verus! {

/// How the seeder answers a message.
#[derive(Debug, Clone, Copy, PartialEq, Eq, Structural)]
pub enum SeederReply {
    /// Send `length` bytes of piece `index` from `begin`.
    SendBlock { index: u32, begin: u32, length: u32 },
    /// Let the peer download.
    Unchoke,
    /// No answer.
    Nothing,
}

/// The answer to a message: a request is served, interest is answered by
/// an unchoke, everything else goes unanswered.
pub open spec fn reply_for(m: Message) -> SeederReply {
    match m {
        Message::Request { index, begin, length } => SeederReply::SendBlock { index, begin, length },
        Message::Interested => SeederReply::Unchoke,
        _ => SeederReply::Nothing,
    }
}

/// How the seeder answers `message`.
pub fn reply_to(message: &Message) -> (r: SeederReply)
    ensures
        r == reply_for(*message),
{
    match message {
        Message::Request { index, begin, length } => SeederReply::SendBlock {
            index: *index,
            begin: *begin,
            length: *length,
        },
        Message::Interested => SeederReply::Unchoke,
        _ => SeederReply::Nothing,
    }
}

/// The end of a served block: `begin + length`, cut at the piece's end.
pub open spec fn block_end(begin: u32, length: u32, piece_len: nat) -> int {
    if begin + length < piece_len {
        begin + length
    } else {
        piece_len as int
    }
}

/// The piece message that serves a request from the bytes of the piece:
/// from `begin`, `length` bytes or up to the piece's end.
pub fn serve_block(index: u32, begin: u32, length: u32, piece: &[u8]) -> (r: Message)
    requires
        begin <= piece@.len(),
    ensures
        r matches Message::Piece { index: i, begin: b, block } && i == index && b == begin && block@
            == piece@.subrange(begin as int, block_end(begin, length, piece@.len())),
{
    let start = begin as usize;
    let want = (begin as u64) + (length as u64);
    let end: usize = if want < piece.len() as u64 {
        want as usize
    } else {
        piece.len()
    };
    let mut block: Vec<u8> = Vec::new();
    let mut k: usize = start;
    while k < end
        invariant
            start <= k <= end,
            end <= piece@.len(),
            block@ == piece@.subrange(start as int, k as int),
        decreases end - k,
    {
        block.push(piece[k]);
        assert(block@ =~= piece@.subrange(start as int, k + 1));
        k = k + 1;
    }
    Message::Piece { index, begin, block }
}

/// Whether a peer may connect: anyone when there is no allow list,
/// otherwise only an address on the list.
pub open spec fn allowed_spec(allowed: Option<Seq<Seq<char>>>, ip: Seq<char>) -> bool {
    match allowed {
        None => true,
        Some(list) => list.contains(ip),
    }
}

/// The text of each entry.
pub open spec fn texts_of(v: Seq<String>) -> Seq<Seq<char>> {
    v.map_values(|s: String| s@)
}

/// The allow list as text.
pub open spec fn allow_view(allowed: Option<Vec<String>>) -> Option<Seq<Seq<char>>> {
    match allowed {
        None => None,
        Some(v) => Some(texts_of(v@)),
    }
}

/// Whether a peer at `peer_ip` may connect.
pub fn is_allowed(allowed: &Option<Vec<String>>, peer_ip: &str) -> (r: bool)
    ensures
        r == allowed_spec(allow_view(*allowed), peer_ip@),
{
    match allowed {
        None => true,
        Some(list) => {
            let ghost t = texts_of(list@);
            assert(allow_view(*allowed) == Some(t));
            let mut i: usize = 0;
            while i < list.len()
                invariant
                    t == texts_of(list@),
                    allow_view(*allowed) == Some(t),
                    i <= list@.len(),
                    forall|j: int| 0 <= j < i ==> t[j] != peer_ip@,
                decreases list.len() - i,
            {
                if str_eq(list[i].as_str(), peer_ip) {
                    assert(t[i as int] == peer_ip@);
                    assert(t.contains(peer_ip@));
                    assert(allow_view(*allowed) == Some(t));
                    return true;
                }
                i = i + 1;
            }
            assert(!t.contains(peer_ip@));
            assert(allow_view(*allowed) == Some(t));
            false
        },
    }
}

/// Admits or turns away a connection from `peer_ip`, named `peer` in the
/// refusal.
pub fn check_peer(allowed: &Option<Vec<String>>, peer_ip: &str, peer: &str) -> (r: Result<(), Error>)
    ensures
        allowed_spec(allow_view(*allowed), peer_ip@) ==> r is Ok,
        !allowed_spec(allow_view(*allowed), peer_ip@) ==> (r matches Err(Error::Other(m)) && m@ == "Connection from "@
            + peer@ + " not in whitelist"@),
{
    if is_allowed(allowed, peer_ip) {
        Ok(())
    } else {
        let a = concat("Connection from ", peer);
        Err(Error::Other(concat(a.as_str(), " not in whitelist")))
    }
}

/// Accepts a handshake for our torrent and refuses any other.
pub fn check_handshake(handshake: &Handshake, info_hash: &[u8; 20]) -> (r: Result<(), Error>)
    ensures
        handshake.info_hash@ == info_hash@ ==> r is Ok,
        handshake.info_hash@ != info_hash@ ==> (r matches Err(Error::Other(m)) && m@ == "Info hash mismatch"@),
{
    if same_hash(&handshake.info_hash, info_hash) {
        Ok(())
    } else {
        Err(Error::Other("Info hash mismatch".to_string()))
    }
}

} // verus!
