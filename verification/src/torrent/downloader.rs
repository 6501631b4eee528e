//! What a download from one peer decides: which pieces to fetch and in what
//! order, how big each is, which block to ask for next and which answers
//! to keep.

use vstd::prelude::*;
use crate::torrent::metainfo::{TorrentMetaInfo, MetaView, total_size_of};
use crate::torrent::piece::{PieceManager, PieceState, piece_size_of, BLOCK_SIZE};
use crate::torrent::seeder::block_end;

verus! {

/// The pieces to fetch among the first `k`, in order: those not completed
/// that the peer has.
pub open spec fn fetch_plan(states: Seq<PieceState>, peer: Seq<usize>, k: int) -> Seq<usize>
    decreases k,
{
    if k <= 0 {
        Seq::empty()
    } else {
        fetch_plan(states, peer, k - 1) + if states[k - 1] != PieceState::Completed && peer.contains(
            (k - 1) as usize,
        ) {
            seq![(k - 1) as usize]
        } else {
            Seq::empty()
        }
    }
}

/// Whether `peer` holds `index`.
fn peer_has(peer: &Vec<usize>, index: usize) -> (r: bool)
    ensures
        r == peer@.contains(index),
{
    let mut i: usize = 0;
    while i < peer.len()
        invariant
            i <= peer@.len(),
            forall|j: int| 0 <= j < i ==> peer@[j] != index,
        decreases peer.len() - i,
    {
        if peer[i] == index {
            assert(peer@[i as int] == index);
            return true;
        }
        i = i + 1;
    }
    false
}

/// The pieces to fetch from a peer, in index order: each one not yet
/// completed here that the peer has.
pub fn download_plan(manager: &PieceManager, peer_pieces: &Vec<usize>) -> (r: Vec<usize>)
    ensures
        r@ == fetch_plan(manager.states(), peer_pieces@, manager.states().len() as int),
{
    let n = manager.piece_count();
    let mut out: Vec<usize> = Vec::new();
    let mut i: usize = 0;
    while i < n
        invariant
            n == manager.states().len(),
            i <= n,
            out@ == fetch_plan(manager.states(), peer_pieces@, i as int),
        decreases n - i,
    {
        let state = manager.piece_state(i);
        let completed = match state {
            Some(PieceState::Completed) => true,
            _ => false,
        };
        if !completed && peer_has(peer_pieces, i) {
            out.push(i);
        }
        i = i + 1;
    }
    out
}

/// The size of piece `index` as a download counts it: the piece length,
/// except for the last piece, which holds what is left of the content.
pub fn piece_download_size(metainfo: &TorrentMetaInfo, index: usize) -> (r: usize)
    requires
        index + 1 <= usize::MAX,
        total_size_of(metainfo@.info) <= u64::MAX,
        index * metainfo@.info.piece_length <= u64::MAX,
        index + 1 >= metainfo@.info.pieces.len() / 20 ==> index * metainfo@.info.piece_length <= total_size_of(
            metainfo@.info,
        ),
        total_size_of(metainfo@.info) - index * metainfo@.info.piece_length <= usize::MAX,
    ensures
        r == piece_size_of(metainfo@, index as int),
{
    if index + 1 < metainfo.piece_count() {
        metainfo.info.piece_length as usize
    } else {
        let total = metainfo.total_size();
        let offset = (index as u64) * (metainfo.info.piece_length as u64);
        (total - offset) as usize
    }
}

/// Piece `index` of `m` has a size that `piece_download_size` can compute:
/// the sizes fit in 64 bits, the last piece starts within the content, and
/// what is left of it fits in memory.
pub open spec fn piece_size_known(m: MetaView, index: int) -> bool {
    &&& index + 1 <= usize::MAX
    &&& total_size_of(m.info) <= u64::MAX
    &&& index * m.info.piece_length <= u64::MAX
    &&& (index + 1 >= m.info.pieces.len() / 20 ==> index * m.info.piece_length <= total_size_of(m.info))
    &&& total_size_of(m.info) - index * m.info.piece_length <= usize::MAX
}

/// The size of piece `index` where it can be computed (see
/// `piece_download_size`), else nothing.
pub fn checked_piece_download_size(metainfo: &TorrentMetaInfo, index: usize) -> (r: Option<usize>)
    ensures
        match r {
            Some(s) => piece_size_known(metainfo@, index as int) && s == piece_size_of(metainfo@, index as int),
            None => !piece_size_known(metainfo@, index as int),
        },
{
    if index == usize::MAX {
        return None;
    }
    let total = match metainfo.checked_total_size() {
        Some(t) => t,
        None => {
            return None;
        },
    };
    let offset = match (index as u64).checked_mul(metainfo.info.piece_length as u64) {
        Some(o) => o,
        None => {
            return None;
        },
    };
    if index + 1 >= metainfo.piece_count() && offset > total {
        return None;
    }
    if offset <= total && total - offset > usize::MAX as u64 {
        return None;
    }
    Some(piece_download_size(metainfo, index))
}

/// A piece being fetched block by block, in order.
pub struct PieceDownload {
    index: usize,
    data: Vec<u8>,
    downloaded: usize,
}

/// What a piece download holds.
pub struct PieceDownloadView {
    pub index: usize,
    pub data: Seq<u8>,
    pub downloaded: nat,
}

impl View for PieceDownload {
    type V = PieceDownloadView;

    closed spec fn view(&self) -> PieceDownloadView {
        PieceDownloadView { index: self.index, data: self.data@, downloaded: self.downloaded as nat }
    }
}

/// A block request: piece index, offset and length.
pub open spec fn block_request(d: PieceDownloadView) -> Option<(u32, u32, u32)> {
    if d.downloaded < d.data.len() {
        let left = d.data.len() - d.downloaded;
        Some((d.index as u32, d.downloaded as u32, (if left < BLOCK_SIZE { left } else { BLOCK_SIZE as int }) as u32))
    } else {
        None
    }
}

/// Whether an answer is the block asked for next: the same piece, at the
/// offset reached, and not past the piece's end.
pub open spec fn fits(d: PieceDownloadView, index: u32, begin: u32, len: nat) -> bool {
    index as int == d.index as int && begin as int == d.downloaded as int && d.downloaded + len <= d.data.len()
}

/// The download after the next block: the block written at the offset
/// reached, and the offset moved past it.
pub open spec fn after_block(d: PieceDownloadView, block: Seq<u8>) -> PieceDownloadView {
    PieceDownloadView {
        data: d.data.take(d.downloaded as int) + block + d.data.skip((d.downloaded + block.len()) as int),
        downloaded: d.downloaded + block.len(),
        ..d
    }
}

impl PieceDownload {
    #[verifier::type_invariant]
    closed spec fn within(&self) -> bool {
        &&& self.downloaded <= self.data@.len()
        &&& self.data@.len() <= u32::MAX
        &&& self.index <= u32::MAX
    }

    /// Piece `index` of `size` bytes, nothing received: the bytes are zero.
    pub fn new(index: usize, size: usize) -> (r: PieceDownload)
        requires
            index <= u32::MAX,
            size <= u32::MAX,
        ensures
            r@.index == index,
            r@.data == Seq::new(size as nat, |i: int| 0u8),
            r@.downloaded == 0,
    {
        let mut data: Vec<u8> = Vec::new();
        let mut i: usize = 0;
        while i < size
            invariant
                i <= size,
                data@ == Seq::new(i as nat, |k: int| 0u8),
            decreases size - i,
        {
            data.push(0u8);
            assert(data@ =~= Seq::new((i + 1) as nat, |k: int| 0u8));
            i = i + 1;
        }
        PieceDownload { index, data, downloaded: 0 }
    }

    /// The next block to ask for: from the offset reached, at most a block
    /// long; none once the piece is whole.
    pub fn next_request(&self) -> (r: Option<(u32, u32, u32)>)
        ensures
            r == block_request(self@),
    {
        proof {
            use_type_invariant(self);
        }
        if self.downloaded < self.data.len() {
            let left = self.data.len() - self.downloaded;
            let len = if left < BLOCK_SIZE { left } else { BLOCK_SIZE };
            Some((self.index as u32, self.downloaded as u32, len as u32))
        } else {
            None
        }
    }

    /// Takes in a block. The block asked for next is copied into place and
    /// the offset moves past it; any other answer is dropped.
    pub fn accept_block(&mut self, index: u32, begin: u32, block: &[u8]) -> (r: bool)
        ensures
            r == fits(old(self)@, index, begin, block@.len()),
            r ==> final(self)@ == after_block(old(self)@, block@),
            !r ==> final(self)@ == old(self)@,
    {
        proof {
            use_type_invariant(&*self);
        }
        let d = self.downloaded;
        let n = self.data.len();
        if index as usize != self.index || begin as usize != d || block.len() > n - d {
            return false;
        }
        let ghost before = self.data@;
        let mut whole = PieceDownload { index: self.index, data: Vec::new(), downloaded: 0 };
        std::mem::swap(&mut whole, self);
        let PieceDownload { index: piece_index, data: mut data, downloaded: _ } = whole;
        let mut k: usize = 0;
        while k < block.len()
            invariant
                d + block@.len() <= n,
                data@.len() == n,
                before.len() == n,
                k <= block@.len(),
                data@ == before.take(d as int) + block@.take(k as int) + before.skip(d + k),
            decreases block.len() - k,
        {
            data.set(d + k, block[k]);
            assert(data@ =~= before.take(d as int) + block@.take(k + 1) + before.skip(d + k + 1));
            k = k + 1;
        }
        assert(block@.take(k as int) =~= block@);
        *self = PieceDownload { index: piece_index, data, downloaded: d + block.len() };
        true
    }

    /// Whether every byte of the piece has arrived.
    pub fn is_complete(&self) -> (r: bool)
        ensures
            r == (self@.downloaded == self@.data.len()),
    {
        proof {
            use_type_invariant(self);
        }
        self.downloaded == self.data.len()
    }

    /// The bytes received, and zeros past them.
    pub fn data(&self) -> (r: &Vec<u8>)
        ensures
            r@ == self@.data,
    {
        &self.data
    }

    /// The piece's index.
    pub fn index(&self) -> (r: usize)
        ensures
            r == self@.index,
    {
        self.index
    }
}

/// Accepting the next block extends what was received by exactly that
/// block: the received prefix after is the received prefix before followed
/// by the block, and the bytes past it are untouched.
pub proof fn lemma_received_prefix(d: PieceDownloadView, index: u32, begin: u32, block: Seq<u8>)
    requires
        fits(d, index, begin, block.len()),
    ensures
        after_block(d, block).data.len() == d.data.len(),
        after_block(d, block).data.take(after_block(d, block).downloaded as int) == d.data.take(d.downloaded as int)
            + block,
        after_block(d, block).data.skip(after_block(d, block).downloaded as int) == d.data.skip(
            after_block(d, block).downloaded as int,
        ),
{
    let e = after_block(d, block);
    assert(e.data.take(e.downloaded as int) =~= d.data.take(d.downloaded as int) + block);
    assert(e.data.skip(e.downloaded as int) =~= d.data.skip(e.downloaded as int));
}

/// A seeder that holds the same piece answers the next request with a
/// block the download accepts: the bytes of the piece at the offset
/// reached, as many as were asked for.
pub proof fn lemma_served_block_accepted(d: PieceDownloadView, piece: Seq<u8>)
    requires
        d.downloaded < d.data.len(),
        d.data.len() <= u32::MAX,
        d.index <= u32::MAX,
        piece.len() == d.data.len(),
    ensures
        block_request(d) matches Some((i, b, l)) && {
            let block = piece.subrange(b as int, block_end(b, l, piece.len()));
            &&& fits(d, i, b, block.len())
            &&& block == piece.subrange(d.downloaded as int, d.downloaded + l)
            &&& block.len() == l
        },
{
}

} // verus!
