//! Pieces: their download state, block assembly and hash checks, the have
//! bitmap, and where each piece lies in the files of a torrent.

use vstd::prelude::*;
use crate::torrent::hash::{sha1, sha1_digest};
use crate::torrent::metainfo::{TorrentMetaInfo, MetaView, total_size_of, files_view};

verus! {

/// The download state of a piece.
#[derive(Debug, Clone, Copy, PartialEq, Eq, Structural)]
pub enum PieceState {
    NotStarted,
    Downloading,
    /// Downloaded and its hash checked.
    Completed,
    /// Its hash did not match.
    Failed,
}

/// A piece being assembled from blocks.
#[derive(Debug, Clone)]
pub struct Piece {
    pub index: usize,
    /// The size in bytes (the last piece may be shorter).
    pub size: usize,
    pub state: PieceState,
    /// The bytes received so far.
    pub data: Vec<u8>,
    pub blocks_downloaded: usize,
    pub blocks_total: usize,
}

/// `d` grown with zero bytes to `size`, when shorter.
pub open spec fn padded(d: Seq<u8>, size: nat) -> Seq<u8> {
    if d.len() < size {
        d + Seq::new((size - d.len()) as nat, |i: int| 0u8)
    } else {
        d
    }
}

/// `p` with `data` written over it from `offset` on.
pub open spec fn overwrite(p: Seq<u8>, offset: int, data: Seq<u8>) -> Seq<u8> {
    p.subrange(0, offset) + data + p.subrange(offset + data.len(), p.len() as int)
}

impl Piece {
    /// A piece of `size` bytes in blocks of `block_size` bytes, not started.
    pub fn new(index: usize, size: usize, block_size: usize) -> (r: Piece)
        requires
            block_size > 0,
            size + block_size - 1 <= usize::MAX,
        ensures
            r.index == index,
            r.size == size,
            r.state == PieceState::NotStarted,
            r.data@.len() == 0,
            r.blocks_downloaded == 0,
            r.blocks_total == (size + block_size - 1) / (block_size as int),
    {
        let blocks_total = (size + (block_size - 1)) / block_size;
        Piece { index, size, state: PieceState::NotStarted, data: Vec::new(), blocks_downloaded: 0, blocks_total }
    }

    /// Writes a block at `offset`. The piece's bytes are first grown to its
    /// size, and the block counts as one more block downloaded. A block that
    /// runs past the piece's end is refused and changes nothing.
    pub fn add_block(&mut self, offset: usize, data: &[u8], block_size: usize) -> (r: Result<(), String>)
        requires
            offset + data@.len() <= usize::MAX,
            block_size > 0,
        ensures
            offset + data@.len() > old(self).size <==> r is Err,
            r is Err ==> *final(self) == *old(self),
            r matches Err(m) ==> m@ == "Block offset out of bounds"@,
            r is Ok ==> {
                &&& final(self).data@ == overwrite(padded(old(self).data@, old(self).size as nat), offset as int, data@)
                &&& final(self).blocks_downloaded == if old(self).blocks_downloaded < usize::MAX {
                    old(self).blocks_downloaded + 1
                } else {
                    old(self).blocks_downloaded as int
                }
                &&& final(self).index == old(self).index
                &&& final(self).size == old(self).size
                &&& final(self).state == old(self).state
                &&& final(self).blocks_total == old(self).blocks_total
            },
    {
        if offset + data.len() > self.size {
            return Err("Block offset out of bounds".to_string());
        }
        let ghost p = padded(old(self).data@, old(self).size as nat);
        if self.data.len() < self.size {
            self.data.resize(self.size, 0u8);
            assert(self.data@ =~= p);
        }
        assert(self.data@ == p);
        let mut j: usize = 0;
        while j < data.len()
            invariant
                j <= data@.len(),
                offset + data@.len() <= old(self).size,
                p.len() >= old(self).size,
                self.data@.len() == p.len(),
                forall|k: int| 0 <= k < p.len() ==> #[trigger] self.data@[k] == (if offset <= k < offset + j {
                    data@[k - offset]
                } else {
                    p[k]
                }),
                self.size == old(self).size,
                self.index == old(self).index,
                self.state == old(self).state,
                self.blocks_total == old(self).blocks_total,
                self.blocks_downloaded == old(self).blocks_downloaded,
            decreases data.len() - j,
        {
            self.data[offset + j] = data[j];
            j = j + 1;
        }
        assert(self.data@ =~= overwrite(p, offset as int, data@));
        if self.blocks_downloaded < usize::MAX {
            self.blocks_downloaded = self.blocks_downloaded + 1;
        }
        Ok(())
    }

    /// All blocks are in and the bytes are the piece's size.
    pub fn is_complete(&self) -> (r: bool)
        ensures
            r == (self.blocks_downloaded >= self.blocks_total && self.data@.len() == self.size),
    {
        self.blocks_downloaded >= self.blocks_total && self.data.len() == self.size
    }

    /// The piece is complete and its bytes hash to `expected_hash`.
    pub fn verify(&self, expected_hash: &[u8; 20]) -> (r: bool)
        ensures
            r == (self.blocks_downloaded >= self.blocks_total && self.data@.len() == self.size
                && sha1_digest(self.data@) == expected_hash@),
    {
        if !self.is_complete() {
            return false;
        }
        let hash = sha1(self.data.as_slice());
        same_hash(&hash, expected_hash)
    }
}

/// Whether two hashes are equal, byte for byte.
pub fn same_hash(a: &[u8; 20], b: &[u8; 20]) -> (r: bool)
    ensures
        r == (a@ == b@),
{
    let mut i: usize = 0;
    while i < 20
        invariant
            i <= 20,
            a@.len() == 20,
            b@.len() == 20,
            forall|k: int| 0 <= k < i ==> a@[k] == b@[k],
        decreases 20 - i,
    {
        if a[i] != b[i] {
            return false;
        }
        i = i + 1;
    }
    assert(a@ =~= b@);
    true
}

// ===================================================================
// The have bitmap
// ===================================================================

/// Bit `i` of a bitmap, counting from the high bit of the first byte.
pub open spec fn bit_set(bm: Seq<u8>, i: int) -> bool {
    bm[i / 8] & (1u8 << ((7 - i % 8) as u8)) != 0u8
}

/// The indices below `k` of the completed pieces, in increasing order.
pub open spec fn completed_below(s: Seq<PieceState>, k: int) -> Seq<usize>
    decreases k,
{
    if k <= 0 {
        Seq::empty()
    } else {
        completed_below(s, k - 1) + if s[k - 1] == PieceState::Completed {
            seq![(k - 1) as usize]
        } else {
            Seq::empty()
        }
    }
}

/// The indices below `k` of the bits set in `bm`, in increasing order.
pub open spec fn set_bits_below(bm: Seq<u8>, k: int) -> Seq<usize>
    decreases k,
{
    if k <= 0 {
        Seq::empty()
    } else {
        set_bits_below(bm, k - 1) + if bit_set(bm, k - 1) {
            seq![(k - 1) as usize]
        } else {
            Seq::empty()
        }
    }
}

/// The number of completed pieces.
pub open spec fn count_completed(s: Seq<PieceState>) -> nat
    decreases s.len(),
{
    if s.len() == 0 {
        0
    } else {
        count_completed(s.drop_last()) + if s.last() == PieceState::Completed {
            1nat
        } else {
            0nat
        }
    }
}

/// The pieces of `have` that exist and are not completed, in `have`'s order.
pub open spec fn needed(have: Seq<usize>, s: Seq<PieceState>) -> Seq<usize>
    decreases have.len(),
{
    if have.len() == 0 {
        Seq::empty()
    } else {
        needed(have.drop_last(), s) + if have.last() < s.len() && s[have.last() as int] != PieceState::Completed {
            seq![have.last()]
        } else {
            Seq::empty()
        }
    }
}

/// The bitmap of `s`: one bit per piece, set exactly for the completed ones,
/// and zero padding.
pub open spec fn is_bitmap_of(bm: Seq<u8>, s: Seq<PieceState>) -> bool {
    &&& bm.len() == (s.len() + 7) / 8
    &&& forall|i: int| 0 <= i < 8 * bm.len() ==> #[trigger] bit_set(bm, i) == (i < s.len() && s[i]
        == PieceState::Completed)
}

proof fn lemma_set_bit(b: u8, k: u8, j: u8)
    requires
        k < 8,
        j < 8,
    ensures
        ((b | (1u8 << k)) & (1u8 << j) != 0u8) == ((b & (1u8 << j) != 0u8) || j == k),
{
    assert(((b | (1u8 << k)) & (1u8 << j) != 0u8) == ((b & (1u8 << j) != 0u8) || j == k)) by (bit_vector)
        requires
            k < 8,
            j < 8,
    ;
}

proof fn lemma_zero_bits(j: u8)
    requires
        j < 8,
    ensures
        0u8 & (1u8 << j) == 0u8,
{
    assert(0u8 & (1u8 << j) == 0u8) by (bit_vector);
}

/// Reading back a bitmap lists exactly the completed pieces.
pub proof fn lemma_bitmap_roundtrip(bm: Seq<u8>, s: Seq<PieceState>)
    requires
        is_bitmap_of(bm, s),
    ensures
        set_bits_below(bm, min_int(s.len() as int, 8 * bm.len() as int)) == completed_below(
            s,
            s.len() as int,
        ),
{
    assert(s.len() <= 8 * bm.len());
    lemma_bits_match(bm, s, s.len() as int);
}

proof fn lemma_bits_match(bm: Seq<u8>, s: Seq<PieceState>, k: int)
    requires
        is_bitmap_of(bm, s),
        k <= s.len(),
    ensures
        set_bits_below(bm, k) == completed_below(s, k),
    decreases k,
{
    if k > 0 {
        lemma_bits_match(bm, s, k - 1);
        assert(bit_set(bm, k - 1) == (s[k - 1] == PieceState::Completed));
    }
}

// ===================================================================
// Where a piece lies in the files
// ===================================================================

/// A stretch of a piece's bytes and where it lies in a file: bytes
/// `data_start..data_end` of the piece go at `file_offset` in file `file`
/// (the single file is file 0).
#[derive(Debug, Clone, Copy, PartialEq, Eq, Structural)]
pub struct FileSpan {
    pub file: usize,
    pub file_offset: u64,
    pub data_start: usize,
    pub data_end: usize,
}

pub open spec fn min_int(a: int, b: int) -> int {
    if a <= b {
        a
    } else {
        b
    }
}

/// The writes of a piece of `len` bytes over files `k..` of lengths `lens`,
/// as the store does it: `cur` is the position in the remaining files and
/// `done` the bytes handled so far. In a file that `cur` falls into, the
/// bytes taken start at `cur % pl` in the piece, and a stretch that would run
/// past the piece's end is not written though it counts as handled.
pub open spec fn write_spans(lens: Seq<u64>, k: int, cur: int, done: int, len: int, pl: int) -> Seq<FileSpan>
    decreases lens.len() - k,
{
    if k < 0 || k >= lens.len() {
        Seq::empty()
    } else if cur < lens[k] {
        let start = cur % pl;
        let bytes = min_int(lens[k] - cur, len - done);
        let here = if start + bytes <= len {
            seq![FileSpan { file: k as usize, file_offset: cur as u64, data_start: start as usize, data_end: (start + bytes) as usize }]
        } else {
            Seq::empty()
        };
        if done + bytes >= len {
            here
        } else {
            here + write_spans(lens, k + 1, cur + bytes, done + bytes, len, pl)
        }
    } else {
        write_spans(lens, k + 1, cur - lens[k], done, len, pl)
    }
}

/// The reads that fill a buffer of `len` bytes for a piece over files `k..`:
/// each file that `cur` falls into gives the next bytes of the buffer.
pub open spec fn read_spans(lens: Seq<u64>, k: int, cur: int, done: int, len: int) -> Seq<FileSpan>
    decreases lens.len() - k,
{
    if k < 0 || k >= lens.len() {
        Seq::empty()
    } else if cur < lens[k] {
        let bytes = min_int(lens[k] - cur, len - done);
        let here = seq![FileSpan { file: k as usize, file_offset: cur as u64, data_start: done as usize, data_end: (done + bytes) as usize }];
        if done + bytes >= len {
            here
        } else {
            here + read_spans(lens, k + 1, cur + bytes, done + bytes, len)
        }
    } else {
        read_spans(lens, k + 1, cur - lens[k], done, len)
    }
}

/// The lengths of the files.
pub open spec fn file_lengths(m: MetaView) -> Seq<u64> {
    match m.info.files {
        Some(fs) => fs.map_values(|f: crate::torrent::metainfo::FileView| f.length),
        None => Seq::empty(),
    }
}

/// The size of piece `index`: the piece length, or for the last piece what
/// remains of the total.
pub open spec fn piece_size_of(m: MetaView, index: int) -> int {
    if index + 1 < m.info.pieces.len() / 20 {
        m.info.piece_length as int
    } else {
        total_size_of(m.info) - index * m.info.piece_length
    }
}

/// The pieces of a torrent and their states, and where they are stored.
pub struct PieceManager {
    metainfo: TorrentMetaInfo,
    storage_path: String,
    pieces: Vec<Piece>,
}

/// The block size: 16 KiB.
pub const BLOCK_SIZE: usize = 16384;

/// The size of piece `i` when pieces of `pl` bytes tile `total` bytes.
pub open spec fn tiled_size(i: int, pl: int, total: int) -> int {
    min_int(i * pl + pl, total) - i * pl
}

impl PieceManager {
    /// The state of each piece.
    pub closed spec fn states(&self) -> Seq<PieceState> {
        self.pieces@.map_values(|p: Piece| p.state)
    }

    /// The size of each piece.
    pub closed spec fn sizes(&self) -> Seq<usize> {
        self.pieces@.map_values(|p: Piece| p.size)
    }

    /// The torrent's metadata.
    pub closed spec fn meta(&self) -> MetaView {
        self.metainfo@
    }

    /// Where the content is stored.
    pub closed spec fn storage(&self) -> Seq<char> {
        self.storage_path@
    }

    /// The pieces of `metainfo`, none started, to be stored under
    /// `storage_path`. Piece `i` covers bytes `i * piece_length` up to the
    /// next piece or the end of the content.
    pub fn new(metainfo: TorrentMetaInfo, storage_path: String) -> (r: PieceManager)
        requires
            total_size_of(metainfo@.info) <= u64::MAX,
            metainfo@.info.pieces.len() / 20 * metainfo@.info.piece_length + metainfo@.info.piece_length
                <= u64::MAX,
            metainfo@.info.pieces.len() / 20 > 0 ==> (metainfo@.info.pieces.len() / 20 - 1)
                * metainfo@.info.piece_length <= total_size_of(metainfo@.info),
            metainfo@.info.piece_length + BLOCK_SIZE <= usize::MAX,
        ensures
            r.meta() == metainfo@,
            r.storage() == storage_path@,
            r.states().len() == metainfo@.info.pieces.len() / 20,
            r.sizes().len() == metainfo@.info.pieces.len() / 20,
            forall|i: int| 0 <= i < r.states().len() ==> #[trigger] r.states()[i] == PieceState::NotStarted,
            forall|i: int| 0 <= i < r.sizes().len() ==> #[trigger] r.sizes()[i] == tiled_size(
                i,
                metainfo@.info.piece_length as int,
                total_size_of(metainfo@.info),
            ) as usize,
    {
        let piece_length = metainfo.info.piece_length;
        let total_size = metainfo.total_size();
        let piece_count = metainfo.piece_count();
        let mut pieces: Vec<Piece> = Vec::new();
        let mut i: usize = 0;
        while i < piece_count
            invariant
                piece_count == metainfo@.info.pieces.len() / 20,
                piece_length == metainfo@.info.piece_length,
                total_size == total_size_of(metainfo@.info),
                piece_count * piece_length + piece_length <= u64::MAX,
                piece_count > 0 ==> (piece_count - 1) * piece_length <= total_size,
                piece_length + BLOCK_SIZE <= usize::MAX,
                i <= piece_count,
                pieces@.len() == i,
                forall|j: int| 0 <= j < i ==> (#[trigger] pieces@[j]).state == PieceState::NotStarted
                    && pieces@[j].size == tiled_size(j, piece_length as int, total_size as int) as usize,
            decreases piece_count - i,
        {
            proof {
                assert(i * piece_length <= (piece_count - 1) * piece_length) by (nonlinear_arith)
                    requires
                        i < piece_count,
                ;
                assert(i * piece_length + piece_length <= piece_count * piece_length + piece_length) by (nonlinear_arith)
                    requires
                        i < piece_count,
                ;
            }
            let start = (i as u64) * (piece_length as u64);
            let end = if start + (piece_length as u64) < total_size {
                start + piece_length as u64
            } else {
                total_size
            };
            let size = (end - start) as usize;
            assert(size <= piece_length);
            pieces.push(Piece::new(i, size, BLOCK_SIZE));
            i = i + 1;
        }
        let r = PieceManager { metainfo, storage_path, pieces };
        assert(r.states().len() == r.pieces@.len());
        r
    }

    /// The number of pieces.
    pub fn piece_count(&self) -> (r: usize)
        ensures
            r == self.states().len(),
    {
        self.pieces.len()
    }

    /// The number of completed pieces.
    pub fn completed_count(&self) -> (r: usize)
        ensures
            r == count_completed(self.states()),
    {
        let ghost s = self.states();
        let mut n: usize = 0;
        let mut i: usize = 0;
        while i < self.pieces.len()
            invariant
                s == self.states(),
                s.len() == self.pieces@.len(),
                i <= s.len(),
                n == count_completed(s.take(i as int)),
                n <= i,
            decreases self.pieces.len() - i,
        {
            assert(s.take(i + 1).drop_last() =~= s.take(i as int));
            assert(s[i as int] == self.pieces@[i as int].state);
            if self.pieces[i].state == PieceState::Completed {
                n = n + 1;
            }
            i = i + 1;
        }
        assert(s.take(i as int) =~= s);
        n
    }

    /// The have bitmap: one bit per piece, high bit first, set for the
    /// completed pieces.
    pub fn bitmap(&self) -> (r: Vec<u8>)
        ensures
            is_bitmap_of(r@, self.states()),
    {
        let ghost s = self.states();
        let n = self.pieces.len();
        let nbytes = n / 8 + if n % 8 != 0 { 1usize } else { 0usize };
        let mut bm: Vec<u8> = Vec::new();
        let mut b: usize = 0;
        while b < nbytes
            invariant
                b <= nbytes,
                bm@.len() == b,
                forall|j: int| 0 <= j < b ==> bm@[j] == 0u8,
            decreases nbytes - b,
        {
            bm.push(0u8);
            b = b + 1;
        }
        assert forall|k: int| 0 <= k < 8 * bm@.len() implies !#[trigger] bit_set(bm@, k) by {
            lemma_zero_bits((7 - k % 8) as u8);
        }
        let mut i: usize = 0;
        while i < n
            invariant
                s == self.states(),
                s.len() == n,
                n == self.pieces@.len(),
                bm@.len() == nbytes,
                nbytes == (n + 7) / 8,
                i <= n,
                forall|k: int| 0 <= k < 8 * bm@.len() ==> #[trigger] bit_set(bm@, k) == (k < i && s[k]
                    == PieceState::Completed),
            decreases n - i,
        {
            assert(s[i as int] == self.pieces@[i as int].state);
            if self.pieces[i].state == PieceState::Completed {
                let ghost old_bm = bm@;
                let byte = bm[i / 8];
                let shift: u8 = (7 - i % 8) as u8;
                bm[i / 8] = byte | (1u8 << shift);
                assert forall|k: int| 0 <= k < 8 * bm@.len() implies #[trigger] bit_set(bm@, k) == (k < i + 1
                    && s[k] == PieceState::Completed) by {
                    assert(bit_set(old_bm, k) == (k < i && s[k] == PieceState::Completed));
                    if k / 8 == i / 8 {
                        lemma_set_bit(byte, shift, (7 - k % 8) as u8);
                    }
                }
            }
            i = i + 1;
        }
        bm
    }

    /// The pieces that a bitmap marks as had, below the number of pieces.
    pub fn parse_bitmap(&self, bitmap: &[u8]) -> (r: Vec<usize>)
        ensures
            r@ == set_bits_below(bitmap@, min_int(self.states().len() as int, 8 * bitmap@.len() as int)),
    {
        let n = self.pieces.len();
        let mut out: Vec<usize> = Vec::new();
        let mut i: usize = 0;
        while i < n && i / 8 < bitmap.len()
            invariant
                n == self.states().len(),
                i <= n,
                i <= 8 * bitmap@.len(),
                out@ == set_bits_below(bitmap@, i as int),
            decreases n - i,
        {
            let byte = bitmap[i / 8];
            let shift: u8 = (7 - i % 8) as u8;
            if byte & (1u8 << shift) != 0u8 {
                out.push(i);
            }
            i = i + 1;
        }
        out
    }

    /// The pieces a peer has that exist here and are not completed, in the
    /// peer's order.
    pub fn needed_pieces(&self, peer_have: &[usize]) -> (r: Vec<usize>)
        ensures
            r@ == needed(peer_have@, self.states()),
    {
        let ghost s = self.states();
        let mut out: Vec<usize> = Vec::new();
        let mut i: usize = 0;
        while i < peer_have.len()
            invariant
                s == self.states(),
                s.len() == self.pieces@.len(),
                i <= peer_have@.len(),
                out@ == needed(peer_have@.take(i as int), s),
            decreases peer_have.len() - i,
        {
            let p = peer_have[i];
            assert(peer_have@.take(i + 1).drop_last() =~= peer_have@.take(i as int));
            if p < self.pieces.len() && self.pieces[p].state != PieceState::Completed {
                out.push(p);
            }
            i = i + 1;
        }
        assert(peer_have@.take(i as int) =~= peer_have@);
        out
    }

    /// Marks piece `index` completed; an index past the pieces changes nothing.
    pub fn mark_piece_completed(&mut self, index: usize)
        ensures
            final(self).states() == if index < old(self).states().len() {
                old(self).states().update(index as int, PieceState::Completed)
            } else {
                old(self).states()
            },
            final(self).sizes() == old(self).sizes(),
            final(self).meta() == old(self).meta(),
            final(self).storage() == old(self).storage(),
    {
        self.set_state(index, PieceState::Completed);
    }

    /// Marks piece `index` downloading; an index past the pieces changes nothing.
    pub fn mark_piece_downloading(&mut self, index: usize)
        ensures
            final(self).states() == if index < old(self).states().len() {
                old(self).states().update(index as int, PieceState::Downloading)
            } else {
                old(self).states()
            },
            final(self).sizes() == old(self).sizes(),
            final(self).meta() == old(self).meta(),
            final(self).storage() == old(self).storage(),
    {
        self.set_state(index, PieceState::Downloading);
    }

    fn set_state(&mut self, index: usize, state: PieceState)
        ensures
            final(self).pieces@.len() == old(self).pieces@.len(),
            final(self).states() == if index < old(self).states().len() {
                old(self).states().update(index as int, state)
            } else {
                old(self).states()
            },
            final(self).sizes() == old(self).sizes(),
            final(self).meta() == old(self).meta(),
            final(self).storage() == old(self).storage(),
    {
        if index < self.pieces.len() {
            let ghost old_pieces = self.pieces@;
            let mut p = self.pieces[index].clone_piece();
            p.state = state;
            self.pieces.set(index, p);
            assert(self.states() =~= old(self).states().update(index as int, state));
            assert(self.sizes() =~= old(self).sizes());
        }
    }

    /// The state of piece `index`, if there is such a piece.
    pub fn piece_state(&self, index: usize) -> (r: Option<PieceState>)
        ensures
            r == if index < self.states().len() {
                Some(self.states()[index as int])
            } else {
                None
            },
    {
        if index < self.pieces.len() {
            Some(self.pieces[index].state)
        } else {
            None
        }
    }

    /// Marks every piece completed, as when seeding.
    pub fn mark_all_completed(&mut self)
        ensures
            final(self).states().len() == old(self).states().len(),
            forall|i: int| 0 <= i < final(self).states().len() ==> #[trigger] final(self).states()[i]
                == PieceState::Completed,
            final(self).sizes() == old(self).sizes(),
            final(self).meta() == old(self).meta(),
            final(self).storage() == old(self).storage(),
    {
        let mut i: usize = 0;
        while i < self.pieces.len()
            invariant
                i <= self.pieces@.len(),
                self.pieces@.len() == old(self).pieces@.len(),
                self.states().len() == old(self).states().len(),
                forall|j: int| 0 <= j < i ==> #[trigger] self.states()[j] == PieceState::Completed,
                self.sizes() == old(self).sizes(),
                self.meta() == old(self).meta(),
                self.storage() == old(self).storage(),
            decreases self.pieces.len() - i,
        {
            self.set_state(i, PieceState::Completed);
            i = i + 1;
        }
    }
}

impl Piece {
    /// A copy of the piece, field by field.
    pub fn clone_piece(&self) -> (r: Piece)
        ensures
            r.index == self.index,
            r.size == self.size,
            r.state == self.state,
            r.data@ == self.data@,
            r.blocks_downloaded == self.blocks_downloaded,
            r.blocks_total == self.blocks_total,
    {
        Piece {
            index: self.index,
            size: self.size,
            state: self.state,
            data: vstd::slice::slice_to_vec(self.data.as_slice()),
            blocks_downloaded: self.blocks_downloaded,
            blocks_total: self.blocks_total,
        }
    }
}

/// Where the bytes of piece `index`, `len` of them, are written: the single
/// file at the piece's offset, or the stretches of the files; nothing for a
/// multi-file torrent without a file list.
pub open spec fn store_plan(m: MetaView, index: int, len: int) -> Option<Seq<FileSpan>> {
    let pl = m.info.piece_length as int;
    if m.info.length is Some {
        Some(seq![FileSpan { file: 0, file_offset: (index * pl) as u64, data_start: 0, data_end: len as usize }])
    } else if m.info.files is Some {
        Some(write_spans(file_lengths(m), 0, index * pl, 0, len, pl))
    } else {
        None
    }
}

/// Where the `len` bytes of piece `index` are read from.
pub open spec fn read_plan(m: MetaView, index: int, len: int) -> Option<Seq<FileSpan>> {
    let pl = m.info.piece_length as int;
    if m.info.length is Some {
        Some(seq![FileSpan { file: 0, file_offset: (index * pl) as u64, data_start: 0, data_end: len as usize }])
    } else if m.info.files is Some {
        Some(read_spans(file_lengths(m), 0, index * pl, 0, len))
    } else {
        None
    }
}

/// The hash of piece `index` is in the metadata and `data` has it.
pub open spec fn hash_matches(m: MetaView, index: int, data: Seq<u8>) -> bool {
    &&& index * 20 + 20 <= m.info.pieces.len()
    &&& sha1_digest(data) == m.info.pieces.subrange(index * 20, index * 20 + 20)
}

impl PieceManager {
    fn file_spans(&self, index: usize, len: usize, writing: bool) -> (r: Vec<FileSpan>)
        requires
            self.meta().info.length is None,
            self.meta().info.files is Some,
            self.meta().info.piece_length > 0,
            index * self.meta().info.piece_length <= u64::MAX,
        ensures
            r@ == if writing {
                write_spans(file_lengths(self.meta()), 0, index * self.meta().info.piece_length, 0, len as int, self.meta().info.piece_length as int)
            } else {
                read_spans(file_lengths(self.meta()), 0, index * self.meta().info.piece_length, 0, len as int)
            },
    {
        let files = match &self.metainfo.info.files {
            Some(fs) => fs,
            None => {
                return Vec::new();
            },
        };
        let ghost lens = file_lengths(self.meta());
        let ghost plv = self.meta().info.piece_length as int;
        let ghost cur0 = index * self.meta().info.piece_length;
        let pl = self.metainfo.info.piece_length as u64;
        assert(lens.len() == files@.len());
        assert(forall|j: int| 0 <= j < files@.len() ==> #[trigger] lens[j] == files@[j].length);
        let mut cur: u64 = (index as u64) * pl;
        let mut done: usize = 0;
        let mut out: Vec<FileSpan> = Vec::new();
        let mut k: usize = 0;
        while k < files.len()
            invariant
                lens == file_lengths(self.meta()),
                cur0 == index * self.meta().info.piece_length,
                plv == self.meta().info.piece_length as int,
                lens.len() == files@.len(),
                forall|j: int| 0 <= j < files@.len() ==> #[trigger] lens[j] == files@[j].length,
                pl == plv,
                pl > 0,
                k <= files@.len(),
                done <= len,
                writing ==> out@ + write_spans(lens, k as int, cur as int, done as int, len as int, plv) == write_spans(
                    lens,
                    0,
                    cur0,
                    0,
                    len as int,
                    plv,
                ),
                !writing ==> out@ + read_spans(lens, k as int, cur as int, done as int, len as int) == read_spans(
                    lens,
                    0,
                    cur0,
                    0,
                    len as int,
                ),
            decreases files.len() - k,
        {
            let fl = files[k].length;
            if cur < fl {
                assert(cur % pl < pl) by (nonlinear_arith)
                    requires
                        pl > 0,
                ;
                let start = (cur % pl) as usize;
                let avail = fl - cur;
                let remaining = len - done;
                let bytes: usize = if avail < remaining as u64 {
                    avail as usize
                } else {
                    remaining
                };
                let ghost old_out = out@;
                let ghost oc = cur as int;
                let ghost od = done as int;
                assert(bytes == min_int(lens[k as int] - oc, len - od));
                assert(start == oc % plv);
                if writing {
                    if start <= len && bytes <= len - start {
                        out.push(FileSpan { file: k, file_offset: cur, data_start: start, data_end: start + bytes });
                    }
                } else {
                    out.push(FileSpan { file: k, file_offset: cur, data_start: done, data_end: done + bytes });
                }
                let ghost here = out@.subrange(old_out.len() as int, out@.len() as int);
                assert(out@ =~= old_out + here);
                proof {
                    if writing {
                        assert(here =~= (if start + bytes <= len {
                            seq![FileSpan { file: k as usize, file_offset: oc as u64, data_start: start as usize, data_end: (start + bytes) as usize }]
                        } else {
                            Seq::empty()
                        }));
                    } else {
                        assert(here =~= seq![FileSpan { file: k as usize, file_offset: oc as u64, data_start: od as usize, data_end: (od + bytes) as usize }]);
                    }
                }
                done = done + bytes;
                cur = cur + bytes as u64;
                if done >= len {
                    proof {
                        assert(out@ + Seq::<FileSpan>::empty() =~= out@);
                        if writing {
                            assert(write_spans(lens, k as int, oc, od, len as int, plv) == here);
                        } else {
                            assert(read_spans(lens, k as int, oc, od, len as int) == here);
                        }
                    }
                    return out;
                }
                proof {
                    if writing {
                        assert(write_spans(lens, k as int, oc, od, len as int, plv) == here + write_spans(
                            lens,
                            k + 1,
                            cur as int,
                            done as int,
                            len as int,
                            plv,
                        ));
                        assert(old_out + (here + write_spans(lens, k + 1, cur as int, done as int, len as int, plv))
                            =~= out@ + write_spans(lens, k + 1, cur as int, done as int, len as int, plv));
                    } else {
                        assert(read_spans(lens, k as int, oc, od, len as int) == here + read_spans(
                            lens,
                            k + 1,
                            cur as int,
                            done as int,
                            len as int,
                        ));
                        assert(old_out + (here + read_spans(lens, k + 1, cur as int, done as int, len as int))
                            =~= out@ + read_spans(lens, k + 1, cur as int, done as int, len as int));
                    }
                }
            } else {
                cur = cur - fl;
            }
            k = k + 1;
        }
        proof {
            assert(out@ + Seq::<FileSpan>::empty() =~= out@);
        }
        out
    }

    /// Checks the bytes of piece `index` against its hash and says where
    /// they are to be written. Errors: no such piece hash, a hash that does
    /// not match, a multi-file torrent without a file list.
    pub fn store_piece(&self, index: usize, data: &[u8]) -> (r: Result<Vec<FileSpan>, String>)
        requires
            index * 20 + 20 <= usize::MAX,
            index * self.meta().info.piece_length <= u64::MAX,
            self.meta().info.length is None ==> self.meta().info.piece_length > 0,
        ensures
            match r {
                Ok(spans) => hash_matches(self.meta(), index as int, data@) && store_plan(self.meta(), index as int, data@.len() as int) == Some(spans@),
                Err(_) => !hash_matches(self.meta(), index as int, data@) || store_plan(self.meta(), index as int, data@.len() as int) is None,
            },
    {
        let expected = match self.metainfo.piece_hash(index) {
            Some(h) => h,
            None => {
                return Err("Invalid piece index".to_string());
            },
        };
        let hash = sha1(data);
        if !same_hash(&hash, &expected) {
            return Err("Piece hash verification failed".to_string());
        }
        if self.metainfo.is_single_file() {
            let offset = (index as u64) * (self.metainfo.info.piece_length as u64);
            let mut v: Vec<FileSpan> = Vec::new();
            v.push(FileSpan { file: 0, file_offset: offset, data_start: 0, data_end: data.len() });
            Ok(v)
        } else if self.metainfo.info.files.is_none() {
            Err("No files in torrent".to_string())
        } else {
            Ok(self.file_spans(index, data.len(), true))
        }
    }

    /// Where the `len` bytes of piece `index` are to be read from. Error: a
    /// multi-file torrent without a file list.
    pub fn read_piece_into(&self, index: usize, len: usize) -> (r: Result<Vec<FileSpan>, String>)
        requires
            index * self.meta().info.piece_length <= u64::MAX,
            self.meta().info.length is None ==> self.meta().info.piece_length > 0,
        ensures
            match r {
                Ok(spans) => read_plan(self.meta(), index as int, len as int) == Some(spans@),
                Err(_) => read_plan(self.meta(), index as int, len as int) is None,
            },
    {
        if self.metainfo.is_single_file() {
            let offset = (index as u64) * (self.metainfo.info.piece_length as u64);
            let mut v: Vec<FileSpan> = Vec::new();
            v.push(FileSpan { file: 0, file_offset: offset, data_start: 0, data_end: len });
            Ok(v)
        } else if self.metainfo.info.files.is_none() {
            Err("No files in torrent".to_string())
        } else {
            Ok(self.file_spans(index, len, false))
        }
    }

    /// The size of piece `index` and where its bytes are read from.
    pub fn read_piece(&self, index: usize) -> (r: Result<(usize, Vec<FileSpan>), String>)
        requires
            index + 1 <= usize::MAX,
            total_size_of(self.meta().info) <= u64::MAX,
            index * self.meta().info.piece_length <= u64::MAX,
            index + 1 >= self.meta().info.pieces.len() / 20 ==> index * self.meta().info.piece_length
                <= total_size_of(self.meta().info),
            self.meta().info.length is None ==> self.meta().info.piece_length > 0,
        ensures
            match r {
                Ok((size, spans)) => size == piece_size_of(self.meta(), index as int) as usize
                    && read_plan(self.meta(), index as int, size as int) == Some(spans@),
                Err(_) => read_plan(self.meta(), index as int, piece_size_of(self.meta(), index as int) as usize as int) is None,
            },
    {
        let size: usize = if index + 1 < self.metainfo.piece_count() {
            self.metainfo.info.piece_length as usize
        } else {
            let total = self.metainfo.total_size();
            let offset = (index as u64) * (self.metainfo.info.piece_length as u64);
            (total - offset) as usize
        };
        match self.read_piece_into(index, size) {
            Ok(spans) => Ok((size, spans)),
            Err(e) => Err(e),
        }
    }

    /// The size of piece `index` and where its bytes are read from, for any
    /// index: one outside the torrent's pieces, or whose size cannot be
    /// computed, is refused as an invalid piece index.
    pub fn checked_read_piece(&self, index: usize) -> (r: Result<(usize, Vec<FileSpan>), String>)
        ensures
            ({
                let ok = index < self.meta().info.pieces.len() / 20
                    && crate::torrent::downloader::piece_size_known(self.meta(), index as int)
                    && (self.meta().info.length is None ==> self.meta().info.piece_length > 0);
                &&& !ok ==> (r matches Err(m) && m@ == "Invalid piece index"@)
                &&& ok ==> match r {
                    Ok((size, spans)) => size == piece_size_of(self.meta(), index as int) as usize
                        && read_plan(self.meta(), index as int, size as int) == Some(spans@),
                    Err(_) => read_plan(self.meta(), index as int, piece_size_of(self.meta(), index as int) as usize as int) is None,
                }
            }),
    {
        let meta = &self.metainfo;
        if index >= meta.piece_count()
            || crate::torrent::downloader::checked_piece_download_size(meta, index).is_none()
            || (meta.info.length.is_none() && meta.info.piece_length == 0) {
            return Err("Invalid piece index".to_string());
        }
        self.read_piece(index)
    }
}

/// `completed_count` counts exactly the pieces whose state is `Completed`:
/// pieces that are not started, downloading or failed are not counted.
pub proof fn lemma_completed_count_counts_completed(s: Seq<PieceState>)
    ensures
        count_completed(s) == s.filter(|x: PieceState| x == PieceState::Completed).len(),
    decreases s.len(),
{
    reveal(Seq::filter);
    if s.len() > 0 {
        lemma_completed_count_counts_completed(s.drop_last());
    }
}

/// Marking piece `i` with a state other than `Completed` lowers the count of
/// completed pieces by one when the piece was completed and leaves it as it
/// was otherwise; marking it completed raises the count by one when it was
/// not completed. So starting a download never adds to the count.
pub proof fn lemma_completed_count_update(s: Seq<PieceState>, i: int, st: PieceState)
    requires
        0 <= i < s.len(),
    ensures
        count_completed(s.update(i, st)) + (if s[i] == PieceState::Completed { 1int } else { 0int })
            == count_completed(s) + (if st == PieceState::Completed { 1int } else { 0int }),
    decreases s.len(),
{
    let u = s.update(i, st);
    if i < s.len() - 1 {
        assert(u.drop_last() =~= s.drop_last().update(i, st));
        lemma_completed_count_update(s.drop_last(), i, st);
    } else {
        assert(u.drop_last() =~= s.drop_last());
    }
}

} // verus!
