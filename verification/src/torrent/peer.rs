//! What a peer connection keeps track of: the pieces the peer has, how its
//! messages change that, and our peer id.

use vstd::prelude::*;
use crate::torrent::piece::{bit_set, set_bits_below};
use crate::torrent::protocol::{Message, WireMessage, PeerState, peer_state_after};

verus! {

/// The prefix of our peer ids: the client and its version.
pub const PEER_ID_PREFIX: &'static str = "-ST0001-";

/// The bytes of the peer id prefix.
pub open spec fn peer_id_prefix() -> Seq<u8> {
    seq![45u8, 83, 84, 48, 48, 48, 49, 45]
}

/// Draws a byte from `rand::random`. Nothing is claimed of it.
#[verifier::external_body]
fn random_byte() -> u8 {
    rand::random::<u8>()
}

/// A fresh peer id: the prefix, then random bytes.
pub fn generate_peer_id() -> (r: [u8; 20])
    ensures
        r@.take(8) == peer_id_prefix(),
{
    let prefix: [u8; 8] = [45u8, 83, 84, 48, 48, 48, 49, 45];
    let mut id = [0u8; 20];
    let mut i: usize = 0;
    while i < 20
        invariant
            i <= 20,
            id@.len() == 20,
            forall|k: int| 0 <= k < i && k < 8 ==> id@[k] == peer_id_prefix()[k],
            prefix@ == peer_id_prefix(),
        decreases 20 - i,
    {
        if i < 8 {
            id[i] = prefix[i];
        } else {
            id[i] = random_byte();
        }
        i = i + 1;
    }
    assert(id@.take(8) =~= peer_id_prefix());
    id
}

/// The pieces a bitfield marks: every set bit, high bit first.
pub fn parse_bitmap(bitmap: &[u8]) -> (r: Vec<usize>)
    requires
        8 * bitmap@.len() <= usize::MAX,
    ensures
        r@ == set_bits_below(bitmap@, 8 * bitmap@.len() as int),
{
    let mut out: Vec<usize> = Vec::new();
    let mut byte_i: usize = 0;
    let mut i: usize = 0;
    while byte_i < bitmap.len()
        invariant
            byte_i <= bitmap@.len(),
            8 * bitmap@.len() <= usize::MAX,
            i == 8 * byte_i,
            out@ == set_bits_below(bitmap@, i as int),
        decreases bitmap.len() - byte_i,
    {
        let byte = bitmap[byte_i];
        let mut bit: usize = 0;
        while bit < 8
            invariant
                byte_i < bitmap@.len(),
                8 * bitmap@.len() <= usize::MAX,
                byte == bitmap@[byte_i as int],
                bit <= 8,
                i == 8 * byte_i + bit,
                out@ == set_bits_below(bitmap@, i as int),
            decreases 8 - bit,
        {
            let shift: u8 = (7 - bit) as u8;
            assert(i / 8 == byte_i && i % 8 == bit);
            if byte & (1u8 << shift) != 0u8 {
                out.push(i);
            }
            bit = bit + 1;
            i = i + 1;
        }
        byte_i = byte_i + 1;
    }
    out
}

/// Records that the peer has piece `index`: a new index is added and the
/// list sorted; a known index changes nothing.
pub fn record_have(pieces: &mut Vec<usize>, index: usize)
    ensures
        old(pieces)@.contains(index) ==> final(pieces)@ == old(pieces)@,
        !old(pieces)@.contains(index) ==> final(pieces)@.to_multiset() == old(pieces)@.push(index).to_multiset()
            && forall|a: int, b: int| 0 <= a < b < final(pieces)@.len() ==> final(pieces)@[a] <= final(pieces)@[b],
{
    let mut k: usize = 0;
    while k < pieces.len()
        invariant
            k <= pieces@.len(),
            forall|j: int| 0 <= j < k ==> pieces@[j] != index,
        decreases pieces.len() - k,
    {
        if pieces[k] == index {
            assert(pieces@.contains(index));
            return;
        }
        k = k + 1;
    }
    assert(!pieces@.contains(index));
    let mut all = Vec::new();
    std::mem::swap(&mut all, pieces);
    all.push(index);
    let sorted = sort_indices(all);
    *pieces = sorted;
}

/// The indices in increasing order.
pub fn sort_indices(v: Vec<usize>) -> (r: Vec<usize>)
    ensures
        r@.to_multiset() == v@.to_multiset(),
        forall|a: int, b: int| 0 <= a < b < r@.len() ==> r@[a] <= r@[b],
{
    broadcast use vstd::seq_lib::group_to_multiset_ensures;
    let mut out: Vec<usize> = Vec::new();
    let mut i: usize = 0;
    while i < v.len()
        invariant
            i <= v@.len(),
            forall|a: int, b: int| 0 <= a < b < out@.len() ==> out@[a] <= out@[b],
            out@.to_multiset() == v@.take(i as int).to_multiset(),
        decreases v.len() - i,
    {
        let x = v[i];
        let mut k: usize = 0;
        while k < out.len() && out[k] <= x
            invariant
                k <= out@.len(),
                forall|j: int| 0 <= j < k ==> out@[j] <= x,
            decreases out.len() - k,
        {
            k = k + 1;
        }
        let ghost before = out@;
        out.insert(k, x);
        proof {
            assert(out@ == before.insert(k as int, x));
            assert forall|a: int, b: int| 0 <= a < b < out@.len() implies out@[a] <= out@[b] by {
                if a == k {
                    assert(out@[b] == before[b - 1]);
                    assert(before[k as int] > x);
                } else if b == k {
                    assert(out@[a] == before[a]);
                } else {
                    let a0 = if a < k { a } else { a - 1 };
                    let b0 = if b < k { b } else { b - 1 };
                    assert(out@[a] == before[a0]);
                    assert(out@[b] == before[b0]);
                }
            }
            assert(v@.take(i + 1) =~= v@.take(i as int).push(v@[i as int]));
            vstd::seq_lib::to_multiset_insert(before, k as int, x);
            vstd::seq_lib::to_multiset_build(v@.take(i as int), v@[i as int]);
        }
        i = i + 1;
    }
    assert(v@.take(i as int) =~= v@);
    out
}

/// What a connection knows of its peer: the choke and interest state and
/// the pieces the peer has.
pub struct PeerView {
    pub state: PeerState,
    pub have_pieces: Vec<usize>,
}

impl PeerView {
    /// A fresh connection: both choked, nothing known.
    pub fn new() -> (r: PeerView)
        ensures
            r.state == crate::torrent::protocol::initial_peer_state(),
            r.have_pieces@.len() == 0,
    {
        PeerView { state: PeerState::default(), have_pieces: Vec::new() }
    }

    /// Takes in a message from the peer: choke and interest messages change
    /// the state, a bitfield replaces the pieces known, a have adds one.
    pub fn apply(&mut self, message: &Message)
        requires
            message matches Message::Bitfield { bitmap } ==> 8 * bitmap@.len() <= usize::MAX,
        ensures
            final(self).state == peer_state_after(old(self).state, message@),
            match message {
                Message::Bitfield { bitmap } => final(self).have_pieces@ == set_bits_below(bitmap@, 8 * bitmap@.len() as int),
                Message::Have { index } => (old(self).have_pieces@.contains(*index) ==> final(self).have_pieces@
                    == old(self).have_pieces@) && (!old(self).have_pieces@.contains(*index)
                    ==> final(self).have_pieces@.to_multiset() == old(self).have_pieces@.push(*index).to_multiset()
                    && forall|a: int, b: int| 0 <= a < b < final(self).have_pieces@.len() ==> final(self).have_pieces@[a]
                    <= final(self).have_pieces@[b]),
                _ => final(self).have_pieces@ == old(self).have_pieces@,
            },
    {
        self.state.handle_message(message);
        match message {
            Message::Bitfield { bitmap } => {
                self.have_pieces = parse_bitmap(bitmap.as_slice());
            },
            Message::Have { index } => {
                record_have(&mut self.have_pieces, *index);
            },
            _ => {},
        }
    }
}

} // verus!
