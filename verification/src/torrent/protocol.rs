//! The BitTorrent peer wire protocol: the handshake, length-prefixed
//! messages and the choke/interest state of a connection.

use vstd::prelude::*;
use crate::common::error::Error;

verus! {

/// The length of a handshake: one length byte, the 19-byte protocol string,
/// 8 extension bytes, the 20-byte info hash and the 20-byte peer id.
pub const HANDSHAKE_LENGTH: usize = 68;

/// The protocol string, `BitTorrent protocol`.
pub open spec fn protocol_string() -> Seq<u8> {
    seq![66u8, 105, 116, 84, 111, 114, 114, 101, 110, 116, 32, 112, 114, 111, 116, 111, 99, 111, 108]
}

/// The protocol string as bytes.
pub fn protocol_bytes() -> (r: Vec<u8>)
    ensures
        r@ == protocol_string(),
{
    let r: Vec<u8> = vec![66u8, 105, 116, 84, 111, 114, 114, 101, 110, 116, 32, 112, 114, 111, 116, 111, 99, 111, 108];
    assert(r@ =~= protocol_string());
    r
}

// ===================================================================
// Big-endian integers
// ===================================================================

/// The four big-endian bytes of `n`.
pub open spec fn be_u32_bytes(n: u32) -> Seq<u8> {
    seq![(n >> 24u32) as u8, ((n >> 16u32) & 0xffu32) as u8, ((n >> 8u32) & 0xffu32) as u8, (n & 0xffu32) as u8]
}

/// The number whose big-endian bytes begin `b`.
pub open spec fn be_u32_value(b: Seq<u8>) -> u32 {
    be_u32_of(b[0], b[1], b[2], b[3])
}

/// The number with big-endian bytes `b0 b1 b2 b3`.
pub open spec fn be_u32_of(b0: u8, b1: u8, b2: u8, b3: u8) -> u32 {
    ((b0 as u32) << 24u32) | ((b1 as u32) << 16u32) | ((b2 as u32) << 8u32) | (b3 as u32)
}

/// Reading back the big-endian bytes of a number gives the number.
pub proof fn lemma_be_u32_roundtrip(n: u32)
    ensures
        be_u32_value(be_u32_bytes(n)) == n,
{
    let b = be_u32_bytes(n);
    let b0 = (n >> 24u32) as u8;
    let b1 = ((n >> 16u32) & 0xffu32) as u8;
    let b2 = ((n >> 8u32) & 0xffu32) as u8;
    let b3 = (n & 0xffu32) as u8;
    assert(b[0] == b0 && b[1] == b1 && b[2] == b2 && b[3] == b3);
    assert(((b0 as u32) << 24u32) | ((b1 as u32) << 16u32) | ((b2 as u32) << 8u32) | (b3 as u32) == n)
        by (bit_vector)
        requires
            b0 == (n >> 24u32) as u8,
            b1 == ((n >> 16u32) & 0xffu32) as u8,
            b2 == ((n >> 8u32) & 0xffu32) as u8,
            b3 == (n & 0xffu32) as u8,
    ;
}

/// Appends the big-endian bytes of `n`.
pub(crate) fn push_be_u32(out: &mut Vec<u8>, n: u32)
    ensures
        final(out)@ == old(out)@ + be_u32_bytes(n),
{
    out.push((n >> 24u32) as u8);
    out.push(((n >> 16u32) & 0xffu32) as u8);
    out.push(((n >> 8u32) & 0xffu32) as u8);
    out.push((n & 0xffu32) as u8);
    assert(out@ =~= old(out)@ + be_u32_bytes(n));
}

/// The number whose big-endian bytes are `b[at..at + 4]`.
pub(crate) fn read_be_u32(b: &[u8], at: usize) -> (r: u32)
    requires
        at + 4 <= b@.len(),
    ensures
        r == be_u32_value(b@.subrange(at as int, at + 4)),
{
    let ghost s = b@.subrange(at as int, at + 4);
    assert(s[0] == b@[at as int] && s[1] == b@[at + 1] && s[2] == b@[at + 2] && s[3] == b@[at + 3]);
    ((b[at] as u32) << 24u32) | ((b[at + 1] as u32) << 16u32) | ((b[at + 2] as u32) << 8u32) | (b[at + 3] as u32)
}


// ===================================================================
// Message types
// ===================================================================

/// The kind of a message, by its id byte.
#[derive(Debug, Clone, Copy, PartialEq, Eq, Structural)]
pub enum MessageType {
    /// 0: the sender no longer serves requests.
    Choke,
    /// 1: the sender serves requests.
    Unchoke,
    /// 2: the sender wants data.
    Interested,
    /// 3: the sender wants no data.
    NotInterested,
    /// 4: the sender has a piece.
    Have,
    /// 5: the pieces the sender has.
    Bitfield,
    /// 6: a request for a block.
    Request,
    /// 7: a block of a piece.
    Piece,
    /// 8: a request withdrawn.
    Cancel,
}

/// The message type with id byte `b`.
pub open spec fn message_type_of(b: u8) -> Option<MessageType> {
    if b == 0 {
        Some(MessageType::Choke)
    } else if b == 1 {
        Some(MessageType::Unchoke)
    } else if b == 2 {
        Some(MessageType::Interested)
    } else if b == 3 {
        Some(MessageType::NotInterested)
    } else if b == 4 {
        Some(MessageType::Have)
    } else if b == 5 {
        Some(MessageType::Bitfield)
    } else if b == 6 {
        Some(MessageType::Request)
    } else if b == 7 {
        Some(MessageType::Piece)
    } else if b == 8 {
        Some(MessageType::Cancel)
    } else {
        None
    }
}

impl MessageType {
    /// The message type with id byte `b`, if there is one.
    pub fn from_byte(b: u8) -> (r: Option<MessageType>)
        ensures
            r == message_type_of(b),
    {
        match b {
            0 => Some(MessageType::Choke),
            1 => Some(MessageType::Unchoke),
            2 => Some(MessageType::Interested),
            3 => Some(MessageType::NotInterested),
            4 => Some(MessageType::Have),
            5 => Some(MessageType::Bitfield),
            6 => Some(MessageType::Request),
            7 => Some(MessageType::Piece),
            8 => Some(MessageType::Cancel),
            _ => None,
        }
    }
}

// ===================================================================
// The handshake
// ===================================================================

/// The handshake that opens a connection.
#[derive(Debug, Clone, Copy)]
pub struct Handshake {
    /// The info hash of the torrent.
    pub info_hash: [u8; 20],
    /// The sender's peer id.
    pub peer_id: [u8; 20],
    /// Extension bits.
    pub extensions: [u8; 8],
}

/// The bytes of a handshake: the protocol string with its length, then the
/// extensions, the info hash and the peer id.
pub open spec fn handshake_bytes(h: Handshake) -> Seq<u8> {
    seq![19u8] + protocol_string() + h.extensions@ + h.info_hash@ + h.peer_id@
}

/// What a handshake read from `data` holds, if `data` begins with one.
pub open spec fn parse_handshake(data: Seq<u8>) -> Option<(Seq<u8>, Seq<u8>, Seq<u8>)> {
    if data.len() >= 68 && data[0] == 19 && data.subrange(1, 20) == protocol_string() {
        Some((data.subrange(20, 28), data.subrange(28, 48), data.subrange(48, 68)))
    } else {
        None
    }
}

fn copy_array20(data: &[u8], at: usize) -> (r: [u8; 20])
    requires
        at + 20 <= data@.len(),
    ensures
        r@ == data@.subrange(at as int, at + 20),
{
    let mut r = [0u8; 20];
    let dlen = data.len();
    let mut i: usize = 0;
    while i < 20
        invariant
            i <= 20,
            dlen == data@.len(),
            at + 20 <= data@.len(),
            r@.len() == 20,
            forall|j: int| 0 <= j < i ==> r@[j] == data@[at + j],
        decreases 20 - i,
    {
        r[i] = data[at + i];
        i = i + 1;
    }
    assert(r@ =~= data@.subrange(at as int, at + 20));
    r
}

fn copy_array8(data: &[u8], at: usize) -> (r: [u8; 8])
    requires
        at + 8 <= data@.len(),
    ensures
        r@ == data@.subrange(at as int, at + 8),
{
    let mut r = [0u8; 8];
    let dlen = data.len();
    let mut i: usize = 0;
    while i < 8
        invariant
            i <= 8,
            dlen == data@.len(),
            at + 8 <= data@.len(),
            r@.len() == 8,
            forall|j: int| 0 <= j < i ==> r@[j] == data@[at + j],
        decreases 8 - i,
    {
        r[i] = data[at + i];
        i = i + 1;
    }
    assert(r@ =~= data@.subrange(at as int, at + 8));
    r
}

impl Handshake {
    /// A handshake with no extension bits set.
    pub fn new(info_hash: [u8; 20], peer_id: [u8; 20]) -> (h: Handshake)
        ensures
            h.info_hash == info_hash,
            h.peer_id == peer_id,
            h.extensions@ == seq![0u8, 0, 0, 0, 0, 0, 0, 0],
    {
        let h = Handshake { info_hash, peer_id, extensions: [0u8; 8] };
        assert(h.extensions@ =~= seq![0u8, 0, 0, 0, 0, 0, 0, 0]);
        h
    }

    /// The handshake's 68 bytes.
    pub fn to_bytes(&self) -> (r: Vec<u8>)
        ensures
            r@ == handshake_bytes(*self),
            r@.len() == 68,
    {
        let mut bytes: Vec<u8> = Vec::new();
        bytes.push(19u8);
        let proto = protocol_bytes();
        let mut i: usize = 0;
        while i < proto.len()
            invariant
                i <= proto@.len(),
                proto@ == protocol_string(),
                bytes@ == seq![19u8] + proto@.take(i as int),
            decreases proto.len() - i,
        {
            bytes.push(proto[i]);
            i = i + 1;
            assert(bytes@ =~= seq![19u8] + proto@.take(i as int));
        }
        assert(proto@.take(i as int) =~= proto@);
        let ghost head = bytes@;
        let mut j: usize = 0;
        while j < 8
            invariant
                j <= 8,
                bytes@ == head + self.extensions@.take(j as int),
            decreases 8 - j,
        {
            bytes.push(self.extensions[j]);
            j = j + 1;
            assert(bytes@ =~= head + self.extensions@.take(j as int));
        }
        assert(self.extensions@.take(8) =~= self.extensions@);
        let ghost head2 = bytes@;
        let mut k: usize = 0;
        while k < 20
            invariant
                k <= 20,
                bytes@ == head2 + self.info_hash@.take(k as int),
            decreases 20 - k,
        {
            bytes.push(self.info_hash[k]);
            k = k + 1;
            assert(bytes@ =~= head2 + self.info_hash@.take(k as int));
        }
        assert(self.info_hash@.take(20) =~= self.info_hash@);
        let ghost head3 = bytes@;
        let mut m: usize = 0;
        while m < 20
            invariant
                m <= 20,
                bytes@ == head3 + self.peer_id@.take(m as int),
            decreases 20 - m,
        {
            bytes.push(self.peer_id[m]);
            m = m + 1;
            assert(bytes@ =~= head3 + self.peer_id@.take(m as int));
        }
        assert(self.peer_id@.take(20) =~= self.peer_id@);
        assert(bytes@ =~= handshake_bytes(*self));
        bytes
    }

    /// Reads a handshake from the start of `data`. Fails when `data` is
    /// shorter than a handshake or does not carry the protocol string.
    pub fn from_bytes(data: &[u8]) -> (r: Result<Handshake, Error>)
        ensures
            match r {
                Ok(h) => parse_handshake(data@) == Some((h.extensions@, h.info_hash@, h.peer_id@)),
                Err(e) => parse_handshake(data@) is None && e is Other,
            },
    {
        if data.len() < HANDSHAKE_LENGTH {
            return Err(Error::Other("Invalid handshake length".to_string()));
        }
        if data[0] != 19u8 {
            return Err(Error::Other("Invalid protocol string length".to_string()));
        }
        let proto = protocol_bytes();
        let mut i: usize = 0;
        while i < 19
            invariant
                i <= 19,
                data@.len() >= 68,
                proto@ == protocol_string(),
                forall|j: int| 0 <= j < i ==> data@[1 + j] == proto@[j],
            decreases 19 - i,
        {
            if data[1 + i] != proto[i] {
                assert(data@.subrange(1, 20)[i as int] != protocol_string()[i as int]);
                return Err(Error::Other("Invalid protocol string".to_string()));
            }
            i = i + 1;
        }
        assert(data@.subrange(1, 20) =~= protocol_string());
        let extensions = copy_array8(data, 20);
        let info_hash = copy_array20(data, 28);
        let peer_id = copy_array20(data, 48);
        Ok(Handshake { info_hash, peer_id, extensions })
    }
}

/// Reading a handshake's bytes gives the handshake back.
pub proof fn lemma_handshake_roundtrip(h: Handshake)
    ensures
        parse_handshake(handshake_bytes(h)) == Some((h.extensions@, h.info_hash@, h.peer_id@)),
{
    let b = handshake_bytes(h);
    assert(b.subrange(1, 20) =~= protocol_string());
    assert(b.subrange(20, 28) =~= h.extensions@);
    assert(b.subrange(28, 48) =~= h.info_hash@);
    assert(b.subrange(48, 68) =~= h.peer_id@);
}


// ===================================================================
// Messages
// ===================================================================

/// A message after the handshake.
#[derive(Debug, Clone)]
pub enum Message {
    Choke,
    Unchoke,
    Interested,
    NotInterested,
    /// The sender has piece `index`.
    Have { index: usize },
    /// One bit per piece, most significant bit first: the pieces the sender has.
    Bitfield { bitmap: Vec<u8> },
    /// A request for `length` bytes of piece `index` from offset `begin`.
    Request { index: u32, begin: u32, length: u32 },
    /// The bytes of piece `index` from offset `begin`.
    Piece { index: u32, begin: u32, block: Vec<u8> },
    /// A request withdrawn.
    Cancel { index: u32, begin: u32, length: u32 },
}

/// A message as data.
pub enum WireMessage {
    Choke,
    Unchoke,
    Interested,
    NotInterested,
    Have(nat),
    Bitfield(Seq<u8>),
    Request(u32, u32, u32),
    Piece(u32, u32, Seq<u8>),
    Cancel(u32, u32, u32),
}

/// The data of a message in memory.
pub open spec fn message_view(m: Message) -> WireMessage {
    match m {
        Message::Choke => WireMessage::Choke,
        Message::Unchoke => WireMessage::Unchoke,
        Message::Interested => WireMessage::Interested,
        Message::NotInterested => WireMessage::NotInterested,
        Message::Have { index } => WireMessage::Have(index as nat),
        Message::Bitfield { bitmap } => WireMessage::Bitfield(bitmap@),
        Message::Request { index, begin, length } => WireMessage::Request(index, begin, length),
        Message::Piece { index, begin, block } => WireMessage::Piece(index, begin, block@),
        Message::Cancel { index, begin, length } => WireMessage::Cancel(index, begin, length),
    }
}

impl View for Message {
    type V = WireMessage;

    open spec fn view(&self) -> WireMessage {
        message_view(*self)
    }
}

/// The id byte of a message.
pub open spec fn message_id(m: WireMessage) -> u8 {
    match m {
        WireMessage::Choke => 0,
        WireMessage::Unchoke => 1,
        WireMessage::Interested => 2,
        WireMessage::NotInterested => 3,
        WireMessage::Have(_) => 4,
        WireMessage::Bitfield(_) => 5,
        WireMessage::Request(..) => 6,
        WireMessage::Piece(..) => 7,
        WireMessage::Cancel(..) => 8,
    }
}

/// The bytes that follow the id byte. A piece index is written in four
/// bytes: its low 32 bits.
pub open spec fn message_payload(m: WireMessage) -> Seq<u8> {
    match m {
        WireMessage::Have(index) => be_u32_bytes(index as u32),
        WireMessage::Bitfield(bitmap) => bitmap,
        WireMessage::Request(index, begin, length) => be_u32_bytes(index) + be_u32_bytes(begin)
            + be_u32_bytes(length),
        WireMessage::Piece(index, begin, block) => be_u32_bytes(index) + be_u32_bytes(begin) + block,
        WireMessage::Cancel(index, begin, length) => be_u32_bytes(index) + be_u32_bytes(begin)
            + be_u32_bytes(length),
        _ => Seq::empty(),
    }
}

/// The length prefix of a message whose payload has `plen` bytes: the
/// payload and the id byte, in 32 bits.
pub open spec fn length_prefix(plen: nat) -> u32 {
    if (plen as u32) == u32::MAX {
        0
    } else {
        ((plen as u32) + 1) as u32
    }
}

/// The bytes of a message: the length prefix, the id byte, the payload.
pub open spec fn message_bytes(m: WireMessage) -> Seq<u8> {
    be_u32_bytes(length_prefix(message_payload(m).len())) + seq![message_id(m)] + message_payload(m)
}

/// The message that a length prefix and the bytes after it describe.
/// A zero length is a keep-alive, read as `Unchoke`.
pub open spec fn parse_message(len_bytes: Seq<u8>, msg: Seq<u8>) -> Option<WireMessage> {
    if len_bytes.len() != 4 {
        None
    } else {
        let length = be_u32_value(len_bytes) as int;
        if length == 0 {
            Some(WireMessage::Unchoke)
        } else if msg.len() < length {
            None
        } else {
            let payload = msg.subrange(1, length);
            match message_type_of(msg[0]) {
                None => None,
                Some(MessageType::Choke) => Some(WireMessage::Choke),
                Some(MessageType::Unchoke) => Some(WireMessage::Unchoke),
                Some(MessageType::Interested) => Some(WireMessage::Interested),
                Some(MessageType::NotInterested) => Some(WireMessage::NotInterested),
                Some(MessageType::Have) => if payload.len() >= 4 {
                    Some(WireMessage::Have(be_u32_value(payload) as nat))
                } else {
                    None
                },
                Some(MessageType::Bitfield) => Some(WireMessage::Bitfield(payload)),
                Some(MessageType::Request) => if payload.len() >= 12 {
                    Some(WireMessage::Request(be_u32_value(payload), be_u32_value(payload.skip(4)), be_u32_value(payload.skip(8))))
                } else {
                    None
                },
                Some(MessageType::Piece) => if payload.len() >= 8 {
                    Some(WireMessage::Piece(be_u32_value(payload), be_u32_value(payload.skip(4)), payload.skip(8)))
                } else {
                    None
                },
                Some(MessageType::Cancel) => if payload.len() >= 12 {
                    Some(WireMessage::Cancel(be_u32_value(payload), be_u32_value(payload.skip(4)), be_u32_value(payload.skip(8))))
                } else {
                    None
                },
            }
        }
    }
}

/// A length prefix and the bytes after it that hold a whole message whose
/// id byte names no message type.
pub open spec fn unknown_message_type(len_bytes: Seq<u8>, msg: Seq<u8>) -> bool {
    &&& len_bytes.len() == 4
    &&& be_u32_value(len_bytes) > 0
    &&& msg.len() >= be_u32_value(len_bytes)
    &&& message_type_of(msg[0]) is None
}

/// The error text for an unknown id byte.
pub open spec fn unknown_type_text(id: u8) -> Seq<char> {
    "Unknown message type: "@ + crate::common::decimal::decimal_text(id as nat)
}

/// The error text when the bytes end before the message does.
pub open spec fn short_read_text() -> Seq<char> {
    "failed to fill whole buffer"@
}

/// The message in a whole frame: its four-byte length prefix and what
/// follows. An empty frame reads as `Unchoke`, as a keep-alive does; a frame
/// shorter than its prefix reads as nothing.
pub open spec fn parse_frame(data: Seq<u8>) -> Option<WireMessage> {
    if data.len() == 0 {
        Some(WireMessage::Unchoke)
    } else if data.len() < 4 {
        None
    } else {
        parse_message(data.subrange(0, 4), data.skip(4))
    }
}

fn push_all(out: &mut Vec<u8>, b: &[u8])
    ensures
        final(out)@ == old(out)@ + b@,
{
    let mut i: usize = 0;
    while i < b.len()
        invariant
            i <= b@.len(),
            out@ == old(out)@ + b@.take(i as int),
        decreases b.len() - i,
    {
        out.push(b[i]);
        i = i + 1;
        assert(out@ =~= old(out)@ + b@.take(i as int));
    }
    assert(b@.take(i as int) =~= b@);
}

fn copy_range(b: &[u8], start: usize, end: usize) -> (r: Vec<u8>)
    requires
        start <= end <= b@.len(),
    ensures
        r@ == b@.subrange(start as int, end as int),
{
    let mut out: Vec<u8> = Vec::new();
    let mut i = start;
    while i < end
        invariant
            start <= i <= end <= b@.len(),
            out@ == b@.subrange(start as int, i as int),
        decreases end - i,
    {
        out.push(b[i]);
        i = i + 1;
        assert(out@ =~= b@.subrange(start as int, i as int));
    }
    out
}

impl Message {
    /// The message's bytes: length prefix, id byte, payload.
    pub fn to_bytes(&self) -> (r: Vec<u8>)
        ensures
            r@ == message_bytes(self@),
    {
        let mut payload: Vec<u8> = Vec::new();
        let message_id: u8 = match self {
            Message::Choke => 0,
            Message::Unchoke => 1,
            Message::Interested => 2,
            Message::NotInterested => 3,
            Message::Have { index } => {
                push_be_u32(&mut payload, *index as u32);
                4
            },
            Message::Bitfield { bitmap } => {
                push_all(&mut payload, bitmap.as_slice());
                5
            },
            Message::Request { index, begin, length } => {
                push_be_u32(&mut payload, *index);
                push_be_u32(&mut payload, *begin);
                push_be_u32(&mut payload, *length);
                6
            },
            Message::Piece { index, begin, block } => {
                push_be_u32(&mut payload, *index);
                push_be_u32(&mut payload, *begin);
                push_all(&mut payload, block.as_slice());
                7
            },
            Message::Cancel { index, begin, length } => {
                push_be_u32(&mut payload, *index);
                push_be_u32(&mut payload, *begin);
                push_be_u32(&mut payload, *length);
                8
            },
        };
        assert(payload@ =~= message_payload(self@));
        let low = payload.len() as u32;
        let length: u32 = if low == u32::MAX { 0 } else { low + 1 };
        let mut bytes: Vec<u8> = Vec::new();
        push_be_u32(&mut bytes, length);
        bytes.push(message_id);
        push_all(&mut bytes, payload.as_slice());
        assert(bytes@ =~= message_bytes(self@));
        bytes
    }

    /// Reads a message from a whole frame: its length prefix and the bytes
    /// after it. An empty frame and a zero length (a keep-alive) read as
    /// `Unchoke`. Fails with a network error when the bytes end early, and
    /// with another error on an unknown id.
    pub fn from_bytes(data: &[u8]) -> (r: Result<Message, Error>)
        ensures
            match r {
                Ok(m) => parse_frame(data@) == Some(m@),
                Err(_) => parse_frame(data@) is None,
            },
            r matches Err(e) ==> if data@.len() >= 4 && unknown_message_type(data@.subrange(0, 4), data@.skip(4)) {
                e matches Error::Other(m) && m@ == unknown_type_text(data@[4])
            } else {
                e matches Error::Network(m) && m@ == short_read_text()
            },
    {
        if data.len() == 0 {
            return Ok(Message::Unchoke);
        }
        if data.len() < 4 {
            return Err(Error::Network("failed to fill whole buffer".to_string()));
        }
        let len_bytes = vstd::slice::slice_subrange(data, 0, 4);
        let msg_bytes = vstd::slice::slice_subrange(data, 4, data.len());
        assert(msg_bytes@ =~= data@.skip(4));
        Self::from_parts(len_bytes, msg_bytes)
    }

    /// Reads a message from its length prefix and the bytes after it (see
    /// `from_bytes`); a prefix that is not four bytes is an error.
    fn from_parts(len_bytes: &[u8], msg_bytes: &[u8]) -> (r: Result<Message, Error>)
        ensures
            match r {
                Ok(m) => parse_message(len_bytes@, msg_bytes@) == Some(m@),
                Err(_) => parse_message(len_bytes@, msg_bytes@) is None,
            },
            r matches Err(e) ==> if len_bytes@.len() != 4 {
                e is Other
            } else if unknown_message_type(len_bytes@, msg_bytes@) {
                e matches Error::Other(m) && m@ == unknown_type_text(msg_bytes@[0])
            } else {
                e matches Error::Network(m) && m@ == short_read_text()
            },
    {
        if len_bytes.len() != 4 {
            return Err(Error::Other("Invalid length prefix".to_string()));
        }
        assert(len_bytes@.subrange(0, 4) =~= len_bytes@);
        let length = read_be_u32(len_bytes, 0) as usize;
        if length == 0 {
            return Ok(Message::Unchoke);
        }
        if msg_bytes.len() < length {
            return Err(Error::Network("failed to fill whole buffer".to_string()));
        }
        let ghost payload = msg_bytes@.subrange(1, length as int);
        let message_type = match MessageType::from_byte(msg_bytes[0]) {
            Some(t) => t,
            None => {
                let mut msg = "Unknown message type: ".to_string();
                let code = crate::common::decimal::u64_to_string(msg_bytes[0] as u64);
                msg.append(code.as_str());
                return Err(Error::Other(msg));
            },
        };
        let plen = length - 1;
        match message_type {
            MessageType::Choke => Ok(Message::Choke),
            MessageType::Unchoke => Ok(Message::Unchoke),
            MessageType::Interested => Ok(Message::Interested),
            MessageType::NotInterested => Ok(Message::NotInterested),
            MessageType::Have => {
                if plen < 4 {
                    return Err(Error::Network("failed to fill whole buffer".to_string()));
                }
                let index = read_be_u32(msg_bytes, 1);
                assert(msg_bytes@.subrange(1, 5) =~= payload.subrange(0, 4));
                Ok(Message::Have { index: index as usize })
            },
            MessageType::Bitfield => {
                let bitmap = copy_range(msg_bytes, 1, length);
                Ok(Message::Bitfield { bitmap })
            },
            MessageType::Request | MessageType::Cancel => {
                if plen < 12 {
                    return Err(Error::Network("failed to fill whole buffer".to_string()));
                }
                let index = read_be_u32(msg_bytes, 1);
                let begin = read_be_u32(msg_bytes, 5);
                let len = read_be_u32(msg_bytes, 9);
                assert(msg_bytes@.subrange(1, 5) =~= payload.subrange(0, 4));
                assert(msg_bytes@.subrange(5, 9) =~= payload.skip(4).subrange(0, 4));
                assert(msg_bytes@.subrange(9, 13) =~= payload.skip(8).subrange(0, 4));
                if message_type == MessageType::Request {
                    Ok(Message::Request { index, begin, length: len })
                } else {
                    Ok(Message::Cancel { index, begin, length: len })
                }
            },
            MessageType::Piece => {
                if plen < 8 {
                    return Err(Error::Network("failed to fill whole buffer".to_string()));
                }
                let index = read_be_u32(msg_bytes, 1);
                let begin = read_be_u32(msg_bytes, 5);
                assert(msg_bytes@.subrange(1, 5) =~= payload.subrange(0, 4));
                assert(msg_bytes@.subrange(5, 9) =~= payload.skip(4).subrange(0, 4));
                let block = copy_range(msg_bytes, 9, length);
                assert(block@ =~= payload.skip(8));
                Ok(Message::Piece { index, begin, block })
            },
        }
    }

    /// The length of the message without its length prefix: the id byte and
    /// the payload, in 32 bits.
    pub fn payload_len(&self) -> (r: u32)
        requires
            message_payload(self@).len() + 1 <= u32::MAX,
        ensures
            r == message_payload(self@).len() + 1,
    {
        match self {
            Message::Choke | Message::Unchoke | Message::Interested | Message::NotInterested => 1,
            Message::Have { .. } => 5,
            Message::Bitfield { bitmap } => 1 + bitmap.len() as u32,
            Message::Request { .. } | Message::Cancel { .. } => 13,
            Message::Piece { block, .. } => 9 + block.len() as u32,
        }
    }
}

/// Reading back the bytes of a message gives the message, provided its
/// payload and id fit the 32-bit length prefix and a piece index fits 32 bits.
pub proof fn lemma_message_roundtrip(m: WireMessage)
    requires
        message_payload(m).len() + 1 <= u32::MAX,
        m matches WireMessage::Have(i) ==> i <= u32::MAX,
    ensures
        ({
            let b = message_bytes(m);
            parse_message(b.subrange(0, 4), b.skip(4)) == Some(m)
        }),
        parse_frame(message_bytes(m)) == Some(m),
{
    let p = message_payload(m);
    let b = message_bytes(m);
    let len = length_prefix(p.len());
    assert(p.len() as u32 == p.len());
    assert(len == p.len() + 1);
    assert(b.subrange(0, 4) =~= be_u32_bytes(len));
    lemma_be_u32_roundtrip(len);
    let msg = b.skip(4);
    assert(msg =~= seq![message_id(m)] + p);
    assert(msg.subrange(1, len as int) =~= p);
    match m {
        WireMessage::Have(i) => {
            lemma_be_u32_roundtrip(i as u32);
        },
        WireMessage::Request(i, be, l) | WireMessage::Cancel(i, be, l) => {
            lemma_be_u32_roundtrip(i);
            lemma_be_u32_roundtrip(be);
            lemma_be_u32_roundtrip(l);
            assert(p.skip(4).subrange(0, 4) =~= be_u32_bytes(be));
            assert(p.skip(8).subrange(0, 4) =~= be_u32_bytes(l));
            assert(p.subrange(0, 4) =~= be_u32_bytes(i));
        },
        WireMessage::Piece(i, be, block) => {
            lemma_be_u32_roundtrip(i);
            lemma_be_u32_roundtrip(be);
            assert(p.skip(4).subrange(0, 4) =~= be_u32_bytes(be));
            assert(p.subrange(0, 4) =~= be_u32_bytes(i));
            assert(p.skip(8) =~= block);
        },
        _ => {},
    }
}

/// The choking and interest flags on one side of a peer connection.
#[derive(Debug, Clone, Copy, PartialEq, Eq, Structural)]
pub struct PeerState {
    /// The peer chokes us: we may not request from it.
    pub choked: bool,
    /// We want data from the peer.
    pub interested: bool,
    /// We choke the peer.
    pub peer_choked: bool,
    /// The peer wants data from us.
    pub peer_interested: bool,
}

/// The state of a fresh connection: both sides choked, neither interested.
pub open spec fn initial_peer_state() -> PeerState {
    PeerState { choked: true, interested: false, peer_choked: true, peer_interested: false }
}

/// The state after a message from the peer: choke and unchoke set whether we
/// are choked, interested and not-interested set the peer's interest, and
/// every other message leaves the state as it was.
pub open spec fn peer_state_after(s: PeerState, m: WireMessage) -> PeerState {
    match m {
        WireMessage::Choke => PeerState { choked: true, ..s },
        WireMessage::Unchoke => PeerState { choked: false, ..s },
        WireMessage::Interested => PeerState { peer_interested: true, ..s },
        WireMessage::NotInterested => PeerState { peer_interested: false, ..s },
        _ => s,
    }
}

impl Default for PeerState {
    fn default() -> (r: PeerState)
        ensures
            r == initial_peer_state(),
    {
        PeerState { choked: true, interested: false, peer_choked: true, peer_interested: false }
    }
}

impl PeerState {
    /// We may download while the peer does not choke us.
    pub fn can_download(&self) -> (r: bool)
        ensures
            r == !self.choked,
    {
        !self.choked
    }

    /// We may upload while we do not choke the peer.
    pub fn can_upload(&self) -> (r: bool)
        ensures
            r == !self.peer_choked,
    {
        !self.peer_choked
    }

    /// Updates the state for a message received from the peer.
    pub fn handle_message(&mut self, message: &Message)
        ensures
            *final(self) == peer_state_after(*old(self), message@),
    {
        match message {
            Message::Choke => {
                self.choked = true;
            },
            Message::Unchoke => {
                self.choked = false;
            },
            Message::Interested => {
                self.peer_interested = true;
            },
            Message::NotInterested => {
                self.peer_interested = false;
            },
            _ => {},
        }
    }

    pub fn choke_message() -> (r: Message)
        ensures
            r@ == WireMessage::Choke,
    {
        Message::Choke
    }

    pub fn unchoke_message() -> (r: Message)
        ensures
            r@ == WireMessage::Unchoke,
    {
        Message::Unchoke
    }

    pub fn interested_message() -> (r: Message)
        ensures
            r@ == WireMessage::Interested,
    {
        Message::Interested
    }

    pub fn not_interested_message() -> (r: Message)
        ensures
            r@ == WireMessage::NotInterested,
    {
        Message::NotInterested
    }
}

/// Receiving the same message twice leaves the state as receiving it once.
pub proof fn lemma_peer_state_idempotent(s: PeerState, m: WireMessage)
    ensures
        peer_state_after(peer_state_after(s, m), m) == peer_state_after(s, m),
{
}

/// A choke from the peer stops downloads and an unchoke allows them, whatever
/// came before; neither touches our side of the upload.
pub proof fn lemma_choke_controls_download(s: PeerState)
    ensures
        !peer_state_after(s, WireMessage::Choke).choked == false,
        !peer_state_after(s, WireMessage::Unchoke).choked == true,
        peer_state_after(s, WireMessage::Choke).peer_choked == s.peer_choked,
        peer_state_after(s, WireMessage::Unchoke).peer_choked == s.peer_choked,
{
}

/// The bytes of a `Piece` message are laid out as the peer wire protocol
/// has them: the four-byte big-endian length (the id byte, the index and
/// the offset, then the block), the id byte 7, the piece index in four
/// big-endian bytes at offset 5, the offset within the piece in four
/// big-endian bytes at offset 9, then the block from offset 13.
pub proof fn lemma_piece_layout(index: u32, begin: u32, block: Seq<u8>)
    requires
        block.len() + 9 < u32::MAX,
    ensures
        ({
            let b = message_bytes(WireMessage::Piece(index, begin, block));
            let len = (block.len() + 9) as u32;
            &&& b.len() == block.len() + 13
            &&& b[0] == (len >> 24u32) as u8 && b[1] == ((len >> 16u32) & 0xffu32) as u8
            &&& b[2] == ((len >> 8u32) & 0xffu32) as u8 && b[3] == (len & 0xffu32) as u8
            &&& b[4] == 7
            &&& b[5] == (index >> 24u32) as u8 && b[6] == ((index >> 16u32) & 0xffu32) as u8
            &&& b[7] == ((index >> 8u32) & 0xffu32) as u8 && b[8] == (index & 0xffu32) as u8
            &&& b[9] == (begin >> 24u32) as u8 && b[10] == ((begin >> 16u32) & 0xffu32) as u8
            &&& b[11] == ((begin >> 8u32) & 0xffu32) as u8 && b[12] == (begin & 0xffu32) as u8
            &&& b.subrange(13, b.len() as int) == block
        }),
{
    let m = WireMessage::Piece(index, begin, block);
    let p = message_payload(m);
    let b = message_bytes(m);
    assert(p.len() == block.len() + 8);
    assert(length_prefix(p.len()) == (block.len() + 9) as u32);
    assert(b =~= be_u32_bytes((block.len() + 9) as u32) + seq![7u8] + be_u32_bytes(index) + be_u32_bytes(begin) + block);
    assert(b.subrange(13, b.len() as int) =~= block);
}

/// A frame whose id byte is 7 and whose length covers an index and an
/// offset reads as a `Piece` whose index is the big-endian number at offset
/// 5, whose offset is the big-endian number at offset 9, and whose block is
/// the rest of the message.
pub proof fn lemma_piece_read(data: Seq<u8>)
    requires
        data.len() >= 13,
        data[4] == 7,
        9 <= be_u32_of(data[0], data[1], data[2], data[3]),
        4 + be_u32_of(data[0], data[1], data[2], data[3]) <= data.len(),
    ensures
        parse_frame(data) == Some(
            WireMessage::Piece(
                be_u32_of(data[5], data[6], data[7], data[8]),
                be_u32_of(data[9], data[10], data[11], data[12]),
                data.subrange(13, 4 + be_u32_of(data[0], data[1], data[2], data[3])),
            ),
        ),
{
    let len = be_u32_of(data[0], data[1], data[2], data[3]) as int;
    let msg = data.skip(4);
    let payload = msg.subrange(1, len);
    assert(be_u32_value(data.subrange(0, 4)) == len);
    assert(msg[0] == 7);
    assert(payload[0] == data[5] && payload[1] == data[6] && payload[2] == data[7] && payload[3] == data[8]);
    assert(payload.skip(4)[0] == data[9] && payload.skip(4)[1] == data[10]);
    assert(payload.skip(4)[2] == data[11] && payload.skip(4)[3] == data[12]);
    assert(payload.skip(8) =~= data.subrange(13, 4 + len));
}

} // verus!
