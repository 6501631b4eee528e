//! UDP broadcast announcements: their settings, content and device ids.

use vstd::prelude::*;
use rand::Rng;

verus! {

/// The UDP port of broadcast announcements.
pub const BROADCAST_PORT: u16 = 53317;

/// How to announce and listen.
#[derive(Debug, Clone)]
pub struct BroadcastConfig {
    /// The local port; 0 lets the system choose.
    pub bind_port: u16,
    pub broadcast_port: u16,
    pub interval_secs: u64,
    pub device_name: String,
    pub service_port: u16,
}

/// Calls `gethostname::gethostname` and converts the name lossily to a
/// `String`. Nothing is claimed of it: it is the machine's name.
#[verifier::external_body]
pub(crate) fn host_name() -> String {
    gethostname::gethostname().to_string_lossy().to_string()
}

impl Default for BroadcastConfig {
    fn default() -> (r: BroadcastConfig)
        ensures
            r.bind_port == 0,
            r.broadcast_port == BROADCAST_PORT,
            r.interval_secs == 5,
            r.service_port == 8080,
    {
        BroadcastConfig {
            bind_port: 0,
            broadcast_port: BROADCAST_PORT,
            interval_secs: 5,
            device_name: host_name(),
            service_port: 8080,
        }
    }
}

/// An announcement: who sends it and where its service listens.
#[derive(Debug, Clone)]
pub struct BroadcastPacket {
    pub name: String,
    pub device_type: String,
    pub port: u16,
    pub key: Option<String>,
    pub version: String,
    pub id: String,
}

/// What a broadcast listener reports.
#[derive(Debug, Clone)]
pub enum BroadcastEvent {
    DeviceFound { name: String, address: String, port: u16, packet: BroadcastPacket },
    ResponseReceived { from: String, packet: BroadcastPacket },
    Error(String),
}

/// The lowercase hexadecimal digit for `n` below 16.
pub open spec fn hex_digit(n: int) -> char {
    if n < 10 {
        (48 + n) as char
    } else {
        (87 + n) as char
    }
}

/// Lowercase hexadecimal text: two digits per byte, high nibble first.
pub open spec fn hex_text(b: Seq<u8>) -> Seq<char>
    decreases b.len(),
{
    if b.len() == 0 {
        Seq::empty()
    } else {
        hex_text(b.drop_last()) + seq![hex_digit((b.last() / 16) as int), hex_digit((b.last() % 16) as int)]
    }
}

/// A lowercase hexadecimal digit.
pub open spec fn is_hex_char(c: char) -> bool {
    ('0' <= c <= '9') || ('a' <= c <= 'f')
}

/// A device id: 16 lowercase hexadecimal digits.
pub open spec fn is_device_id(s: Seq<char>) -> bool {
    s.len() == 16 && forall|i: int| 0 <= i < s.len() ==> is_hex_char(#[trigger] s[i])
}

/// Calls `hex::encode`: lowercase hexadecimal, two digits per byte, high
/// nibble first, as the crate's source writes it.
#[verifier::external_body]
pub(crate) fn hex_encode(bytes: &[u8]) -> (r: String)
    ensures
        r@ == hex_text(bytes@),
{
    hex::encode(bytes)
}

/// Draws a `u64` from `rand::thread_rng()`. Nothing is claimed of it.
#[verifier::external_body]
pub(crate) fn random_u64() -> u64 {
    rand::thread_rng().gen::<u64>()
}

proof fn lemma_hex_text_shape(b: Seq<u8>)
    ensures
        hex_text(b).len() == 2 * b.len(),
        forall|i: int| 0 <= i < hex_text(b).len() ==> is_hex_char(#[trigger] hex_text(b)[i]),
    decreases b.len(),
{
    if b.len() > 0 {
        lemma_hex_text_shape(b.drop_last());
        let hi = b.last() / 16;
        let lo = b.last() % 16;
        assert(is_hex_char(hex_digit(hi as int)));
        assert(is_hex_char(hex_digit(lo as int)));
        let t = hex_text(b);
        assert forall|i: int| 0 <= i < t.len() implies is_hex_char(#[trigger] t[i]) by {
            if i < hex_text(b.drop_last()).len() {
                assert(t[i] == hex_text(b.drop_last())[i]);
            }
        }
    }
}

/// Byte `k` of `x` counted from the high end: byte 0 is the top eight bits.
pub open spec fn be_byte(x: u64, k: int) -> u8 {
    ((x >> ((56 - 8 * k) as u64)) & 0xffu64) as u8
}

/// The eight bytes of `x`, high byte first, as `u64::to_be_bytes` gives them.
pub open spec fn be_bytes(x: u64) -> Seq<u8> {
    Seq::new(8, |k: int| be_byte(x, k))
}

/// The device id drawn from `random`: the hexadecimal of its eight bytes,
/// high byte first.
pub fn device_id(random: u64) -> (r: String)
    ensures
        r@ == hex_text(be_bytes(random)),
        is_device_id(r@),
{
    let mut bytes: Vec<u8> = Vec::new();
    let mut i: u64 = 0;
    while i < 8
        invariant
            i <= 8,
            bytes@ == Seq::new(i as nat, |k: int| be_byte(random, k)),
        decreases 8 - i,
    {
        bytes.push(((random >> (56 - 8 * i)) & 0xff) as u8);
        i = i + 1;
        assert(bytes@ =~= Seq::new(i as nat, |k: int| be_byte(random, k)));
    }
    assert(bytes@ =~= be_bytes(random));
    let r = hex_encode(bytes.as_slice());
    proof {
        lemma_hex_text_shape(bytes@);
    }
    r
}

proof fn lemma_hex_digit_injective(a: int, b: int)
    requires
        0 <= a < 16,
        0 <= b < 16,
        hex_digit(a) == hex_digit(b),
    ensures
        a == b,
{
    if a < 10 && b >= 10 {
        assert((48 + a) as char == (87 + b) as char);
        assert(((48 + a) as char) as int == 48 + a);
        assert(((87 + b) as char) as int == 87 + b);
    } else if a >= 10 && b < 10 {
        assert(((87 + a) as char) as int == 87 + a);
        assert(((48 + b) as char) as int == 48 + b);
    } else if a < 10 {
        assert(((48 + a) as char) as int == 48 + a);
        assert(((48 + b) as char) as int == 48 + b);
    } else {
        assert(((87 + a) as char) as int == 87 + a);
        assert(((87 + b) as char) as int == 87 + b);
    }
}

/// Different bytes give different hexadecimal text.
proof fn lemma_hex_text_injective(a: Seq<u8>, b: Seq<u8>)
    requires
        hex_text(a) == hex_text(b),
    ensures
        a == b,
    decreases a.len(),
{
    lemma_hex_text_shape(a);
    lemma_hex_text_shape(b);
    if a.len() > 0 {
        let ta = hex_text(a);
        let tb = hex_text(b);
        let n = ta.len() as int;
        assert(ta[n - 2] == hex_digit((a.last() / 16) as int));
        assert(tb[n - 2] == hex_digit((b.last() / 16) as int));
        assert(ta[n - 1] == hex_digit((a.last() % 16) as int));
        assert(tb[n - 1] == hex_digit((b.last() % 16) as int));
        lemma_hex_digit_injective((a.last() / 16) as int, (b.last() / 16) as int);
        lemma_hex_digit_injective((a.last() % 16) as int, (b.last() % 16) as int);
        assert(a.last() == b.last());
        assert(hex_text(a.drop_last()) =~= ta.take(n - 2));
        assert(hex_text(b.drop_last()) =~= tb.take(n - 2));
        lemma_hex_text_injective(a.drop_last(), b.drop_last());
        assert(a.len() == b.len());
        assert(a =~= a.drop_last().push(a.last()));
        assert(b =~= b.drop_last().push(b.last()));
    }
}

/// Different numbers give different device ids: the id of a number
/// determines the number.
pub proof fn lemma_device_id_injective(x: u64, y: u64)
    requires
        hex_text(be_bytes(x)) == hex_text(be_bytes(y)),
    ensures
        x == y,
{
    lemma_hex_text_injective(be_bytes(x), be_bytes(y));
    assert(be_bytes(x)[0] == be_bytes(y)[0]);
    assert(be_bytes(x)[1] == be_bytes(y)[1]);
    assert(be_bytes(x)[2] == be_bytes(y)[2]);
    assert(be_bytes(x)[3] == be_bytes(y)[3]);
    assert(be_bytes(x)[4] == be_bytes(y)[4]);
    assert(be_bytes(x)[5] == be_bytes(y)[5]);
    assert(be_bytes(x)[6] == be_bytes(y)[6]);
    assert(be_bytes(x)[7] == be_bytes(y)[7]);
    assert(x == y) by (bit_vector)
        requires
            ((x >> 56u64) & 0xffu64) as u8 == ((y >> 56u64) & 0xffu64) as u8,
            ((x >> 48u64) & 0xffu64) as u8 == ((y >> 48u64) & 0xffu64) as u8,
            ((x >> 40u64) & 0xffu64) as u8 == ((y >> 40u64) & 0xffu64) as u8,
            ((x >> 32u64) & 0xffu64) as u8 == ((y >> 32u64) & 0xffu64) as u8,
            ((x >> 24u64) & 0xffu64) as u8 == ((y >> 24u64) & 0xffu64) as u8,
            ((x >> 16u64) & 0xffu64) as u8 == ((y >> 16u64) & 0xffu64) as u8,
            ((x >> 8u64) & 0xffu64) as u8 == ((y >> 8u64) & 0xffu64) as u8,
            ((x >> 0u64) & 0xffu64) as u8 == ((y >> 0u64) & 0xffu64) as u8,
    ;
}

/// A fresh random device id: the hexadecimal of a random `u64`, high byte
/// first. Which number is drawn is left open.
pub fn generate_device_id() -> (r: String)
    ensures
        exists|x: u64| r@ == hex_text(#[trigger] be_bytes(x)),
        is_device_id(r@),
{
    let id = random_u64();
    let r = device_id(id);
    assert(r@ == hex_text(be_bytes(id)));
    r
}

/// The event for an announcement received from `address`: none when the
/// announcement carries this device's own id `own_id`, else a device found
/// with the announcement's name and port.
pub fn device_found_event(packet: BroadcastPacket, address: String, own_id: &str) -> (r: Option<BroadcastEvent>)
    ensures
        packet.id@ == own_id@ ==> r is None,
        packet.id@ != own_id@ ==> (r matches Some(BroadcastEvent::DeviceFound { name, address: a, port, packet: p })
            && name@ == packet.name@ && a == address && port == packet.port && p == packet),
{
    if crate::common::text::str_eq(packet.id.as_str(), own_id) {
        None
    } else {
        let name = packet.name.clone();
        let port = packet.port;
        Some(BroadcastEvent::DeviceFound { name, address, port, packet })
    }
}

impl BroadcastPacket {
    /// This device's announcement, with a fresh id.
    pub fn new(device_name: String, port: u16) -> (r: BroadcastPacket)
        ensures
            r.name == device_name,
            r.device_type@ == "sharSelf"@,
            r.port == port,
            r.key is None,
            r.version@ == crate::VERSION@,
            exists|x: u64| r.id@ == hex_text(#[trigger] be_bytes(x)),
            is_device_id(r.id@),
    {
        BroadcastPacket {
            name: device_name,
            device_type: "sharSelf".to_owned(),
            port,
            key: None,
            version: crate::VERSION.to_owned(),
            id: generate_device_id(),
        }
    }
}

} // verus!
