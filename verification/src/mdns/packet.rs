//! DNS messages: their records and the flags of the header.

use vstd::prelude::*;

verus! {

/// A DNS message.
#[derive(Debug, Clone)]
pub struct MdnsPacket {
    /// The header flags; the top bit marks a response.
    pub flags: u16,
    pub questions: Vec<MdnsQuestion>,
    pub answers: Vec<MdnsRecord>,
    pub authorities: Vec<MdnsRecord>,
    pub additionals: Vec<MdnsRecord>,
}

/// A question.
#[derive(Debug, Clone)]
pub struct MdnsQuestion {
    pub name: String,
    pub qtype: RecordType,
    pub qclass: RecordClass,
    /// The top bit of the class: a unicast answer is asked for.
    pub unicast_response: bool,
}

/// The record types this library knows.
#[derive(Debug, Clone, Copy, PartialEq, Eq, Structural)]
pub enum RecordType {
    /// An IPv4 address (1).
    A,
    /// A name server (2).
    NS,
    /// An alias (5).
    CNAME,
    /// The start of a zone (6).
    SOA,
    /// A pointer (12).
    PTR,
    /// Text (16).
    TXT,
    /// An IPv6 address (28).
    AAAA,
    /// A service location (33).
    SRV,
    /// Any type (255).
    ANY,
}

/// The number of a record type.
pub open spec fn type_code(t: RecordType) -> u16 {
    match t {
        RecordType::A => 1,
        RecordType::NS => 2,
        RecordType::CNAME => 5,
        RecordType::SOA => 6,
        RecordType::PTR => 12,
        RecordType::TXT => 16,
        RecordType::AAAA => 28,
        RecordType::SRV => 33,
        RecordType::ANY => 255,
    }
}

/// The record type of a number, if it is one this library knows.
pub open spec fn type_of_code(v: u16) -> Option<RecordType> {
    if v == 1 {
        Some(RecordType::A)
    } else if v == 2 {
        Some(RecordType::NS)
    } else if v == 5 {
        Some(RecordType::CNAME)
    } else if v == 6 {
        Some(RecordType::SOA)
    } else if v == 12 {
        Some(RecordType::PTR)
    } else if v == 16 {
        Some(RecordType::TXT)
    } else if v == 28 {
        Some(RecordType::AAAA)
    } else if v == 33 {
        Some(RecordType::SRV)
    } else if v == 255 {
        Some(RecordType::ANY)
    } else {
        None
    }
}

impl RecordType {
    /// The record type numbered `value`.
    pub fn from_u16(value: u16) -> (r: Option<RecordType>)
        ensures
            r == type_of_code(value),
    {
        match value {
            1 => Some(RecordType::A),
            2 => Some(RecordType::NS),
            5 => Some(RecordType::CNAME),
            6 => Some(RecordType::SOA),
            12 => Some(RecordType::PTR),
            16 => Some(RecordType::TXT),
            28 => Some(RecordType::AAAA),
            33 => Some(RecordType::SRV),
            255 => Some(RecordType::ANY),
            _ => None,
        }
    }

    /// The number of this record type.
    pub fn to_u16(self) -> (r: u16)
        ensures
            r == type_code(self),
    {
        match self {
            RecordType::A => 1,
            RecordType::NS => 2,
            RecordType::CNAME => 5,
            RecordType::SOA => 6,
            RecordType::PTR => 12,
            RecordType::TXT => 16,
            RecordType::AAAA => 28,
            RecordType::SRV => 33,
            RecordType::ANY => 255,
        }
    }
}

/// Reading back the number of a record type gives the type.
pub proof fn lemma_type_code_roundtrip(t: RecordType)
    ensures
        type_of_code(type_code(t)) == Some(t),
{
}

/// The record classes this library knows.
#[derive(Debug, Clone, Copy, PartialEq, Eq, Structural)]
pub enum RecordClass {
    /// The Internet (1).
    IN,
    /// Any class (255).
    ANY,
}

/// The number of a record class.
pub open spec fn class_code(c: RecordClass) -> u16 {
    match c {
        RecordClass::IN => 1,
        RecordClass::ANY => 255,
    }
}

/// The record class of a number, if known.
pub open spec fn class_of_code(v: u16) -> Option<RecordClass> {
    if v == 1 {
        Some(RecordClass::IN)
    } else if v == 255 {
        Some(RecordClass::ANY)
    } else {
        None
    }
}

impl RecordClass {
    /// The record class numbered `value`.
    pub fn from_u16(value: u16) -> (r: Option<RecordClass>)
        ensures
            r == class_of_code(value),
    {
        match value {
            1 => Some(RecordClass::IN),
            255 => Some(RecordClass::ANY),
            _ => None,
        }
    }

    /// The number of this record class.
    pub fn to_u16(self) -> (r: u16)
        ensures
            r == class_code(self),
    {
        match self {
            RecordClass::IN => 1,
            RecordClass::ANY => 255,
        }
    }
}

/// Reading back the number of a record class gives the class.
pub proof fn lemma_class_code_roundtrip(c: RecordClass)
    ensures
        class_of_code(class_code(c)) == Some(c),
{
}

/// A resource record.
#[derive(Debug, Clone)]
pub struct MdnsRecord {
    pub name: String,
    pub rtype: RecordType,
    pub rclass: RecordClass,
    /// The lifetime in seconds.
    pub ttl: u32,
    pub data: RecordData,
}

/// The data of a record.
#[derive(Debug, Clone)]
pub enum RecordData {
    /// An IPv4 address.
    A([u8; 4]),
    /// An IPv6 address.
    Aaaa([u8; 16]),
    /// A domain name.
    Ptr(String),
    /// Text strings.
    Txt(Vec<String>),
    /// A service location.
    Srv { priority: u16, weight: u16, port: u16, target: String },
    /// Uninterpreted bytes.
    Raw(Vec<u8>),
}

impl RecordData {
    /// The bytes of uninterpreted data.
    pub fn as_bytes(&self) -> (r: Option<&[u8]>)
        ensures
            match self {
                RecordData::Raw(d) => r matches Some(b) && b@ == d@,
                _ => r is None,
            },
    {
        match self {
            RecordData::Raw(data) => Some(data.as_slice()),
            _ => None,
        }
    }
}

/// Whether flags mark a response: the top bit.
pub open spec fn flags_response(flags: u16) -> bool {
    flags & 0x8000u16 != 0u16
}

impl MdnsPacket {
    /// An empty query.
    pub fn new() -> (r: MdnsPacket)
        ensures
            r.flags == 0,
            r.questions@.len() == 0,
            r.answers@.len() == 0,
            r.authorities@.len() == 0,
            r.additionals@.len() == 0,
    {
        MdnsPacket {
            flags: 0,
            questions: Vec::new(),
            answers: Vec::new(),
            authorities: Vec::new(),
            additionals: Vec::new(),
        }
    }

    /// An empty response.
    pub fn response() -> (r: MdnsPacket)
        ensures
            r.flags == 0x8000,
            flags_response(r.flags),
            r.questions@.len() == 0,
            r.answers@.len() == 0,
            r.authorities@.len() == 0,
            r.additionals@.len() == 0,
    {
        let mut p = MdnsPacket::new();
        p.set_response();
        assert(0u16 | 0x8000u16 == 0x8000u16) by (bit_vector);
        p
    }

    /// Whether this is a response.
    pub fn is_response(&self) -> (r: bool)
        ensures
            r == flags_response(self.flags),
    {
        self.flags & 0x8000u16 != 0u16
    }

    /// Marks this as a query: clears the top flag bit.
    pub fn set_query(&mut self)
        ensures
            final(self).flags == old(self).flags & 0x7fffu16,
            !flags_response(final(self).flags),
            final(self).questions@ == old(self).questions@,
            final(self).answers@ == old(self).answers@,
            final(self).authorities@ == old(self).authorities@,
            final(self).additionals@ == old(self).additionals@,
    {
        let f = self.flags;
        assert((f & 0x7fffu16) & 0x8000u16 == 0u16) by (bit_vector);
        self.flags = f & 0x7fffu16;
    }

    /// Marks this as a response: sets the top flag bit.
    pub fn set_response(&mut self)
        ensures
            final(self).flags == old(self).flags | 0x8000u16,
            flags_response(final(self).flags),
            final(self).questions@ == old(self).questions@,
            final(self).answers@ == old(self).answers@,
            final(self).authorities@ == old(self).authorities@,
            final(self).additionals@ == old(self).additionals@,
    {
        let f = self.flags;
        assert((f | 0x8000u16) & 0x8000u16 != 0u16) by (bit_vector);
        self.flags = f | 0x8000u16;
    }
}

/// Marking a packet as a response and then as a query leaves its other flag
/// bits as they were.
pub proof fn lemma_response_query_flags(f: u16)
    ensures
        ((f | 0x8000u16) & 0x7fffu16) == f & 0x7fffu16,
{
    assert(((f | 0x8000u16) & 0x7fffu16) == f & 0x7fffu16) by (bit_vector);
}

} // verus!
