//! The wire format of DNS messages (RFC 1035): the header, names as
//! length-prefixed labels (with compression pointers when reading),
//! questions and resource records.

use vstd::prelude::*;
use vstd::utf8::*;
use crate::common::error::Error;
use crate::mdns::packet::{
    MdnsPacket, MdnsQuestion, MdnsRecord, RecordData, RecordType, RecordClass, type_code, type_of_code,
    class_code, class_of_code,
};
use crate::torrent::protocol::{be_u32_bytes, be_u32_value, lemma_be_u32_roundtrip, push_be_u32, read_be_u32};

verus! {

// ===================================================================
// Messages as data
// ===================================================================

/// Record data, as data.
pub enum DataView {
    A(Seq<u8>),
    Aaaa(Seq<u8>),
    Ptr(Seq<char>),
    Txt(Seq<Seq<char>>),
    Srv { priority: u16, weight: u16, port: u16, target: Seq<char> },
    Raw(Seq<u8>),
}

/// A question, as data.
pub struct QuestionView {
    pub name: Seq<char>,
    pub qtype: RecordType,
    pub qclass: RecordClass,
    pub unicast: bool,
}

/// A record, as data.
pub struct RecordView {
    pub name: Seq<char>,
    pub rtype: RecordType,
    pub rclass: RecordClass,
    pub ttl: u32,
    pub data: DataView,
}

/// A message, as data.
pub struct PacketView {
    pub flags: u16,
    pub questions: Seq<QuestionView>,
    pub answers: Seq<RecordView>,
    pub authorities: Seq<RecordView>,
    pub additionals: Seq<RecordView>,
}

/// The characters of each string.
pub open spec fn strings_view(v: Seq<String>) -> Seq<Seq<char>> {
    v.map_values(|s: String| s@)
}

impl View for RecordData {
    type V = DataView;

    open spec fn view(&self) -> DataView {
        match self {
            RecordData::A(a) => DataView::A(a@),
            RecordData::Aaaa(a) => DataView::Aaaa(a@),
            RecordData::Ptr(n) => DataView::Ptr(n@),
            RecordData::Txt(v) => DataView::Txt(strings_view(v@)),
            RecordData::Srv { priority, weight, port, target } => DataView::Srv {
                priority: *priority,
                weight: *weight,
                port: *port,
                target: target@,
            },
            RecordData::Raw(b) => DataView::Raw(b@),
        }
    }
}

impl View for MdnsQuestion {
    type V = QuestionView;

    open spec fn view(&self) -> QuestionView {
        QuestionView { name: self.name@, qtype: self.qtype, qclass: self.qclass, unicast: self.unicast_response }
    }
}

impl View for MdnsRecord {
    type V = RecordView;

    open spec fn view(&self) -> RecordView {
        RecordView { name: self.name@, rtype: self.rtype, rclass: self.rclass, ttl: self.ttl, data: self.data@ }
    }
}

/// The data of each question.
pub open spec fn questions_view(v: Seq<MdnsQuestion>) -> Seq<QuestionView> {
    v.map_values(|q: MdnsQuestion| q@)
}

/// The data of each record.
pub open spec fn records_view(v: Seq<MdnsRecord>) -> Seq<RecordView> {
    v.map_values(|r: MdnsRecord| r@)
}

impl View for MdnsPacket {
    type V = PacketView;

    open spec fn view(&self) -> PacketView {
        PacketView {
            flags: self.flags,
            questions: questions_view(self.questions@),
            answers: records_view(self.answers@),
            authorities: records_view(self.authorities@),
            additionals: records_view(self.additionals@),
        }
    }
}

// ===================================================================
// Integers
// ===================================================================

/// The two big-endian bytes of `v`.
pub open spec fn be16(v: u16) -> Seq<u8> {
    seq![(v / 256) as u8, (v % 256) as u8]
}

/// The big-endian `u16` at `p`.
pub open spec fn u16_at(b: Seq<u8>, p: int) -> u16 {
    (b[p] * 256 + b[p + 1]) as u16
}

fn push_be16(out: &mut Vec<u8>, v: u16)
    ensures
        final(out)@ == old(out)@ + be16(v),
{
    out.push((v / 256) as u8);
    out.push((v % 256) as u8);
    assert(out@ =~= old(out)@ + be16(v));
}

fn read_u16(b: &[u8], p: usize) -> (r: u16)
    requires
        p + 2 <= b@.len(),
    ensures
        r == u16_at(b@, p as int),
{
    (b[p] as u16) * 256 + (b[p + 1] as u16)
}

proof fn lemma_be16_at(b: Seq<u8>, p: int, v: u16)
    requires
        0 <= p,
        p + 2 <= b.len(),
        b.subrange(p, p + 2) == be16(v),
    ensures
        u16_at(b, p) == v,
{
    assert(b[p] == be16(v)[0] && b[p + 1] == be16(v)[1]);
}

// ===================================================================
// Names
// ===================================================================

/// The first dot of `b`, or its length.
pub open spec fn dot_index(b: Seq<u8>) -> int
    decreases b.len(),
{
    if b.len() == 0 {
        0
    } else if b[0] == 46u8 {
        0
    } else {
        1 + dot_index(b.drop_first())
    }
}

proof fn lemma_dot_index(b: Seq<u8>)
    ensures
        0 <= dot_index(b) <= b.len(),
        forall|k: int| 0 <= k < dot_index(b) ==> b[k] != 46u8,
        dot_index(b) < b.len() ==> b[dot_index(b)] == 46u8,
    decreases b.len(),
{
    if b.len() > 0 && b[0] != 46u8 {
        lemma_dot_index(b.drop_first());
        assert forall|k: int| 0 <= k < dot_index(b) implies b[k] != 46u8 by {
            if k > 0 {
                assert(b[k] == b.drop_first()[k - 1]);
            }
        }
    }
}

/// The bytes of a name without one trailing dot.
pub open spec fn trim_dot(b: Seq<u8>) -> Seq<u8> {
    if b.len() > 0 && b.last() == 46u8 {
        b.drop_last()
    } else {
        b
    }
}

/// Dotted name bytes as labels: each a length byte (1 to 63) and its
/// bytes, then the zero byte of the root. An empty or overlong label makes
/// the name unwritable.
pub open spec fn enc_labels(b: Seq<u8>) -> Option<Seq<u8>>
    decreases b.len(),
{
    let i = dot_index(b);
    if i <= 0 || i > 63 {
        None
    } else if i >= b.len() {
        Some(seq![i as u8] + b.take(i) + seq![0u8])
    } else {
        match enc_labels(b.skip(i + 1)) {
            Some(rest) => Some(seq![i as u8] + b.take(i) + rest),
            None => None,
        }
    }
}

/// A name on the wire: its UTF-8 bytes, without a trailing dot, as labels;
/// the empty name is the root alone.
pub open spec fn enc_name(name: Seq<char>) -> Option<Seq<u8>> {
    let b = trim_dot(encode_utf8(name));
    if b.len() == 0 {
        Some(seq![0u8])
    } else {
        enc_labels(b)
    }
}

/// How many compression pointers a name may follow.
pub open spec fn max_hops() -> nat {
    16
}

/// Two label sequences joined by a dot, either possibly empty.
pub open spec fn join(a: Seq<u8>, r: Seq<u8>) -> Seq<u8> {
    if a.len() == 0 {
        r
    } else if r.len() == 0 {
        a
    } else {
        a + seq![46u8] + r
    }
}

/// The labels of the name at `pos`, joined by dots, following at most
/// `hops` compression pointers (a length byte of 192 or more: the rest of
/// the name is at the 14-bit offset it gives). Length bytes from 64 to 191
/// are not allowed.
pub open spec fn dec_labels(buf: Seq<u8>, pos: int, hops: nat) -> Option<Seq<u8>>
    decreases hops, buf.len() - pos,
{
    if pos < 0 || pos >= buf.len() {
        None
    } else {
        let l = buf[pos];
        if l == 0 {
            Some(Seq::empty())
        } else if l >= 192 {
            if pos + 1 < buf.len() && hops > 0 {
                dec_labels(buf, (l - 192) * 256 + buf[pos + 1], (hops - 1) as nat)
            } else {
                None
            }
        } else if l >= 64 {
            None
        } else if pos + 1 + l > buf.len() {
            None
        } else {
            match dec_labels(buf, pos + 1 + l, hops) {
                Some(rest) => Some(join(buf.subrange(pos + 1, pos + 1 + l), rest)),
                None => None,
            }
        }
    }
}

/// Where the name at `pos` ends in the message: after its root byte or
/// after its first pointer.
pub open spec fn name_end(buf: Seq<u8>, pos: int) -> Option<int>
    decreases buf.len() - pos,
{
    if pos < 0 || pos >= buf.len() {
        None
    } else {
        let l = buf[pos];
        if l == 0 {
            Some(pos + 1)
        } else if l >= 192 {
            if pos + 1 < buf.len() {
                Some(pos + 2)
            } else {
                None
            }
        } else if l >= 64 {
            None
        } else if pos + 1 + l > buf.len() {
            None
        } else {
            name_end(buf, pos + 1 + l)
        }
    }
}

/// The name at `pos` and where it ends: its labels must be UTF-8 text.
pub open spec fn read_name(buf: Seq<u8>, pos: int) -> Option<(Seq<char>, int)> {
    match (dec_labels(buf, pos, max_hops()), name_end(buf, pos)) {
        (Some(b), Some(e)) => if valid_utf8(b) {
            Some((decode_utf8(b), e))
        } else {
            None
        },
        _ => None,
    }
}

/// Appends the labels of `b[start..n]` (see `enc_labels`); false when they
/// cannot be written, and then `out` holds some of them.
fn push_labels(out: &mut Vec<u8>, b: &[u8], start: usize, n: usize) -> (ok: bool)
    requires
        start < n <= b@.len(),
    ensures
        match enc_labels(b@.subrange(start as int, n as int)) {
            Some(e) => ok && final(out)@ == old(out)@ + e,
            None => !ok,
        },
    decreases n - start,
{
    let ghost rest = b@.subrange(start as int, n as int);
    proof {
        lemma_dot_index(rest);
    }
    let mut j: usize = start;
    while j < n && b[j] != 46u8
        invariant
            start <= j <= n,
            n <= b@.len(),
            forall|k: int| start <= k < j ==> b@[k] != 46u8,
        decreases n - j,
    {
        j = j + 1;
    }
    let len = j - start;
    assert(dot_index(rest) == len) by {
        if dot_index(rest) < len {
            assert(rest[dot_index(rest)] == b@[start + dot_index(rest)]);
        }
        if dot_index(rest) > len {
            assert(rest[len as int] == b@[j as int]);
        }
    }
    if len == 0 || len > 63 {
        return false;
    }
    let ghost before = out@;
    out.push(len as u8);
    let mut k: usize = start;
    while k < j
        invariant
            start <= k <= j,
            j <= n,
            n <= b@.len(),
            out@ == before + seq![len as u8] + b@.subrange(start as int, k as int),
        decreases j - k,
    {
        out.push(b[k]);
        k = k + 1;
        assert(out@ =~= before + seq![len as u8] + b@.subrange(start as int, k as int));
    }
    assert(rest.take(len as int) =~= b@.subrange(start as int, j as int));
    if j == n {
        out.push(0u8);
        assert(out@ =~= before + (seq![len as u8] + rest.take(len as int) + seq![0u8]));
        return true;
    }
    assert(rest.skip(len + 1) =~= b@.subrange(j + 1, n as int));
    if j + 1 == n {
        assert(rest.skip(len + 1).len() == 0);
        return false;
    }
    let ghost mid = out@;
    let ok = push_labels(out, b, j + 1, n);
    proof {
        if ok {
            let t = enc_labels(b@.subrange(j + 1, n as int))->0;
            assert(out@ =~= before + (seq![len as u8] + rest.take(len as int) + t));
        }
    }
    ok
}

/// Appends a name in labels; false, and nothing appended, when it cannot
/// be written.
fn push_name(out: &mut Vec<u8>, name: &str) -> (ok: bool)
    ensures
        match enc_name(name@) {
            Some(e) => ok && final(out)@ == old(out)@ + e,
            None => !ok && final(out)@ == old(out)@,
        },
{
    let full = name.as_bytes();
    let n: usize = if full.len() > 0 && full[full.len() - 1] == 46u8 {
        full.len() - 1
    } else {
        full.len()
    };
    assert(trim_dot(full@) =~= full@.subrange(0, n as int));
    if n == 0 {
        out.push(0u8);
        assert(out@ =~= old(out)@ + seq![0u8]);
        return true;
    }
    let mut staged: Vec<u8> = Vec::new();
    let ok = push_labels(&mut staged, full, 0, n);
    if ok {
        out.append(&mut staged);
    }
    ok
}

proof fn lemma_join_assoc(a: Seq<u8>, l: Seq<u8>, r: Seq<u8>)
    requires
        l.len() > 0,
    ensures
        join(a, join(l, r)) == join(join(a, l), r),
{
    if a.len() > 0 && r.len() > 0 {
        assert(a + seq![46u8] + (l + seq![46u8] + r) =~= a + seq![46u8] + l + seq![46u8] + r);
    }
}

/// Where the name at `pos` ends.
fn find_name_end(buf: &[u8], pos: usize) -> (r: Option<usize>)
    ensures
        match r {
            Some(e) => name_end(buf@, pos as int) == Some(e as int),
            None => name_end(buf@, pos as int) is None,
        },
{
    let mut cur = pos;
    while cur < buf.len()
        invariant
            name_end(buf@, pos as int) == name_end(buf@, cur as int),
        decreases buf@.len() - cur,
    {
        let l = buf[cur] as usize;
        if l == 0 {
            return Some(cur + 1);
        }
        if l >= 192 {
            if cur + 1 < buf.len() {
                return Some(cur + 2);
            }
            return None;
        }
        if l >= 64 || l > buf.len() - cur - 1 {
            return None;
        }
        cur = cur + 1 + l;
    }
    None
}

/// The labels of the name at `pos`, joined by dots (see `dec_labels`).
fn name_labels(buf: &[u8], pos: usize) -> (r: Option<Vec<u8>>)
    ensures
        match r {
            Some(v) => dec_labels(buf@, pos as int, max_hops()) == Some(v@),
            None => dec_labels(buf@, pos as int, max_hops()) is None,
        },
{
    let mut out: Vec<u8> = Vec::new();
    let mut cur: usize = pos;
    let mut hops: u64 = 16;
    assert(join(Seq::<u8>::empty(), Seq::<u8>::empty()) =~= Seq::<u8>::empty());
    while cur < buf.len()
        invariant
            dec_labels(buf@, pos as int, max_hops()) == match dec_labels(buf@, cur as int, hops as nat) {
                Some(r) => Some(join(out@, r)),
                None => None,
            },
        decreases hops, buf@.len() - cur,
    {
        let l = buf[cur] as usize;
        if l == 0 {
            assert(join(out@, Seq::<u8>::empty()) =~= out@);
            return Some(out);
        }
        if l >= 192 {
            if cur + 1 < buf.len() && hops > 0 {
                cur = (l - 192) * 256 + (buf[cur + 1] as usize);
                hops = hops - 1;
            } else {
                return None;
            }
        } else if l >= 64 || l > buf.len() - cur - 1 {
            return None;
        } else {
            let ghost label = buf@.subrange(cur + 1, cur + 1 + l);
            let ghost old_out = out@;
            if out.len() > 0 {
                out.push(46u8);
            }
            let mut k: usize = cur + 1;
            let stop: usize = cur + 1 + l;
            let ghost mid = out@;
            while k < stop
                invariant
                    stop == cur + 1 + l,
                    cur + 1 <= k <= stop,
                    stop <= buf@.len(),
                    out@ == mid + buf@.subrange(cur + 1, k as int),
                decreases stop - k,
            {
                out.push(buf[k]);
                k = k + 1;
                assert(out@ =~= mid + buf@.subrange(cur + 1, k as int));
            }
            proof {
                assert(out@ =~= join(old_out, label));
                let next = cur + 1 + l;
                match dec_labels(buf@, next as int, hops as nat) {
                    Some(r) => {
                        lemma_join_assoc(old_out, label, r);
                    },
                    None => {},
                }
            }
            cur = cur + 1 + l;
        }
    }
    None
}

/// The name at `pos` and where it ends (see `read_name`).
fn read_name_at(buf: &[u8], pos: usize) -> (r: Option<(String, usize)>)
    ensures
        match r {
            Some((s, e)) => read_name(buf@, pos as int) == Some((s@, e as int)),
            None => read_name(buf@, pos as int) is None,
        },
{
    let labels = match name_labels(buf, pos) {
        Some(v) => v,
        None => {
            return None;
        },
    };
    let end = match find_name_end(buf, pos) {
        Some(e) => e,
        None => {
            return None;
        },
    };
    if !crate::torrent::bencode::utf8_check(labels.as_slice()) {
        return None;
    }
    let s = crate::torrent::bencode::string_from_utf8(labels);
    Some((s, end))
}

// ===================================================================
// Writing messages
// ===================================================================

/// Text strings on the wire: each a length byte and its UTF-8 bytes; a
/// string over 255 bytes cannot be written.
pub open spec fn enc_txt(ss: Seq<Seq<char>>) -> Option<Seq<u8>>
    decreases ss.len(),
{
    if ss.len() == 0 {
        Some(Seq::empty())
    } else {
        let b = encode_utf8(ss[0]);
        if b.len() > 255 {
            None
        } else {
            match enc_txt(ss.drop_first()) {
                Some(r) => Some(seq![b.len() as u8] + b + r),
                None => None,
            }
        }
    }
}

/// Record data on the wire.
pub open spec fn enc_data(d: DataView) -> Option<Seq<u8>> {
    match d {
        DataView::A(b) => Some(b),
        DataView::Aaaa(b) => Some(b),
        DataView::Ptr(n) => enc_name(n),
        DataView::Txt(ss) => enc_txt(ss),
        DataView::Srv { priority, weight, port, target } => match enc_name(target) {
            Some(t) => Some(be16(priority) + be16(weight) + be16(port) + t),
            None => None,
        },
        DataView::Raw(b) => Some(b),
    }
}

/// The class field of a question: the class, with the top bit set when a
/// unicast answer is asked for.
pub open spec fn question_class(q: QuestionView) -> u16 {
    (class_code(q.qclass) + if q.unicast {
        32768int
    } else {
        0int
    }) as u16
}

/// A question on the wire: name, type, class.
pub open spec fn enc_question(q: QuestionView) -> Option<Seq<u8>> {
    match enc_name(q.name) {
        Some(n) => Some(n + be16(type_code(q.qtype)) + be16(question_class(q))),
        None => None,
    }
}

/// A record on the wire: name, type, class, lifetime, data length and data.
pub open spec fn enc_record(r: RecordView) -> Option<Seq<u8>> {
    match (enc_name(r.name), enc_data(r.data)) {
        (Some(n), Some(d)) => if d.len() <= 65535 {
            Some(
                n + be16(type_code(r.rtype)) + be16(class_code(r.rclass)) + be_u32_bytes(r.ttl) + be16(
                    d.len() as u16,
                ) + d,
            )
        } else {
            None
        },
        _ => None,
    }
}

/// Questions one after another.
pub open spec fn enc_questions(qs: Seq<QuestionView>) -> Option<Seq<u8>>
    decreases qs.len(),
{
    if qs.len() == 0 {
        Some(Seq::empty())
    } else {
        match (enc_questions(qs.drop_last()), enc_question(qs.last())) {
            (Some(a), Some(b)) => Some(a + b),
            _ => None,
        }
    }
}

/// Records one after another.
pub open spec fn enc_records(rs: Seq<RecordView>) -> Option<Seq<u8>>
    decreases rs.len(),
{
    if rs.len() == 0 {
        Some(Seq::empty())
    } else {
        match (enc_records(rs.drop_last()), enc_record(rs.last())) {
            (Some(a), Some(b)) => Some(a + b),
            _ => None,
        }
    }
}

/// The header: a zero id, the flags and the four counts.
pub open spec fn header(p: PacketView) -> Seq<u8> {
    be16(0) + be16(p.flags) + be16(p.questions.len() as u16) + be16(p.answers.len() as u16) + be16(
        p.authorities.len() as u16,
    ) + be16(p.additionals.len() as u16)
}

/// A message on the wire: the header, then questions, answers, authority
/// and additional records; nothing when a count exceeds 65535 or an item
/// cannot be written.
pub open spec fn enc_packet(p: PacketView) -> Option<Seq<u8>> {
    if p.questions.len() > 65535 || p.answers.len() > 65535 || p.authorities.len() > 65535
        || p.additionals.len() > 65535 {
        None
    } else {
        match (
            enc_questions(p.questions),
            enc_records(p.answers),
            enc_records(p.authorities),
            enc_records(p.additionals),
        ) {
            (Some(q), Some(a), Some(n), Some(d)) => Some(header(p) + q + a + n + d),
            _ => None,
        }
    }
}

proof fn lemma_enc_questions_prefix(qs: Seq<QuestionView>, k: int)
    requires
        0 <= k <= qs.len(),
        enc_questions(qs.take(k)) is None,
    ensures
        enc_questions(qs) is None,
    decreases qs.len() - k,
{
    if k < qs.len() {
        let t = qs.take(k + 1);
        assert(t.drop_last() =~= qs.take(k));
        lemma_enc_questions_prefix(qs, k + 1);
    } else {
        assert(qs.take(k) =~= qs);
    }
}

proof fn lemma_enc_records_prefix(rs: Seq<RecordView>, k: int)
    requires
        0 <= k <= rs.len(),
        enc_records(rs.take(k)) is None,
    ensures
        enc_records(rs) is None,
    decreases rs.len() - k,
{
    if k < rs.len() {
        let t = rs.take(k + 1);
        assert(t.drop_last() =~= rs.take(k));
        lemma_enc_records_prefix(rs, k + 1);
    } else {
        assert(rs.take(k) =~= rs);
    }
}

fn push_bytes(out: &mut Vec<u8>, b: &[u8])
    ensures
        final(out)@ == old(out)@ + b@,
{
    let mut i: usize = 0;
    while i < b.len()
        invariant
            i <= b@.len(),
            out@ == old(out)@ + b@.take(i as int),
        decreases b.len() - i,
    {
        out.push(b[i]);
        i = i + 1;
        assert(out@ =~= old(out)@ + b@.take(i as int));
    }
    assert(b@.take(i as int) =~= b@);
}

/// Appends text strings; false when one is too long, and then `out` holds
/// some of them.
fn push_txt(out: &mut Vec<u8>, ss: &Vec<String>) -> (ok: bool)
    ensures
        match enc_txt(strings_view(ss@)) {
            Some(e) => ok && final(out)@ == old(out)@ + e,
            None => !ok,
        },
{
    let ghost v = strings_view(ss@);
    let mut i: usize = 0;
    assert(v.skip(0) =~= v);
    assert(old(out)@ + Seq::<u8>::empty() =~= old(out)@);
    while i < ss.len()
        invariant
            v == strings_view(ss@),
            i <= ss@.len(),
            match enc_txt(v) {
                Some(e) => match enc_txt(v.skip(i as int)) {
                    Some(t) => e == out@.skip(old(out)@.len() as int) + t && out@.take(old(out)@.len() as int) == old(out)@,
                    None => false,
                },
                None => enc_txt(v.skip(i as int)) is None,
            },
            out@.len() >= old(out)@.len(),
        decreases ss.len() - i,
    {
        let b = ss[i].as_str().as_bytes();
        let ghost rest = v.skip(i as int);
        assert(rest[0] == ss@[i as int]@);
        assert(rest.drop_first() =~= v.skip(i + 1));
        if b.len() > 255 {
            return false;
        }
        let ghost before = out@;
        out.push(b.len() as u8);
        push_bytes(out, b);
        proof {
            assert(out@ =~= before + (seq![b@.len() as u8] + b@));
            assert(out@.take(old(out)@.len() as int) =~= before.take(old(out)@.len() as int));
            assert(out@.skip(old(out)@.len() as int) =~= before.skip(old(out)@.len() as int) + (seq![b@.len() as u8] + b@));
        }
        i = i + 1;
    }
    proof {
        assert(v.skip(i as int) =~= Seq::<Seq<char>>::empty());
        assert(out@ =~= out@.take(old(out)@.len() as int) + out@.skip(old(out)@.len() as int));
    }
    true
}

/// Appends record data; false when it cannot be written, and then `out`
/// holds some of it.
fn push_data(out: &mut Vec<u8>, d: &RecordData) -> (ok: bool)
    ensures
        match enc_data(d@) {
            Some(e) => ok && final(out)@ == old(out)@ + e,
            None => !ok,
        },
{
    match d {
        RecordData::A(a) => {
            push_bytes(out, a.as_slice());
            true
        },
        RecordData::Aaaa(a) => {
            push_bytes(out, a.as_slice());
            true
        },
        RecordData::Ptr(n) => push_name(out, n.as_str()),
        RecordData::Txt(ss) => push_txt(out, ss),
        RecordData::Srv { priority, weight, port, target } => {
            let ghost before = out@;
            push_be16(out, *priority);
            push_be16(out, *weight);
            push_be16(out, *port);
            let ghost mid = out@;
            let ok = push_name(out, target.as_str());
            proof {
                if ok {
                    let t = enc_name(target@)->0;
                    assert(out@ =~= before + (be16(*priority) + be16(*weight) + be16(*port) + t));
                }
            }
            ok
        },
        RecordData::Raw(b) => {
            push_bytes(out, b.as_slice());
            true
        },
    }
}

/// Appends a question; false, and nothing appended, when its name cannot
/// be written.
fn push_question(out: &mut Vec<u8>, q: &MdnsQuestion) -> (ok: bool)
    ensures
        match enc_question(q@) {
            Some(e) => ok && final(out)@ == old(out)@ + e,
            None => !ok && final(out)@ == old(out)@,
        },
{
    let ghost before = out@;
    if !push_name(out, q.name.as_str()) {
        return false;
    }
    let ghost n = enc_name(q@.name)->0;
    push_be16(out, q.qtype.to_u16());
    let class: u16 = q.qclass.to_u16() + if q.unicast_response { 32768u16 } else { 0u16 };
    push_be16(out, class);
    assert(out@ =~= before + (n + be16(type_code(q.qtype)) + be16(question_class(q@))));
    true
}

/// Appends a record; false, and nothing appended, when it cannot be
/// written.
fn push_record(out: &mut Vec<u8>, r: &MdnsRecord) -> (ok: bool)
    ensures
        match enc_record(r@) {
            Some(e) => ok && final(out)@ == old(out)@ + e,
            None => !ok && final(out)@ == old(out)@,
        },
{
    let mut name: Vec<u8> = Vec::new();
    if !push_name(&mut name, r.name.as_str()) {
        return false;
    }
    let mut data: Vec<u8> = Vec::new();
    if !push_data(&mut data, &r.data) {
        return false;
    }
    if data.len() > 65535 {
        return false;
    }
    let ghost before = out@;
    push_bytes(out, name.as_slice());
    push_be16(out, r.rtype.to_u16());
    push_be16(out, r.rclass.to_u16());
    push_be_u32(out, r.ttl);
    push_be16(out, data.len() as u16);
    push_bytes(out, data.as_slice());
    assert(out@ =~= before + (name@ + be16(type_code(r.rtype)) + be16(class_code(r.rclass)) + be_u32_bytes(r.ttl)
        + be16(data@.len() as u16) + data@));
    true
}

fn push_questions(out: &mut Vec<u8>, qs: &Vec<MdnsQuestion>) -> (ok: bool)
    ensures
        match enc_questions(questions_view(qs@)) {
            Some(e) => ok && final(out)@ == old(out)@ + e,
            None => !ok,
        },
{
    let ghost v = questions_view(qs@);
    let mut i: usize = 0;
    assert(v.take(0) =~= Seq::<QuestionView>::empty());
    assert(old(out)@ + Seq::<u8>::empty() =~= old(out)@);
    while i < qs.len()
        invariant
            v == questions_view(qs@),
            i <= qs@.len(),
            enc_questions(v.take(i as int)) matches Some(e) && out@ == old(out)@ + e,
        decreases qs.len() - i,
    {
        let ghost prev = enc_questions(v.take(i as int))->0;
        let ghost t = v.take(i + 1);
        assert(t.drop_last() =~= v.take(i as int));
        assert(t.last() == qs@[i as int]@);
        if !push_question(out, &qs[i]) {
            proof {
                lemma_enc_questions_prefix(v, i + 1);
            }
            return false;
        }
        assert(out@ =~= old(out)@ + (prev + enc_question(qs@[i as int]@)->0));
        i = i + 1;
    }
    assert(v.take(i as int) =~= v);
    true
}

fn push_records(out: &mut Vec<u8>, rs: &Vec<MdnsRecord>) -> (ok: bool)
    ensures
        match enc_records(records_view(rs@)) {
            Some(e) => ok && final(out)@ == old(out)@ + e,
            None => !ok,
        },
{
    let ghost v = records_view(rs@);
    let mut i: usize = 0;
    assert(v.take(0) =~= Seq::<RecordView>::empty());
    assert(old(out)@ + Seq::<u8>::empty() =~= old(out)@);
    while i < rs.len()
        invariant
            v == records_view(rs@),
            i <= rs@.len(),
            enc_records(v.take(i as int)) matches Some(e) && out@ == old(out)@ + e,
        decreases rs.len() - i,
    {
        let ghost prev = enc_records(v.take(i as int))->0;
        let ghost t = v.take(i + 1);
        assert(t.drop_last() =~= v.take(i as int));
        assert(t.last() == rs@[i as int]@);
        if !push_record(out, &rs[i]) {
            proof {
                lemma_enc_records_prefix(v, i + 1);
            }
            return false;
        }
        assert(out@ =~= old(out)@ + (prev + enc_record(rs@[i as int]@)->0));
        i = i + 1;
    }
    assert(v.take(i as int) =~= v);
    true
}

impl MdnsPacket {
    /// The message on the wire. An error when a count exceeds 65535, a name
    /// has an empty or overlong label, a text string is over 255 bytes or
    /// record data over 65535.
    pub fn encode(&self) -> (r: Result<Vec<u8>, Error>)
        ensures
            match r {
                Ok(b) => enc_packet(self@) == Some(b@),
                Err(e) => enc_packet(self@) is None && e is Mdns,
            },
    {
        if self.questions.len() > 65535 || self.answers.len() > 65535 || self.authorities.len() > 65535
            || self.additionals.len() > 65535 {
            return Err(Error::Mdns("Too many entries in message".to_string()));
        }
        let mut out: Vec<u8> = Vec::new();
        push_be16(&mut out, 0);
        push_be16(&mut out, self.flags);
        push_be16(&mut out, self.questions.len() as u16);
        push_be16(&mut out, self.answers.len() as u16);
        push_be16(&mut out, self.authorities.len() as u16);
        push_be16(&mut out, self.additionals.len() as u16);
        let ghost h = out@;
        assert(h =~= header(self@));
        if !push_questions(&mut out, &self.questions) {
            return Err(Error::Mdns("Unwritable question".to_string()));
        }
        let ghost hq = out@;
        if !push_records(&mut out, &self.answers) {
            return Err(Error::Mdns("Unwritable answer".to_string()));
        }
        let ghost ha = out@;
        if !push_records(&mut out, &self.authorities) {
            return Err(Error::Mdns("Unwritable authority record".to_string()));
        }
        let ghost hn = out@;
        if !push_records(&mut out, &self.additionals) {
            return Err(Error::Mdns("Unwritable additional record".to_string()));
        }
        proof {
            let q = enc_questions(self@.questions)->0;
            let a = enc_records(self@.answers)->0;
            let n = enc_records(self@.authorities)->0;
            let d = enc_records(self@.additionals)->0;
            assert(out@ =~= header(self@) + q + a + n + d);
        }
        Ok(out)
    }

    /// The size of the message on the wire; 0 when it cannot be written.
    pub fn size(&self) -> (r: usize)
        ensures
            match enc_packet(self@) {
                Some(b) => r == b.len(),
                None => r == 0,
            },
    {
        match self.encode() {
            Ok(b) => b.len(),
            Err(_) => 0,
        }
    }
}

// ===================================================================
// Reading messages
// ===================================================================

/// The big-endian `u32` at `p`.
pub open spec fn u32_at(b: Seq<u8>, p: int) -> u32 {
    be_u32_value(b.subrange(p, p + 4))
}

/// Text strings read from `s`: each a length byte and that many bytes of
/// UTF-8, filling `s` exactly.
pub open spec fn dec_txt(s: Seq<u8>) -> Option<Seq<Seq<char>>>
    decreases s.len(),
{
    if s.len() == 0 {
        Some(Seq::empty())
    } else {
        let l = s[0] as int;
        if 1 + l > s.len() {
            None
        } else {
            let t = s.subrange(1, 1 + l);
            if !valid_utf8(t) {
                None
            } else {
                match dec_txt(s.skip(1 + l)) {
                    Some(r) => Some(seq![decode_utf8(t)] + r),
                    None => None,
                }
            }
        }
    }
}

/// The data of a record of type `t` whose `rl` bytes start at `d`: four or
/// sixteen address bytes, a name (which may point anywhere in the message),
/// text strings, a service location, or the bytes themselves.
pub open spec fn dec_data(buf: Seq<u8>, t: RecordType, d: int, rl: int) -> Option<DataView> {
    match t {
        RecordType::A => if rl == 4 {
            Some(DataView::A(buf.subrange(d, d + 4)))
        } else {
            None
        },
        RecordType::AAAA => if rl == 16 {
            Some(DataView::Aaaa(buf.subrange(d, d + 16)))
        } else {
            None
        },
        RecordType::PTR | RecordType::NS | RecordType::CNAME => match read_name(buf, d) {
            Some((n, _)) => Some(DataView::Ptr(n)),
            None => None,
        },
        RecordType::TXT => match dec_txt(buf.subrange(d, d + rl)) {
            Some(ss) => Some(DataView::Txt(ss)),
            None => None,
        },
        RecordType::SRV => if rl >= 6 {
            match read_name(buf, d + 6) {
                Some((n, _)) => Some(
                    DataView::Srv {
                        priority: u16_at(buf, d),
                        weight: u16_at(buf, d + 2),
                        port: u16_at(buf, d + 4),
                        target: n,
                    },
                ),
                None => None,
            }
        } else {
            None
        },
        RecordType::SOA | RecordType::ANY => Some(DataView::Raw(buf.subrange(d, d + rl))),
    }
}

/// The question at `pos` and where it ends; a question of a type or class
/// this library does not know reads as nothing. The class's top bit asks
/// for a unicast answer.
pub open spec fn dec_question(buf: Seq<u8>, pos: int) -> Option<(Option<QuestionView>, int)> {
    match read_name(buf, pos) {
        Some((n, p)) => if p + 4 > buf.len() {
            None
        } else {
            let t = u16_at(buf, p);
            let c = u16_at(buf, p + 2);
            Some(
                (
                    match (type_of_code(t), class_of_code((c % 32768) as u16)) {
                        (Some(tt), Some(cc)) => Some(QuestionView { name: n, qtype: tt, qclass: cc, unicast: c >= 32768 }),
                        _ => None,
                    },
                    p + 4,
                ),
            )
        },
        None => None,
    }
}

/// The record at `pos` and where it ends; a record of a type or class this
/// library does not know reads as nothing. The class's top bit (the
/// cache-flush bit) is dropped.
pub open spec fn dec_record(buf: Seq<u8>, pos: int) -> Option<(Option<RecordView>, int)> {
    match read_name(buf, pos) {
        Some((n, p)) => if p + 10 > buf.len() {
            None
        } else {
            let t = u16_at(buf, p);
            let c = u16_at(buf, p + 2);
            let ttl = u32_at(buf, p + 4);
            let rl = u16_at(buf, p + 8) as int;
            let d = p + 10;
            if d + rl > buf.len() {
                None
            } else {
                match (type_of_code(t), class_of_code((c % 32768) as u16)) {
                    (Some(tt), Some(cc)) => match dec_data(buf, tt, d, rl) {
                        Some(data) => Some((Some(RecordView { name: n, rtype: tt, rclass: cc, ttl, data }), d + rl)),
                        None => None,
                    },
                    _ => Some((None, d + rl)),
                }
            }
        },
        None => None,
    }
}

/// An item in front of a list, when there is one.
pub open spec fn opt_cons<T>(o: Option<T>, s: Seq<T>) -> Seq<T> {
    match o {
        Some(x) => seq![x] + s,
        None => s,
    }
}

/// `n` questions from `pos` on, and where they end.
pub open spec fn dec_questions(buf: Seq<u8>, pos: int, n: nat) -> Option<(Seq<QuestionView>, int)>
    decreases n,
{
    if n == 0 {
        Some((Seq::empty(), pos))
    } else {
        match dec_question(buf, pos) {
            Some((q, p)) => match dec_questions(buf, p, (n - 1) as nat) {
                Some((qs, e)) => Some((opt_cons(q, qs), e)),
                None => None,
            },
            None => None,
        }
    }
}

/// `n` records from `pos` on, and where they end.
pub open spec fn dec_records(buf: Seq<u8>, pos: int, n: nat) -> Option<(Seq<RecordView>, int)>
    decreases n,
{
    if n == 0 {
        Some((Seq::empty(), pos))
    } else {
        match dec_record(buf, pos) {
            Some((r, p)) => match dec_records(buf, p, (n - 1) as nat) {
                Some((rs, e)) => Some((opt_cons(r, rs), e)),
                None => None,
            },
            None => None,
        }
    }
}

/// A message read from `buf`: the 12-byte header, then as many questions,
/// answers, authority and additional records as it counts. Bytes after the
/// last record are ignored.
pub open spec fn dec_packet(buf: Seq<u8>) -> Option<PacketView> {
    if buf.len() < 12 {
        None
    } else {
        let flags = u16_at(buf, 2);
        match dec_questions(buf, 12, u16_at(buf, 4) as nat) {
            Some((qs, p1)) => match dec_records(buf, p1, u16_at(buf, 6) as nat) {
                Some((an, p2)) => match dec_records(buf, p2, u16_at(buf, 8) as nat) {
                    Some((ns, p3)) => match dec_records(buf, p3, u16_at(buf, 10) as nat) {
                        Some((ar, _)) => Some(
                            PacketView { flags, questions: qs, answers: an, authorities: ns, additionals: ar },
                        ),
                        None => None,
                    },
                    None => None,
                },
                None => None,
            },
            None => None,
        }
    }
}

/// The data of a question, if any.
pub open spec fn opt_question_view(o: Option<MdnsQuestion>) -> Option<QuestionView> {
    match o {
        Some(x) => Some(x@),
        None => None,
    }
}

/// The data of a record, if any.
pub open spec fn opt_record_view(o: Option<MdnsRecord>) -> Option<RecordView> {
    match o {
        Some(x) => Some(x@),
        None => None,
    }
}

fn copy_bytes4(buf: &[u8], at: usize) -> (r: [u8; 4])
    requires
        at + 4 <= buf@.len(),
    ensures
        r@ == buf@.subrange(at as int, at + 4),
{
    let mut r = [0u8; 4];
    let blen = buf.len();
    let mut i: usize = 0;
    while i < 4
        invariant
            i <= 4,
            blen == buf@.len(),
            at + 4 <= buf@.len(),
            r@.len() == 4,
            forall|j: int| 0 <= j < i ==> r@[j] == buf@[at + j],
        decreases 4 - i,
    {
        r[i] = buf[at + i];
        i = i + 1;
    }
    assert(r@ =~= buf@.subrange(at as int, at + 4));
    r
}

fn copy_bytes16(buf: &[u8], at: usize) -> (r: [u8; 16])
    requires
        at + 16 <= buf@.len(),
    ensures
        r@ == buf@.subrange(at as int, at + 16),
{
    let mut r = [0u8; 16];
    let blen = buf.len();
    let mut i: usize = 0;
    while i < 16
        invariant
            i <= 16,
            blen == buf@.len(),
            at + 16 <= buf@.len(),
            r@.len() == 16,
            forall|j: int| 0 <= j < i ==> r@[j] == buf@[at + j],
        decreases 16 - i,
    {
        r[i] = buf[at + i];
        i = i + 1;
    }
    assert(r@ =~= buf@.subrange(at as int, at + 16));
    r
}

/// The text strings of `buf[d..d + rl]`.
fn read_txt(buf: &[u8], d: usize, rl: usize) -> (r: Option<Vec<String>>)
    requires
        d + rl <= buf@.len(),
    ensures
        match r {
            Some(v) => dec_txt(buf@.subrange(d as int, d + rl)) == Some(strings_view(v@)),
            None => dec_txt(buf@.subrange(d as int, d + rl)) is None,
        },
{
    let ghost s = buf@.subrange(d as int, d + rl);
    let blen = buf.len();
    let end = d + rl;
    let mut out: Vec<String> = Vec::new();
    let mut cur = d;
    assert(s.skip(0) =~= s);
    while cur < end
        invariant
            end == d + rl,
            end <= buf@.len(),
            d <= cur <= end,
            s == buf@.subrange(d as int, end as int),
            dec_txt(s) == match dec_txt(s.skip(cur - d)) {
                Some(t) => Some(strings_view(out@) + t),
                None => None,
            },
        decreases end - cur,
    {
        let ghost rest = s.skip(cur - d);
        assert(rest[0] == buf@[cur as int]);
        let l = buf[cur] as usize;
        if l > end - cur - 1 {
            return None;
        }
        let t = vstd::slice::slice_subrange(buf, cur + 1, cur + 1 + l);
        assert(rest.subrange(1, 1 + l) =~= t@);
        if !crate::torrent::bencode::utf8_check(t) {
            return None;
        }
        let tv = vstd::slice::slice_to_vec(t);
        let st = crate::torrent::bencode::string_from_utf8(tv);
        let ghost before = strings_view(out@);
        out.push(st);
        assert(rest.skip(1 + l) =~= s.skip(cur + 1 + l - d));
        proof {
            assert(strings_view(out@) =~= before + seq![decode_utf8(t@)]);
            match dec_txt(s.skip(cur + 1 + l - d)) {
                Some(tt) => {
                    assert(before + (seq![decode_utf8(t@)] + tt) =~= strings_view(out@) + tt);
                },
                None => {},
            }
        }
        cur = cur + 1 + l;
    }
    assert(s.skip(cur - d) =~= Seq::<u8>::empty());
    assert(strings_view(out@) + Seq::<Seq<char>>::empty() =~= strings_view(out@));
    Some(out)
}

/// The data of a record of type `t` at `buf[d..d + rl]`.
fn read_data(buf: &[u8], t: RecordType, d: usize, rl: usize) -> (r: Option<RecordData>)
    requires
        d + rl <= buf@.len(),
    ensures
        match r {
            Some(x) => dec_data(buf@, t, d as int, rl as int) == Some(x@),
            None => dec_data(buf@, t, d as int, rl as int) is None,
        },
{
    let blen = buf.len();
    match t {
        RecordType::A => {
            if rl == 4 {
                Some(RecordData::A(copy_bytes4(buf, d)))
            } else {
                None
            }
        },
        RecordType::AAAA => {
            if rl == 16 {
                Some(RecordData::Aaaa(copy_bytes16(buf, d)))
            } else {
                None
            }
        },
        RecordType::PTR | RecordType::NS | RecordType::CNAME => match read_name_at(buf, d) {
            Some((n, _)) => Some(RecordData::Ptr(n)),
            None => None,
        },
        RecordType::TXT => match read_txt(buf, d, rl) {
            Some(v) => Some(RecordData::Txt(v)),
            None => None,
        },
        RecordType::SRV => {
            if rl >= 6 {
                match read_name_at(buf, d + 6) {
                    Some((n, _)) => Some(
                        RecordData::Srv {
                            priority: read_u16(buf, d),
                            weight: read_u16(buf, d + 2),
                            port: read_u16(buf, d + 4),
                            target: n,
                        },
                    ),
                    None => None,
                }
            } else {
                None
            }
        },
        RecordType::SOA | RecordType::ANY => {
            let b = vstd::slice::slice_to_vec(vstd::slice::slice_subrange(buf, d, d + rl));
            Some(RecordData::Raw(b))
        },
    }
}

fn read_question(buf: &[u8], pos: usize) -> (r: Option<(Option<MdnsQuestion>, usize)>)
    ensures
        match r {
            Some((q, e)) => dec_question(buf@, pos as int) == Some(
                (
                    match q {
                        Some(x) => Some(x@),
                        None => None,
                    },
                    e as int,
                ),
            ),
            None => dec_question(buf@, pos as int) is None,
        },
{
    let (name, p) = match read_name_at(buf, pos) {
        Some(x) => x,
        None => {
            return None;
        },
    };
    if p > buf.len() || buf.len() - p < 4 {
        return None;
    }
    let t = read_u16(buf, p);
    let c = read_u16(buf, p + 2);
    let q = match (RecordType::from_u16(t), RecordClass::from_u16(c % 32768)) {
        (Some(tt), Some(cc)) => Some(MdnsQuestion { name, qtype: tt, qclass: cc, unicast_response: c >= 32768 }),
        _ => None,
    };
    Some((q, p + 4))
}

fn read_record(buf: &[u8], pos: usize) -> (r: Option<(Option<MdnsRecord>, usize)>)
    ensures
        match r {
            Some((x, e)) => dec_record(buf@, pos as int) == Some(
                (
                    match x {
                        Some(y) => Some(y@),
                        None => None,
                    },
                    e as int,
                ),
            ),
            None => dec_record(buf@, pos as int) is None,
        },
{
    let (name, p) = match read_name_at(buf, pos) {
        Some(x) => x,
        None => {
            return None;
        },
    };
    if p > buf.len() || buf.len() - p < 10 {
        return None;
    }
    let t = read_u16(buf, p);
    let c = read_u16(buf, p + 2);
    let ttl = read_be_u32(buf, p + 4);
    let rl = read_u16(buf, p + 8) as usize;
    let d = p + 10;
    if rl > buf.len() - d {
        return None;
    }
    match (RecordType::from_u16(t), RecordClass::from_u16(c % 32768)) {
        (Some(tt), Some(cc)) => match read_data(buf, tt, d, rl) {
            Some(data) => Some((Some(MdnsRecord { name, rtype: tt, rclass: cc, ttl, data }), d + rl)),
            None => None,
        },
        _ => Some((None, d + rl)),
    }
}

fn read_questions(buf: &[u8], pos: usize, n: u16) -> (r: Option<(Vec<MdnsQuestion>, usize)>)
    ensures
        match r {
            Some((v, e)) => dec_questions(buf@, pos as int, n as nat) == Some((questions_view(v@), e as int)),
            None => dec_questions(buf@, pos as int, n as nat) is None,
        },
{
    let mut out: Vec<MdnsQuestion> = Vec::new();
    let mut cur = pos;
    let mut i: u16 = 0;
    assert(questions_view(out@) + Seq::<QuestionView>::empty() =~= Seq::<QuestionView>::empty());
    while i < n
        invariant
            i <= n,
            dec_questions(buf@, pos as int, n as nat) == match dec_questions(buf@, cur as int, (n - i) as nat) {
                Some((qs, e)) => Some((questions_view(out@) + qs, e)),
                None => None,
            },
        decreases n - i,
    {
        match read_question(buf, cur) {
            Some((q, p)) => {
                let ghost before = questions_view(out@);
                let ghost qv = opt_question_view(q);
                match q {
                    Some(x) => {
                        out.push(x);
                    },
                    None => {},
                }
                proof {
                    assert(questions_view(out@) =~= before + opt_cons(qv, Seq::<QuestionView>::empty()));
                    match dec_questions(buf@, p as int, (n - i - 1) as nat) {
                        Some((qs, e)) => {
                            assert(before + opt_cons(qv, qs) =~= questions_view(out@) + qs);
                        },
                        None => {},
                    }
                }
                cur = p;
                i = i + 1;
            },
            None => {
                return None;
            },
        }
    }
    assert(questions_view(out@) + Seq::<QuestionView>::empty() =~= questions_view(out@));
    Some((out, cur))
}

fn read_records(buf: &[u8], pos: usize, n: u16) -> (r: Option<(Vec<MdnsRecord>, usize)>)
    ensures
        match r {
            Some((v, e)) => dec_records(buf@, pos as int, n as nat) == Some((records_view(v@), e as int)),
            None => dec_records(buf@, pos as int, n as nat) is None,
        },
{
    let mut out: Vec<MdnsRecord> = Vec::new();
    let mut cur = pos;
    let mut i: u16 = 0;
    assert(records_view(out@) + Seq::<RecordView>::empty() =~= Seq::<RecordView>::empty());
    while i < n
        invariant
            i <= n,
            dec_records(buf@, pos as int, n as nat) == match dec_records(buf@, cur as int, (n - i) as nat) {
                Some((rs, e)) => Some((records_view(out@) + rs, e)),
                None => None,
            },
        decreases n - i,
    {
        match read_record(buf, cur) {
            Some((x, p)) => {
                let ghost before = records_view(out@);
                let ghost xv = opt_record_view(x);
                match x {
                    Some(y) => {
                        out.push(y);
                    },
                    None => {},
                }
                proof {
                    assert(records_view(out@) =~= before + opt_cons(xv, Seq::<RecordView>::empty()));
                    match dec_records(buf@, p as int, (n - i - 1) as nat) {
                        Some((rs, e)) => {
                            assert(before + opt_cons(xv, rs) =~= records_view(out@) + rs);
                        },
                        None => {},
                    }
                }
                cur = p;
                i = i + 1;
            },
            None => {
                return None;
            },
        }
    }
    assert(records_view(out@) + Seq::<RecordView>::empty() =~= records_view(out@));
    Some((out, cur))
}

impl MdnsPacket {
    /// Reads a message (see `dec_packet`).
    pub fn decode(data: &[u8]) -> (r: Result<MdnsPacket, Error>)
        ensures
            match r {
                Ok(p) => dec_packet(data@) == Some(p@),
                Err(e) => dec_packet(data@) is None && e is Mdns,
            },
    {
        if data.len() < 12 {
            return Err(Error::Mdns("Message shorter than its header".to_string()));
        }
        let flags = read_u16(data, 2);
        let qd = read_u16(data, 4);
        let an = read_u16(data, 6);
        let ns = read_u16(data, 8);
        let ar = read_u16(data, 10);
        let (questions, p1) = match read_questions(data, 12, qd) {
            Some(x) => x,
            None => {
                return Err(Error::Mdns("Malformed question".to_string()));
            },
        };
        let (answers, p2) = match read_records(data, p1, an) {
            Some(x) => x,
            None => {
                return Err(Error::Mdns("Malformed answer".to_string()));
            },
        };
        let (authorities, p3) = match read_records(data, p2, ns) {
            Some(x) => x,
            None => {
                return Err(Error::Mdns("Malformed authority record".to_string()));
            },
        };
        let (additionals, _) = match read_records(data, p3, ar) {
            Some(x) => x,
            None => {
                return Err(Error::Mdns("Malformed additional record".to_string()));
            },
        };
        Ok(MdnsPacket { flags, questions, answers, authorities, additionals })
    }
}

// ===================================================================
// Writing and reading back
// ===================================================================

/// A name that reads back as itself: writable, and its bytes do not end in
/// a dot (a final dot is dropped when written).
pub open spec fn name_ok(n: Seq<char>) -> bool {
    enc_name(n) is Some && trim_dot(encode_utf8(n)) == encode_utf8(n)
}

/// Data that fits its record type: the address lengths, a name for PTR, NS
/// and CNAME, text for TXT, a service location for SRV, raw bytes for SOA
/// and ANY.
pub open spec fn data_ok(t: RecordType, d: DataView) -> bool {
    match (t, d) {
        (RecordType::A, DataView::A(b)) => b.len() == 4,
        (RecordType::AAAA, DataView::Aaaa(b)) => b.len() == 16,
        (RecordType::PTR, DataView::Ptr(n)) => name_ok(n),
        (RecordType::NS, DataView::Ptr(n)) => name_ok(n),
        (RecordType::CNAME, DataView::Ptr(n)) => name_ok(n),
        (RecordType::TXT, DataView::Txt(ss)) => enc_txt(ss) is Some,
        (RecordType::SRV, DataView::Srv { target, .. }) => name_ok(target),
        (RecordType::SOA, DataView::Raw(_)) => true,
        (RecordType::ANY, DataView::Raw(_)) => true,
        _ => false,
    }
}

/// A record that reads back as itself.
pub open spec fn record_ok(r: RecordView) -> bool {
    &&& name_ok(r.name)
    &&& data_ok(r.rtype, r.data)
    &&& enc_data(r.data) matches Some(d) && d.len() <= 65535
}

/// Every record reads back as itself.
pub open spec fn records_ok(rs: Seq<RecordView>) -> bool {
    forall|i: int| 0 <= i < rs.len() ==> record_ok(#[trigger] rs[i])
}

/// Every question's name reads back as itself.
pub open spec fn questions_ok(qs: Seq<QuestionView>) -> bool {
    forall|i: int| 0 <= i < qs.len() ==> name_ok(#[trigger] qs[i].name)
}

/// A message that reads back as itself: at most 65535 of each kind of
/// entry, and every entry reads back as itself.
pub open spec fn packet_ok(p: PacketView) -> bool {
    &&& p.questions.len() <= 65535
    &&& p.answers.len() <= 65535
    &&& p.authorities.len() <= 65535
    &&& p.additionals.len() <= 65535
    &&& questions_ok(p.questions)
    &&& records_ok(p.answers)
    &&& records_ok(p.authorities)
    &&& records_ok(p.additionals)
}

proof fn lemma_sub(buf: Seq<u8>, pos: int, e: Seq<u8>, a: int, b: int)
    requires
        0 <= pos,
        pos + e.len() <= buf.len(),
        buf.subrange(pos, pos + e.len()) == e,
        0 <= a <= b <= e.len(),
    ensures
        buf.subrange(pos + a, pos + b) == e.subrange(a, b),
{
    assert forall|k: int| 0 <= k < b - a implies buf.subrange(pos + a, pos + b)[k] == e.subrange(a, b)[k] by {
        assert(buf.subrange(pos, pos + e.len())[a + k] == buf[pos + a + k]);
    }
    assert(buf.subrange(pos + a, pos + b) =~= e.subrange(a, b));
}

proof fn lemma_labels_read(buf: Seq<u8>, pos: int, b: Seq<u8>, h: nat)
    requires
        enc_labels(b) is Some,
        0 <= pos,
        pos + enc_labels(b)->0.len() <= buf.len(),
        buf.subrange(pos, pos + enc_labels(b)->0.len()) == enc_labels(b)->0,
    ensures
        dec_labels(buf, pos, h) == Some(b),
        name_end(buf, pos) == Some(pos + enc_labels(b)->0.len()),
    decreases b.len(),
{
    let e = enc_labels(b)->0;
    let i = dot_index(b);
    lemma_dot_index(b);
    assert(buf.subrange(pos, pos + e.len())[0] == buf[pos]);
    assert(buf[pos] == e[0]);
    lemma_sub(buf, pos, e, 1, 1 + i);
    assert(e.subrange(1, 1 + i) =~= b.take(i));
    if i >= b.len() {
        assert(buf.subrange(pos, pos + e.len())[1 + i] == buf[pos + 1 + i]);
        assert(buf[pos + 1 + i] == e[1 + i]);
        assert(name_end(buf, pos + 1 + i) == Some(pos + 2 + i));
        assert(b.take(i) =~= b);
    } else {
        let t = enc_labels(b.skip(i + 1))->0;
        assert(e =~= seq![i as u8] + b.take(i) + t);
        lemma_sub(buf, pos, e, 1 + i, e.len() as int);
        assert(e.subrange(1 + i, e.len() as int) =~= t);
        lemma_labels_read(buf, pos + 1 + i, b.skip(i + 1), h);
        assert(b.take(i) + seq![46u8] + b.skip(i + 1) =~= b);
    }
}

/// A name's encoding, wherever it lies in a buffer, reads back as the name,
/// and reading ends just past the encoding.
pub proof fn lemma_name_read(buf: Seq<u8>, pos: int, n: Seq<char>)
    requires
        name_ok(n),
        0 <= pos,
        pos + enc_name(n)->0.len() <= buf.len(),
        buf.subrange(pos, pos + enc_name(n)->0.len()) == enc_name(n)->0,
    ensures
        read_name(buf, pos) == Some((n, pos + enc_name(n)->0.len())),
{
    let b = encode_utf8(n);
    encode_utf8_valid_utf8(n);
    encode_utf8_decode_utf8(n);
    if b.len() == 0 {
        assert(buf.subrange(pos, pos + enc_name(n)->0.len())[0] == buf[pos]);
        assert(buf[pos] == enc_name(n)->0[0]);
        assert(b =~= Seq::<u8>::empty());
    } else {
        lemma_labels_read(buf, pos, b, max_hops());
    }
}

proof fn lemma_txt_read(ss: Seq<Seq<char>>)
    requires
        enc_txt(ss) is Some,
    ensures
        dec_txt(enc_txt(ss)->0) == Some(ss),
    decreases ss.len(),
{
    if ss.len() > 0 {
        let b = encode_utf8(ss[0]);
        let r = enc_txt(ss.drop_first())->0;
        let e = enc_txt(ss)->0;
        assert(e =~= seq![b.len() as u8] + b + r);
        lemma_txt_read(ss.drop_first());
        encode_utf8_valid_utf8(ss[0]);
        encode_utf8_decode_utf8(ss[0]);
        assert(e[0] == b.len() as u8);
        assert(e.subrange(1, 1 + b.len() as int) =~= b);
        assert(e.skip(1 + b.len() as int) =~= r);
        assert(seq![ss[0]] + ss.drop_first() =~= ss);
    } else {
        assert(enc_txt(ss)->0 =~= Seq::<u8>::empty());
    }
}

proof fn lemma_be32_at(buf: Seq<u8>, p: int, v: u32)
    requires
        0 <= p,
        p + 4 <= buf.len(),
        buf.subrange(p, p + 4) == be_u32_bytes(v),
    ensures
        u32_at(buf, p) == v,
{
    lemma_be_u32_roundtrip(v);
}

proof fn lemma_question_read(buf: Seq<u8>, pos: int, q: QuestionView)
    requires
        name_ok(q.name),
        0 <= pos,
        pos + enc_question(q)->0.len() <= buf.len(),
        buf.subrange(pos, pos + enc_question(q)->0.len()) == enc_question(q)->0,
    ensures
        dec_question(buf, pos) == Some((Some(q), pos + enc_question(q)->0.len())),
{
    let n = enc_name(q.name)->0;
    let e = enc_question(q)->0;
    let p = pos + n.len();
    let nl = n.len() as int;
    assert(e =~= n + be16(type_code(q.qtype)) + be16(question_class(q)));
    lemma_sub(buf, pos, e, 0, nl);
    assert(e.subrange(0, nl) =~= n);
    lemma_name_read(buf, pos, q.name);
    lemma_sub(buf, pos, e, nl, nl + 2);
    lemma_sub(buf, pos, e, nl + 2, nl + 4);
    assert(e.subrange(nl, nl + 2) =~= be16(type_code(q.qtype)));
    assert(e.subrange(nl + 2, nl + 4) =~= be16(question_class(q)));
    lemma_be16_at(buf, p, type_code(q.qtype));
    lemma_be16_at(buf, p + 2, question_class(q));
    lemma_type_code_roundtrip_local(q.qtype);
    lemma_class_code_roundtrip_local(q.qclass);
}

proof fn lemma_type_code_roundtrip_local(t: RecordType)
    ensures
        type_of_code(type_code(t)) == Some(t),
{
}

proof fn lemma_class_code_roundtrip_local(c: RecordClass)
    ensures
        class_of_code(class_code(c)) == Some(c),
        class_code(c) < 32768,
{
}

proof fn lemma_data_read(buf: Seq<u8>, ds: int, t: RecordType, dv: DataView)
    requires
        data_ok(t, dv),
        enc_data(dv) is Some,
        0 <= ds,
        ds + enc_data(dv)->0.len() <= buf.len(),
        buf.subrange(ds, ds + enc_data(dv)->0.len()) == enc_data(dv)->0,
    ensures
        dec_data(buf, t, ds, enc_data(dv)->0.len() as int) == Some(dv),
{
    let d = enc_data(dv)->0;
    match dv {
        DataView::A(b) => {
            assert(buf.subrange(ds, ds + 4) == b);
        },
        DataView::Aaaa(b) => {
            assert(buf.subrange(ds, ds + 16) == b);
        },
        DataView::Ptr(n) => {
            lemma_name_read(buf, ds, n);
        },
        DataView::Srv { priority, weight, port, target } => {
            let tn = enc_name(target)->0;
            assert(d =~= be16(priority) + be16(weight) + be16(port) + tn);
            lemma_sub(buf, ds, d, 0, 2);
            lemma_sub(buf, ds, d, 2, 4);
            lemma_sub(buf, ds, d, 4, 6);
            lemma_sub(buf, ds, d, 6, d.len() as int);
            assert(d.subrange(0, 2) =~= be16(priority));
            assert(d.subrange(2, 4) =~= be16(weight));
            assert(d.subrange(4, 6) =~= be16(port));
            assert(d.subrange(6, d.len() as int) =~= tn);
            lemma_be16_at(buf, ds, priority);
            lemma_be16_at(buf, ds + 2, weight);
            lemma_be16_at(buf, ds + 4, port);
            lemma_name_read(buf, ds + 6, target);
        },
        DataView::Txt(ss) => {
            lemma_txt_read(ss);
        },
        DataView::Raw(b) => {},
    }
}

proof fn lemma_record_head(buf: Seq<u8>, pos: int, r: RecordView)
    requires
        record_ok(r),
        0 <= pos,
        pos + enc_record(r)->0.len() <= buf.len(),
        buf.subrange(pos, pos + enc_record(r)->0.len()) == enc_record(r)->0,
    ensures
        ({
            let nl = enc_name(r.name)->0.len() as int;
            let d = enc_data(r.data)->0;
            let p = pos + nl;
            &&& read_name(buf, pos) == Some((r.name, p))
            &&& u16_at(buf, p) == type_code(r.rtype)
            &&& u16_at(buf, p + 2) == class_code(r.rclass)
            &&& u32_at(buf, p + 4) == r.ttl
            &&& u16_at(buf, p + 8) as int == d.len()
            &&& enc_record(r)->0.len() == nl + 10 + d.len()
            &&& buf.subrange(p + 10, p + 10 + d.len()) == d
        }),
{
    let n = enc_name(r.name)->0;
    let d = enc_data(r.data)->0;
    let e = enc_record(r)->0;
    let nl = n.len() as int;
    assert(e =~= n + be16(type_code(r.rtype)) + be16(class_code(r.rclass)) + be_u32_bytes(r.ttl) + be16(d.len() as u16) + d);
    lemma_sub(buf, pos, e, 0, nl);
    assert(e.subrange(0, nl) =~= n);
    lemma_name_read(buf, pos, r.name);
    lemma_sub(buf, pos, e, nl, nl + 2);
    lemma_sub(buf, pos, e, nl + 2, nl + 4);
    lemma_sub(buf, pos, e, nl + 4, nl + 8);
    lemma_sub(buf, pos, e, nl + 8, nl + 10);
    lemma_sub(buf, pos, e, nl + 10, e.len() as int);
    assert(e.subrange(nl, nl + 2) =~= be16(type_code(r.rtype)));
    assert(e.subrange(nl + 2, nl + 4) =~= be16(class_code(r.rclass)));
    assert(e.subrange(nl + 4, nl + 8) =~= be_u32_bytes(r.ttl));
    assert(e.subrange(nl + 8, nl + 10) =~= be16(d.len() as u16));
    assert(e.subrange(nl + 10, e.len() as int) =~= d);
    let p = pos + nl;
    lemma_be16_at(buf, p, type_code(r.rtype));
    lemma_be16_at(buf, p + 2, class_code(r.rclass));
    lemma_be32_at(buf, p + 4, r.ttl);
    lemma_be16_at(buf, p + 8, d.len() as u16);
}

proof fn lemma_record_read(buf: Seq<u8>, pos: int, r: RecordView)
    requires
        record_ok(r),
        0 <= pos,
        pos + enc_record(r)->0.len() <= buf.len(),
        buf.subrange(pos, pos + enc_record(r)->0.len()) == enc_record(r)->0,
    ensures
        dec_record(buf, pos) == Some((Some(r), pos + enc_record(r)->0.len())),
{
    lemma_record_head(buf, pos, r);
    let nl = enc_name(r.name)->0.len() as int;
    let d = enc_data(r.data)->0;
    lemma_data_read(buf, pos + nl + 10, r.rtype, r.data);
    lemma_type_code_roundtrip_local(r.rtype);
    lemma_class_code_roundtrip_local(r.rclass);
}

proof fn lemma_enc_questions_front(qs: Seq<QuestionView>)
    requires
        qs.len() > 0,
        enc_questions(qs) is Some,
    ensures
        enc_question(qs[0]) is Some,
        enc_questions(qs.drop_first()) is Some,
        enc_questions(qs)->0 == enc_question(qs[0])->0 + enc_questions(qs.drop_first())->0,
    decreases qs.len(),
{
    if qs.len() == 1 {
        assert(qs.drop_last() =~= Seq::<QuestionView>::empty());
        assert(qs.drop_first() =~= Seq::<QuestionView>::empty());
        assert(enc_questions(qs)->0 =~= enc_question(qs[0])->0 + Seq::<u8>::empty());
    } else {
        let t = qs.drop_last();
        lemma_enc_questions_front(t);
        assert(t[0] == qs[0]);
        assert(t.drop_first() =~= qs.drop_first().drop_last());
        assert(qs.drop_first().last() == qs.last());
        assert(enc_questions(qs)->0 =~= enc_question(qs[0])->0 + enc_questions(qs.drop_first())->0);
    }
}

proof fn lemma_enc_records_front(rs: Seq<RecordView>)
    requires
        rs.len() > 0,
        enc_records(rs) is Some,
    ensures
        enc_record(rs[0]) is Some,
        enc_records(rs.drop_first()) is Some,
        enc_records(rs)->0 == enc_record(rs[0])->0 + enc_records(rs.drop_first())->0,
    decreases rs.len(),
{
    if rs.len() == 1 {
        assert(rs.drop_last() =~= Seq::<RecordView>::empty());
        assert(rs.drop_first() =~= Seq::<RecordView>::empty());
        assert(enc_records(rs)->0 =~= enc_record(rs[0])->0 + Seq::<u8>::empty());
    } else {
        let t = rs.drop_last();
        lemma_enc_records_front(t);
        assert(t[0] == rs[0]);
        assert(t.drop_first() =~= rs.drop_first().drop_last());
        assert(rs.drop_first().last() == rs.last());
        assert(enc_records(rs)->0 =~= enc_record(rs[0])->0 + enc_records(rs.drop_first())->0);
    }
}

proof fn lemma_questions_encodable(qs: Seq<QuestionView>)
    requires
        questions_ok(qs),
    ensures
        enc_questions(qs) is Some,
    decreases qs.len(),
{
    if qs.len() > 0 {
        let t = qs.drop_last();
        assert(questions_ok(t)) by {
            assert forall|i: int| 0 <= i < t.len() implies name_ok(#[trigger] t[i].name) by {
                assert(t[i] == qs[i]);
            }
        }
        lemma_questions_encodable(t);
        assert(name_ok(qs[qs.len() - 1].name));
    }
}

proof fn lemma_records_encodable(rs: Seq<RecordView>)
    requires
        records_ok(rs),
    ensures
        enc_records(rs) is Some,
    decreases rs.len(),
{
    if rs.len() > 0 {
        let t = rs.drop_last();
        assert(records_ok(t)) by {
            assert forall|i: int| 0 <= i < t.len() implies record_ok(#[trigger] t[i]) by {
                assert(t[i] == rs[i]);
            }
        }
        lemma_records_encodable(t);
        assert(record_ok(rs[rs.len() - 1]));
    }
}

proof fn lemma_questions_read(buf: Seq<u8>, pos: int, qs: Seq<QuestionView>)
    requires
        questions_ok(qs),
        enc_questions(qs) is Some,
        0 <= pos,
        pos + enc_questions(qs)->0.len() <= buf.len(),
        buf.subrange(pos, pos + enc_questions(qs)->0.len()) == enc_questions(qs)->0,
    ensures
        dec_questions(buf, pos, qs.len()) == Some((qs, pos + enc_questions(qs)->0.len())),
    decreases qs.len(),
{
    if qs.len() == 0 {
        assert(qs =~= Seq::<QuestionView>::empty());
    } else {
        lemma_enc_questions_front(qs);
        let a = enc_question(qs[0])->0;
        let rest = qs.drop_first();
        let b = enc_questions(rest)->0;
        let e = enc_questions(qs)->0;
        lemma_sub(buf, pos, e, 0, a.len() as int);
        lemma_sub(buf, pos, e, a.len() as int, e.len() as int);
        assert(e.subrange(0, a.len() as int) =~= a);
        assert(e.subrange(a.len() as int, e.len() as int) =~= b);
        assert(name_ok(qs[0].name));
        lemma_question_read(buf, pos, qs[0]);
        assert(questions_ok(rest)) by {
            assert forall|i: int| 0 <= i < rest.len() implies name_ok(#[trigger] rest[i].name) by {
                assert(rest[i] == qs[i + 1]);
            }
        }
        lemma_questions_read(buf, pos + a.len(), rest);
        assert(seq![qs[0]] + rest =~= qs);
    }
}

#[verifier::rlimit(40)]
proof fn lemma_records_read(buf: Seq<u8>, pos: int, rs: Seq<RecordView>)
    requires
        records_ok(rs),
        enc_records(rs) is Some,
        0 <= pos,
        pos + enc_records(rs)->0.len() <= buf.len(),
        buf.subrange(pos, pos + enc_records(rs)->0.len()) == enc_records(rs)->0,
    ensures
        dec_records(buf, pos, rs.len()) == Some((rs, pos + enc_records(rs)->0.len())),
    decreases rs.len(),
{
    if rs.len() == 0 {
        assert(rs =~= Seq::<RecordView>::empty());
    } else {
        lemma_enc_records_front(rs);
        let a = enc_record(rs[0])->0;
        let rest = rs.drop_first();
        let b = enc_records(rest)->0;
        let e = enc_records(rs)->0;
        lemma_sub(buf, pos, e, 0, a.len() as int);
        lemma_sub(buf, pos, e, a.len() as int, e.len() as int);
        assert(e.subrange(0, a.len() as int) =~= a);
        assert(e.subrange(a.len() as int, e.len() as int) =~= b);
        assert(record_ok(rs[0]));
        lemma_record_read(buf, pos, rs[0]);
        assert(records_ok(rest)) by {
            assert forall|i: int| 0 <= i < rest.len() implies record_ok(#[trigger] rest[i]) by {
                assert(rest[i] == rs[i + 1]);
            }
        }
        lemma_records_read(buf, pos + a.len(), rest);
        assert(seq![rs[0]] + rest =~= rs);
    }
}

proof fn lemma_header_read(p: PacketView, buf: Seq<u8>)
    requires
        buf.len() >= 12,
        buf.subrange(0, 12) == header(p),
    ensures
        u16_at(buf, 2) == p.flags,
        u16_at(buf, 4) == p.questions.len() as u16,
        u16_at(buf, 6) == p.answers.len() as u16,
        u16_at(buf, 8) == p.authorities.len() as u16,
        u16_at(buf, 10) == p.additionals.len() as u16,
{
    let h = header(p);
    lemma_sub(buf, 0, h, 2, 4);
    lemma_sub(buf, 0, h, 4, 6);
    lemma_sub(buf, 0, h, 6, 8);
    lemma_sub(buf, 0, h, 8, 10);
    lemma_sub(buf, 0, h, 10, 12);
    assert(h.subrange(2, 4) =~= be16(p.flags));
    assert(h.subrange(4, 6) =~= be16(p.questions.len() as u16));
    assert(h.subrange(6, 8) =~= be16(p.answers.len() as u16));
    assert(h.subrange(8, 10) =~= be16(p.authorities.len() as u16));
    assert(h.subrange(10, 12) =~= be16(p.additionals.len() as u16));
    lemma_be16_at(buf, 2, p.flags);
    lemma_be16_at(buf, 4, p.questions.len() as u16);
    lemma_be16_at(buf, 6, p.answers.len() as u16);
    lemma_be16_at(buf, 8, p.authorities.len() as u16);
    lemma_be16_at(buf, 10, p.additionals.len() as u16);
}

/// Where the parts of a written message lie in its bytes.
#[verifier::rlimit(40)]
proof fn lemma_packet_layout(p: PacketView)
    requires
        packet_ok(p),
    ensures
        enc_packet(p) is Some,
        ({
            let buf = enc_packet(p)->0;
            let q = enc_questions(p.questions)->0;
            let a = enc_records(p.answers)->0;
            let n = enc_records(p.authorities)->0;
            let d = enc_records(p.additionals)->0;
            let p1: int = 12 + q.len() as int;
            let p2: int = p1 + a.len();
            let p3: int = p2 + n.len();
            &&& enc_questions(p.questions) is Some
            &&& enc_records(p.answers) is Some
            &&& enc_records(p.authorities) is Some
            &&& enc_records(p.additionals) is Some
            &&& buf.len() == p3 + d.len()
            &&& buf.subrange(0, 12) == header(p)
            &&& buf.subrange(12, p1) == q
            &&& buf.subrange(p1, p2) == a
            &&& buf.subrange(p2, p3) == n
            &&& buf.subrange(p3, p3 + d.len()) == d
        }),
{
    lemma_questions_encodable(p.questions);
    lemma_records_encodable(p.answers);
    lemma_records_encodable(p.authorities);
    lemma_records_encodable(p.additionals);
    let h = header(p);
    let q = enc_questions(p.questions)->0;
    let a = enc_records(p.answers)->0;
    let n = enc_records(p.authorities)->0;
    let d = enc_records(p.additionals)->0;
    let buf = enc_packet(p)->0;
    assert(buf =~= h + q + a + n + d);
    assert(buf.subrange(0, 12) =~= h);
    let p1: int = 12 + q.len() as int;
    let p2: int = p1 + a.len();
    let p3: int = p2 + n.len();
    assert(buf.subrange(12, p1) =~= q);
    assert(buf.subrange(p1, p2) =~= a);
    assert(buf.subrange(p2, p3) =~= n);
    assert(buf.subrange(p3, p3 + d.len()) =~= d);
}

/// A message that can be read back (see `packet_ok`) is written, and
/// reading what was written gives the message.
#[verifier::rlimit(40)]
pub proof fn lemma_packet_roundtrip(p: PacketView)
    requires
        packet_ok(p),
    ensures
        enc_packet(p) is Some,
        dec_packet(enc_packet(p)->0) == Some(p),
{
    lemma_packet_layout(p);
    let q = enc_questions(p.questions)->0;
    let a = enc_records(p.answers)->0;
    let n = enc_records(p.authorities)->0;
    let buf = enc_packet(p)->0;
    lemma_header_read(p, buf);
    assert(p.questions.len() as u16 as nat == p.questions.len());
    assert(p.answers.len() as u16 as nat == p.answers.len());
    assert(p.authorities.len() as u16 as nat == p.authorities.len());
    assert(p.additionals.len() as u16 as nat == p.additionals.len());
    let p1: int = 12 + q.len() as int;
    let p2: int = p1 + a.len();
    let p3: int = p2 + n.len();
    lemma_questions_read(buf, 12, p.questions);
    lemma_records_read(buf, p1, p.answers);
    lemma_records_read(buf, p2, p.authorities);
    lemma_records_read(buf, p3, p.additionals);
}

// ===================================================================
// Name compression
// ===================================================================

/// A compression pointer to offset `o`.
pub open spec fn pointer_to(o: usize) -> Seq<u8> {
    seq![(192 + o / 256) as u8, (o % 256) as u8]
}

/// The first remembered offset of a name with these bytes that a pointer
/// can reach (below 16384).
pub open spec fn find_pos(ps: Seq<(Seq<u8>, usize)>, b: Seq<u8>) -> Option<usize>
    decreases ps.len(),
{
    if ps.len() == 0 {
        None
    } else if ps[0].0 == b && ps[0].1 < 16384 {
        Some(ps[0].1)
    } else {
        find_pos(ps.drop_first(), b)
    }
}

/// Remembers where names were written, so that a name written again can
/// point back to its first copy.
pub struct NameCompressor {
    positions: Vec<(Vec<u8>, usize)>,
}

/// The names remembered, as bytes, with their offsets.
pub open spec fn positions_view(v: Seq<(Vec<u8>, usize)>) -> Seq<(Seq<u8>, usize)> {
    v.map_values(|e: (Vec<u8>, usize)| (e.0@, e.1))
}

impl View for NameCompressor {
    type V = Seq<(Seq<u8>, usize)>;

    closed spec fn view(&self) -> Seq<(Seq<u8>, usize)> {
        positions_view(self.positions@)
    }
}

impl NameCompressor {
    /// Nothing remembered.
    pub fn new() -> (r: NameCompressor)
        ensures
            r@.len() == 0,
    {
        NameCompressor { positions: Vec::new() }
    }

    fn lookup(&self, b: &[u8]) -> (r: Option<usize>)
        ensures
            r == find_pos(self@, b@),
    {
        let ghost ps = self@;
        let mut i: usize = 0;
        assert(ps.skip(0) =~= ps);
        while i < self.positions.len()
            invariant
                ps == self@,
                ps.len() == self.positions@.len(),
                i <= ps.len(),
                find_pos(ps, b@) == find_pos(ps.skip(i as int), b@),
            decreases self.positions.len() - i,
        {
            let ghost rest = ps.skip(i as int);
            assert(rest[0] == (self.positions@[i as int].0@, self.positions@[i as int].1));
            assert(rest.drop_first() =~= ps.skip(i + 1));
            let (k, o) = (&self.positions[i].0, self.positions[i].1);
            if crate::mdns::wire::bytes_eq(k.as_slice(), b) && o < 16384 {
                return Some(o);
            }
            i = i + 1;
        }
        None
    }

    /// Writes `name`: a pointer to its first copy when one was remembered
    /// within reach, else its labels, remembering where they start. An
    /// error, with nothing written, for a name that cannot be written.
    pub fn encode_name(&mut self, name: &str, buffer: &mut Vec<u8>) -> (r: Result<(), Error>)
        ensures
            ({
                let b = trim_dot(encode_utf8(name@));
                if b.len() > 0 && find_pos(old(self)@, b) is Some {
                    r is Ok && final(buffer)@ == old(buffer)@ + pointer_to(find_pos(old(self)@, b)->0)
                        && final(self)@ == old(self)@
                } else {
                    match enc_name(name@) {
                        Some(e) => r is Ok && final(buffer)@ == old(buffer)@ + e && final(self)@ == (if b.len() > 0 {
                            old(self)@.push((b, old(buffer)@.len() as usize))
                        } else {
                            old(self)@
                        }),
                        None => r is Err && final(buffer)@ == old(buffer)@ && final(self)@ == old(self)@,
                    }
                }
            }),
    {
        let full = name.as_bytes();
        let n: usize = if full.len() > 0 && full[full.len() - 1] == 46u8 {
            full.len() - 1
        } else {
            full.len()
        };
        let key = vstd::slice::slice_to_vec(vstd::slice::slice_subrange(full, 0, n));
        assert(trim_dot(full@) =~= key@);
        if n > 0 {
            match self.lookup(key.as_slice()) {
                Some(o) => {
                    buffer.push((192 + o / 256) as u8);
                    buffer.push((o % 256) as u8);
                    assert(buffer@ =~= old(buffer)@ + pointer_to(o));
                    return Ok(());
                },
                None => {},
            }
        }
        let start = buffer.len();
        if !push_name(buffer, name) {
            return Err(Error::Dns("Name cannot be written".to_string()));
        }
        if n > 0 {
            let ghost before = self@;
            self.positions.push((key, start));
            assert(self@ =~= before.push((trim_dot(encode_utf8(name@)), start)));
        }
        Ok(())
    }

    /// Reads the name at `offset` (see `read_name`).
    pub fn decode_name(&self, buffer: &[u8], offset: usize) -> (r: Result<(String, usize), Error>)
        ensures
            match r {
                Ok((s, e)) => read_name(buffer@, offset as int) == Some((s@, e as int)),
                Err(_) => read_name(buffer@, offset as int) is None,
            },
    {
        match read_name_at(buffer, offset) {
            Some(x) => Ok(x),
            None => Err(Error::Dns("Malformed name".to_string())),
        }
    }
}

/// Whether two byte strings are equal.
pub fn bytes_eq(a: &[u8], b: &[u8]) -> (r: bool)
    ensures
        r == (a@ == b@),
{
    if a.len() != b.len() {
        return false;
    }
    let mut i: usize = 0;
    while i < a.len()
        invariant
            a@.len() == b@.len(),
            i <= a@.len(),
            forall|k: int| 0 <= k < i ==> a@[k] == b@[k],
        decreases a.len() - i,
    {
        if a[i] != b[i] {
            return false;
        }
        i = i + 1;
    }
    assert(a@ =~= b@);
    true
}

/// Decoding undoes encoding: a name written on its own, by a compressor
/// that has seen no names yet, reads back from offset 0 as the name, and
/// reading ends at the end of what was written.
pub proof fn lemma_name_roundtrip(n: Seq<char>)
    requires
        name_ok(n),
    ensures
        read_name(enc_name(n)->0, 0) == Some((n, enc_name(n)->0.len() as int)),
{
    let e = enc_name(n)->0;
    assert(e.subrange(0, e.len() as int) =~= e);
    lemma_name_read(e, 0, n);
}

/// A pointer written after a name's first copy reads as that name: reading
/// at the pointer gives the name and ends just after the pointer.
pub proof fn lemma_pointer_read(buf: Seq<u8>, o: usize, n: Seq<char>)
    requires
        name_ok(n),
        o < 16384,
        o + enc_name(n)->0.len() <= buf.len(),
        buf.subrange(o as int, o + enc_name(n)->0.len()) == enc_name(n)->0,
    ensures
        read_name(buf + pointer_to(o), buf.len() as int) == Some((n, buf.len() + 2int)),
{
    let e = enc_name(n)->0;
    let full = buf + pointer_to(o);
    let p = buf.len() as int;
    assert(full.subrange(o as int, o + e.len()) =~= buf.subrange(o as int, o + e.len()));
    assert(o / 256 < 64);
    assert(full[p] == (192 + o / 256) as u8);
    assert(full[p + 1] == (o % 256) as u8);
    assert(full[p] as int == 192 + o / 256);
    assert(full[p + 1] as int == o % 256);
    assert((full[p] - 192) * 256 + full[p + 1] == o);
    assert(dec_labels(full, p, max_hops()) == dec_labels(full, o as int, (max_hops() - 1) as nat));
    assert(name_end(full, p) == Some(p + 2));
    let b = encode_utf8(n);
    encode_utf8_valid_utf8(n);
    encode_utf8_decode_utf8(n);
    if b.len() == 0 {
        assert(full.subrange(o as int, o + e.len())[0] == full[o as int]);
        assert(b =~= Seq::<u8>::empty());
    } else {
        lemma_labels_read(full, o as int, b, (max_hops() - 1) as nat);
    }
}

} // verus!
