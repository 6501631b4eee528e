//! The metadata service: torrent files kept by info hash, the one-line
//! request that asks for one, and the length-prefixed answer.

use vstd::prelude::*;
use crate::common::decimal::{decimal_text, u64_to_string};
use crate::common::error::Error;
use crate::common::text::{concat, is_white_space, str_eq, strip_prefix, trim, trim_end_ws, trim_start_ws, trimmed};
use crate::torrent::protocol::{be_u32_bytes, push_be_u32};

verus! {

/// The longest torrent file a client accepts: ten mebibytes.
pub const MAX_METADATA_LEN: u32 = 10485760;

/// Each info hash occurs once.
pub open spec fn hashes_distinct(es: Seq<(Seq<char>, Seq<u8>)>) -> bool {
    forall|i: int, j: int| 0 <= i < j < es.len() ==> #[trigger] es[i].0 != #[trigger] es[j].0
}

/// Where the entry of this info hash is, if any.
pub open spec fn hash_index(es: Seq<(Seq<char>, Seq<u8>)>, k: Seq<char>) -> Option<int> {
    if exists|i: int| 0 <= i < es.len() && #[trigger] es[i].0 == k {
        Some(choose|i: int| 0 <= i < es.len() && #[trigger] es[i].0 == k)
    } else {
        None
    }
}

/// The torrent file kept under this info hash.
pub open spec fn store_get(es: Seq<(Seq<char>, Seq<u8>)>, k: Seq<char>) -> Option<Seq<u8>> {
    match hash_index(es, k) {
        Some(i) => Some(es[i].1),
        None => None,
    }
}

/// The entries after keeping `v` under `k`: a known hash has its file
/// replaced in place, a new one comes last.
pub open spec fn store_put(es: Seq<(Seq<char>, Seq<u8>)>, k: Seq<char>, v: Seq<u8>) -> Seq<(Seq<char>, Seq<u8>)> {
    match hash_index(es, k) {
        Some(i) => es.update(i, (k, v)),
        None => es.push((k, v)),
    }
}

/// The entries after dropping `k`.
pub open spec fn store_del(es: Seq<(Seq<char>, Seq<u8>)>, k: Seq<char>) -> Seq<(Seq<char>, Seq<u8>)> {
    match hash_index(es, k) {
        Some(i) => es.remove(i),
        None => es,
    }
}

spec fn entries_view(v: Seq<(String, Vec<u8>)>) -> Seq<(Seq<char>, Seq<u8>)> {
    v.map_values(|e: (String, Vec<u8>)| (e.0@, e.1@))
}

/// The torrent files this device serves, by info hash in hex: a map from
/// hash to bytes, kept as a vector of entries whose hashes are distinct
/// (the type's invariant), in the order they were added. With text keys a
/// vector states what the map holds more directly to the verifier than a
/// hash map would.
pub struct MetadataServer {
    torrents: Vec<(String, Vec<u8>)>,
    running: bool,
}

impl View for MetadataServer {
    type V = Seq<(Seq<char>, Seq<u8>)>;

    closed spec fn view(&self) -> Seq<(Seq<char>, Seq<u8>)> {
        entries_view(self.torrents@)
    }
}

fn copy_bytes(v: &Vec<u8>) -> (r: Vec<u8>)
    ensures
        r@ == v@,
{
    let mut out: Vec<u8> = Vec::new();
    let mut i: usize = 0;
    while i < v.len()
        invariant
            i <= v@.len(),
            out@ == v@.take(i as int),
        decreases v.len() - i,
    {
        out.push(v[i]);
        assert(out@ =~= v@.take(i + 1));
        i = i + 1;
    }
    assert(out@ =~= v@);
    out
}

/// Where the entry of this info hash is in the list, if anywhere.
fn find_hash(torrents: &Vec<(String, Vec<u8>)>, k: &str) -> (r: Option<usize>)
    requires
        hashes_distinct(entries_view(torrents@)),
    ensures
        r matches Some(i) ==> i < torrents@.len() && hash_index(entries_view(torrents@), k@) == Some(i as int),
        r is None ==> hash_index(entries_view(torrents@), k@) is None,
{
    let ghost s = entries_view(torrents@);
    let mut i: usize = 0;
    while i < torrents.len()
        invariant
            s == entries_view(torrents@),
            hashes_distinct(s),
            i <= torrents@.len(),
            forall|j: int| 0 <= j < i ==> s[j].0 != k@,
        decreases torrents.len() - i,
    {
        assert(s[i as int].0 == torrents@[i as int].0@);
        if str_eq(torrents[i].0.as_str(), k) {
            let ghost w = choose|x: int| 0 <= x < s.len() && #[trigger] s[x].0 == k@;
            assert(w == i) by {
                if w < i {
                    assert(s[w].0 != k@);
                } else if w > i {
                    assert(s[i as int].0 != s[w].0);
                }
            }
            return Some(i);
        }
        i = i + 1;
    }
    assert(!exists|x: int| 0 <= x < s.len() && #[trigger] s[x].0 == k@);
    None
}

impl MetadataServer {
    #[verifier::type_invariant]
    closed spec fn distinct(&self) -> bool {
        hashes_distinct(self@)
    }

    /// Whether the service is marked running.
    pub closed spec fn is_running(&self) -> bool {
        self.running
    }

    /// Nothing served, not running.
    pub fn new() -> (r: MetadataServer)
        ensures
            r@.len() == 0,
            !r.is_running(),
    {
        let r = MetadataServer { torrents: Vec::new(), running: false };
        assert(r@ =~= Seq::<(Seq<char>, Seq<u8>)>::empty());
        r
    }

    /// Serves `data` under `info_hash`, in place of what was there.
    pub fn add_torrent(&mut self, info_hash: String, data: Vec<u8>)
        ensures
            final(self)@ == store_put(old(self)@, info_hash@, data@),
            final(self).is_running() == old(self).is_running(),
    {
        proof {
            use_type_invariant(&*self);
        }
        let ghost s = self@;
        let ghost entry = (info_hash@, data@);
        let found = find_hash(&self.torrents, info_hash.as_str());
        let mut torrents: Vec<(String, Vec<u8>)> = Vec::new();
        std::mem::swap(&mut torrents, &mut self.torrents);
        match found {
            Some(i) => {
                torrents.set(i, (info_hash, data));
                proof {
                    let t = entries_view(torrents@);
                    assert(t =~= s.update(i as int, entry));
                    assert forall|a: int, b: int| 0 <= a < b < t.len() implies #[trigger] t[a].0 != #[trigger] t[b].0 by {
                        if a == i {
                            assert(s[b].0 != s[i as int].0);
                        } else if b == i {
                            assert(s[a].0 != s[i as int].0);
                        } else {
                            assert(t[a] == s[a] && t[b] == s[b]);
                        }
                    }
                }
            },
            None => {
                torrents.push((info_hash, data));
                proof {
                    let t = entries_view(torrents@);
                    assert(t =~= s.push(entry));
                    assert forall|a: int, b: int| 0 <= a < b < t.len() implies #[trigger] t[a].0 != #[trigger] t[b].0 by {
                        if b == s.len() {
                            assert(t[a] == s[a]);
                            if s[a].0 == entry.0 {
                                assert(exists|x: int| 0 <= x < s.len() && #[trigger] s[x].0 == entry.0);
                            }
                        } else {
                            assert(t[a] == s[a] && t[b] == s[b]);
                        }
                    }
                }
            },
        }
        self.torrents = torrents;
    }

    /// A copy of the torrent file served under `info_hash`, if any.
    pub fn get_torrent(&self, info_hash: &str) -> (r: Option<Vec<u8>>)
        ensures
            match r {
                Some(v) => store_get(self@, info_hash@) == Some(v@),
                None => store_get(self@, info_hash@) is None,
            },
    {
        proof {
            use_type_invariant(self);
        }
        match find_hash(&self.torrents, info_hash) {
            Some(i) => {
                assert(entries_view(self.torrents@)[i as int].1 == self.torrents@[i as int].1@);
                Some(copy_bytes(&self.torrents[i].1))
            },
            None => None,
        }
    }

    /// Stops serving `info_hash`; an unknown hash changes nothing.
    pub fn remove_torrent(&mut self, info_hash: &str)
        ensures
            final(self)@ == store_del(old(self)@, info_hash@),
            final(self).is_running() == old(self).is_running(),
    {
        proof {
            use_type_invariant(&*self);
        }
        let ghost s = self@;
        match find_hash(&self.torrents, info_hash) {
            Some(i) => {
                let mut torrents: Vec<(String, Vec<u8>)> = Vec::new();
                std::mem::swap(&mut torrents, &mut self.torrents);
                torrents.remove(i);
                proof {
                    let t = entries_view(torrents@);
                    assert(t =~= s.remove(i as int));
                    assert forall|a: int, b: int| 0 <= a < b < t.len() implies #[trigger] t[a].0 != #[trigger] t[b].0 by {
                        let a0 = if a < i { a } else { a + 1 };
                        let b0 = if b < i { b } else { b + 1 };
                        assert(t[a] == s[a0] && t[b] == s[b0]);
                    }
                }
                self.torrents = torrents;
            },
            None => {},
        }
    }

    /// Marks the service running or stopped.
    pub fn set_running(&mut self, running: bool)
        ensures
            final(self)@ == old(self)@,
            final(self).is_running() == running,
    {
        proof {
            use_type_invariant(&*self);
        }
        self.running = running;
    }

    /// Marks the service stopped: its accept loop ends.
    pub fn stop(&mut self)
        ensures
            final(self)@ == old(self)@,
            !final(self).is_running(),
    {
        proof {
            use_type_invariant(&*self);
        }
        self.running = false;
    }

    /// Whether the service is marked running.
    pub fn running(&self) -> (r: bool)
        ensures
            r == self.is_running(),
    {
        self.running
    }

    /// The answer to a request line: the requested torrent file behind its
    /// length as four big-endian bytes, or a zero length when the hash is
    /// not served. A line that is not a request is refused.
    pub fn answer_request(&self, line: &str) -> (r: Result<Vec<u8>, Error>)
        ensures
            match requested_hash(line@) {
                Err(m) => r matches Err(Error::Other(x)) && x@ == m,
                Ok(h) => r matches Ok(v) && v@ == metadata_frame(store_get(self@, h)),
            },
    {
        match parse_metadata_request(line) {
            Err(e) => Err(e),
            Ok(h) => {
                let data = self.get_torrent(h.as_str());
                match data {
                    Some(d) => Ok(frame_metadata(&d)),
                    None => Ok(not_found_frame()),
                }
            },
        }
    }
}

/// The prefix of a request line.
pub open spec fn request_prefix() -> Seq<char> {
    "GET /"@
}

/// The info hash a request line asks for: the trimmed rest after `GET /`.
/// A line without the prefix, or asking for `/`, is refused.
/// The error is the message of the refusal.
pub open spec fn requested_hash(line: Seq<char>) -> Result<Seq<char>, Seq<char>> {
    if request_prefix().len() <= line.len() && line.take(request_prefix().len() as int) == request_prefix() {
        let path = trimmed(line.skip(request_prefix().len() as int));
        if path == "/"@ {
            Err("Missing info_hash"@)
        } else {
            Ok(path)
        }
    } else {
        Err("Invalid request format"@)
    }
}

/// The answer's bytes: the length as four big-endian bytes (taken modulo
/// 2^32), then the file; a zero length when there is none.
pub open spec fn metadata_frame(data: Option<Seq<u8>>) -> Seq<u8> {
    match data {
        Some(d) => be_u32_bytes((d.len() % 0x1_0000_0000) as u32) + d,
        None => be_u32_bytes(0),
    }
}

/// The request line that asks for a torrent file: `GET /<hash>` and a newline.
pub fn metadata_request(info_hash_hex: &str) -> (r: String)
    ensures
        r@ == request_prefix() + info_hash_hex@ + "\n"@,
{
    let a = concat("GET /", info_hash_hex);
    concat(a.as_str(), "\n")
}

/// The info hash a request line asks for.
pub fn parse_metadata_request(line: &str) -> (r: Result<String, Error>)
    ensures
        match requested_hash(line@) {
            Ok(h) => r matches Ok(s) && s@ == h,
            Err(m) => r matches Err(Error::Other(x)) && x@ == m,
        },
{
    match strip_prefix(line, "GET /") {
        Some(rest) => {
            let path = trim(rest.as_str());
            if str_eq(path.as_str(), "/") {
                Err(Error::Other("Missing info_hash".to_string()))
            } else {
                Ok(path)
            }
        },
        None => Err(Error::Other("Invalid request format".to_string())),
    }
}

/// The answer that carries a torrent file.
pub fn frame_metadata(data: &Vec<u8>) -> (r: Vec<u8>)
    ensures
        r@ == metadata_frame(Some(data@)),
{
    let n: u32 = (data.len() as u64 % 0x1_0000_0000u64) as u32;
    let mut out: Vec<u8> = Vec::new();
    push_be_u32(&mut out, n);
    let mut i: usize = 0;
    while i < data.len()
        invariant
            i <= data@.len(),
            out@ == be_u32_bytes(n) + data@.take(i as int),
        decreases data.len() - i,
    {
        out.push(data[i]);
        assert(data@.take(i + 1) =~= data@.take(i as int).push(data@[i as int]));
        assert(out@ =~= be_u32_bytes(n) + data@.take(i + 1));
        i = i + 1;
    }
    assert(data@.take(i as int) =~= data@);
    out
}

/// The answer for a hash that is not served.
pub fn not_found_frame() -> (r: Vec<u8>)
    ensures
        r@ == metadata_frame(None),
{
    let mut out: Vec<u8> = Vec::new();
    push_be_u32(&mut out, 0);
    assert(out@ =~= be_u32_bytes(0));
    out
}

/// The refusal of an empty answer.
pub open spec fn empty_answer_message() -> Seq<char> {
    "the metadata server answered with nothing: the file is not shared there, sharing failed, or the info hash does not match"@
}

/// What a client makes of the length that opens an answer: zero means the
/// torrent is not served there; more than the limit is refused; otherwise
/// that many bytes follow.
pub fn check_metadata_length(len: u32) -> (r: Result<usize, Error>)
    ensures
        len == 0 ==> (r matches Err(Error::Other(m)) && m@ == empty_answer_message()),
        len > MAX_METADATA_LEN ==> (r matches Err(Error::Other(m)) && m@ == "metadata too large: "@ + decimal_text(
            len as nat,
        ) + " bytes"@),
        0 < len <= MAX_METADATA_LEN ==> r == Ok::<usize, Error>(len as usize),
{
    if len == 0 {
        Err(Error::Other("the metadata server answered with nothing: the file is not shared there, sharing failed, or the info hash does not match".to_string()))
    } else if len > MAX_METADATA_LEN {
        let n = u64_to_string(len as u64);
        let a = concat("metadata too large: ", n.as_str());
        Err(Error::Other(concat(a.as_str(), " bytes")))
    } else {
        Ok(len as usize)
    }
}

/// Keeping a file under a hash and then asking for that hash gives the
/// file back; asking for another hash gives what it gave before.
pub proof fn lemma_put_get(es: Seq<(Seq<char>, Seq<u8>)>, k: Seq<char>, v: Seq<u8>, k2: Seq<char>)
    requires
        hashes_distinct(es),
    ensures
        store_get(store_put(es, k, v), k) == Some(v),
        k2 != k ==> store_get(store_put(es, k, v), k2) == store_get(es, k2),
        hashes_distinct(store_put(es, k, v)),
{
    let t = store_put(es, k, v);
    match hash_index(es, k) {
        Some(i) => {
            assert(t[i].0 == k);
            assert forall|a: int, b: int| 0 <= a < b < t.len() implies #[trigger] t[a].0 != #[trigger] t[b].0 by {
                if a == i {
                    assert(es[b].0 != es[i].0);
                } else if b == i {
                    assert(es[a].0 != es[i].0);
                } else {
                    assert(t[a] == es[a] && t[b] == es[b]);
                }
            }
        },
        None => {
            let n = es.len() as int;
            assert(t[n].0 == k);
            assert forall|a: int, b: int| 0 <= a < b < t.len() implies #[trigger] t[a].0 != #[trigger] t[b].0 by {
                if b == n {
                    assert(t[a] == es[a]);
                    if es[a].0 == k {
                        assert(exists|x: int| 0 <= x < es.len() && #[trigger] es[x].0 == k);
                    }
                } else {
                    assert(t[a] == es[a] && t[b] == es[b]);
                }
            }
        },
    }
    lemma_index_unique(t, k);
    if k2 != k {
        lemma_index_unique(t, k2);
        lemma_index_unique(es, k2);
        if exists|x: int| 0 <= x < es.len() && #[trigger] es[x].0 == k2 {
            let x = choose|x: int| 0 <= x < es.len() && #[trigger] es[x].0 == k2;
            assert(t[x] == es[x]);
        }
        if exists|x: int| 0 <= x < t.len() && #[trigger] t[x].0 == k2 {
            let x = choose|x: int| 0 <= x < t.len() && #[trigger] t[x].0 == k2;
            assert(x < es.len() && t[x] == es[x]);
        }
    }
}

/// After a hash is dropped it is not served; other hashes are served as
/// before.
pub proof fn lemma_del_get(es: Seq<(Seq<char>, Seq<u8>)>, k: Seq<char>, k2: Seq<char>)
    requires
        hashes_distinct(es),
    ensures
        store_get(store_del(es, k), k) is None,
        k2 != k ==> store_get(store_del(es, k), k2) == store_get(es, k2),
        hashes_distinct(store_del(es, k)),
{
    let t = store_del(es, k);
    match hash_index(es, k) {
        Some(i) => {
            assert forall|a: int, b: int| 0 <= a < b < t.len() implies #[trigger] t[a].0 != #[trigger] t[b].0 by {
                let a0 = if a < i { a } else { a + 1 };
                let b0 = if b < i { b } else { b + 1 };
                assert(t[a] == es[a0] && t[b] == es[b0]);
            }
            if exists|x: int| 0 <= x < t.len() && #[trigger] t[x].0 == k {
                let x = choose|x: int| 0 <= x < t.len() && #[trigger] t[x].0 == k;
                let x0 = if x < i { x } else { x + 1 };
                assert(t[x] == es[x0]);
                assert(es[i].0 == k);
                if x0 < i {
                    assert(es[x0].0 != es[i].0);
                } else {
                    assert(es[i].0 != es[x0].0);
                }
            }
            if k2 != k {
                lemma_index_unique(t, k2);
                lemma_index_unique(es, k2);
                if exists|x: int| 0 <= x < es.len() && #[trigger] es[x].0 == k2 {
                    let x = choose|x: int| 0 <= x < es.len() && #[trigger] es[x].0 == k2;
                    assert(x != i);
                    let y = if x < i { x } else { x - 1 };
                    assert(t[y] == es[x]);
                }
                if exists|x: int| 0 <= x < t.len() && #[trigger] t[x].0 == k2 {
                    let x = choose|x: int| 0 <= x < t.len() && #[trigger] t[x].0 == k2;
                    let x0 = if x < i { x } else { x + 1 };
                    assert(t[x] == es[x0]);
                }
            }
        },
        None => {},
    }
}

/// The request line a client writes for a hash is read by the service as
/// that hash, for any hash that is not `/` and neither starts nor ends with
/// white space (an info hash in hex is such a hash).
pub proof fn lemma_request_roundtrip(h: Seq<char>)
    requires
        h.len() > 0,
        !is_white_space(h[0]),
        !is_white_space(h.last()),
        h != "/"@,
    ensures
        requested_hash(request_prefix() + h + "\n"@) == Ok::<Seq<char>, Seq<char>>(h),
{
    reveal_strlit("GET /");
    reveal_strlit("\n");
    let line = request_prefix() + h + "\n"@;
    let n = request_prefix().len() as int;
    assert(line.take(n) =~= request_prefix());
    let rest = line.skip(n);
    assert(rest =~= h + "\n"@);
    assert(rest[0] == h[0]);
    assert(trim_start_ws(rest) == rest);
    assert(is_white_space(rest.last()));
    assert(rest.drop_last() =~= h);
    assert(trim_end_ws(h) == h);
    assert(trim_end_ws(rest) == h);
}

/// With distinct hashes, any entry of a hash is the one `hash_index` names.
proof fn lemma_index_unique(es: Seq<(Seq<char>, Seq<u8>)>, k: Seq<char>)
    requires
        hashes_distinct(es),
    ensures
        forall|x: int| 0 <= x < es.len() && #[trigger] es[x].0 == k ==> hash_index(es, k) == Some(x),
{
    assert forall|x: int| 0 <= x < es.len() && #[trigger] es[x].0 == k implies hash_index(es, k) == Some(x) by {
        let w = choose|w: int| 0 <= w < es.len() && #[trigger] es[w].0 == k;
        if w < x {
            assert(es[w].0 != es[x].0);
        } else if w > x {
            assert(es[x].0 != es[w].0);
        }
    }
}

} // verus!
