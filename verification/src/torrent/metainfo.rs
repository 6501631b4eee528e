//! Torrent metadata: the `.torrent` dictionary, its bencoding and decoding,
//! piece hashes and the info hash.

use vstd::prelude::*;
use vstd::utf8::*;
use crate::common::error::Error;
use crate::torrent::bencode::{
    Bencode, BencodeValue, BencodeDict, dict_insert, dict_get, spec_encode, spec_decode,
    well_formed, well_formed_list, well_formed_entries, keys_sorted, lex_lt, shaped, shaped_entries,
    shaped_list, lemma_shaped_get, lemma_shaped_list_index,
    lemma_bview_list_push, lemma_bview_list_index, lemma_decode_inverts_encode,
    lemma_dict_insert_well_formed, lemma_dict_get_insert,
};
use crate::torrent::hash::{sha1, sha1_digest};

verus! {

// ===================================================================
// The data model
// ===================================================================

/// A file of a multi-file torrent, as data.
pub struct FileView {
    pub path: Seq<Seq<char>>,
    pub length: u64,
    pub md5sum: Option<Seq<char>>,
}

/// The `info` dictionary, as data.
pub struct InfoView {
    pub name: Seq<char>,
    pub piece_length: u32,
    pub pieces: Seq<u8>,
    pub length: Option<u64>,
    pub files: Option<Seq<FileView>>,
    pub private: Option<u8>,
    pub md5sum: Option<Seq<char>>,
}

/// A whole torrent, as data.
pub struct MetaView {
    pub announce: Option<Seq<char>>,
    pub created_by: Option<Seq<char>>,
    pub creation_date: Option<i64>,
    pub encoding: Option<Seq<char>>,
    pub info: InfoView,
}

/// A file of a multi-file torrent.
#[derive(Debug, Clone)]
pub struct FileInfo {
    /// The path below the top directory, one component per item.
    pub path: Vec<String>,
    pub length: u64,
    pub md5sum: Option<String>,
}

/// The `info` dictionary of a torrent.
#[derive(Debug, Clone)]
pub struct TorrentInfo {
    /// The file or directory name.
    pub name: String,
    /// The size of each piece in bytes.
    pub piece_length: u32,
    /// The SHA-1 hashes of the pieces, 20 bytes each, one after another.
    pub pieces: Vec<u8>,
    /// The file size, for a single-file torrent.
    pub length: Option<u64>,
    /// The files, for a multi-file torrent.
    pub files: Option<Vec<FileInfo>>,
    pub private: Option<u8>,
    pub md5sum: Option<String>,
}

/// The metadata of a torrent.
#[derive(Debug, Clone)]
pub struct TorrentMetaInfo {
    pub announce: Option<String>,
    pub created_by: Option<String>,
    pub creation_date: Option<i64>,
    pub encoding: Option<String>,
    pub info: TorrentInfo,
}

/// The characters of an optional string.
pub open spec fn opt_chars(o: Option<String>) -> Option<Seq<char>> {
    match o {
        Some(s) => Some(s@),
        None => None,
    }
}

/// The characters of each string.
pub open spec fn strings_view(v: Seq<String>) -> Seq<Seq<char>> {
    v.map_values(|s: String| s@)
}

impl View for FileInfo {
    type V = FileView;

    open spec fn view(&self) -> FileView {
        FileView { path: strings_view(self.path@), length: self.length, md5sum: opt_chars(self.md5sum) }
    }
}

/// The data of each file.
pub open spec fn files_view(v: Seq<FileInfo>) -> Seq<FileView> {
    v.map_values(|f: FileInfo| f@)
}

impl View for TorrentInfo {
    type V = InfoView;

    open spec fn view(&self) -> InfoView {
        InfoView {
            name: self.name@,
            piece_length: self.piece_length,
            pieces: self.pieces@,
            length: self.length,
            files: match self.files {
                Some(fs) => Some(files_view(fs@)),
                None => None,
            },
            private: self.private,
            md5sum: opt_chars(self.md5sum),
        }
    }
}

impl View for TorrentMetaInfo {
    type V = MetaView;

    open spec fn view(&self) -> MetaView {
        MetaView {
            announce: opt_chars(self.announce),
            created_by: opt_chars(self.created_by),
            creation_date: self.creation_date,
            encoding: opt_chars(self.encoding),
            info: self.info@,
        }
    }
}

// ===================================================================
// Dictionary keys
// ===================================================================

/// The keys of the torrent dictionaries.
#[derive(Clone, Copy, PartialEq, Eq, Structural, Debug)]
pub enum MetaKey {
    Announce,
    CreatedBy,
    CreationDate,
    Encoding,
    Info,
    Name,
    PieceLength,
    Pieces,
    Length,
    Files,
    Private,
    Path,
}

/// The bytes of a key: `announce`, `created by`, `creation date`,
/// `encoding`, `info`, `name`, `piece length`, `pieces`, `length`, `files`,
/// `private`, `path`.
pub open spec fn key(k: MetaKey) -> Seq<u8> {
    match k {
        MetaKey::Announce => seq![97u8, 110, 110, 111, 117, 110, 99, 101],
        MetaKey::CreatedBy => seq![99u8, 114, 101, 97, 116, 101, 100, 32, 98, 121],
        MetaKey::CreationDate => seq![99u8, 114, 101, 97, 116, 105, 111, 110, 32, 100, 97, 116, 101],
        MetaKey::Encoding => seq![101u8, 110, 99, 111, 100, 105, 110, 103],
        MetaKey::Info => seq![105u8, 110, 102, 111],
        MetaKey::Name => seq![110u8, 97, 109, 101],
        MetaKey::PieceLength => seq![112u8, 105, 101, 99, 101, 32, 108, 101, 110, 103, 116, 104],
        MetaKey::Pieces => seq![112u8, 105, 101, 99, 101, 115],
        MetaKey::Length => seq![108u8, 101, 110, 103, 116, 104],
        MetaKey::Files => seq![102u8, 105, 108, 101, 115],
        MetaKey::Private => seq![112u8, 114, 105, 118, 97, 116, 101],
        MetaKey::Path => seq![112u8, 97, 116, 104],
    }
}

/// The bytes of a key, in memory.
pub fn key_bytes(k: MetaKey) -> (r: Vec<u8>)
    ensures
        r@ == key(k),
{
    let r: Vec<u8> = match k {
        MetaKey::Announce => vec![97u8, 110, 110, 111, 117, 110, 99, 101],
        MetaKey::CreatedBy => vec![99u8, 114, 101, 97, 116, 101, 100, 32, 98, 121],
        MetaKey::CreationDate => vec![99u8, 114, 101, 97, 116, 105, 111, 110, 32, 100, 97, 116, 101],
        MetaKey::Encoding => vec![101u8, 110, 99, 111, 100, 105, 110, 103],
        MetaKey::Info => vec![105u8, 110, 102, 111],
        MetaKey::Name => vec![110u8, 97, 109, 101],
        MetaKey::PieceLength => vec![112u8, 105, 101, 99, 101, 32, 108, 101, 110, 103, 116, 104],
        MetaKey::Pieces => vec![112u8, 105, 101, 99, 101, 115],
        MetaKey::Length => vec![108u8, 101, 110, 103, 116, 104],
        MetaKey::Files => vec![102u8, 105, 108, 101, 115],
        MetaKey::Private => vec![112u8, 114, 105, 118, 97, 116, 101],
        MetaKey::Path => vec![112u8, 97, 116, 104],
    };
    assert(r@ =~= key(k));
    r
}

// ===================================================================
// The bencoding of a torrent
// ===================================================================

/// A string as a bencode byte string: its UTF-8 bytes.
pub open spec fn text_value(s: Seq<char>) -> Bencode {
    Bencode::Bytes { bytes: encode_utf8(s), text: true }
}

/// Raw bytes as a bencode byte string.
pub open spec fn byte_string(b: Seq<u8>) -> Bencode {
    Bencode::Bytes { bytes: b, text: valid_utf8(b) }
}

/// Strings as bencode byte strings.
pub open spec fn text_list(s: Seq<Seq<char>>) -> Seq<Bencode> {
    s.map_values(|c: Seq<char>| text_value(c))
}

/// A file as a dictionary: `length` and `path`.
pub open spec fn file_entries(f: FileView) -> Seq<(Seq<u8>, Bencode)> {
    dict_insert(
        dict_insert(Seq::empty(), key(MetaKey::Length), Bencode::Int((f.length as i64) as int)),
        key(MetaKey::Path),
        Bencode::List(text_list(f.path)),
    )
}

/// The files as a list of dictionaries.
pub open spec fn files_bencode(fs: Seq<FileView>) -> Seq<Bencode> {
    fs.map_values(|f: FileView| Bencode::Dict(file_entries(f)))
}

/// The `info` dictionary: `name`, `piece length`, `pieces`, and `length`,
/// `files` and `private` where present.
pub open spec fn info_entries(i: InfoView) -> Seq<(Seq<u8>, Bencode)> {
    let d0 = dict_insert(
        dict_insert(
            dict_insert(Seq::empty(), key(MetaKey::Name), text_value(i.name)),
            key(MetaKey::PieceLength),
            Bencode::Int(i.piece_length as int),
        ),
        key(MetaKey::Pieces),
        byte_string(i.pieces),
    );
    let d1 = match i.length {
        Some(l) => dict_insert(d0, key(MetaKey::Length), Bencode::Int((l as i64) as int)),
        None => d0,
    };
    let d2 = match i.files {
        Some(fs) => dict_insert(d1, key(MetaKey::Files), Bencode::List(files_bencode(fs))),
        None => d1,
    };
    match i.private {
        Some(p) => dict_insert(d2, key(MetaKey::Private), Bencode::Int(p as int)),
        None => d2,
    }
}

/// The top dictionary: `announce`, `created by`, `creation date` and
/// `encoding` where present, and `info`.
pub open spec fn meta_entries(m: MetaView) -> Seq<(Seq<u8>, Bencode)> {
    let d0 = match m.announce {
        Some(s) => dict_insert(Seq::empty(), key(MetaKey::Announce), text_value(s)),
        None => Seq::empty(),
    };
    let d1 = match m.created_by {
        Some(s) => dict_insert(d0, key(MetaKey::CreatedBy), text_value(s)),
        None => d0,
    };
    let d2 = match m.creation_date {
        Some(t) => dict_insert(d1, key(MetaKey::CreationDate), Bencode::Int(t as int)),
        None => d1,
    };
    let d3 = match m.encoding {
        Some(s) => dict_insert(d2, key(MetaKey::Encoding), text_value(s)),
        None => d2,
    };
    dict_insert(d3, key(MetaKey::Info), Bencode::Dict(info_entries(m.info)))
}

/// The bytes of a `.torrent` file for `m`.
pub open spec fn torrent_bytes(m: MetaView) -> Seq<u8> {
    spec_encode(Bencode::Dict(meta_entries(m)))
}

/// The info hash: the SHA-1 of the bencoded `info` dictionary.
pub open spec fn info_hash_of(i: InfoView) -> Seq<u8> {
    sha1_digest(spec_encode(Bencode::Dict(info_entries(i))))
}

/// The sum of the file lengths.
pub open spec fn sum_lengths(fs: Seq<FileView>) -> int
    decreases fs.len(),
{
    if fs.len() == 0 {
        0
    } else {
        sum_lengths(fs.drop_last()) + fs.last().length
    }
}

/// The total size: the single file's length, else the sum of the files'
/// lengths, else zero.
pub open spec fn total_size_of(i: InfoView) -> int {
    match i.length {
        Some(l) => l as int,
        None => match i.files {
            Some(fs) => sum_lengths(fs),
            None => 0,
        },
    }
}

// ===================================================================
// Building the bencoded values
// ===================================================================

/// A string as a bencode value.
fn text_of_string(s: &String) -> (r: BencodeValue)
    ensures
        r@ == text_value(s@),
{
    BencodeValue::String(s.clone())
}

/// Raw bytes as a bencode value: a `String` when they are valid UTF-8, as
/// the decoder would give them back.
fn byte_string_value(b: &Vec<u8>) -> (r: BencodeValue)
    ensures
        r@ == byte_string(b@),
{
    let copy = vstd::slice::slice_to_vec(b.as_slice());
    if crate::torrent::bencode::utf8_check(copy.as_slice()) {
        let s = crate::torrent::bencode::string_from_utf8(copy);
        proof {
            decode_utf8_encode_utf8(b@);
        }
        BencodeValue::String(s)
    } else {
        BencodeValue::Bytes(copy)
    }
}

/// A file as a bencode dictionary.
fn file_value(f: &FileInfo) -> (r: BencodeValue)
    ensures
        r@ == Bencode::Dict(file_entries(f@)),
{
    let mut d = BencodeDict::new();
    d.insert(key_bytes(MetaKey::Length), BencodeValue::Int(f.length as i64));
    let mut path: Vec<BencodeValue> = Vec::new();
    let mut i: usize = 0;
    while i < f.path.len()
        invariant
            i <= f.path@.len(),
            crate::torrent::bencode::bview_list(path@) == text_list(strings_view(f.path@).take(i as int)),
        decreases f.path.len() - i,
    {
        let v = text_of_string(&f.path[i]);
        proof {
            lemma_bview_list_push(path@, v);
        }
        path.push(v);
        i = i + 1;
        proof {
            assert(text_list(strings_view(f.path@).take(i as int))
                =~= text_list(strings_view(f.path@).take(i - 1)).push(text_value(f.path@[i - 1]@)));
        }
    }
    assert(strings_view(f.path@).take(f.path@.len() as int) =~= strings_view(f.path@));
    d.insert(key_bytes(MetaKey::Path), BencodeValue::List(path));
    proof {
        crate::torrent::bencode::lemma_dict_value_view(d);
    }
    BencodeValue::Dict(d)
}

impl TorrentInfo {
    /// The `info` dictionary as a bencode value.
    fn info_value(&self) -> (r: BencodeValue)
        ensures
            r@ == Bencode::Dict(info_entries(self@)),
    {
        let mut d = BencodeDict::new();
        d.insert(key_bytes(MetaKey::Name), text_of_string(&self.name));
        d.insert(key_bytes(MetaKey::PieceLength), BencodeValue::Int(self.piece_length as i64));
        d.insert(key_bytes(MetaKey::Pieces), byte_string_value(&self.pieces));
        if let Some(length) = self.length {
            d.insert(key_bytes(MetaKey::Length), BencodeValue::Int(length as i64));
        }
        if let Some(files) = &self.files {
            let mut list: Vec<BencodeValue> = Vec::new();
            let mut i: usize = 0;
            while i < files.len()
                invariant
                    i <= files@.len(),
                    crate::torrent::bencode::bview_list(list@) == files_bencode(files_view(files@).take(i as int)),
                decreases files.len() - i,
            {
                let v = file_value(&files[i]);
                proof {
                    lemma_bview_list_push(list@, v);
                }
                list.push(v);
                i = i + 1;
                proof {
                    assert(files_bencode(files_view(files@).take(i as int))
                        =~= files_bencode(files_view(files@).take(i - 1)).push(Bencode::Dict(file_entries(files@[i - 1]@))));
                }
            }
            assert(files_view(files@).take(files@.len() as int) =~= files_view(files@));
            d.insert(key_bytes(MetaKey::Files), BencodeValue::List(list));
        }
        if let Some(private) = self.private {
            d.insert(key_bytes(MetaKey::Private), BencodeValue::Int(private as i64));
        }
        proof {
            crate::torrent::bencode::lemma_dict_value_view(d);
        }
        BencodeValue::Dict(d)
    }
}

impl TorrentMetaInfo {
    /// The bencoded `.torrent` file.
    pub fn to_bencode(&self) -> (r: Result<Vec<u8>, Error>)
        ensures
            r matches Ok(b) && b@ == torrent_bytes(self@),
            r matches Ok(b) && (ints_fit(self@) ==> parse_torrent(b@) == Some(without_md5(self@))),
    {
        let mut d = BencodeDict::new();
        if let Some(announce) = &self.announce {
            d.insert(key_bytes(MetaKey::Announce), text_of_string(announce));
        }
        if let Some(created_by) = &self.created_by {
            d.insert(key_bytes(MetaKey::CreatedBy), text_of_string(created_by));
        }
        if let Some(creation_date) = self.creation_date {
            d.insert(key_bytes(MetaKey::CreationDate), BencodeValue::Int(creation_date));
        }
        if let Some(encoding) = &self.encoding {
            d.insert(key_bytes(MetaKey::Encoding), text_of_string(encoding));
        }
        d.insert(key_bytes(MetaKey::Info), self.info.info_value());
        proof {
            crate::torrent::bencode::lemma_dict_value_view(d);
        }
        let bytes = BencodeValue::Dict(d).encode();
        proof {
            if ints_fit(self@) {
                lemma_shaped_meta(self@);
                lemma_torrent_roundtrip(self@);
            }
        }
        Ok(bytes)
    }

    /// The number of pieces: one per 20 bytes of hashes.
    pub fn piece_count(&self) -> (r: usize)
        ensures
            r == self.info.pieces@.len() / 20,
    {
        self.info.pieces.len() / 20
    }

    /// The hash of piece `index`, if there is one.
    pub fn piece_hash(&self, index: usize) -> (r: Option<[u8; 20]>)
        requires
            index * 20 + 20 <= usize::MAX,
        ensures
            match r {
                Some(h) => index * 20 + 20 <= self.info.pieces@.len()
                    && h@ == self.info.pieces@.subrange(index * 20, index * 20 + 20),
                None => index * 20 + 20 > self.info.pieces@.len(),
            },
    {
        let start = index * 20;
        if start + 20 > self.info.pieces.len() {
            return None;
        }
        let mut hash = [0u8; 20];
        let mut j: usize = 0;
        while j < 20
            invariant
                j <= 20,
                start + 20 <= self.info.pieces@.len(),
                start + 20 <= usize::MAX,
                forall|k: int| 0 <= k < j ==> hash@[k] == self.info.pieces@[start + k],
            decreases 20 - j,
        {
            hash[j] = self.info.pieces[start + j];
            j = j + 1;
        }
        assert(hash@ =~= self.info.pieces@.subrange(start as int, start + 20));
        Some(hash)
    }

    /// The total size of the content.
    pub fn total_size(&self) -> (r: u64)
        requires
            total_size_of(self.info@) <= u64::MAX,
        ensures
            r == total_size_of(self.info@),
    {
        if let Some(length) = self.info.length {
            length
        } else if let Some(files) = &self.info.files {
            let mut sum: u64 = 0;
            let mut i: usize = 0;
            while i < files.len()
                invariant
                    i <= files@.len(),
                    sum == sum_lengths(files_view(files@).take(i as int)),
                    sum_lengths(files_view(files@)) <= u64::MAX,
                decreases files.len() - i,
            {
                proof {
                    let fs = files_view(files@);
                    assert(fs.take(i + 1).drop_last() =~= fs.take(i as int));
                    lemma_sum_lengths_prefix(fs, i + 1);
                }
                sum = sum + files[i].length;
                i = i + 1;
            }
            assert(files_view(files@).take(files@.len() as int) =~= files_view(files@));
            sum
        } else {
            0
        }
    }

    /// The total size, when it fits in 64 bits.
    pub fn checked_total_size(&self) -> (r: Option<u64>)
        ensures
            match r {
                Some(t) => t == total_size_of(self.info@),
                None => total_size_of(self.info@) > u64::MAX,
            },
    {
        if let Some(length) = self.info.length {
            Some(length)
        } else if let Some(files) = &self.info.files {
            let mut sum: u64 = 0;
            let mut i: usize = 0;
            while i < files.len()
                invariant
                    i <= files@.len(),
                    sum == sum_lengths(files_view(files@).take(i as int)),
                    self.info.length is None,
                    self.info.files == Some(*files),
                decreases files.len() - i,
            {
                proof {
                    let fs = files_view(files@);
                    assert(fs.take(i + 1).drop_last() =~= fs.take(i as int));
                    lemma_sum_lengths_prefix(fs, i + 1);
                }
                match sum.checked_add(files[i].length) {
                    Some(t) => {
                        sum = t;
                    },
                    None => {
                        proof {
                            let fs = files_view(files@);
                            assert(fs.take(i + 1).last() == fs[i as int]);
                        }
                        return None;
                    },
                }
                i = i + 1;
            }
            assert(files_view(files@).take(files@.len() as int) =~= files_view(files@));
            Some(sum)
        } else {
            Some(0)
        }
    }

    /// Whether this is a single-file torrent.
    pub fn is_single_file(&self) -> (r: bool)
        ensures
            r == self.info.length is Some,
    {
        self.info.length.is_some()
    }

    /// The info hash that identifies the torrent.
    pub fn info_hash(&self) -> (r: Result<[u8; 20], Error>)
        ensures
            r matches Ok(h) && h@ == info_hash_of(self.info@),
    {
        let bytes = self.info.info_value().encode();
        Ok(sha1(bytes.as_slice()))
    }
}

proof fn lemma_sum_lengths_prefix(fs: Seq<FileView>, n: int)
    requires
        0 <= n <= fs.len(),
    ensures
        sum_lengths(fs.take(n)) <= sum_lengths(fs),
    decreases fs.len(),
{
    if n < fs.len() {
        assert(fs.drop_last().take(n) =~= fs.take(n));
        lemma_sum_lengths_prefix(fs.drop_last(), n);
    } else {
        assert(fs.take(n) =~= fs);
    }
}

// ===================================================================
// Reading a torrent back
// ===================================================================

/// The string a byte string holds, when its bytes are text.
pub open spec fn text_of(x: Bencode) -> Option<Seq<char>> {
    match x {
        Bencode::Bytes { bytes, text } => if text {
            Some(decode_utf8(bytes))
        } else {
            None
        },
        _ => None,
    }
}

/// The integer a value holds, when it lies in `lo..=hi`.
pub open spec fn int_in(x: Bencode, lo: int, hi: int) -> Option<int> {
    match x {
        Bencode::Int(n) => if lo <= n <= hi {
            Some(n)
        } else {
            None
        },
        _ => None,
    }
}

/// An optional text field: `Some(None)` when absent, `None` when present
/// but not text.
pub open spec fn opt_text_field(es: Seq<(Seq<u8>, Bencode)>, k: MetaKey) -> Option<Option<Seq<char>>> {
    match dict_get(es, key(k)) {
        None => Some(None),
        Some(x) => match text_of(x) {
            Some(s) => Some(Some(s)),
            None => None,
        },
    }
}

/// An optional integer field in `lo..=hi`: `Some(None)` when absent,
/// `None` when present but not such an integer.
pub open spec fn opt_int_field(es: Seq<(Seq<u8>, Bencode)>, k: MetaKey, lo: int, hi: int) -> Option<Option<int>> {
    match dict_get(es, key(k)) {
        None => Some(None),
        Some(x) => match int_in(x, lo, hi) {
            Some(n) => Some(Some(n)),
            None => None,
        },
    }
}

/// The strings of a list whose items are all text.
pub open spec fn text_values(items: Seq<Bencode>) -> Seq<Seq<char>> {
    items.map_values(|x: Bencode| text_of(x)->0)
}

/// Every item of the list is text.
pub open spec fn all_text(items: Seq<Bencode>) -> bool {
    forall|i: int| 0 <= i < items.len() ==> #[trigger] text_of(items[i]) is Some
}

/// The strings of a list, when every item is text.
pub open spec fn texts_of(items: Seq<Bencode>) -> Option<Seq<Seq<char>>> {
    if all_text(items) {
        Some(text_values(items))
    } else {
        None
    }
}

/// A file read from its dictionary: a `length` in `0..=i64::MAX` and a
/// `path` list of strings.
pub open spec fn file_of(x: Bencode) -> Option<FileView> {
    match x {
        Bencode::Dict(es) => match (dict_get(es, key(MetaKey::Length)), dict_get(es, key(MetaKey::Path))) {
            (Some(l), Some(Bencode::List(ps))) => match (int_in(l, 0, i64::MAX as int), texts_of(ps)) {
                (Some(n), Some(path)) => Some(FileView { path, length: n as u64, md5sum: None }),
                _ => None,
            },
            _ => None,
        },
        _ => None,
    }
}

/// The files of a list whose items are all files.
pub open spec fn file_values(items: Seq<Bencode>) -> Seq<FileView> {
    items.map_values(|x: Bencode| file_of(x)->0)
}

/// Every item of the list is a file.
pub open spec fn all_files(items: Seq<Bencode>) -> bool {
    forall|i: int| 0 <= i < items.len() ==> #[trigger] file_of(items[i]) is Some
}

/// The files of a list, when every item is a file.
pub open spec fn files_of(items: Seq<Bencode>) -> Option<Seq<FileView>> {
    if all_files(items) {
        Some(file_values(items))
    } else {
        None
    }
}

/// The optional `files` field: `Some(None)` when absent.
pub open spec fn opt_files_field(es: Seq<(Seq<u8>, Bencode)>) -> Option<Option<Seq<FileView>>> {
    match dict_get(es, key(MetaKey::Files)) {
        None => Some(None),
        Some(Bencode::List(items)) => match files_of(items) {
            Some(fs) => Some(Some(fs)),
            None => None,
        },
        Some(_) => None,
    }
}

pub open spec fn opt_u64(o: Option<int>) -> Option<u64> {
    match o {
        Some(n) => Some(n as u64),
        None => None,
    }
}

pub open spec fn opt_u8(o: Option<int>) -> Option<u8> {
    match o {
        Some(n) => Some(n as u8),
        None => None,
    }
}

pub open spec fn opt_i64(o: Option<int>) -> Option<i64> {
    match o {
        Some(n) => Some(n as i64),
        None => None,
    }
}

/// The `info` dictionary read back: `name` text, `piece length` in the
/// range of `u32`, `pieces` a byte string, and where present `length` in
/// `0..=i64::MAX`, `files` a list of files and `private` in the range of `u8`.
pub open spec fn info_of(x: Bencode) -> Option<InfoView> {
    match x {
        Bencode::Dict(es) => {
            let name = match dict_get(es, key(MetaKey::Name)) {
                Some(v) => text_of(v),
                None => None,
            };
            let pl = match dict_get(es, key(MetaKey::PieceLength)) {
                Some(v) => int_in(v, 0, u32::MAX as int),
                None => None,
            };
            let pieces = match dict_get(es, key(MetaKey::Pieces)) {
                Some(Bencode::Bytes { bytes, .. }) => Some(bytes),
                _ => None,
            };
            let length = opt_int_field(es, MetaKey::Length, 0, i64::MAX as int);
            let files = opt_files_field(es);
            let private = opt_int_field(es, MetaKey::Private, 0, u8::MAX as int);
            if name is Some && pl is Some && pieces is Some && length is Some && files is Some
                && private is Some {
                Some(
                    InfoView {
                        name: name->0,
                        piece_length: pl->0 as u32,
                        pieces: pieces->0,
                        length: opt_u64(length->0),
                        files: files->0,
                        private: opt_u8(private->0),
                        md5sum: None,
                    },
                )
            } else {
                None
            }
        },
        _ => None,
    }
}

/// A torrent read from its top dictionary: optional `announce`,
/// `created by`, `creation date` and `encoding`, and the `info` dictionary.
pub open spec fn meta_of(x: Bencode) -> Option<MetaView> {
    match x {
        Bencode::Dict(es) => {
            let announce = opt_text_field(es, MetaKey::Announce);
            let created_by = opt_text_field(es, MetaKey::CreatedBy);
            let date = opt_int_field(es, MetaKey::CreationDate, i64::MIN as int, i64::MAX as int);
            let encoding = opt_text_field(es, MetaKey::Encoding);
            let info = match dict_get(es, key(MetaKey::Info)) {
                Some(v) => info_of(v),
                None => None,
            };
            if announce is Some && created_by is Some && date is Some && encoding is Some && info is Some {
                Some(
                    MetaView {
                        announce: announce->0,
                        created_by: created_by->0,
                        creation_date: opt_i64(date->0),
                        encoding: encoding->0,
                        info: info->0,
                    },
                )
            } else {
                None
            }
        },
        _ => None,
    }
}

/// The torrent that the bencoded value at the start of `data` describes.
pub open spec fn parse_torrent(data: Seq<u8>) -> Option<MetaView> {
    match spec_decode(data) {
        Some((x, _)) => meta_of(x),
        None => None,
    }
}

fn malformed(what: &str) -> (e: Error)
    ensures
        e matches Error::Other(_),
{
    let mut msg = "Malformed torrent: ".to_string();
    msg.append(what);
    Error::Other(msg)
}

/// The string a value holds, if it is text.
fn get_text(v: &BencodeValue) -> (r: Option<String>)
    ensures
        opt_chars(r) == text_of(v@),
{
    match v {
        BencodeValue::String(s) => {
            proof {
                encode_utf8_decode_utf8(s@);
            }
            Some(s.clone())
        },
        _ => None,
    }
}

/// The integer a value holds, if it is one.
fn get_int(v: &BencodeValue) -> (r: Option<i64>)
    ensures
        match r {
            Some(n) => v@ == Bencode::Int(n as int),
            None => !(v@ is Int),
        },
{
    match v {
        BencodeValue::Int(n) => Some(*n),
        _ => None,
    }
}

fn read_opt_text(d: &BencodeDict, k: MetaKey) -> (r: Result<Option<String>, Error>)
    ensures
        match r {
            Ok(o) => opt_text_field(d@, k) == Some(opt_chars(o)),
            Err(_) => opt_text_field(d@, k) is None,
        },
{
    let kb = key_bytes(k);
    match d.get(kb.as_slice()) {
        None => Ok(None),
        Some(v) => match get_text(v) {
            Some(s) => Ok(Some(s)),
            None => Err(malformed("a field is not a string")),
        },
    }
}

fn read_opt_int(d: &BencodeDict, k: MetaKey, lo: i64, hi: i64) -> (r: Result<Option<i64>, Error>)
    ensures
        match r {
            Ok(o) => opt_int_field(d@, k, lo as int, hi as int) == Some(
                match o {
                    Some(n) => Some(n as int),
                    None => None,
                },
            ),
            Err(_) => opt_int_field(d@, k, lo as int, hi as int) is None,
        },
{
    let kb = key_bytes(k);
    match d.get(kb.as_slice()) {
        None => Ok(None),
        Some(v) => match get_int(v) {
            Some(n) => if lo <= n && n <= hi {
                Ok(Some(n))
            } else {
                Err(malformed("an integer field is out of range"))
            },
            None => Err(malformed("a field is not an integer")),
        },
    }
}

/// The strings of a list value.
fn read_texts(items: &Vec<BencodeValue>) -> (r: Result<Vec<String>, Error>)
    ensures
        match r {
            Ok(v) => texts_of(crate::torrent::bencode::bview_list(items@)) == Some(strings_view(v@)),
            Err(_) => texts_of(crate::torrent::bencode::bview_list(items@)) is None,
        },
{
    let ghost bl = crate::torrent::bencode::bview_list(items@);
    proof {
        lemma_bview_list_index(items@);
    }
    let mut out: Vec<String> = Vec::new();
    let mut i: usize = 0;
    while i < items.len()
        invariant
            i <= items@.len(),
            bl == crate::torrent::bencode::bview_list(items@),
            bl.len() == items@.len(),
            forall|j: int| 0 <= j < items@.len() ==> #[trigger] bl[j] == items@[j]@,
            forall|j: int| 0 <= j < i ==> #[trigger] text_of(bl[j]) is Some,
            out@.len() == i,
            strings_view(out@) == text_values(bl.take(i as int)),
        decreases items.len() - i,
    {
        match get_text(&items[i]) {
            Some(s) => {
                let ghost old_out = out@;
                assert(text_of(bl[i as int]) == Some(s@));
                out.push(s);
                i = i + 1;
                proof {
                    let t = text_values(bl.take(i as int));
                    let o = strings_view(out@);
                    assert(o.len() == t.len());
                    assert forall|j: int| 0 <= j < o.len() implies o[j] == t[j] by {
                        if j < i - 1 {
                            assert(o[j] == strings_view(old_out)[j]);
                            assert(t[j] == text_values(bl.take(i - 1))[j]);
                        }
                    }
                    assert(o =~= t);
                }
            },
            None => {
                assert(text_of(bl[i as int]) is None);
                assert(!all_text(bl));
                return Err(malformed("a path item is not a string"));
            },
        }
    }
    assert(bl.take(i as int) =~= bl);
    Ok(out)
}

/// A file from its dictionary value.
fn read_file(v: &BencodeValue) -> (r: Result<FileInfo, Error>)
    ensures
        match r {
            Ok(f) => file_of(v@) == Some(f@),
            Err(_) => file_of(v@) is None,
        },
{
    let d = match v {
        BencodeValue::Dict(d) => d,
        _ => {
            return Err(malformed("a file entry is not a dictionary"));
        },
    };
    proof {
        crate::torrent::bencode::lemma_dict_value_view(*d);
    }
    let kl = key_bytes(MetaKey::Length);
    let length = match d.get(kl.as_slice()) {
        Some(x) => match get_int(x) {
            Some(n) => if 0 <= n {
                n
            } else {
                return Err(malformed("a file length is negative"));
            },
            None => {
                return Err(malformed("a file length is not an integer"));
            },
        },
        None => {
            return Err(malformed("a file has no length"));
        },
    };
    let kp = key_bytes(MetaKey::Path);
    let path = match d.get(kp.as_slice()) {
        Some(BencodeValue::List(items)) => match read_texts(items) {
            Ok(p) => p,
            Err(e) => {
                return Err(e);
            },
        },
        _ => {
            return Err(malformed("a file has no path list"));
        },
    };
    Ok(FileInfo { path, length: length as u64, md5sum: None })
}

/// The files of a list value.
fn read_files(items: &Vec<BencodeValue>) -> (r: Result<Vec<FileInfo>, Error>)
    ensures
        match r {
            Ok(v) => files_of(crate::torrent::bencode::bview_list(items@)) == Some(files_view(v@)),
            Err(_) => files_of(crate::torrent::bencode::bview_list(items@)) is None,
        },
{
    let ghost bl = crate::torrent::bencode::bview_list(items@);
    proof {
        lemma_bview_list_index(items@);
    }
    let mut out: Vec<FileInfo> = Vec::new();
    let mut i: usize = 0;
    while i < items.len()
        invariant
            i <= items@.len(),
            bl == crate::torrent::bencode::bview_list(items@),
            bl.len() == items@.len(),
            forall|j: int| 0 <= j < items@.len() ==> #[trigger] bl[j] == items@[j]@,
            forall|j: int| 0 <= j < i ==> #[trigger] file_of(bl[j]) is Some,
            out@.len() == i,
            files_view(out@) == file_values(bl.take(i as int)),
        decreases items.len() - i,
    {
        match read_file(&items[i]) {
            Ok(f) => {
                let ghost old_out = out@;
                out.push(f);
                i = i + 1;
                proof {
                    let t = file_values(bl.take(i as int));
                    let o = files_view(out@);
                    assert(o.len() == t.len());
                    assert forall|j: int| 0 <= j < o.len() implies o[j] == t[j] by {
                        if j < i - 1 {
                            assert(o[j] == files_view(old_out)[j]);
                            assert(t[j] == file_values(bl.take(i - 1))[j]);
                        }
                    }
                    assert(o =~= t);
                }
            },
            Err(e) => {
                assert(file_of(bl[i as int]) is None);
                assert(!all_files(bl));
                return Err(e);
            },
        }
    }
    assert(bl.take(i as int) =~= bl);
    Ok(out)
}

impl TorrentInfo {
    /// The `info` dictionary read from its value.
    fn from_value(v: &BencodeValue) -> (r: Result<TorrentInfo, Error>)
        ensures
            match r {
                Ok(i) => info_of(v@) == Some(i@),
                Err(_) => info_of(v@) is None,
            },
    {
        let d = match v {
            BencodeValue::Dict(d) => d,
            _ => {
                return Err(malformed("info is not a dictionary"));
            },
        };
        proof {
            crate::torrent::bencode::lemma_dict_value_view(*d);
        }
        let kn = key_bytes(MetaKey::Name);
        let name = match d.get(kn.as_slice()) {
            Some(x) => match get_text(x) {
                Some(s) => s,
                None => {
                    return Err(malformed("name is not a string"));
                },
            },
            None => {
                return Err(malformed("no name"));
            },
        };
        let kpl = key_bytes(MetaKey::PieceLength);
        let piece_length = match d.get(kpl.as_slice()) {
            Some(x) => match get_int(x) {
                Some(n) => if 0 <= n && n <= 4294967295i64 {
                    n as u32
                } else {
                    return Err(malformed("piece length is out of range"));
                },
                None => {
                    return Err(malformed("piece length is not an integer"));
                },
            },
            None => {
                return Err(malformed("no piece length"));
            },
        };
        let kp = key_bytes(MetaKey::Pieces);
        let pieces = match d.get(kp.as_slice()) {
            Some(BencodeValue::Bytes(b)) => vstd::slice::slice_to_vec(b.as_slice()),
            Some(BencodeValue::String(s)) => vstd::slice::slice_to_vec(s.as_str().as_bytes()),
            _ => {
                return Err(malformed("pieces is not a byte string"));
            },
        };
        let length = match read_opt_int(d, MetaKey::Length, 0, i64::MAX) {
            Ok(Some(n)) => Some(n as u64),
            Ok(None) => None,
            Err(e) => {
                return Err(e);
            },
        };
        let kf = key_bytes(MetaKey::Files);
        let files = match d.get(kf.as_slice()) {
            None => None,
            Some(BencodeValue::List(items)) => match read_files(items) {
                Ok(fs) => Some(fs),
                Err(e) => {
                    return Err(e);
                },
            },
            Some(_) => {
                return Err(malformed("files is not a list"));
            },
        };
        let private = match read_opt_int(d, MetaKey::Private, 0, 255) {
            Ok(Some(n)) => Some(n as u8),
            Ok(None) => None,
            Err(e) => {
                return Err(e);
            },
        };
        Ok(TorrentInfo { name, piece_length, pieces, length, files, private, md5sum: None })
    }
}

impl TorrentMetaInfo {
    /// Reads a torrent from the bencoded dictionary at the start of `data`.
    pub fn from_bencode(data: &[u8]) -> (r: Result<TorrentMetaInfo, Error>)
        ensures
            match r {
                Ok(m) => parse_torrent(data@) == Some(m@),
                Err(_) => parse_torrent(data@) is None,
            },
    {
        let (v, _) = match BencodeValue::decode(data) {
            Ok(p) => p,
            Err(e) => {
                return Err(Error::Other(e));
            },
        };
        let d = match &v {
            BencodeValue::Dict(d) => d,
            _ => {
                return Err(malformed("not a dictionary"));
            },
        };
        proof {
            crate::torrent::bencode::lemma_dict_value_view(*d);
        }
        let announce = match read_opt_text(d, MetaKey::Announce) {
            Ok(o) => o,
            Err(e) => {
                return Err(e);
            },
        };
        let created_by = match read_opt_text(d, MetaKey::CreatedBy) {
            Ok(o) => o,
            Err(e) => {
                return Err(e);
            },
        };
        let creation_date = match read_opt_int(d, MetaKey::CreationDate, i64::MIN, i64::MAX) {
            Ok(o) => o,
            Err(e) => {
                return Err(e);
            },
        };
        let encoding = match read_opt_text(d, MetaKey::Encoding) {
            Ok(o) => o,
            Err(e) => {
                return Err(e);
            },
        };
        let ki = key_bytes(MetaKey::Info);
        let info = match d.get(ki.as_slice()) {
            Some(x) => match TorrentInfo::from_value(x) {
                Ok(i) => i,
                Err(e) => {
                    return Err(e);
                },
            },
            None => {
                return Err(malformed("no info dictionary"));
            },
        };
        Ok(TorrentMetaInfo { announce, created_by, creation_date, encoding, info })
    }
}

// ===================================================================
// Writing and reading back
// ===================================================================

/// A file without its `md5sum`, which the bencoding does not carry.
pub open spec fn file_without_md5(f: FileView) -> FileView {
    FileView { md5sum: None, ..f }
}

/// The files without their `md5sum`s.
pub open spec fn files_without_md5(fs: Seq<FileView>) -> Seq<FileView> {
    fs.map_values(|f: FileView| file_without_md5(f))
}

/// A torrent without the `md5sum` fields, which the bencoding does not carry.
pub open spec fn without_md5(m: MetaView) -> MetaView {
    MetaView {
        info: InfoView {
            md5sum: None,
            files: match m.info.files {
                Some(fs) => Some(files_without_md5(fs)),
                None => None,
            },
            ..m.info
        },
        ..m
    }
}

/// The UTF-8 bytes of a string fit in memory.
pub open spec fn text_fits(s: Seq<char>) -> bool {
    encode_utf8(s).len() <= usize::MAX
}

pub open spec fn opt_text_fits(o: Option<Seq<char>>) -> bool {
    o matches Some(s) ==> text_fits(s)
}

/// A file whose length is a bencode integer and whose path fits in memory.
pub open spec fn file_encodable(f: FileView) -> bool {
    &&& f.length <= i64::MAX
    &&& forall|j: int| 0 <= j < f.path.len() ==> text_fits(#[trigger] f.path[j])
}

/// A torrent whose bencoding reads back: lengths that are bencode integers
/// (`i64`) and strings that fit in memory.
pub open spec fn encodable(m: MetaView) -> bool {
    &&& opt_text_fits(m.announce)
    &&& opt_text_fits(m.created_by)
    &&& opt_text_fits(m.encoding)
    &&& text_fits(m.info.name)
    &&& m.info.pieces.len() <= usize::MAX
    &&& (m.info.length matches Some(l) ==> l <= i64::MAX)
    &&& (m.info.files matches Some(fs) ==> forall|i: int|
        0 <= i < fs.len() ==> file_encodable(#[trigger] fs[i]))
}

proof fn lemma_key_shapes()
    ensures
        key(MetaKey::Announce).len() == 8 && key(MetaKey::Announce)[0] == 97u8,
        key(MetaKey::CreatedBy).len() == 10 && key(MetaKey::CreatedBy)[0] == 99u8,
        key(MetaKey::CreationDate).len() == 13 && key(MetaKey::CreationDate)[0] == 99u8,
        key(MetaKey::Encoding).len() == 8 && key(MetaKey::Encoding)[0] == 101u8,
        key(MetaKey::Info).len() == 4 && key(MetaKey::Info)[0] == 105u8,
        key(MetaKey::Name).len() == 4 && key(MetaKey::Name)[0] == 110u8,
        key(MetaKey::PieceLength).len() == 12 && key(MetaKey::PieceLength)[0] == 112u8,
        key(MetaKey::Pieces).len() == 6 && key(MetaKey::Pieces)[0] == 112u8,
        key(MetaKey::Length).len() == 6 && key(MetaKey::Length)[0] == 108u8,
        key(MetaKey::Files).len() == 5 && key(MetaKey::Files)[0] == 102u8,
        key(MetaKey::Private).len() == 7 && key(MetaKey::Private)[0] == 112u8,
        key(MetaKey::Path).len() == 4 && key(MetaKey::Path)[0] == 112u8,
{
}

proof fn lemma_text_value_wf(s: Seq<char>)
    requires
        text_fits(s),
    ensures
        well_formed(text_value(s)),
        text_of(text_value(s)) == Some(s),
{
    encode_utf8_valid_utf8(s);
    encode_utf8_decode_utf8(s);
}

proof fn lemma_wf_list(items: Seq<Bencode>)
    requires
        forall|i: int| 0 <= i < items.len() ==> well_formed(#[trigger] items[i]),
    ensures
        well_formed_list(items),
    decreases items.len(),
{
    if items.len() > 0 {
        let t = items.subrange(1, items.len() as int);
        assert forall|i: int| 0 <= i < t.len() implies well_formed(#[trigger] t[i]) by {
            assert(t[i] == items[i + 1]);
        }
        lemma_wf_list(t);
    }
}

proof fn lemma_file_get(f: FileView)
    ensures
        dict_get(file_entries(f), key(MetaKey::Length)) == Some(Bencode::Int((f.length as i64) as int)),
        dict_get(file_entries(f), key(MetaKey::Path)) == Some(Bencode::List(text_list(f.path))),
{
    lemma_key_shapes();
    let d0 = dict_insert(Seq::empty(), key(MetaKey::Length), Bencode::Int((f.length as i64) as int));
    lemma_dict_get_insert(Seq::empty(), key(MetaKey::Length), Bencode::Int((f.length as i64) as int), key(MetaKey::Length));
    lemma_dict_get_insert(d0, key(MetaKey::Path), Bencode::List(text_list(f.path)), key(MetaKey::Length));
    lemma_dict_get_insert(d0, key(MetaKey::Path), Bencode::List(text_list(f.path)), key(MetaKey::Path));
}

proof fn lemma_file_roundtrip(f: FileView)
    requires
        file_encodable(f),
    ensures
        well_formed(Bencode::Dict(file_entries(f))),
        file_of(Bencode::Dict(file_entries(f))) == Some(file_without_md5(f)),
{
    lemma_key_shapes();
    let tl = text_list(f.path);
    assert forall|j: int| 0 <= j < tl.len() implies well_formed(#[trigger] tl[j]) && text_of(tl[j]) == Some(f.path[j]) by {
        lemma_text_value_wf(f.path[j]);
    }
    lemma_wf_list(tl);
    let n = Bencode::Int((f.length as i64) as int);
    assert((f.length as i64) as int == f.length);
    lemma_dict_insert_well_formed(Seq::empty(), key(MetaKey::Length), n);
    lemma_dict_insert_well_formed(dict_insert(Seq::empty(), key(MetaKey::Length), n), key(MetaKey::Path), Bencode::List(tl));
    lemma_file_get(f);
    assert(all_text(tl));
    assert(text_values(tl) =~= f.path);
}

proof fn lemma_files_roundtrip(fs: Seq<FileView>)
    requires
        forall|i: int| 0 <= i < fs.len() ==> file_encodable(#[trigger] fs[i]),
    ensures
        well_formed(Bencode::List(files_bencode(fs))),
        files_of(files_bencode(fs)) == Some(files_without_md5(fs)),
{
    let b = files_bencode(fs);
    assert forall|i: int| 0 <= i < b.len() implies well_formed(#[trigger] b[i]) && file_of(b[i]) == Some(
        file_without_md5(fs[i]),
    ) by {
        lemma_file_roundtrip(fs[i]);
    }
    lemma_wf_list(b);
    assert(all_files(b));
    assert(file_values(b) =~= files_without_md5(fs));
}

/// The entries of `info_entries` before `length`, `files` and `private`.
spec fn info_base(i: InfoView) -> Seq<(Seq<u8>, Bencode)> {
    dict_insert(
        dict_insert(
            dict_insert(Seq::empty(), key(MetaKey::Name), text_value(i.name)),
            key(MetaKey::PieceLength),
            Bencode::Int(i.piece_length as int),
        ),
        key(MetaKey::Pieces),
        byte_string(i.pieces),
    )
}

proof fn lemma_info_get(i: InfoView)
    ensures
        dict_get(info_entries(i), key(MetaKey::Name)) == Some(text_value(i.name)),
        dict_get(info_entries(i), key(MetaKey::PieceLength)) == Some(Bencode::Int(i.piece_length as int)),
        dict_get(info_entries(i), key(MetaKey::Pieces)) == Some(byte_string(i.pieces)),
        dict_get(info_entries(i), key(MetaKey::Length)) == (match i.length {
            Some(l) => Some(Bencode::Int((l as i64) as int)),
            None => None,
        }),
        dict_get(info_entries(i), key(MetaKey::Files)) == (match i.files {
            Some(fs) => Some(Bencode::List(files_bencode(fs))),
            None => None,
        }),
        dict_get(info_entries(i), key(MetaKey::Private)) == (match i.private {
            Some(p) => Some(Bencode::Int(p as int)),
            None => None,
        }),
{
    lemma_key_shapes();
    let e: Seq<(Seq<u8>, Bencode)> = Seq::empty();
    let da = dict_insert(e, key(MetaKey::Name), text_value(i.name));
    let db = dict_insert(da, key(MetaKey::PieceLength), Bencode::Int(i.piece_length as int));
    let d0 = info_base(i);
    assert forall|k2: Seq<u8>| #[trigger] dict_get(d0, k2) == (if k2 == key(MetaKey::Pieces) {
        Some(byte_string(i.pieces))
    } else if k2 == key(MetaKey::PieceLength) {
        Some(Bencode::Int(i.piece_length as int))
    } else if k2 == key(MetaKey::Name) {
        Some(text_value(i.name))
    } else {
        None
    }) by {
        lemma_dict_get_insert(e, key(MetaKey::Name), text_value(i.name), k2);
        lemma_dict_get_insert(da, key(MetaKey::PieceLength), Bencode::Int(i.piece_length as int), k2);
        lemma_dict_get_insert(db, key(MetaKey::Pieces), byte_string(i.pieces), k2);
    }
    let d1 = match i.length {
        Some(l) => dict_insert(d0, key(MetaKey::Length), Bencode::Int((l as i64) as int)),
        None => d0,
    };
    assert forall|k2: Seq<u8>| k2 != key(MetaKey::Length) implies #[trigger] dict_get(d1, k2) == dict_get(d0, k2) by {
        if let Some(l) = i.length {
            lemma_dict_get_insert(d0, key(MetaKey::Length), Bencode::Int((l as i64) as int), k2);
        }
    }
    if let Some(l) = i.length {
        lemma_dict_get_insert(d0, key(MetaKey::Length), Bencode::Int((l as i64) as int), key(MetaKey::Length));
    }
    let d2 = match i.files {
        Some(fs) => dict_insert(d1, key(MetaKey::Files), Bencode::List(files_bencode(fs))),
        None => d1,
    };
    assert forall|k2: Seq<u8>| k2 != key(MetaKey::Files) implies #[trigger] dict_get(d2, k2) == dict_get(d1, k2) by {
        if let Some(fs) = i.files {
            lemma_dict_get_insert(d1, key(MetaKey::Files), Bencode::List(files_bencode(fs)), k2);
        }
    }
    if let Some(fs) = i.files {
        lemma_dict_get_insert(d1, key(MetaKey::Files), Bencode::List(files_bencode(fs)), key(MetaKey::Files));
    }
    assert forall|k2: Seq<u8>| k2 != key(MetaKey::Private) implies #[trigger] dict_get(info_entries(i), k2) == dict_get(d2, k2) by {
        if let Some(p) = i.private {
            lemma_dict_get_insert(d2, key(MetaKey::Private), Bencode::Int(p as int), k2);
        }
    }
    if let Some(p) = i.private {
        lemma_dict_get_insert(d2, key(MetaKey::Private), Bencode::Int(p as int), key(MetaKey::Private));
    }
    assert(dict_get(d0, key(MetaKey::Length)) is None);
    assert(dict_get(d0, key(MetaKey::Files)) is None);
    assert(dict_get(d1, key(MetaKey::Files)) == dict_get(d0, key(MetaKey::Files)));
    assert(dict_get(d0, key(MetaKey::Private)) is None);
    assert(dict_get(d1, key(MetaKey::Private)) == dict_get(d0, key(MetaKey::Private)));
    assert(dict_get(d2, key(MetaKey::Private)) == dict_get(d1, key(MetaKey::Private)));
    assert(dict_get(d2, key(MetaKey::Length)) == dict_get(d1, key(MetaKey::Length)));
    assert(dict_get(d2, key(MetaKey::Name)) == dict_get(d1, key(MetaKey::Name)));
    assert(dict_get(d2, key(MetaKey::Pieces)) == dict_get(d1, key(MetaKey::Pieces)));
    assert(dict_get(d2, key(MetaKey::PieceLength)) == dict_get(d1, key(MetaKey::PieceLength)));
    assert(dict_get(d1, key(MetaKey::Name)) == dict_get(d0, key(MetaKey::Name)));
    assert(dict_get(d1, key(MetaKey::Pieces)) == dict_get(d0, key(MetaKey::Pieces)));
    assert(dict_get(d1, key(MetaKey::PieceLength)) == dict_get(d0, key(MetaKey::PieceLength)));
    assert(dict_get(info_entries(i), key(MetaKey::Name)) == dict_get(d2, key(MetaKey::Name)));
    assert(dict_get(info_entries(i), key(MetaKey::Pieces)) == dict_get(d2, key(MetaKey::Pieces)));
    assert(dict_get(info_entries(i), key(MetaKey::PieceLength)) == dict_get(d2, key(MetaKey::PieceLength)));
    assert(dict_get(info_entries(i), key(MetaKey::Length)) == dict_get(d2, key(MetaKey::Length)));
    assert(dict_get(info_entries(i), key(MetaKey::Files)) == dict_get(d2, key(MetaKey::Files)));
}

proof fn lemma_info_wf(i: InfoView)
    requires
        text_fits(i.name),
        i.pieces.len() <= usize::MAX,
        i.files matches Some(fs) ==> forall|j: int| 0 <= j < fs.len() ==> file_encodable(#[trigger] fs[j]),
    ensures
        well_formed(Bencode::Dict(info_entries(i))),
{
    lemma_key_shapes();
    let e: Seq<(Seq<u8>, Bencode)> = Seq::empty();
    lemma_text_value_wf(i.name);
    lemma_dict_insert_well_formed(e, key(MetaKey::Name), text_value(i.name));
    let da = dict_insert(e, key(MetaKey::Name), text_value(i.name));
    lemma_dict_insert_well_formed(da, key(MetaKey::PieceLength), Bencode::Int(i.piece_length as int));
    let db = dict_insert(da, key(MetaKey::PieceLength), Bencode::Int(i.piece_length as int));
    lemma_dict_insert_well_formed(db, key(MetaKey::Pieces), byte_string(i.pieces));
    let d0 = info_base(i);
    let d1 = match i.length {
        Some(l) => dict_insert(d0, key(MetaKey::Length), Bencode::Int((l as i64) as int)),
        None => d0,
    };
    if let Some(l) = i.length {
        lemma_dict_insert_well_formed(d0, key(MetaKey::Length), Bencode::Int((l as i64) as int));
    }
    let d2 = match i.files {
        Some(fs) => dict_insert(d1, key(MetaKey::Files), Bencode::List(files_bencode(fs))),
        None => d1,
    };
    if let Some(fs) = i.files {
        lemma_files_roundtrip(fs);
        lemma_dict_insert_well_formed(d1, key(MetaKey::Files), Bencode::List(files_bencode(fs)));
    }
    if let Some(p) = i.private {
        lemma_dict_insert_well_formed(d2, key(MetaKey::Private), Bencode::Int(p as int));
    }
}

proof fn lemma_info_roundtrip(i: InfoView)
    requires
        text_fits(i.name),
        i.pieces.len() <= usize::MAX,
        i.length matches Some(l) ==> l <= i64::MAX,
        i.files matches Some(fs) ==> forall|j: int| 0 <= j < fs.len() ==> file_encodable(#[trigger] fs[j]),
    ensures
        info_of(Bencode::Dict(info_entries(i))) == Some(without_md5(MetaView {
            announce: None,
            created_by: None,
            creation_date: None,
            encoding: None,
            info: i,
        }).info),
{
    lemma_info_get(i);
    lemma_text_value_wf(i.name);
    if let Some(fs) = i.files {
        lemma_files_roundtrip(fs);
    }
    if let Some(l) = i.length {
        assert((l as i64) as int == l);
    }
}

proof fn lemma_meta_get(m: MetaView)
    ensures
        dict_get(meta_entries(m), key(MetaKey::Announce)) == (match m.announce {
            Some(s) => Some(text_value(s)),
            None => None,
        }),
        dict_get(meta_entries(m), key(MetaKey::CreatedBy)) == (match m.created_by {
            Some(s) => Some(text_value(s)),
            None => None,
        }),
        dict_get(meta_entries(m), key(MetaKey::CreationDate)) == (match m.creation_date {
            Some(t) => Some(Bencode::Int(t as int)),
            None => None,
        }),
        dict_get(meta_entries(m), key(MetaKey::Encoding)) == (match m.encoding {
            Some(s) => Some(text_value(s)),
            None => None,
        }),
        dict_get(meta_entries(m), key(MetaKey::Info)) == Some(Bencode::Dict(info_entries(m.info))),
{
    lemma_key_shapes();
    let e: Seq<(Seq<u8>, Bencode)> = Seq::empty();
    let d0 = match m.announce {
        Some(s) => dict_insert(e, key(MetaKey::Announce), text_value(s)),
        None => e,
    };
    assert forall|k2: Seq<u8>| #[trigger] dict_get(d0, k2) == (if k2 == key(MetaKey::Announce) {
        match m.announce {
            Some(s) => Some(text_value(s)),
            None => None,
        }
    } else {
        None
    }) by {
        if let Some(s) = m.announce {
            lemma_dict_get_insert(e, key(MetaKey::Announce), text_value(s), k2);
        }
    }
    let d1 = match m.created_by {
        Some(s) => dict_insert(d0, key(MetaKey::CreatedBy), text_value(s)),
        None => d0,
    };
    assert forall|k2: Seq<u8>| #[trigger] dict_get(d1, k2) == (if k2 == key(MetaKey::CreatedBy) {
        match m.created_by {
            Some(s) => Some(text_value(s)),
            None => None,
        }
    } else {
        dict_get(d0, k2)
    }) by {
        if let Some(s) = m.created_by {
            lemma_dict_get_insert(d0, key(MetaKey::CreatedBy), text_value(s), k2);
        }
    }
    let d2 = match m.creation_date {
        Some(t) => dict_insert(d1, key(MetaKey::CreationDate), Bencode::Int(t as int)),
        None => d1,
    };
    assert forall|k2: Seq<u8>| #[trigger] dict_get(d2, k2) == (if k2 == key(MetaKey::CreationDate) {
        match m.creation_date {
            Some(t) => Some(Bencode::Int(t as int)),
            None => None,
        }
    } else {
        dict_get(d1, k2)
    }) by {
        if let Some(t) = m.creation_date {
            lemma_dict_get_insert(d1, key(MetaKey::CreationDate), Bencode::Int(t as int), k2);
        }
    }
    let d3 = match m.encoding {
        Some(s) => dict_insert(d2, key(MetaKey::Encoding), text_value(s)),
        None => d2,
    };
    assert forall|k2: Seq<u8>| #[trigger] dict_get(d3, k2) == (if k2 == key(MetaKey::Encoding) {
        match m.encoding {
            Some(s) => Some(text_value(s)),
            None => None,
        }
    } else {
        dict_get(d2, k2)
    }) by {
        if let Some(s) = m.encoding {
            lemma_dict_get_insert(d2, key(MetaKey::Encoding), text_value(s), k2);
        }
    }
    assert forall|k2: Seq<u8>| #[trigger] dict_get(meta_entries(m), k2) == (if k2 == key(MetaKey::Info) {
        Some(Bencode::Dict(info_entries(m.info)))
    } else {
        dict_get(d3, k2)
    }) by {
        lemma_dict_get_insert(d3, key(MetaKey::Info), Bencode::Dict(info_entries(m.info)), k2);
    }
    assert(dict_get(meta_entries(m), key(MetaKey::Announce)) == dict_get(d3, key(MetaKey::Announce)));
    assert(dict_get(d3, key(MetaKey::Announce)) == dict_get(d2, key(MetaKey::Announce)));
    assert(dict_get(d2, key(MetaKey::Announce)) == dict_get(d1, key(MetaKey::Announce)));
    assert(dict_get(d1, key(MetaKey::Announce)) == dict_get(d0, key(MetaKey::Announce)));
    assert(dict_get(meta_entries(m), key(MetaKey::CreatedBy)) == dict_get(d3, key(MetaKey::CreatedBy)));
    assert(dict_get(d3, key(MetaKey::CreatedBy)) == dict_get(d2, key(MetaKey::CreatedBy)));
    assert(dict_get(d2, key(MetaKey::CreatedBy)) == dict_get(d1, key(MetaKey::CreatedBy)));
    assert(dict_get(meta_entries(m), key(MetaKey::CreationDate)) == dict_get(d3, key(MetaKey::CreationDate)));
    assert(dict_get(d3, key(MetaKey::CreationDate)) == dict_get(d2, key(MetaKey::CreationDate)));
    assert(dict_get(meta_entries(m), key(MetaKey::Encoding)) == dict_get(d3, key(MetaKey::Encoding)));
}

proof fn lemma_meta_wf(m: MetaView)
    requires
        encodable(m),
    ensures
        well_formed(Bencode::Dict(meta_entries(m))),
{
    lemma_key_shapes();
    let e: Seq<(Seq<u8>, Bencode)> = Seq::empty();
    let d0 = match m.announce {
        Some(s) => dict_insert(e, key(MetaKey::Announce), text_value(s)),
        None => e,
    };
    if let Some(s) = m.announce {
        lemma_text_value_wf(s);
        lemma_dict_insert_well_formed(e, key(MetaKey::Announce), text_value(s));
    }
    let d1 = match m.created_by {
        Some(s) => dict_insert(d0, key(MetaKey::CreatedBy), text_value(s)),
        None => d0,
    };
    if let Some(s) = m.created_by {
        lemma_text_value_wf(s);
        lemma_dict_insert_well_formed(d0, key(MetaKey::CreatedBy), text_value(s));
    }
    let d2 = match m.creation_date {
        Some(t) => dict_insert(d1, key(MetaKey::CreationDate), Bencode::Int(t as int)),
        None => d1,
    };
    if let Some(t) = m.creation_date {
        lemma_dict_insert_well_formed(d1, key(MetaKey::CreationDate), Bencode::Int(t as int));
    }
    let d3 = match m.encoding {
        Some(s) => dict_insert(d2, key(MetaKey::Encoding), text_value(s)),
        None => d2,
    };
    if let Some(s) = m.encoding {
        lemma_text_value_wf(s);
        lemma_dict_insert_well_formed(d2, key(MetaKey::Encoding), text_value(s));
    }
    lemma_info_wf(m.info);
    lemma_dict_insert_well_formed(d3, key(MetaKey::Info), Bencode::Dict(info_entries(m.info)));
}

/// Every length of a torrent is a bencode integer (`i64`).
pub open spec fn ints_fit(m: MetaView) -> bool {
    &&& (m.info.length matches Some(l) ==> l <= i64::MAX)
    &&& (m.info.files matches Some(fs) ==> forall|i: int| 0 <= i < fs.len() ==> (#[trigger] fs[i]).length <= i64::MAX)
}

/// A torrent whose bencoded dictionary is one a `BencodeValue` holds has
/// strings and hashes that fit in memory.
proof fn lemma_shaped_meta(m: MetaView)
    requires
        shaped(Bencode::Dict(meta_entries(m))),
        ints_fit(m),
    ensures
        encodable(m),
{
    let es = meta_entries(m);
    lemma_meta_get(m);
    lemma_shaped_get(es, key(MetaKey::Announce));
    lemma_shaped_get(es, key(MetaKey::CreatedBy));
    lemma_shaped_get(es, key(MetaKey::Encoding));
    lemma_shaped_get(es, key(MetaKey::Info));
    let ie = info_entries(m.info);
    assert(shaped(Bencode::Dict(ie)));
    lemma_info_get(m.info);
    lemma_shaped_get(ie, key(MetaKey::Name));
    lemma_shaped_get(ie, key(MetaKey::Pieces));
    lemma_shaped_get(ie, key(MetaKey::Files));
    if let Some(fs) = m.info.files {
        let fb = files_bencode(fs);
        assert(shaped(Bencode::List(fb)));
        assert forall|i: int| 0 <= i < fs.len() implies file_encodable(#[trigger] fs[i]) by {
            lemma_shaped_list_index(fb, i);
            assert(fb[i] == Bencode::Dict(file_entries(fs[i])));
            lemma_file_get(fs[i]);
            lemma_shaped_get(file_entries(fs[i]), key(MetaKey::Path));
            let tl = text_list(fs[i].path);
            assert(shaped(Bencode::List(tl)));
            assert forall|j: int| 0 <= j < fs[i].path.len() implies text_fits(#[trigger] fs[i].path[j]) by {
                lemma_shaped_list_index(tl, j);
                assert(tl[j] == text_value(fs[i].path[j]));
            }
        }
    }
}

/// Reading a torrent back from the bytes that `to_bencode` writes gives the
/// torrent, but for the `md5sum` fields, which the bencoding does not carry.
/// It holds where every length is a bencode integer (`i64`) and every string
/// fits in memory.
pub proof fn lemma_torrent_roundtrip(m: MetaView)
    requires
        encodable(m),
    ensures
        parse_torrent(torrent_bytes(m)) == Some(without_md5(m)),
{
    let x = Bencode::Dict(meta_entries(m));
    lemma_meta_wf(m);
    lemma_decode_inverts_encode(x, Seq::empty());
    assert(spec_encode(x) + Seq::<u8>::empty() =~= spec_encode(x));
    lemma_meta_get(m);
    lemma_info_roundtrip(m.info);
    if let Some(s) = m.announce {
        lemma_text_value_wf(s);
    }
    if let Some(s) = m.created_by {
        lemma_text_value_wf(s);
    }
    if let Some(s) = m.encoding {
        lemma_text_value_wf(s);
    }
}

// ===================================================================
// Making torrents
// ===================================================================

/// The piece hashes of `content`: the SHA-1 of each `pl`-byte chunk, the
/// last chunk possibly shorter, one after another; nothing when `pl` is 0.
pub open spec fn piece_hashes(content: Seq<u8>, pl: nat) -> Seq<u8>
    decreases content.len(),
{
    if pl == 0 || content.len() == 0 {
        Seq::empty()
    } else if content.len() <= pl {
        sha1_digest(content)
    } else {
        sha1_digest(content.take(pl as int)) + piece_hashes(content.skip(pl as int), pl)
    }
}

/// How many pieces `len` bytes make in pieces of `pl` bytes, the last one
/// possibly shorter; none when `pl` is 0.
pub open spec fn piece_total(len: nat, pl: nat) -> nat {
    if pl == 0 {
        0
    } else {
        ((len + pl - 1) / (pl as int)) as nat
    }
}

/// The bytes of piece `i` of `content` in pieces of `pl` bytes.
pub open spec fn piece_chunk(content: Seq<u8>, pl: nat, i: int) -> Seq<u8> {
    let end = if (i + 1) * pl <= content.len() {
        (i + 1) * pl
    } else {
        content.len() as int
    };
    content.subrange(i * pl, end)
}

/// `pieces` holds 20 bytes for each piece of `content`, the SHA-1 digest of
/// that piece's bytes.
pub open spec fn hashes_each_piece(pieces: Seq<u8>, content: Seq<u8>, pl: nat) -> bool {
    &&& pieces.len() == 20 * piece_total(content.len(), pl)
    &&& forall|i: int|
        0 <= i < piece_total(content.len(), pl) ==> pieces.subrange(20 * i, 20 * i + 20) == sha1_digest(
            #[trigger] piece_chunk(content, pl, i),
        )
}

/// `k` pieces of `pl` bytes fall short of `len` bytes and `k + 1` reach
/// them: `len` makes `k + 1` pieces.
proof fn lemma_last_piece(len: int, pl: int, k: int)
    requires
        pl > 0,
        k >= 0,
        k * pl < len <= k * pl + pl,
    ensures
        piece_total(len as nat, pl as nat) == k + 1,
{
    let n = len + pl - 1;
    assert((k + 1) * pl == k * pl + pl) by (nonlinear_arith);
    vstd::arithmetic::div_mod::lemma_fundamental_div_mod_converse(n, pl, k + 1, n - (k + 1) * pl);
}

/// The piece size asked for, else the default.
pub open spec fn chosen_piece_length(piece_length: Option<u32>) -> u32 {
    match piece_length {
        Some(p) => p,
        None => crate::torrent::DEFAULT_PIECE_LENGTH,
    }
}

/// The `created by` string: the library's name and version.
pub open spec fn creator_text() -> Seq<char> {
    "sharSelf/"@ + crate::VERSION@
}

/// The metadata every new torrent carries: no tracker, this library as the
/// creator, the creation time, UTF-8 strings, and the private flag set.
pub open spec fn new_torrent(creation_date: i64, info: InfoView) -> MetaView {
    MetaView {
        announce: None,
        created_by: Some(creator_text()),
        creation_date: Some(creation_date),
        encoding: Some("UTF-8"@),
        info,
    }
}

proof fn lemma_piece_hashes_step(content: Seq<u8>, pos: int, pl: nat)
    requires
        pl > 0,
        0 <= pos < content.len(),
    ensures
        piece_hashes(content.skip(pos), pl) == (if content.len() - pos <= pl {
            sha1_digest(content.skip(pos))
        } else {
            sha1_digest(content.subrange(pos, pos + pl)) + piece_hashes(content.skip(pos + pl), pl)
        }),
{
    let t = content.skip(pos);
    if t.len() > pl {
        assert(t.take(pl as int) =~= content.subrange(pos, pos + pl));
        assert(t.skip(pl as int) =~= content.skip(pos + pl));
    }
}

impl TorrentMetaInfo {
    /// The piece hashes of `content` in pieces of `piece_length` bytes.
    pub fn compute_pieces(content: &[u8], piece_length: u32) -> (r: Vec<u8>)
        ensures
            r@ == piece_hashes(content@, piece_length as nat),
            hashes_each_piece(r@, content@, piece_length as nat),
    {
        let mut out: Vec<u8> = Vec::new();
        if piece_length == 0 {
            return out;
        }
        let pl = piece_length as usize;
        let mut pos: usize = 0;
        let ghost mut k: int = 0;
        assert(content@.skip(0) =~= content@);
        while pos < content.len()
            invariant
                pl == piece_length as usize,
                pl > 0,
                pos <= content@.len(),
                out@ + piece_hashes(content@.skip(pos as int), pl as nat) == piece_hashes(content@, pl as nat),
                k >= 0,
                pos < content@.len() ==> pos == k * pl,
                pos == content@.len() && content@.len() > 0 ==> piece_total(content@.len(), pl as nat) == k,
                out@.len() == 20 * k,
                forall|i: int|
                    0 <= i < k ==> out@.subrange(20 * i, 20 * i + 20) == sha1_digest(
                        #[trigger] piece_chunk(content@, pl as nat, i),
                    ),
            decreases content.len() - pos,
        {
            proof {
                lemma_piece_hashes_step(content@, pos as int, pl as nat);
            }
            let rest = content.len() - pos;
            let end = if rest <= pl { content.len() } else { pos + pl };
            let chunk = vstd::slice::slice_subrange(content, pos, end);
            let h = sha1(chunk);
            let ghost before = out@;
            let mut j: usize = 0;
            while j < 20
                invariant
                    j <= 20,
                    out@ == before + h@.take(j as int),
                decreases 20 - j,
            {
                out.push(h[j]);
                j = j + 1;
                assert(out@ =~= before + h@.take(j as int));
            }
            assert(h@.take(20) =~= h@);
            if rest <= pl {
                assert(content@.skip(end as int) =~= Seq::<u8>::empty());
                assert(chunk@ =~= content@.skip(pos as int));
            }
            proof {
                assert((k + 1) * pl == k * pl + pl) by (nonlinear_arith);
                assert(chunk@ =~= piece_chunk(content@, pl as nat, k));
                assert forall|i: int| 0 <= i < k + 1 implies out@.subrange(20 * i, 20 * i + 20) == sha1_digest(
                    #[trigger] piece_chunk(content@, pl as nat, i),
                ) by {
                    if i < k {
                        assert(out@.subrange(20 * i, 20 * i + 20) =~= before.subrange(20 * i, 20 * i + 20));
                    } else {
                        assert(out@.subrange(20 * i, 20 * i + 20) =~= h@);
                    }
                }
                if rest <= pl {
                    lemma_last_piece(content@.len() as int, pl as int, k);
                }
                k = k + 1;
            }
            pos = end;
            proof {
                assert(out@ + piece_hashes(content@.skip(pos as int), pl as nat) =~= before + (h@
                    + piece_hashes(content@.skip(pos as int), pl as nat)));
            }
        }
        assert(content@.skip(pos as int) =~= Seq::<u8>::empty());
        assert(out@ + Seq::<u8>::empty() =~= out@);
        proof {
            if content@.len() == 0 {
                vstd::arithmetic::div_mod::lemma_fundamental_div_mod_converse(pl - 1, pl as int, 0, pl - 1);
            }
        }
        out
    }

    fn creator() -> (r: String)
        ensures
            r@ == creator_text(),
    {
        let mut c = "sharSelf/".to_string();
        c.append(crate::VERSION);
        c
    }

    /// The torrent of one file named `file_name` with these contents.
    pub fn new_single_file(file_name: String, content: &[u8], piece_length: Option<u32>, creation_date: i64) -> (r: TorrentMetaInfo)
        ensures
            r@ == new_torrent(
                creation_date,
                InfoView {
                    name: file_name@,
                    piece_length: chosen_piece_length(piece_length),
                    pieces: piece_hashes(content@, chosen_piece_length(piece_length) as nat),
                    length: Some(content@.len() as u64),
                    files: None,
                    private: Some(1),
                    md5sum: None,
                },
            ),
            hashes_each_piece(r.info.pieces@, content@, chosen_piece_length(piece_length) as nat),
    {
        let pl = match piece_length {
            Some(p) => p,
            None => crate::torrent::DEFAULT_PIECE_LENGTH,
        };
        let pieces = Self::compute_pieces(content, pl);
        let info = TorrentInfo {
            name: file_name,
            piece_length: pl,
            pieces,
            length: Some(content.len() as u64),
            files: None,
            private: Some(1),
            md5sum: None,
        };
        TorrentMetaInfo {
            announce: None,
            created_by: Some(Self::creator()),
            creation_date: Some(creation_date),
            encoding: Some("UTF-8".to_string()),
            info,
        }
    }

    /// The torrent of a directory named `dir_name` holding `files`, whose
    /// contents, one after another in that order, are `content`. A directory
    /// without files is an error.
    pub fn new_directory(
        dir_name: String,
        files: Vec<FileInfo>,
        content: &[u8],
        piece_length: Option<u32>,
        creation_date: i64,
    ) -> (r: Result<TorrentMetaInfo, Error>)
        ensures
            files@.len() == 0 <==> r is Err,
            r matches Ok(m) ==> m@ == new_torrent(
                creation_date,
                InfoView {
                    name: dir_name@,
                    piece_length: chosen_piece_length(piece_length),
                    pieces: piece_hashes(content@, chosen_piece_length(piece_length) as nat),
                    length: None,
                    files: Some(files_view(files@)),
                    private: Some(1),
                    md5sum: None,
                },
            ),
            r matches Ok(m) ==> hashes_each_piece(m.info.pieces@, content@, chosen_piece_length(piece_length) as nat),
    {
        if files.len() == 0 {
            return Err(Error::Other("No files found in directory".to_string()));
        }
        let pl = match piece_length {
            Some(p) => p,
            None => crate::torrent::DEFAULT_PIECE_LENGTH,
        };
        let pieces = Self::compute_pieces(content, pl);
        let info = TorrentInfo {
            name: dir_name,
            piece_length: pl,
            pieces,
            length: None,
            files: Some(files),
            private: Some(1),
            md5sum: None,
        };
        Ok(
            TorrentMetaInfo {
                announce: None,
                created_by: Some(Self::creator()),
                creation_date: Some(creation_date),
                encoding: Some("UTF-8".to_string()),
                info,
            },
        )
    }
}

/// A torrent together with where its content lives and its bencoding.
#[derive(Debug, Clone)]
pub struct TorrentFile {
    pub metainfo: TorrentMetaInfo,
    /// The local path of the content.
    pub local_path: String,
    /// The bencoded metadata, as handed to peers.
    pub torrent_data: Vec<u8>,
}

impl TorrentFile {
    /// A torrent file for `metainfo` whose content lives at `local_path`,
    /// with its bencoding.
    pub fn create(metainfo: TorrentMetaInfo, local_path: String) -> (r: Result<TorrentFile, Error>)
        ensures
            r matches Ok(t) && t.metainfo@ == metainfo@ && t.local_path@ == local_path@
                && t.torrent_data@ == torrent_bytes(metainfo@),
    {
        let torrent_data = match metainfo.to_bencode() {
            Ok(b) => b,
            Err(e) => {
                return Err(e);
            },
        };
        Ok(TorrentFile { metainfo, local_path, torrent_data })
    }

    /// A torrent file read from its bencoding, to be downloaded to
    /// `download_path`.
    pub fn from_bencode(data: Vec<u8>, download_path: String) -> (r: Result<TorrentFile, Error>)
        ensures
            match r {
                Ok(t) => parse_torrent(data@) == Some(t.metainfo@) && t.torrent_data@ == data@
                    && t.local_path@ == download_path@,
                Err(_) => parse_torrent(data@) is None,
            },
    {
        let metainfo = match TorrentMetaInfo::from_bencode(data.as_slice()) {
            Ok(m) => m,
            Err(e) => {
                return Err(e);
            },
        };
        Ok(TorrentFile { metainfo, local_path: download_path, torrent_data: data })
    }

    /// The info hash of the torrent.
    pub fn info_hash(&self) -> (r: Result<[u8; 20], Error>)
        ensures
            r matches Ok(h) && h@ == info_hash_of(self.metainfo.info@),
    {
        self.metainfo.info_hash()
    }

    /// The number of pieces.
    pub fn piece_count(&self) -> (r: usize)
        ensures
            r == self.metainfo.info.pieces@.len() / 20,
    {
        self.metainfo.piece_count()
    }
}

} // verus!
