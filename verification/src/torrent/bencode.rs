//! Bencode, the encoding of `.torrent` metadata: byte strings, integers,
//! lists and dictionaries whose keys are byte strings in sorted order.

use vstd::prelude::*;
use vstd::utf8::*;
use crate::common::decimal::{
    is_digit, nat_digits, int_digits, parse_usize_spec, parse_i64_spec, lemma_nat_digits_shape,
    lemma_unsigned_value_of_digits, lemma_signed_value_of_digits,
};

verus! {

// ===================================================================
// The data model
// ===================================================================

/// A bencoded value as data. `text` records whether a byte string is valid
/// UTF-8 (the decoder hands such strings out as `String`).
pub enum Bencode {
    Bytes { bytes: Seq<u8>, text: bool },
    Int(int),
    List(Seq<Bencode>),
    Dict(Seq<(Seq<u8>, Bencode)>),
}

/// Byte strings in the order of `Vec<u8>`'s `Ord`: lexicographic, a proper
/// prefix before the longer string.
pub open spec fn lex_lt(a: Seq<u8>, b: Seq<u8>) -> bool
    decreases a.len(),
{
    if a.len() == 0 {
        b.len() > 0
    } else if b.len() == 0 {
        false
    } else if a[0] < b[0] {
        true
    } else if a[0] > b[0] {
        false
    } else {
        lex_lt(a.drop_first(), b.drop_first())
    }
}

/// The keys of `es` strictly increase, as the keys of a `BTreeMap` do.
pub open spec fn keys_sorted(es: Seq<(Seq<u8>, Bencode)>) -> bool {
    forall|i: int, j: int| 0 <= i < j < es.len() ==> lex_lt(#[trigger] es[i].0, #[trigger] es[j].0)
}

/// A value that the decoder can produce: byte strings flagged as text exactly
/// when they are valid UTF-8 and no longer than memory allows, integers that
/// fit `i64`, dictionary keys in strictly increasing order.
pub open spec fn well_formed(x: Bencode) -> bool
    decreases x,
{
    match x {
        Bencode::Bytes { bytes, text } => text == valid_utf8(bytes) && bytes.len() <= usize::MAX,
        Bencode::Int(n) => i64::MIN <= n <= i64::MAX,
        Bencode::List(items) => well_formed_list(items),
        Bencode::Dict(es) => keys_sorted(es) && well_formed_entries(es),
    }
}

/// Every item is well formed.
pub open spec fn well_formed_list(items: Seq<Bencode>) -> bool
    decreases items,
{
    items.len() == 0 || (well_formed(items[0]) && well_formed_list(items.subrange(1, items.len() as int)))
}

/// Every key fits in memory and every value is well formed.
pub open spec fn well_formed_entries(es: Seq<(Seq<u8>, Bencode)>) -> bool
    decreases es,
{
    es.len() == 0 || (es[0].0.len() <= usize::MAX && well_formed(es[0].1) && well_formed_entries(
        es.subrange(1, es.len() as int),
    ))
}

/// Inserting into a sorted dictionary as `BTreeMap::insert` does: a present
/// key gets the new value, a new key goes to its place in the order.
pub open spec fn dict_insert(es: Seq<(Seq<u8>, Bencode)>, k: Seq<u8>, v: Bencode) -> Seq<(Seq<u8>, Bencode)>
    decreases es.len(),
{
    if es.len() == 0 {
        seq![(k, v)]
    } else if es[0].0 == k {
        seq![(k, v)] + es.drop_first()
    } else if lex_lt(k, es[0].0) {
        seq![(k, v)] + es
    } else {
        seq![es[0]] + dict_insert(es.drop_first(), k, v)
    }
}

/// The value stored under `k`.
pub open spec fn dict_get(es: Seq<(Seq<u8>, Bencode)>, k: Seq<u8>) -> Option<Bencode>
    decreases es.len(),
{
    if es.len() == 0 {
        None
    } else if es[0].0 == k {
        Some(es[0].1)
    } else {
        dict_get(es.drop_first(), k)
    }
}

// ===================================================================
// The encoding
// ===================================================================

/// A byte string: its length in decimal, a colon, the bytes.
pub open spec fn spec_encode_bytes(b: Seq<u8>) -> Seq<u8> {
    nat_digits(b.len()) + seq![58u8] + b
}

/// The bencoding of a value.
pub open spec fn spec_encode(x: Bencode) -> Seq<u8>
    decreases x,
{
    match x {
        Bencode::Bytes { bytes, .. } => spec_encode_bytes(bytes),
        Bencode::Int(n) => seq![105u8] + int_digits(n) + seq![101u8],
        Bencode::List(items) => seq![108u8] + spec_encode_list(items) + seq![101u8],
        Bencode::Dict(es) => seq![100u8] + spec_encode_entries(es) + seq![101u8],
    }
}

/// The encodings of list items, one after another.
pub open spec fn spec_encode_list(items: Seq<Bencode>) -> Seq<u8>
    decreases items,
{
    if items.len() == 0 {
        Seq::empty()
    } else {
        spec_encode(items[0]) + spec_encode_list(items.subrange(1, items.len() as int))
    }
}

/// The encodings of dictionary entries, key then value, one after another.
pub open spec fn spec_encode_entries(es: Seq<(Seq<u8>, Bencode)>) -> Seq<u8>
    decreases es,
{
    if es.len() == 0 {
        Seq::empty()
    } else {
        spec_encode_bytes(es[0].0) + spec_encode(es[0].1) + spec_encode_entries(
            es.subrange(1, es.len() as int),
        )
    }
}

// ===================================================================
// The decoding
// ===================================================================

/// The index of the first `c` in `s`.
pub open spec fn find_byte(s: Seq<u8>, c: u8) -> Option<int>
    decreases s.len(),
{
    if s.len() == 0 {
        None
    } else if s[0] == c {
        Some(0)
    } else {
        match find_byte(s.drop_first(), c) {
            Some(i) => Some(i + 1),
            None => None,
        }
    }
}

/// A byte string at the start of `s`: the bytes and how many bytes of `s` it spans.
pub open spec fn spec_decode_bytes(s: Seq<u8>) -> Option<(Seq<u8>, int)> {
    match find_byte(s, 58u8) {
        None => None,
        Some(colon) => match parse_usize_spec(s.take(colon)) {
            None => None,
            Some(len) => if colon + 1 + len <= s.len() {
                Some((s.subrange(colon + 1, colon + 1 + len), colon + 1 + len))
            } else {
                None
            },
        },
    }
}

/// An integer at the start of `s`, whose first byte is `i`: the digits up
/// to the first `e`, read as an `i64`.
pub open spec fn spec_decode_int(s: Seq<u8>) -> Option<(int, int)> {
    match find_byte(s.drop_first(), 101u8) {
        None => None,
        Some(e) => match parse_i64_spec(s.subrange(1, 1 + e)) {
            Some(n) => Some((n as int, e + 2)),
            None => None,
        },
    }
}

/// The value at the start of `s` and how many bytes it spans.
pub open spec fn spec_decode(s: Seq<u8>) -> Option<(Bencode, int)>
    decreases s.len(), 0int,
{
    if s.len() == 0 {
        None
    } else if s[0] == 100u8 {
        match spec_decode_entries(s.drop_first(), Seq::empty()) {
            Some((es, n)) => Some((Bencode::Dict(es), n + 1)),
            None => None,
        }
    } else if s[0] == 108u8 {
        match spec_decode_items(s.drop_first()) {
            Some((items, n)) => Some((Bencode::List(items), n + 1)),
            None => None,
        }
    } else if s[0] == 105u8 {
        match spec_decode_int(s) {
            Some((n, len)) => Some((Bencode::Int(n), len)),
            None => None,
        }
    } else if is_digit(s[0]) {
        match spec_decode_bytes(s) {
            Some((b, len)) => Some((Bencode::Bytes { bytes: b, text: valid_utf8(b) }, len)),
            None => None,
        }
    } else {
        None
    }
}

/// List items up to and including the closing `e`.
pub open spec fn spec_decode_items(s: Seq<u8>) -> Option<(Seq<Bencode>, int)>
    decreases s.len(), 1int,
{
    if s.len() == 0 {
        None
    } else if s[0] == 101u8 {
        Some((Seq::empty(), 1))
    } else {
        match spec_decode(s) {
            None => None,
            Some((v, n)) => if 0 < n <= s.len() {
                match spec_decode_items(s.skip(n)) {
                    Some((rest, m)) => Some((seq![v] + rest, n + m)),
                    None => None,
                }
            } else {
                None
            },
        }
    }
}

/// Dictionary entries up to and including the closing `e`, each inserted
/// into `acc` in turn.
pub open spec fn spec_decode_entries(s: Seq<u8>, acc: Seq<(Seq<u8>, Bencode)>) -> Option<
    (Seq<(Seq<u8>, Bencode)>, int),
>
    decreases s.len(), 1int,
{
    if s.len() == 0 {
        None
    } else if s[0] == 101u8 {
        Some((acc, 1))
    } else {
        match spec_decode_bytes(s) {
            None => None,
            Some((k, kn)) => if 0 < kn <= s.len() {
                match spec_decode(s.skip(kn)) {
                    None => None,
                    Some((v, vn)) => if 0 < vn <= s.len() - kn {
                        match spec_decode_entries(s.skip(kn + vn), dict_insert(acc, k, v)) {
                            Some((es, m)) => Some((es, kn + vn + m)),
                            None => None,
                        }
                    } else {
                        None
                    },
                }
            } else {
                None
            },
        }
    }
}


// ===================================================================
// Decoding inverts encoding
// ===================================================================

pub(crate) proof fn lemma_lex_lt_irreflexive(a: Seq<u8>)
    ensures
        !lex_lt(a, a),
    decreases a.len(),
{
    if a.len() > 0 {
        lemma_lex_lt_irreflexive(a.drop_first());
    }
}

pub(crate) proof fn lemma_lex_lt_asymmetric(a: Seq<u8>, b: Seq<u8>)
    requires
        lex_lt(a, b),
    ensures
        !lex_lt(b, a),
    decreases a.len(),
{
    if a.len() > 0 && b.len() > 0 && a[0] == b[0] {
        lemma_lex_lt_asymmetric(a.drop_first(), b.drop_first());
    }
}

/// A key above every key of `acc` is inserted at the end.
proof fn lemma_dict_insert_greatest(acc: Seq<(Seq<u8>, Bencode)>, k: Seq<u8>, v: Bencode)
    requires
        forall|j: int| 0 <= j < acc.len() ==> lex_lt(#[trigger] acc[j].0, k),
    ensures
        dict_insert(acc, k, v) == acc.push((k, v)),
    decreases acc.len(),
{
    if acc.len() > 0 {
        assert(lex_lt(acc[0].0, k));
        lemma_lex_lt_irreflexive(k);
        lemma_lex_lt_asymmetric(acc[0].0, k);
        let t = acc.drop_first();
        assert forall|j: int| 0 <= j < t.len() implies lex_lt(#[trigger] t[j].0, k) by {
            assert(t[j] == acc[j + 1]);
        }
        lemma_dict_insert_greatest(t, k, v);
        assert(seq![acc[0]] + t.push((k, v)) =~= acc.push((k, v)));
    }
}

/// Searching past a prefix that does not hold the byte.
proof fn lemma_find_byte_after(a: Seq<u8>, b: Seq<u8>, c: u8)
    requires
        forall|i: int| 0 <= i < a.len() ==> #[trigger] a[i] != c,
    ensures
        find_byte(a + b, c) == match find_byte(b, c) {
            Some(i) => Some(i + a.len()),
            None => None::<int>,
        },
    decreases a.len(),
{
    if a.len() == 0 {
        assert(a + b =~= b);
    } else {
        let t = a.drop_first();
        assert forall|i: int| 0 <= i < t.len() implies #[trigger] t[i] != c by {
            assert(t[i] == a[i + 1]);
        }
        lemma_find_byte_after(t, b, c);
        assert((a + b).drop_first() =~= t + b);
        assert((a + b)[0] == a[0]);
    }
}

proof fn lemma_decode_encoded_bytes(b: Seq<u8>, rest: Seq<u8>)
    requires
        b.len() <= usize::MAX,
    ensures
        spec_decode_bytes(spec_encode_bytes(b) + rest) == Some((b, spec_encode_bytes(b).len() as int)),
        spec_encode_bytes(b).len() > 0,
        is_digit(spec_encode_bytes(b)[0]),
{
    let d = nat_digits(b.len());
    lemma_nat_digits_shape(b.len());
    lemma_unsigned_value_of_digits(b.len());
    let s = spec_encode_bytes(b) + rest;
    assert(s =~= d + (seq![58u8] + b + rest));
    assert forall|i: int| 0 <= i < d.len() implies #[trigger] d[i] != 58u8 by {
        assert(is_digit(d[i]));
    }
    lemma_find_byte_after(d, seq![58u8] + b + rest, 58u8);
    assert(find_byte(seq![58u8] + b + rest, 58u8) == Some(0int));
    assert(s.take(d.len() as int) =~= d);
    assert(s.subrange(d.len() + 1int, d.len() + 1 + b.len() as int) =~= b);
    assert(is_digit(d[0]));
    assert(spec_encode_bytes(b)[0] == d[0]);
}

proof fn lemma_decode_encoded_int(n: int, rest: Seq<u8>)
    requires
        i64::MIN <= n <= i64::MAX,
    ensures
        spec_decode_int(seq![105u8] + int_digits(n) + seq![101u8] + rest) == Some(
            (n, int_digits(n).len() + 2int),
        ),
{
    let d = int_digits(n);
    lemma_signed_value_of_digits(n);
    let s = seq![105u8] + d + seq![101u8] + rest;
    assert(s.drop_first() =~= d + (seq![101u8] + rest));
    assert forall|i: int| 0 <= i < d.len() implies #[trigger] d[i] != 101u8 by {
        assert(is_digit(d[i]) || d[i] == 45u8);
    }
    lemma_find_byte_after(d, seq![101u8] + rest, 101u8);
    assert(find_byte(seq![101u8] + rest, 101u8) == Some(0int));
    assert(s.subrange(1, 1 + d.len() as int) =~= d);
}

proof fn lemma_encode_first_byte(x: Bencode)
    requires
        well_formed(x),
    ensures
        spec_encode(x).len() > 0,
        spec_encode(x)[0] != 101u8,
{
    match x {
        Bencode::Bytes { bytes, .. } => {
            lemma_decode_encoded_bytes(bytes, Seq::empty());
        },
        _ => {},
    }
}

/// Decoding the encoding of a well-formed value gives the value back and
/// consumes exactly its encoding, whatever follows it.
pub proof fn lemma_decode_inverts_encode(x: Bencode, rest: Seq<u8>)
    requires
        well_formed(x),
    ensures
        spec_decode(spec_encode(x) + rest) == Some((x, spec_encode(x).len() as int)),
    decreases x,
{
    let s = spec_encode(x) + rest;
    match x {
        Bencode::Bytes { bytes, text } => {
            lemma_decode_encoded_bytes(bytes, rest);
            assert(s[0] == spec_encode(x)[0]);
        },
        Bencode::Int(n) => {
            lemma_decode_encoded_int(n, rest);
            lemma_signed_value_of_digits(n);
            assert(s[0] == 105u8);
        },
        Bencode::List(items) => {
            lemma_decode_items(items, rest);
            assert(s.drop_first() =~= spec_encode_list(items) + seq![101u8] + rest);
            assert(s[0] == 108u8);
        },
        Bencode::Dict(es) => {
            lemma_decode_entries(es, Seq::empty(), rest);
            assert(Seq::<(Seq<u8>, Bencode)>::empty() + es =~= es);
            assert(s.drop_first() =~= spec_encode_entries(es) + seq![101u8] + rest);
            assert(s[0] == 100u8);
        },
    }
}

proof fn lemma_decode_items(items: Seq<Bencode>, rest: Seq<u8>)
    requires
        well_formed_list(items),
    ensures
        spec_decode_items(spec_encode_list(items) + seq![101u8] + rest) == Some(
            (items, spec_encode_list(items).len() + 1int),
        ),
    decreases items,
{
    let s = spec_encode_list(items) + seq![101u8] + rest;
    if items.len() == 0 {
        assert(s[0] == 101u8);
        assert(items =~= Seq::<Bencode>::empty());
    } else {
        let first = items[0];
        let tail = items.subrange(1, items.len() as int);
        let after = spec_encode_list(tail) + seq![101u8] + rest;
        assert(s =~= spec_encode(first) + after);
        lemma_decode_inverts_encode(first, after);
        lemma_encode_first_byte(first);
        assert(s[0] == spec_encode(first)[0]);
        let n = spec_encode(first).len() as int;
        assert(s.skip(n) =~= after);
        lemma_decode_items(tail, rest);
        assert(seq![first] + tail =~= items);
    }
}

proof fn lemma_decode_entries(es: Seq<(Seq<u8>, Bencode)>, acc: Seq<(Seq<u8>, Bencode)>, rest: Seq<u8>)
    requires
        keys_sorted(acc + es),
        well_formed_entries(es),
    ensures
        spec_decode_entries(spec_encode_entries(es) + seq![101u8] + rest, acc) == Some(
            (acc + es, spec_encode_entries(es).len() + 1int),
        ),
    decreases es,
{
    let s = spec_encode_entries(es) + seq![101u8] + rest;
    if es.len() == 0 {
        assert(s[0] == 101u8);
        assert(acc + es =~= acc);
    } else {
        let (k, v) = es[0];
        let tail = es.subrange(1, es.len() as int);
        let after_value = spec_encode_entries(tail) + seq![101u8] + rest;
        let after_key = spec_encode(v) + after_value;
        assert(s =~= spec_encode_bytes(k) + after_key);
        lemma_decode_encoded_bytes(k, after_key);
        assert(s[0] == spec_encode_bytes(k)[0]);
        let kn = spec_encode_bytes(k).len() as int;
        assert(s.skip(kn) =~= after_key);
        lemma_decode_inverts_encode(v, after_value);
        let vn = spec_encode(v).len() as int;
        assert(s.skip(kn + vn) =~= after_value);
        let both = acc + es;
        assert forall|j: int| 0 <= j < acc.len() implies lex_lt(#[trigger] acc[j].0, k) by {
            assert(both[j] == acc[j]);
            assert(both[acc.len() as int] == es[0]);
        }
        lemma_dict_insert_greatest(acc, k, v);
        let acc2 = acc.push((k, v));
        assert(acc2 + tail =~= acc + es);
        lemma_decode_entries(tail, acc2, rest);
    }
}


/// A value as the decoder hands it back: every byte string flagged as text
/// exactly when it is valid UTF-8, inside lists and dictionary values too.
/// Integers, keys and order are kept.
pub open spec fn normalize(x: Bencode) -> Bencode
    decreases x,
{
    match x {
        Bencode::Bytes { bytes, .. } => Bencode::Bytes { bytes, text: valid_utf8(bytes) },
        Bencode::Int(n) => Bencode::Int(n),
        Bencode::List(items) => Bencode::List(normalize_list(items)),
        Bencode::Dict(es) => Bencode::Dict(normalize_entries(es)),
    }
}

/// Each item normalized.
pub open spec fn normalize_list(items: Seq<Bencode>) -> Seq<Bencode>
    decreases items,
{
    if items.len() == 0 {
        Seq::empty()
    } else {
        seq![normalize(items[0])] + normalize_list(items.subrange(1, items.len() as int))
    }
}

/// Each value normalized, the keys kept.
pub open spec fn normalize_entries(es: Seq<(Seq<u8>, Bencode)>) -> Seq<(Seq<u8>, Bencode)>
    decreases es,
{
    if es.len() == 0 {
        Seq::empty()
    } else {
        seq![(es[0].0, normalize(es[0].1))] + normalize_entries(es.subrange(1, es.len() as int))
    }
}

/// A value that a `BencodeValue` can hold: byte strings no longer than
/// memory allows, integers that fit `i64`, dictionary keys in strictly
/// increasing order. Whether a byte string is flagged as text is free.
pub open spec fn shaped(x: Bencode) -> bool
    decreases x,
{
    match x {
        Bencode::Bytes { bytes, .. } => bytes.len() <= usize::MAX,
        Bencode::Int(n) => i64::MIN <= n <= i64::MAX,
        Bencode::List(items) => shaped_list(items),
        Bencode::Dict(es) => keys_sorted(es) && shaped_entries(es),
    }
}

/// Every item is shaped.
pub open spec fn shaped_list(items: Seq<Bencode>) -> bool
    decreases items,
{
    items.len() == 0 || (shaped(items[0]) && shaped_list(items.subrange(1, items.len() as int)))
}

/// Every key fits in memory and every value is shaped.
pub open spec fn shaped_entries(es: Seq<(Seq<u8>, Bencode)>) -> bool
    decreases es,
{
    es.len() == 0 || (es[0].0.len() <= usize::MAX && shaped(es[0].1) && shaped_entries(
        es.subrange(1, es.len() as int),
    ))
}

proof fn lemma_normalize(x: Bencode)
    requires
        shaped(x),
    ensures
        well_formed(normalize(x)),
        spec_encode(normalize(x)) == spec_encode(x),
    decreases x,
{
    match x {
        Bencode::List(items) => {
            lemma_normalize_list(items);
        },
        Bencode::Dict(es) => {
            lemma_normalize_entries(es);
            let ns = normalize_entries(es);
            assert forall|i: int, j: int| 0 <= i < j < ns.len() implies lex_lt(#[trigger] ns[i].0, #[trigger] ns[j].0) by {
                assert(es[i].0 == ns[i].0);
                assert(es[j].0 == ns[j].0);
            }
        },
        _ => {},
    }
}

proof fn lemma_normalize_list(items: Seq<Bencode>)
    requires
        shaped_list(items),
    ensures
        well_formed_list(normalize_list(items)),
        spec_encode_list(normalize_list(items)) == spec_encode_list(items),
    decreases items,
{
    if items.len() > 0 {
        let tail = items.subrange(1, items.len() as int);
        lemma_normalize(items[0]);
        lemma_normalize_list(tail);
        let n = normalize_list(items);
        assert(n[0] == normalize(items[0]));
        assert(n.subrange(1, n.len() as int) =~= normalize_list(tail));
    }
}

proof fn lemma_normalize_entries(es: Seq<(Seq<u8>, Bencode)>)
    requires
        shaped_entries(es),
    ensures
        well_formed_entries(normalize_entries(es)),
        spec_encode_entries(normalize_entries(es)) == spec_encode_entries(es),
        normalize_entries(es).len() == es.len(),
        forall|i: int| 0 <= i < es.len() ==> (#[trigger] normalize_entries(es)[i]).0 == es[i].0,
    decreases es,
{
    if es.len() > 0 {
        let tail = es.subrange(1, es.len() as int);
        lemma_normalize(es[0].1);
        lemma_normalize_entries(tail);
        let n = normalize_entries(es);
        assert(n[0] == (es[0].0, normalize(es[0].1)));
        assert(n.subrange(1, n.len() as int) =~= normalize_entries(tail));
        assert forall|i: int| 0 <= i < es.len() implies (#[trigger] normalize_entries(es)[i]).0 == es[i].0 by {
            if i > 0 {
                assert(n[i] == normalize_entries(tail)[i - 1]);
                assert(tail[i - 1] == es[i]);
            }
        }
    }
}

proof fn lemma_shaped_list_all(items: Seq<Bencode>)
    requires
        forall|j: int| 0 <= j < items.len() ==> shaped(#[trigger] items[j]),
    ensures
        shaped_list(items),
    decreases items.len(),
{
    if items.len() > 0 {
        let t = items.subrange(1, items.len() as int);
        assert forall|j: int| 0 <= j < t.len() implies shaped(#[trigger] t[j]) by {
            assert(t[j] == items[j + 1]);
        }
        lemma_shaped_list_all(t);
    }
}

proof fn lemma_shaped_entries_all(es: Seq<(Seq<u8>, Bencode)>)
    requires
        forall|j: int| 0 <= j < es.len() ==> (#[trigger] es[j]).0.len() <= usize::MAX && shaped(es[j].1),
    ensures
        shaped_entries(es),
    decreases es.len(),
{
    if es.len() > 0 {
        let t = es.subrange(1, es.len() as int);
        assert forall|j: int| 0 <= j < t.len() implies (#[trigger] t[j]).0.len() <= usize::MAX && shaped(t[j].1) by {
            assert(t[j] == es[j + 1]);
        }
        lemma_shaped_entries_all(t);
    }
}

/// The value stored under a key of a shaped dictionary is shaped.
pub(crate) proof fn lemma_shaped_get(es: Seq<(Seq<u8>, Bencode)>, k: Seq<u8>)
    requires
        shaped_entries(es),
    ensures
        dict_get(es, k) matches Some(v) ==> shaped(v),
    decreases es.len(),
{
    if es.len() > 0 && es[0].0 != k {
        assert(es.drop_first() =~= es.subrange(1, es.len() as int));
        lemma_shaped_get(es.drop_first(), k);
    }
}

/// Each item of a shaped list is shaped.
pub(crate) proof fn lemma_shaped_list_index(items: Seq<Bencode>, j: int)
    requires
        shaped_list(items),
        0 <= j < items.len(),
    ensures
        shaped(items[j]),
    decreases items.len(),
{
    if j > 0 {
        let t = items.subrange(1, items.len() as int);
        lemma_shaped_list_index(t, j - 1);
        assert(t[j - 1] == items[j]);
    }
}

/// Decoding undoes encoding for every value a `BencodeValue` can hold:
/// decoding its encoding, whatever follows, gives the value back with each
/// byte string that is valid UTF-8 turned into text, and consumes exactly
/// the encoding.
pub proof fn lemma_decode_inverts_encode_any(x: Bencode, rest: Seq<u8>)
    requires
        shaped(x),
    ensures
        spec_decode(spec_encode(x) + rest) == Some((normalize(x), spec_encode(x).len() as int)),
{
    lemma_normalize(x);
    lemma_decode_inverts_encode(normalize(x), rest);
}

} // verus!

verus! {

// ===================================================================
// Values in memory
// ===================================================================

/// A bencoded value. Byte strings that are valid UTF-8 are `String`s.
#[derive(Debug)]
pub enum BencodeValue {
    String(String),
    Bytes(Vec<u8>),
    Int(i64),
    List(Vec<BencodeValue>),
    Dict(BencodeDict),
}

/// A bencode dictionary: entries kept in strictly increasing key order, as
/// a `BTreeMap<Vec<u8>, BencodeValue>` keeps them.
#[derive(Debug)]
pub struct BencodeDict {
    pub(crate) entries: Vec<(Vec<u8>, BencodeValue)>,
}

/// The data that a value in memory stands for.
pub open(crate) spec fn bview(v: BencodeValue) -> Bencode
    decreases v,
{
    match v {
        BencodeValue::String(s) => Bencode::Bytes { bytes: encode_utf8(s@), text: true },
        BencodeValue::Bytes(b) => Bencode::Bytes { bytes: b@, text: false },
        BencodeValue::Int(n) => Bencode::Int(n as int),
        BencodeValue::List(l) => Bencode::List(bview_list(l@)),
        BencodeValue::Dict(d) => Bencode::Dict(bview_entries(d.entries@)),
    }
}

/// The data of each list item.
pub open(crate) spec fn bview_list(s: Seq<BencodeValue>) -> Seq<Bencode>
    decreases s,
{
    if s.len() == 0 {
        Seq::empty()
    } else {
        seq![bview(s[0])] + bview_list(s.subrange(1, s.len() as int))
    }
}

/// The data of each dictionary entry.
pub open(crate) spec fn bview_entries(s: Seq<(Vec<u8>, BencodeValue)>) -> Seq<(Seq<u8>, Bencode)>
    decreases s,
{
    if s.len() == 0 {
        Seq::empty()
    } else {
        seq![(s[0].0@, bview(s[0].1))] + bview_entries(s.subrange(1, s.len() as int))
    }
}

impl View for BencodeValue {
    type V = Bencode;

    open spec fn view(&self) -> Bencode {
        bview(*self)
    }
}

impl View for BencodeDict {
    type V = Seq<(Seq<u8>, Bencode)>;

    closed spec fn view(&self) -> Seq<(Seq<u8>, Bencode)> {
        bview_entries(self.entries@)
    }
}


// ===================================================================
// What decoding produces is well formed
// ===================================================================

proof fn lemma_find_byte_bound(s: Seq<u8>, c: u8)
    ensures
        find_byte(s, c) matches Some(i) ==> 0 <= i < s.len() && s[i] == c,
    decreases s.len(),
{
    if s.len() > 0 && s[0] != c {
        lemma_find_byte_bound(s.drop_first(), c);
    }
}

/// Looking a key up after an insertion finds the inserted value under that
/// key and what was there before under any other key.
pub proof fn lemma_dict_get_insert(es: Seq<(Seq<u8>, Bencode)>, k: Seq<u8>, v: Bencode, k2: Seq<u8>)
    ensures
        dict_get(dict_insert(es, k, v), k2) == (if k2 == k {
            Some(v)
        } else {
            dict_get(es, k2)
        }),
    decreases es.len(),
{
    reveal_with_fuel(dict_get, 2);
    let r = dict_insert(es, k, v);
    if es.len() == 0 {
        assert(r[0] == (k, v));
        assert(r.drop_first() =~= Seq::<(Seq<u8>, Bencode)>::empty());
    } else if es[0].0 == k {
        assert(r[0] == (k, v));
        assert(r.drop_first() =~= es.drop_first());
    } else if lex_lt(k, es[0].0) {
        assert(r[0] == (k, v));
        assert(r.drop_first() =~= es);
    } else {
        lemma_dict_get_insert(es.drop_first(), k, v, k2);
        assert(r[0] == es[0]);
        assert(r.drop_first() =~= dict_insert(es.drop_first(), k, v));
    }
}

pub(crate) proof fn lemma_dict_insert_well_formed(es: Seq<(Seq<u8>, Bencode)>, k: Seq<u8>, v: Bencode)
    requires
        keys_sorted(es),
        well_formed_entries(es),
        well_formed(v),
        k.len() <= usize::MAX,
    ensures
        keys_sorted(dict_insert(es, k, v)),
        well_formed_entries(dict_insert(es, k, v)),
    decreases es.len(),
{
    let r = dict_insert(es, k, v);
    if es.len() == 0 {
        assert(r.subrange(1, 1) =~= Seq::<(Seq<u8>, Bencode)>::empty());
        assert(r[0] == (k, v));
        assert(well_formed_entries(r.subrange(1, 1)));
    } else {
        let t = es.drop_first();
        assert(es.subrange(1, es.len() as int) =~= t);
        assert forall|a: int, b: int| 0 <= a < b < t.len() implies lex_lt(#[trigger] t[a].0, #[trigger] t[b].0) by {
            assert(t[a] == es[a + 1] && t[b] == es[b + 1]);
        }
        if es[0].0 == k {
            assert(r.subrange(1, r.len() as int) =~= t);
            assert(r[0] == (k, v));
            assert forall|a: int, b: int| 0 <= a < b < r.len() implies lex_lt(#[trigger] r[a].0, #[trigger] r[b].0) by {
                assert(r[a].0 == es[a].0 && r[b].0 == es[b].0);
            }
        } else if lex_lt(k, es[0].0) {
            assert(r.subrange(1, r.len() as int) =~= es);
            assert(r[0] == (k, v));
            assert forall|a: int, b: int| 0 <= a < b < r.len() implies lex_lt(#[trigger] r[a].0, #[trigger] r[b].0) by {
                if a == 0 {
                    assert(r[b] == es[b - 1]);
                    if b - 1 > 0 {
                        lemma_lex_lt_transitive(k, es[0].0, es[b - 1].0);
                    }
                } else {
                    assert(r[a] == es[a - 1] && r[b] == es[b - 1]);
                }
            }
        } else {
            lemma_dict_insert_well_formed(t, k, v);
            let rt = dict_insert(t, k, v);
            assert(r.subrange(1, r.len() as int) =~= rt);
            assert(r[0] == es[0]);
            lemma_lex_lt_total(k, es[0].0);
            // every key of the insertion into the tail is a key of the tail or k, all above es[0]
            lemma_dict_insert_keys(t, k, v);
            assert forall|a: int, b: int| 0 <= a < b < r.len() implies lex_lt(#[trigger] r[a].0, #[trigger] r[b].0) by {
                if a == 0 {
                    assert(r[b] == rt[b - 1]);
                    if rt[b - 1].0 != k {
                        let j = choose|j: int| 0 <= j < t.len() && t[j].0 == rt[b - 1].0;
                        assert(t[j] == es[j + 1]);
                    }
                } else {
                    assert(r[a] == rt[a - 1] && r[b] == rt[b - 1]);
                }
            }
        }
    }
}

proof fn lemma_dict_insert_keys(es: Seq<(Seq<u8>, Bencode)>, k: Seq<u8>, v: Bencode)
    ensures
        forall|i: int| 0 <= i < dict_insert(es, k, v).len() ==> #[trigger] dict_insert(es, k, v)[i].0 == k
            || exists|j: int| 0 <= j < es.len() && es[j].0 == dict_insert(es, k, v)[i].0,
    decreases es.len(),
{
    let r = dict_insert(es, k, v);
    if es.len() > 0 {
        let t = es.drop_first();
        lemma_dict_insert_keys(t, k, v);
        assert forall|i: int| 0 <= i < r.len() implies #[trigger] r[i].0 == k
            || exists|j: int| 0 <= j < es.len() && es[j].0 == r[i].0 by {
            if es[0].0 == k {
                if i > 0 {
                    assert(r[i] == es[i]);
                }
            } else if lex_lt(k, es[0].0) {
                if i > 0 {
                    assert(r[i] == es[i - 1]);
                }
            } else {
                if i == 0 {
                    assert(r[0] == es[0]);
                } else {
                    let rt = dict_insert(t, k, v);
                    assert(r[i] == rt[i - 1]);
                    if rt[i - 1].0 != k {
                        let j = choose|j: int| 0 <= j < t.len() && t[j].0 == rt[i - 1].0;
                        assert(t[j] == es[j + 1]);
                    }
                }
            }
        }
    }
}

/// Whatever the decoder reads is well formed and spans at least one byte of its input.
pub proof fn lemma_decoded_well_formed(s: Seq<u8>)
    ensures
        spec_decode(s) matches Some((x, n)) ==> well_formed(x) && 0 < n <= s.len(),
    decreases s.len(), 0int,
{
    if s.len() > 0 {
        if s[0] == 100u8 {
            lemma_entries_well_formed(s.drop_first(), Seq::empty());
        } else if s[0] == 108u8 {
            lemma_items_well_formed(s.drop_first());
        } else if s[0] == 105u8 {
            lemma_find_byte_bound(s.drop_first(), 101u8);
        } else if is_digit(s[0]) {
            lemma_find_byte_bound(s, 58u8);
        }
    }
}

proof fn lemma_items_well_formed(s: Seq<u8>)
    ensures
        spec_decode_items(s) matches Some((items, n)) ==> well_formed_list(items) && 0 < n <= s.len(),
    decreases s.len(), 1int,
{
    if s.len() > 0 && s[0] != 101u8 {
        lemma_decoded_well_formed(s);
        if let Some((v, n)) = spec_decode(s) {
            if 0 < n <= s.len() {
                lemma_items_well_formed(s.skip(n));
                if let Some((rest, m)) = spec_decode_items(s.skip(n)) {
                    let items = seq![v] + rest;
                    assert(items.subrange(1, items.len() as int) =~= rest);
                }
            }
        }
    }
}

proof fn lemma_entries_well_formed(s: Seq<u8>, acc: Seq<(Seq<u8>, Bencode)>)
    requires
        keys_sorted(acc),
        well_formed_entries(acc),
    ensures
        spec_decode_entries(s, acc) matches Some((es, n)) ==> keys_sorted(es) && well_formed_entries(es)
            && 0 < n <= s.len(),
    decreases s.len(), 1int,
{
    if s.len() > 0 && s[0] != 101u8 {
        if let Some((k, kn)) = spec_decode_bytes(s) {
            if 0 < kn <= s.len() {
                lemma_decoded_well_formed(s.skip(kn));
                if let Some((v, vn)) = spec_decode(s.skip(kn)) {
                    if 0 < vn <= s.len() - kn {
                        lemma_find_byte_bound(s, 58u8);
                        lemma_dict_insert_well_formed(acc, k, v);
                        lemma_entries_well_formed(s.skip(kn + vn), dict_insert(acc, k, v));
                    }
                }
            }
        }
    }
}

// ===================================================================
// Byte-string order
// ===================================================================

pub(crate) proof fn lemma_lex_lt_transitive(a: Seq<u8>, b: Seq<u8>, c: Seq<u8>)
    requires
        lex_lt(a, b),
        lex_lt(b, c),
    ensures
        lex_lt(a, c),
    decreases a.len(),
{
    if a.len() > 0 && b.len() > 0 && c.len() > 0 && a[0] == b[0] && b[0] == c[0] {
        lemma_lex_lt_transitive(a.drop_first(), b.drop_first(), c.drop_first());
    }
}

pub(crate) proof fn lemma_lex_lt_total(a: Seq<u8>, b: Seq<u8>)
    ensures
        a != b ==> lex_lt(a, b) || lex_lt(b, a),
    decreases a.len(),
{
    if a.len() > 0 && b.len() > 0 && a[0] == b[0] {
        lemma_lex_lt_total(a.drop_first(), b.drop_first());
        if a.drop_first() == b.drop_first() {
            assert(a =~= seq![a[0]] + a.drop_first());
            assert(b =~= seq![b[0]] + b.drop_first());
        }
    } else if a.len() == 0 && b.len() == 0 {
        assert(a =~= b);
    }
}

/// Comparing strings that agree on their first `i` bytes comes down to what follows.
proof fn lemma_lex_lt_skip(a: Seq<u8>, b: Seq<u8>, i: int)
    requires
        0 <= i <= a.len(),
        i <= b.len(),
        a.take(i) == b.take(i),
    ensures
        lex_lt(a, b) == lex_lt(a.skip(i), b.skip(i)),
    decreases i,
{
    if i > 0 {
        assert(a[0] == a.take(i)[0]);
        assert(b[0] == b.take(i)[0]);
        assert(a.drop_first().take(i - 1) =~= a.take(i).drop_first());
        assert(b.drop_first().take(i - 1) =~= b.take(i).drop_first());
        lemma_lex_lt_skip(a.drop_first(), b.drop_first(), i - 1);
        assert(a.drop_first().skip(i - 1) =~= a.skip(i));
        assert(b.drop_first().skip(i - 1) =~= b.skip(i));
    } else {
        assert(a.skip(0) =~= a);
        assert(b.skip(0) =~= b);
    }
}

/// The order of two byte strings.
pub enum KeyOrder {
    Less,
    Equal,
    Greater,
}

/// Compares two byte strings as `Vec<u8>`'s `Ord` does.
pub fn compare_keys(a: &[u8], b: &[u8]) -> (r: KeyOrder)
    ensures
        r is Less <==> lex_lt(a@, b@),
        r is Equal <==> a@ == b@,
        r is Greater <==> lex_lt(b@, a@),
{
    proof {
        lemma_lex_lt_irreflexive(a@);
        lemma_lex_lt_total(a@, b@);
    }
    let mut i: usize = 0;
    while i < a.len() && i < b.len()
        invariant
            i <= a@.len(),
            i <= b@.len(),
            a@.take(i as int) == b@.take(i as int),
        decreases a.len() - i,
    {
        if a[i] != b[i] {
            proof {
                lemma_lex_lt_skip(a@, b@, i as int);
                lemma_lex_lt_skip(b@, a@, i as int);
            }
            if a[i] < b[i] {
                return KeyOrder::Less;
            } else {
                return KeyOrder::Greater;
            }
        }
        assert(a@.take(i + 1) =~= a@.take(i as int).push(a@[i as int]));
        assert(b@.take(i + 1) =~= b@.take(i as int).push(b@[i as int]));
        i = i + 1;
    }
    proof {
        lemma_lex_lt_skip(a@, b@, i as int);
        lemma_lex_lt_skip(b@, a@, i as int);
    }
    if a.len() < b.len() {
        KeyOrder::Less
    } else if a.len() > b.len() {
        KeyOrder::Greater
    } else {
        assert(a@ =~= a@.take(i as int));
        assert(b@ =~= b@.take(i as int));
        KeyOrder::Equal
    }
}

/// `a` comes before `b` in byte-string order.
pub fn key_less(a: &[u8], b: &[u8]) -> (r: bool)
    ensures
        r == lex_lt(a@, b@),
{
    match compare_keys(a, b) {
        KeyOrder::Less => true,
        _ => false,
    }
}

// ===================================================================
// Views, item by item
// ===================================================================

pub(crate) proof fn lemma_bview_list_index(s: Seq<BencodeValue>)
    ensures
        bview_list(s).len() == s.len(),
        forall|i: int| 0 <= i < s.len() ==> #[trigger] bview_list(s)[i] == bview(s[i]),
    decreases s.len(),
{
    if s.len() > 0 {
        let t = s.subrange(1, s.len() as int);
        lemma_bview_list_index(t);
        assert forall|i: int| 0 <= i < s.len() implies #[trigger] bview_list(s)[i] == bview(s[i]) by {
            if i > 0 {
                assert(t[i - 1] == s[i]);
            }
        }
    }
}

pub(crate) proof fn lemma_bview_entries_index(s: Seq<(Vec<u8>, BencodeValue)>)
    ensures
        bview_entries(s).len() == s.len(),
        forall|i: int| 0 <= i < s.len() ==> #[trigger] bview_entries(s)[i] == (s[i].0@, bview(s[i].1)),
    decreases s.len(),
{
    if s.len() > 0 {
        let t = s.subrange(1, s.len() as int);
        lemma_bview_entries_index(t);
        assert forall|i: int| 0 <= i < s.len() implies #[trigger] bview_entries(s)[i] == (s[i].0@, bview(s[i].1)) by {
            if i > 0 {
                assert(t[i - 1] == s[i]);
            }
        }
    }
}

// ===================================================================
// Sorted dictionaries
// ===================================================================

proof fn lemma_dict_insert_at(es: Seq<(Seq<u8>, Bencode)>, k: Seq<u8>, v: Bencode, i: int)
    requires
        keys_sorted(es),
        0 <= i <= es.len(),
        forall|j: int| 0 <= j < i ==> lex_lt(#[trigger] es[j].0, k),
        i < es.len() ==> !lex_lt(es[i].0, k),
    ensures
        dict_insert(es, k, v) == if i < es.len() && es[i].0 == k {
            es.update(i, (k, v))
        } else {
            es.insert(i, (k, v))
        },
    decreases i,
{
    if i == 0 {
        if es.len() > 0 {
            if es[0].0 != k {
                lemma_lex_lt_total(es[0].0, k);
                assert(seq![(k, v)] + es =~= es.insert(0, (k, v)));
            } else {
                assert(seq![(k, v)] + es.drop_first() =~= es.update(0, (k, v)));
            }
        } else {
            assert(seq![(k, v)] =~= es.insert(0, (k, v)));
        }
    } else {
        let t = es.drop_first();
        assert(lex_lt(es[0].0, k));
        lemma_lex_lt_irreflexive(k);
        lemma_lex_lt_asymmetric(es[0].0, k);
        assert forall|a: int, b: int| 0 <= a < b < t.len() implies lex_lt(#[trigger] t[a].0, #[trigger] t[b].0) by {
            assert(t[a] == es[a + 1] && t[b] == es[b + 1]);
        }
        assert forall|j: int| 0 <= j < i - 1 implies lex_lt(#[trigger] t[j].0, k) by {
            assert(t[j] == es[j + 1]);
        }
        if i < es.len() {
            assert(t[i - 1] == es[i]);
        }
        lemma_dict_insert_at(t, k, v, i - 1);
        if i < es.len() && es[i].0 == k {
            assert(seq![es[0]] + t.update(i - 1, (k, v)) =~= es.update(i, (k, v)));
        } else {
            assert(seq![es[0]] + t.insert(i - 1, (k, v)) =~= es.insert(i, (k, v)));
        }
    }
}

proof fn lemma_dict_insert_sorted(es: Seq<(Seq<u8>, Bencode)>, k: Seq<u8>, v: Bencode, i: int)
    requires
        keys_sorted(es),
        0 <= i <= es.len(),
        forall|j: int| 0 <= j < i ==> lex_lt(#[trigger] es[j].0, k),
        i < es.len() ==> !lex_lt(es[i].0, k),
    ensures
        keys_sorted(dict_insert(es, k, v)),
{
    lemma_dict_insert_at(es, k, v, i);
    let r = dict_insert(es, k, v);
    if i < es.len() && es[i].0 == k {
        assert forall|a: int, b: int| 0 <= a < b < r.len() implies lex_lt(#[trigger] r[a].0, #[trigger] r[b].0) by {
            assert(r[a].0 == es[a].0 && r[b].0 == es[b].0);
        }
    } else {
        if i < es.len() {
            lemma_lex_lt_total(es[i].0, k);
        }
        assert forall|a: int, b: int| 0 <= a < b < r.len() implies lex_lt(#[trigger] r[a].0, #[trigger] r[b].0) by {
            if b < i {
                assert(r[a] == es[a] && r[b] == es[b]);
            } else if b == i {
                assert(r[a] == es[a]);
            } else if a < i {
                assert(r[a] == es[a] && r[b] == es[b - 1]);
                assert(lex_lt(k, es[i].0));
                if b - 1 > i {
                    lemma_lex_lt_transitive(k, es[i].0, es[b - 1].0);
                }
                lemma_lex_lt_transitive(es[a].0, k, es[b - 1].0);
            } else if a == i {
                assert(r[b] == es[b - 1]);
                assert(lex_lt(k, es[i].0));
                if b - 1 > i {
                    lemma_lex_lt_transitive(k, es[i].0, es[b - 1].0);
                }
            } else {
                assert(r[a] == es[a - 1] && r[b] == es[b - 1]);
            }
        }
    }
}

/// A dictionary value stands for the dictionary's entries.
pub(crate) proof fn lemma_dict_value_view(d: BencodeDict)
    ensures
        bview(BencodeValue::Dict(d)) == Bencode::Dict(d@),
{
}

impl BencodeDict {
    #[verifier::type_invariant]
    spec fn keys_in_order(&self) -> bool {
        keys_sorted(self@)
    }

    /// An empty dictionary.
    pub fn new() -> (d: BencodeDict)
        ensures
            d@ == Seq::<(Seq<u8>, Bencode)>::empty(),
    {
        let d = BencodeDict { entries: Vec::new() };
        assert(d@ =~= Seq::<(Seq<u8>, Bencode)>::empty());
        d
    }

    /// The number of entries.
    pub fn len(&self) -> (r: usize)
        ensures
            r == self@.len(),
    {
        proof {
            lemma_bview_entries_index(self.entries@);
        }
        self.entries.len()
    }

    /// The entries, in key order.
    pub fn entries(&self) -> (r: &Vec<(Vec<u8>, BencodeValue)>)
        ensures
            bview_entries(r@) == self@,
            keys_sorted(self@),
    {
        proof {
            use_type_invariant(self);
        }
        &self.entries
    }

    /// The value stored under `key`.
    pub fn get(&self, key: &[u8]) -> (r: Option<&BencodeValue>)
        ensures
            match r {
                Some(v) => dict_get(self@, key@) == Some(v@),
                None => dict_get(self@, key@) is None,
            },
    {
        let ghost es = self@;
        proof {
            lemma_bview_entries_index(self.entries@);
        }
        let mut i: usize = 0;
        assert(es.skip(0) =~= es);
        while i < self.entries.len()
            invariant
                i <= self.entries@.len(),
                es == self@,
                es.len() == self.entries@.len(),
                forall|j: int| 0 <= j < self.entries@.len() ==> #[trigger] es[j] == (self.entries@[j].0@, bview(self.entries@[j].1)),
                dict_get(es, key@) == dict_get(es.skip(i as int), key@),
            decreases self.entries.len() - i,
        {
            let ghost rest = es.skip(i as int);
            assert(rest[0] == es[i as int]);
            assert(rest.drop_first() =~= es.skip(i + 1));
            match compare_keys(self.entries[i].0.as_slice(), key) {
                KeyOrder::Equal => {
                    return Some(&self.entries[i].1);
                },
                _ => {},
            }
            i = i + 1;
        }
        None
    }

    /// Stores `value` under `key`, replacing the value that was there.
    pub fn insert(&mut self, key: Vec<u8>, value: BencodeValue)
        ensures
            final(self)@ == dict_insert(old(self)@, key@, value@),
    {
        proof {
            use_type_invariant(&*self);
        }
        let ghost es = self@;
        let mut entries: Vec<(Vec<u8>, BencodeValue)> = Vec::new();
        proof {
            assert(bview_entries(entries@) =~= Seq::<(Seq<u8>, Bencode)>::empty());
        }
        std::mem::swap(&mut entries, &mut self.entries);
        proof {
            lemma_bview_entries_index(entries@);
        }
        let mut i: usize = 0;
        while i < entries.len() && key_less(entries[i].0.as_slice(), key.as_slice())
            invariant
                i <= entries@.len(),
                es == bview_entries(entries@),
                keys_sorted(es),
                es.len() == entries@.len(),
                forall|j: int| 0 <= j < entries@.len() ==> #[trigger] es[j] == (entries@[j].0@, bview(entries@[j].1)),
                forall|j: int| 0 <= j < i ==> lex_lt(#[trigger] es[j].0, key@),
            decreases entries.len() - i,
        {
            i = i + 1;
        }
        let ghost old_entries = entries@;
        let ghost kv = (key@, value@);
        proof {
            lemma_dict_insert_at(es, key@, value@, i as int);
            lemma_dict_insert_sorted(es, key@, value@, i as int);
        }
        let replace = i < entries.len() && match compare_keys(entries[i].0.as_slice(), key.as_slice()) {
            KeyOrder::Equal => true,
            _ => false,
        };
        if replace {
            entries.set(i, (key, value));
            proof {
                lemma_bview_entries_index(entries@);
                assert(bview_entries(entries@) =~= es.update(i as int, kv));
            }
        } else {
            entries.insert(i, (key, value));
            proof {
                lemma_bview_entries_index(entries@);
                assert(bview_entries(entries@) =~= es.insert(i as int, kv));
            }
        }
        self.entries = entries;
    }
}


// ===================================================================
// Encoding in memory
// ===================================================================

proof fn lemma_encode_list_push(s: Seq<Bencode>, x: Bencode)
    ensures
        spec_encode_list(s.push(x)) == spec_encode_list(s) + spec_encode(x),
    decreases s.len(),
{
    let p = s.push(x);
    if s.len() == 0 {
        assert(p.subrange(1, p.len() as int) =~= Seq::<Bencode>::empty());
        assert(p[0] == x);
        assert(spec_encode_list(Seq::<Bencode>::empty()) =~= Seq::<u8>::empty());
        assert(spec_encode_list(p) =~= spec_encode(x));
    } else {
        let t = s.subrange(1, s.len() as int);
        lemma_encode_list_push(t, x);
        assert(p.subrange(1, p.len() as int) =~= t.push(x));
        assert(spec_encode_list(p) =~= spec_encode(s[0]) + spec_encode_list(t.push(x)));
    }
}

proof fn lemma_encode_entries_push(s: Seq<(Seq<u8>, Bencode)>, e: (Seq<u8>, Bencode))
    ensures
        spec_encode_entries(s.push(e)) == spec_encode_entries(s) + spec_encode_bytes(e.0) + spec_encode(e.1),
    decreases s.len(),
{
    let p = s.push(e);
    if s.len() == 0 {
        assert(p.subrange(1, p.len() as int) =~= Seq::<(Seq<u8>, Bencode)>::empty());
        assert(p[0] == e);
        assert(spec_encode_entries(Seq::<(Seq<u8>, Bencode)>::empty()) =~= Seq::<u8>::empty());
        assert(spec_encode_entries(p) =~= spec_encode_bytes(e.0) + spec_encode(e.1));
    } else {
        let t = s.subrange(1, s.len() as int);
        lemma_encode_entries_push(t, e);
        assert(p.subrange(1, p.len() as int) =~= t.push(e));
        assert(spec_encode_entries(p) =~= spec_encode_bytes(s[0].0) + spec_encode(s[0].1) + spec_encode_entries(t.push(e)));
    }
}

/// Appends the bytes of `b` to `out`.
fn append_slice(out: &mut Vec<u8>, b: &[u8])
    ensures
        final(out)@ == old(out)@ + b@,
{
    let mut i: usize = 0;
    while i < b.len()
        invariant
            i <= b@.len(),
            out@ == old(out)@ + b@.take(i as int),
        decreases b.len() - i,
    {
        out.push(b[i]);
        i = i + 1;
        assert(out@ =~= old(out)@ + b@.take(i as int));
    }
    assert(b@.take(i as int) =~= b@);
}

/// Appends the bencoding of the byte string `b` to `out`.
fn append_encoded_bytes(out: &mut Vec<u8>, b: &[u8])
    ensures
        final(out)@ == old(out)@ + spec_encode_bytes(b@),
        b@.len() <= usize::MAX,
{
    let digits = crate::common::decimal::u64_digits(b.len() as u64);
    append_slice(out, digits.as_slice());
    out.push(58u8);
    append_slice(out, b);
    assert(out@ =~= old(out)@ + spec_encode_bytes(b@));
}

/// The bencoding of a byte string: its length, a colon, the bytes.
fn encode_bytes(bytes: &[u8]) -> (r: Vec<u8>)
    ensures
        r@ == spec_encode_bytes(bytes@),
{
    let mut out: Vec<u8> = Vec::new();
    append_encoded_bytes(&mut out, bytes);
    assert(out@ =~= spec_encode_bytes(bytes@));
    out
}

impl BencodeValue {
    /// The bencoding of this value.
    pub fn encode(&self) -> (r: Vec<u8>)
        ensures
            r@ == spec_encode(self@),
            shaped(self@),
    {
        let mut out: Vec<u8> = Vec::new();
        self.encode_into(&mut out);
        assert(out@ =~= spec_encode(self@));
        out
    }

    fn encode_into(&self, out: &mut Vec<u8>)
        ensures
            final(out)@ == old(out)@ + spec_encode(self@),
            shaped(self@),
        decreases self,
    {
        match self {
            BencodeValue::String(s) => {
                let b = s.as_str().as_bytes();
                append_encoded_bytes(out, b);
            },
            BencodeValue::Bytes(b) => {
                append_encoded_bytes(out, b.as_slice());
            },
            BencodeValue::Int(n) => {
                out.push(105u8);
                let digits = crate::common::decimal::i64_digits(*n);
                append_slice(out, digits.as_slice());
                out.push(101u8);
                assert(out@ =~= old(out)@ + spec_encode(self@));
            },
            BencodeValue::List(items) => {
                let ghost start = out@;
                let ghost vs = bview_list(items@);
                proof {
                    lemma_bview_list_index(items@);
                }
                out.push(108u8);
                let mut i: usize = 0;
                assert(vs.take(0) =~= Seq::<Bencode>::empty());
                while i < items.len()
                    invariant
                        i <= items@.len(),
                        vs == bview_list(items@),
                        *self == BencodeValue::List(*items),
                        vs.len() == items@.len(),
                        forall|j: int| 0 <= j < items@.len() ==> #[trigger] vs[j] == bview(items@[j]),
                        out@ == start + seq![108u8] + spec_encode_list(vs.take(i as int)),
                        forall|j: int| 0 <= j < i ==> shaped(#[trigger] vs[j]),
                    decreases items.len() - i,
                {
                    proof {
                        lemma_encode_list_push(vs.take(i as int), vs[i as int]);
                        assert(vs.take(i + 1) =~= vs.take(i as int).push(vs[i as int]));
                    }
                    assert(decreases_to!(*self => self->List_0));
                    assert(decreases_to!(self->List_0 => self->List_0@));
                    assert(decreases_to!(items@ => items@[i as int]));
                    assert(decreases_to!(*self => items@[i as int]));
                    items[i].encode_into(out);
                    i = i + 1;
                }
                out.push(101u8);
                assert(vs.take(i as int) =~= vs);
                assert(out@ =~= old(out)@ + spec_encode(self@));
                proof {
                    lemma_shaped_list_all(vs);
                }
            },
            BencodeValue::Dict(d) => {
                let ghost start = out@;
                proof {
                    use_type_invariant(d);
                }
                let entries = &d.entries;
                let ghost es = bview_entries(entries@);
                proof {
                    lemma_bview_entries_index(entries@);
                }
                out.push(100u8);
                let mut i: usize = 0;
                assert(es.take(0) =~= Seq::<(Seq<u8>, Bencode)>::empty());
                while i < entries.len()
                    invariant
                        i <= entries@.len(),
                        es == bview_entries(entries@),
                        es == d@,
                        *self == BencodeValue::Dict(*d),
                        *entries == d.entries,
                        es.len() == entries@.len(),
                        forall|j: int| 0 <= j < entries@.len() ==> #[trigger] es[j] == (entries@[j].0@, bview(entries@[j].1)),
                        out@ == start + seq![100u8] + spec_encode_entries(es.take(i as int)),
                        forall|j: int| 0 <= j < i ==> (#[trigger] es[j]).0.len() <= usize::MAX && shaped(es[j].1),
                    decreases entries.len() - i,
                {
                    proof {
                        lemma_encode_entries_push(es.take(i as int), es[i as int]);
                        assert(es.take(i + 1) =~= es.take(i as int).push(es[i as int]));
                    }
                    append_encoded_bytes(out, entries[i].0.as_slice());
                    assert(decreases_to!(*self => self->Dict_0));
                    assert(decreases_to!(*d => d.entries));
                    assert(decreases_to!(d.entries => d.entries@));
                    assert(decreases_to!(d.entries@ => d.entries@[i as int]));
                    assert(decreases_to!(d.entries@[i as int] => d.entries@[i as int].1));
                    assert(decreases_to!(*self => entries@[i as int].1));
                    entries[i].1.encode_into(out);
                    i = i + 1;
                }
                out.push(101u8);
                assert(es.take(i as int) =~= es);
                assert(out@ =~= old(out)@ + spec_encode(self@));
                proof {
                    lemma_shaped_entries_all(es);
                }
            },
        }
    }
}

/// The bencoding of a string.
pub fn encode_string(s: &str) -> (r: Vec<u8>)
    ensures
        r@ == spec_encode_bytes(encode_utf8(s@)),
{
    encode_bytes(s.as_bytes())
}

/// The bencoding of an integer.
pub fn encode_int(n: i64) -> (r: Vec<u8>)
    ensures
        r@ == spec_encode(Bencode::Int(n as int)),
{
    let v = BencodeValue::Int(n);
    v.encode()
}

/// The bencoding of a dictionary.
pub fn encode_dict(dict: &BencodeDict) -> (r: Vec<u8>)
    ensures
        r@ == spec_encode(Bencode::Dict(dict@)),
{
    let mut out: Vec<u8> = Vec::new();
    let entries = dict.entries();
    let ghost es = bview_entries(entries@);
    proof {
        lemma_bview_entries_index(entries@);
    }
    out.push(100u8);
    let mut i: usize = 0;
    assert(es.take(0) =~= Seq::<(Seq<u8>, Bencode)>::empty());
    while i < entries.len()
        invariant
            i <= entries@.len(),
            es == dict@,
            es.len() == entries@.len(),
            forall|j: int| 0 <= j < entries@.len() ==> #[trigger] es[j] == (entries@[j].0@, bview(entries@[j].1)),
            out@ == seq![100u8] + spec_encode_entries(es.take(i as int)),
        decreases entries.len() - i,
    {
        proof {
            lemma_encode_entries_push(es.take(i as int), es[i as int]);
            assert(es.take(i + 1) =~= es.take(i as int).push(es[i as int]));
        }
        append_encoded_bytes(&mut out, entries[i].0.as_slice());
        entries[i].1.encode_into(&mut out);
        i = i + 1;
    }
    out.push(101u8);
    assert(es.take(i as int) =~= es);
    assert(out@ =~= spec_encode(Bencode::Dict(dict@)));
    out
}

/// The bencoding of a list.
pub fn encode_list(list: &[BencodeValue]) -> (r: Vec<u8>)
    ensures
        r@ == spec_encode(Bencode::List(bview_list(list@))),
{
    let mut out: Vec<u8> = Vec::new();
    let ghost vs = bview_list(list@);
    proof {
        lemma_bview_list_index(list@);
    }
    out.push(108u8);
    let mut i: usize = 0;
    assert(vs.take(0) =~= Seq::<Bencode>::empty());
    while i < list.len()
        invariant
            i <= list@.len(),
            vs == bview_list(list@),
            vs.len() == list@.len(),
            forall|j: int| 0 <= j < list@.len() ==> #[trigger] vs[j] == bview(list@[j]),
            out@ == seq![108u8] + spec_encode_list(vs.take(i as int)),
        decreases list.len() - i,
    {
        proof {
            lemma_encode_list_push(vs.take(i as int), vs[i as int]);
            assert(vs.take(i + 1) =~= vs.take(i as int).push(vs[i as int]));
        }
        list[i].encode_into(&mut out);
        i = i + 1;
    }
    out.push(101u8);
    assert(vs.take(i as int) =~= vs);
    assert(out@ =~= spec_encode(Bencode::List(vs)));
    out
}


// ===================================================================
// Decoding in memory
// ===================================================================

/// Whether `bytes` is valid UTF-8, as `std::str::from_utf8` decides.
#[verifier::external_body]
pub(crate) fn utf8_check(bytes: &[u8]) -> (r: bool)
    ensures
        r == valid_utf8(bytes@),
{
    std::str::from_utf8(bytes).is_ok()
}

/// The `String` that `String::from_utf8` makes of valid UTF-8: the characters
/// that the bytes encode.
#[verifier::external_body]
pub(crate) fn string_from_utf8(bytes: Vec<u8>) -> (r: String)
    requires
        valid_utf8(bytes@),
    ensures
        r@ == decode_utf8(bytes@),
{
    String::from_utf8(bytes).unwrap_or_default()
}

pub(crate) proof fn lemma_bview_list_push(s: Seq<BencodeValue>, v: BencodeValue)
    ensures
        bview_list(s.push(v)) == bview_list(s).push(bview(v)),
{
    lemma_bview_list_index(s);
    lemma_bview_list_index(s.push(v));
    assert(bview_list(s.push(v)) =~= bview_list(s).push(bview(v)));
}

/// The index, counted from `start`, of the first `c` at or after `start`.
fn find_byte_from(data: &[u8], start: usize, c: u8) -> (r: Option<usize>)
    requires
        start <= data@.len(),
    ensures
        match r {
            Some(i) => find_byte(data@.skip(start as int), c) == Some(i as int) && start + i < data@.len(),
            None => find_byte(data@.skip(start as int), c) is None,
        },
{
    let mut i = start;
    while i < data.len()
        invariant
            start <= i <= data@.len(),
            find_byte(data@.skip(start as int), c) == match find_byte(data@.skip(i as int), c) {
                Some(k) => Some(k + (i - start)),
                None => None::<int>,
            },
        decreases data.len() - i,
    {
        let ghost t = data@.skip(i as int);
        assert(t[0] == data@[i as int]);
        if data[i] == c {
            return Some(i - start);
        }
        assert(t.drop_first() =~= data@.skip(i + 1));
        i = i + 1;
    }
    assert(data@.skip(i as int).len() == 0);
    None
}

/// The byte string at `pos`: its bytes and how many bytes it spans.
fn decode_raw_bytes(data: &[u8], pos: usize) -> (r: Option<(Vec<u8>, usize)>)
    requires
        pos <= data@.len(),
    ensures
        match r {
            Some((b, n)) => spec_decode_bytes(data@.skip(pos as int)) == Some((b@, n as int)),
            None => spec_decode_bytes(data@.skip(pos as int)) is None,
        },
{
    let ghost s = data@.skip(pos as int);
    let dlen = data.len();
    let colon = match find_byte_from(data, pos, 58u8) {
        Some(c) => c,
        None => return None,
    };
    assert(s.take(colon as int) =~= data@.subrange(pos as int, pos + colon));
    let len = match crate::common::decimal::parse_usize(data, pos, pos + colon) {
        Some(l) => l,
        None => return None,
    };
    let start = pos + colon + 1;
    if len > data.len() - start {
        return None;
    }
    let end = start + len;
    let mut out: Vec<u8> = Vec::new();
    let mut i = start;
    while i < end
        invariant
            start <= i <= end <= data@.len(),
            out@ == data@.subrange(start as int, i as int),
        decreases end - i,
    {
        out.push(data[i]);
        i = i + 1;
        assert(out@ =~= data@.subrange(start as int, i as int));
    }
    assert(s.subrange(colon + 1, colon + 1 + len) =~= data@.subrange(start as int, end as int));
    Some((out, end - pos))
}

impl BencodeValue {
    /// Decodes the value at the start of `data`, with the number of bytes it spans.
    pub fn decode(data: &[u8]) -> (r: Result<(BencodeValue, usize), String>)
        ensures
            match r {
                Ok((v, n)) => spec_decode(data@) == Some((v@, n as int)),
                Err(_) => spec_decode(data@) is None,
            },
    {
        assert(data@.skip(0) =~= data@);
        Self::decode_at(data, 0)
    }

    fn decode_at(data: &[u8], pos: usize) -> (r: Result<(BencodeValue, usize), String>)
        requires
            pos <= data@.len(),
        ensures
            match r {
                Ok((v, n)) => spec_decode(data@.skip(pos as int)) == Some((v@, n as int)),
                Err(_) => spec_decode(data@.skip(pos as int)) is None,
            },
        decreases data@.len() - pos, 1int,
    {
        let ghost s = data@.skip(pos as int);
        if pos == data.len() {
            return Err("Empty data".to_string());
        }
        let first = data[pos];
        assert(s[0] == first);
        if first == 100u8 {
            Self::decode_dict(data, pos)
        } else if first == 108u8 {
            Self::decode_list(data, pos)
        } else if first == 105u8 {
            Self::decode_int(data, pos)
        } else if 48u8 <= first && first <= 57u8 {
            Self::decode_bytes(data, pos)
        } else {
            let mut msg = "Invalid bencode starting character: ".to_string();
            let code = crate::common::decimal::u64_to_string(first as u64);
            msg.append(code.as_str());
            Err(msg)
        }
    }

    /// The dictionary at `pos`, whose first byte is `d`.
    fn decode_dict(data: &[u8], pos: usize) -> (r: Result<(BencodeValue, usize), String>)
        requires
            pos < data@.len(),
            data@[pos as int] == 100u8,
        ensures
            match r {
                Ok((v, n)) => spec_decode(data@.skip(pos as int)) == Some((v@, n as int)),
                Err(_) => spec_decode(data@.skip(pos as int)) is None,
            },
        decreases data@.len() - pos, 0int,
    {
        let ghost s = data@.skip(pos as int);
        let dlen = data.len();
        assert(s[0] == data@[pos as int]);
        let mut dict = BencodeDict::new();
        let mut p = pos + 1;
        assert(s.drop_first() =~= data@.skip(p as int));
        while p < data.len() && data[p] != 101u8
            invariant
                pos < p <= data@.len(),
                s == data@.skip(pos as int),
                s.len() > 0,
                s[0] == 100u8,
                spec_decode_entries(s.drop_first(), Seq::empty()) == match spec_decode_entries(
                    data@.skip(p as int),
                    dict@,
                ) {
                    Some((es, m)) => Some((es, (p - pos - 1) + m)),
                    None => None::<(Seq<(Seq<u8>, Bencode)>, int)>,
                },
            decreases data@.len() - p,
        {
            let ghost t = data@.skip(p as int);
            assert(t[0] == data@[p as int]);
            let (key, kn) = match decode_raw_bytes(data, p) {
                Some(kv) => kv,
                None => return Err("Invalid dictionary key".to_string()),
            };
            if kn == 0 || kn > data.len() - p {
                return Err("Invalid dictionary key".to_string());
            }
            assert(t.skip(kn as int) =~= data@.skip(p + kn));
            let (value, vn) = match Self::decode_at(data, p + kn) {
                Ok(vv) => vv,
                Err(e) => return Err(e),
            };
            if vn == 0 || vn > data.len() - p - kn {
                return Err("Invalid dictionary value".to_string());
            }
            assert(t.skip(kn + vn) =~= data@.skip(p + kn + vn));
            dict.insert(key, value);
            p = p + kn + vn;
        }
        if p >= data.len() {
            assert(data@.skip(p as int).len() == 0);
            return Err("Unterminated dict".to_string());
        }
        assert(data@.skip(p as int)[0] == data@[p as int]);
        Ok((BencodeValue::Dict(dict), p - pos + 1))
    }

    /// The list at `pos`, whose first byte is `l`.
    fn decode_list(data: &[u8], pos: usize) -> (r: Result<(BencodeValue, usize), String>)
        requires
            pos < data@.len(),
            data@[pos as int] == 108u8,
        ensures
            match r {
                Ok((v, n)) => spec_decode(data@.skip(pos as int)) == Some((v@, n as int)),
                Err(_) => spec_decode(data@.skip(pos as int)) is None,
            },
        decreases data@.len() - pos, 0int,
    {
        let ghost s = data@.skip(pos as int);
        let dlen = data.len();
        assert(s[0] == data@[pos as int]);
        let mut items: Vec<BencodeValue> = Vec::new();
        let mut p = pos + 1;
        assert(s.drop_first() =~= data@.skip(p as int));
        assert(bview_list(items@) =~= Seq::<Bencode>::empty());
        assert(Seq::<Bencode>::empty() + Seq::<Bencode>::empty() =~= Seq::<Bencode>::empty());
        while p < data.len() && data[p] != 101u8
            invariant
                pos < p <= data@.len(),
                s == data@.skip(pos as int),
                s.len() > 0,
                s[0] == 108u8,
                spec_decode_items(s.drop_first()) == match spec_decode_items(data@.skip(p as int)) {
                    Some((rest, m)) => Some((bview_list(items@) + rest, (p - pos - 1) + m)),
                    None => None::<(Seq<Bencode>, int)>,
                },
            decreases data@.len() - p,
        {
            let ghost t = data@.skip(p as int);
            assert(t[0] == data@[p as int]);
            let (value, n) = match Self::decode_at(data, p) {
                Ok(vv) => vv,
                Err(e) => return Err(e),
            };
            if n == 0 || n > data.len() - p {
                return Err("Invalid list item".to_string());
            }
            assert(t.skip(n as int) =~= data@.skip(p + n));
            proof {
                lemma_bview_list_push(items@, value);
                let vv = bview(value);
                let before = bview_list(items@);
                assert forall|rest: Seq<Bencode>| before + (seq![vv] + rest) =~= before.push(vv) + rest by {}
            }
            items.push(value);
            p = p + n;
        }
        if p >= data.len() {
            assert(data@.skip(p as int).len() == 0);
            return Err("Unterminated list".to_string());
        }
        assert(data@.skip(p as int)[0] == data@[p as int]);
        assert(bview_list(items@) + Seq::<Bencode>::empty() =~= bview_list(items@));
        Ok((BencodeValue::List(items), p - pos + 1))
    }

    /// The integer at `pos`, whose first byte is `i`.
    fn decode_int(data: &[u8], pos: usize) -> (r: Result<(BencodeValue, usize), String>)
        requires
            pos < data@.len(),
            data@[pos as int] == 105u8,
        ensures
            match r {
                Ok((v, n)) => spec_decode(data@.skip(pos as int)) == Some((v@, n as int)),
                Err(_) => spec_decode(data@.skip(pos as int)) is None,
            },
    {
        let ghost s = data@.skip(pos as int);
        let dlen = data.len();
        assert(s[0] == data@[pos as int]);
        assert(s.drop_first() =~= data@.skip(pos + 1));
        let end = match find_byte_from(data, pos + 1, 101u8) {
            Some(e) => e,
            None => return Err("Unterminated int".to_string()),
        };
        assert(s.subrange(1, 1 + end as int) =~= data@.subrange(pos + 1, pos + 1 + end));
        match crate::common::decimal::parse_i64(data, pos + 1, pos + 1 + end) {
            Some(n) => Ok((BencodeValue::Int(n), end + 2)),
            None => Err("Invalid integer".to_string()),
        }
    }

    /// The byte string at `pos`: a `String` when its bytes are valid UTF-8.
    fn decode_bytes(data: &[u8], pos: usize) -> (r: Result<(BencodeValue, usize), String>)
        requires
            pos < data@.len(),
            is_digit(data@[pos as int]),
        ensures
            match r {
                Ok((v, n)) => spec_decode(data@.skip(pos as int)) == Some((v@, n as int)),
                Err(_) => spec_decode(data@.skip(pos as int)) is None,
            },
    {
        let ghost s = data@.skip(pos as int);
        assert(s[0] == data@[pos as int]);
        let (bytes, n) = match decode_raw_bytes(data, pos) {
            Some(bn) => bn,
            None => return Err("Invalid byte string".to_string()),
        };
        if utf8_check(bytes.as_slice()) {
            let ghost b = bytes@;
            let text = string_from_utf8(bytes);
            proof {
                decode_utf8_encode_utf8(b);
            }
            Ok((BencodeValue::String(text), n))
        } else {
            Ok((BencodeValue::Bytes(bytes), n))
        }
    }
}

} // verus!
