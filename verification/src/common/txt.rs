//! TXT records: string keys mapped to string values, each key once.

use vstd::prelude::*;
use crate::common::text::str_eq;

verus! {

/// The keys of `es` are distinct.
pub open spec fn keys_distinct(es: Seq<(Seq<char>, Seq<char>)>) -> bool {
    forall|i: int, j: int| 0 <= i < j < es.len() ==> #[trigger] es[i].0 != #[trigger] es[j].0
}

/// The value under `k`.
pub open spec fn txt_get(es: Seq<(Seq<char>, Seq<char>)>, k: Seq<char>) -> Option<Seq<char>>
    decreases es.len(),
{
    if es.len() == 0 {
        None
    } else if es.last().0 == k {
        Some(es.last().1)
    } else {
        txt_get(es.drop_last(), k)
    }
}

/// Storing `v` under `k`: a present key keeps its place and gets the new
/// value, a new key goes last.
pub open spec fn txt_insert(es: Seq<(Seq<char>, Seq<char>)>, k: Seq<char>, v: Seq<char>) -> Seq<(Seq<char>, Seq<char>)> {
    if exists|i: int| 0 <= i < es.len() && #[trigger] es[i].0 == k {
        let i = choose|i: int| 0 <= i < es.len() && #[trigger] es[i].0 == k;
        es.update(i, (k, v))
    } else {
        es.push((k, v))
    }
}

/// A map from keys to values in which each key occurs once, kept as a
/// vector of entries whose keys are distinct (the type's invariant). The
/// entries keep the order in which their keys first came.
#[derive(Debug)]
pub struct TxtRecord {
    entries: Vec<(String, String)>,
}

/// The characters of each key and value.
spec fn entries_view(v: Seq<(String, String)>) -> Seq<(Seq<char>, Seq<char>)> {
    v.map_values(|e: (String, String)| (e.0@, e.1@))
}

impl View for TxtRecord {
    type V = Seq<(Seq<char>, Seq<char>)>;

    closed spec fn view(&self) -> Seq<(Seq<char>, Seq<char>)> {
        entries_view(self.entries@)
    }
}

impl TxtRecord {
    #[verifier::type_invariant]
    closed spec fn unique_keys(&self) -> bool {
        keys_distinct(self@)
    }

    /// No entries.
    pub fn new() -> (r: TxtRecord)
        ensures
            r@ == Seq::<(Seq<char>, Seq<char>)>::empty(),
    {
        let r = TxtRecord { entries: Vec::new() };
        assert(r@ =~= Seq::<(Seq<char>, Seq<char>)>::empty());
        r
    }

    /// The number of entries.
    pub fn len(&self) -> (r: usize)
        ensures
            r == self@.len(),
    {
        self.entries.len()
    }

    /// The entry at position `i`.
    pub fn entry(&self, i: usize) -> (r: (&String, &String))
        requires
            i < self@.len(),
        ensures
            (r.0@, r.1@) == self@[i as int],
    {
        let e = &self.entries[i];
        (&e.0, &e.1)
    }

    /// The position of `key`, if present.
    fn position(&self, key: &str) -> (r: Option<usize>)
        ensures
            match r {
                Some(i) => i < self@.len() && self@[i as int].0 == key@,
                None => forall|i: int| 0 <= i < self@.len() ==> #[trigger] self@[i].0 != key@,
            },
    {
        let mut i: usize = 0;
        while i < self.entries.len()
            invariant
                i <= self.entries@.len(),
                self@.len() == self.entries@.len(),
                forall|j: int| 0 <= j < i ==> #[trigger] self@[j].0 != key@,
            decreases self.entries.len() - i,
        {
            assert(self@[i as int].0 == self.entries@[i as int].0@);
            if str_eq(self.entries[i].0.as_str(), key) {
                return Some(i);
            }
            i = i + 1;
        }
        None
    }

    /// The value stored under `key`.
    pub fn get(&self, key: &str) -> (r: Option<&String>)
        ensures
            match r {
                Some(v) => txt_get(self@, key@) == Some(v@),
                None => txt_get(self@, key@) is None,
            },
    {
        proof {
            use_type_invariant(self);
        }
        match self.position(key) {
            Some(i) => {
                proof {
                    lemma_txt_get_at(self@, i as int);
                }
                Some(&self.entries[i].1)
            },
            None => {
                proof {
                    lemma_txt_get_absent(self@, key@);
                }
                None
            },
        }
    }

    /// Empties the record and hands back its entries.
    fn take_entries(&mut self) -> (r: Vec<(String, String)>)
        ensures
            r@ == old(self).entries@,
            final(self)@.len() == 0,
    {
        let mut entries: Vec<(String, String)> = Vec::new();
        std::mem::swap(&mut entries, &mut self.entries);
        entries
    }

    /// Stores `value` under `key`, replacing what was there.
    pub fn insert(&mut self, key: String, value: String)
        ensures
            final(self)@ == txt_insert(old(self)@, key@, value@),
            keys_distinct(old(self)@),
    {
        proof {
            use_type_invariant(&*self);
        }
        let ghost es = self@;
        match self.position(key.as_str()) {
            Some(i) => {
                let ghost k = key@;
                let ghost v = value@;
                let mut entries = self.take_entries();
                entries.set(i, (key, value));
                proof {
                    assert(es[i as int].0 == k);
                    let j = choose|j: int| 0 <= j < es.len() && #[trigger] es[j].0 == k;
                    assert(j == i);
                    assert(entries_view(entries@) =~= es.update(i as int, (k, v)));
                    lemma_txt_insert_get(es, k, v, k);
                }
                self.entries = entries;
            },
            None => {
                let ghost k = key@;
                let ghost v = value@;
                let mut entries = self.take_entries();
                entries.push((key, value));
                proof {
                    assert(entries_view(entries@) =~= es.push((k, v)));
                    lemma_txt_insert_get(es, k, v, k);
                }
                self.entries = entries;
            },
        }
    }
}

impl Clone for TxtRecord {
    fn clone(&self) -> (r: TxtRecord)
        ensures
            r@ == self@,
    {
        proof {
            use_type_invariant(self);
        }
        let mut entries: Vec<(String, String)> = Vec::new();
        let mut i: usize = 0;
        while i < self.entries.len()
            invariant
                i <= self.entries@.len(),
                keys_distinct(self@),
                entries_view(entries@) == self@.take(i as int),
            decreases self.entries.len() - i,
        {
            let e = &self.entries[i];
            let k = e.0.clone();
            let v = e.1.clone();
            assert(self@[i as int] == (k@, v@));
            let ghost before = entries@;
            entries.push((k, v));
            assert(entries_view(entries@) =~= entries_view(before).push(self@[i as int]));
            i = i + 1;
            assert(entries_view(entries@) =~= self@.take(i as int));
        }
        assert(self@.take(i as int) =~= self@);
        TxtRecord { entries }
    }
}

proof fn lemma_txt_get_at(es: Seq<(Seq<char>, Seq<char>)>, i: int)
    requires
        keys_distinct(es),
        0 <= i < es.len(),
    ensures
        txt_get(es, es[i].0) == Some(es[i].1),
    decreases es.len(),
{
    if i < es.len() - 1 {
        let t = es.drop_last();
        assert(keys_distinct(t));
        assert(es.last().0 != es[i].0);
        lemma_txt_get_at(t, i);
    }
}

proof fn lemma_txt_get_absent(es: Seq<(Seq<char>, Seq<char>)>, k: Seq<char>)
    requires
        forall|i: int| 0 <= i < es.len() ==> #[trigger] es[i].0 != k,
    ensures
        txt_get(es, k) is None,
    decreases es.len(),
{
    if es.len() > 0 {
        let t = es.drop_last();
        assert(es[es.len() - 1].0 != k);
        assert forall|i: int| 0 <= i < t.len() implies #[trigger] t[i].0 != k by {
            assert(t[i] == es[i]);
        }
        lemma_txt_get_absent(t, k);
    }
}

/// After storing a value under a key, looking that key up gives the value,
/// and every other key gives what it gave before.
pub proof fn lemma_txt_insert_get(es: Seq<(Seq<char>, Seq<char>)>, k: Seq<char>, v: Seq<char>, k2: Seq<char>)
    requires
        keys_distinct(es),
    ensures
        keys_distinct(txt_insert(es, k, v)),
        txt_get(txt_insert(es, k, v), k2) == (if k2 == k {
            Some(v)
        } else {
            txt_get(es, k2)
        }),
{
    let r = txt_insert(es, k, v);
    if exists|i: int| 0 <= i < es.len() && #[trigger] es[i].0 == k {
        let i = choose|i: int| 0 <= i < es.len() && #[trigger] es[i].0 == k;
        assert forall|a: int, b: int| 0 <= a < b < r.len() implies #[trigger] r[a].0 != #[trigger] r[b].0 by {
            assert(r[a].0 == es[a].0 && r[b].0 == es[b].0);
        }
        lemma_txt_get_at(r, i);
        if k2 != k {
            lemma_txt_get_update(es, i, k, v, k2);
        }
    } else {
        assert forall|a: int, b: int| 0 <= a < b < r.len() implies #[trigger] r[a].0 != #[trigger] r[b].0 by {
            if b == es.len() {
                assert(r[a] == es[a]);
            } else {
                assert(r[a] == es[a] && r[b] == es[b]);
            }
        }
        assert(r.drop_last() =~= es);
    }
}

proof fn lemma_txt_get_update(es: Seq<(Seq<char>, Seq<char>)>, i: int, k: Seq<char>, v: Seq<char>, k2: Seq<char>)
    requires
        0 <= i < es.len(),
        es[i].0 == k,
        k2 != k,
    ensures
        txt_get(es.update(i, (k, v)), k2) == txt_get(es, k2),
    decreases es.len(),
{
    let r = es.update(i, (k, v));
    if i == es.len() - 1 {
        assert(r.drop_last() =~= es.drop_last());
    } else {
        assert(r.drop_last() =~= es.drop_last().update(i, (k, v)));
        lemma_txt_get_update(es.drop_last(), i, k, v, k2);
    }
}

} // verus!
