//! A file browser: the listing of a directory, directories first and each
//! group by name, a selection, and back/forward history.

use vstd::prelude::*;
use vstd::utf8::encode_utf8;
use crate::common::text::concat;
use crate::torrent::bencode::{
    lex_lt, compare_keys, KeyOrder, lemma_lex_lt_transitive, lemma_lex_lt_total,
    lemma_lex_lt_asymmetric, lemma_lex_lt_irreflexive,
};

verus! {

/// An entry of a directory.
#[derive(Debug, Clone)]
pub struct FileItem {
    pub name: String,
    pub path: String,
    pub is_dir: bool,
    pub size: u64,
}

impl FileItem {
    /// The name with a folder or document mark in front.
    pub fn display_name(&self) -> (r: String)
        ensures
            r@ == (if self.is_dir {
                "📁 "@
            } else {
                "📄 "@
            }) + self.name@,
    {
        if self.is_dir {
            concat("📁 ", self.name.as_str())
        } else {
            concat("📄 ", self.name.as_str())
        }
    }

    /// A copy of the entry.
    pub fn copy(&self) -> (r: FileItem)
        ensures
            r == *self,
    {
        FileItem { name: self.name.clone(), path: self.path.clone(), is_dir: self.is_dir, size: self.size }
    }
}

/// The bytes by which entries are ordered: the name's UTF-8, as `String`
/// orders.
pub open spec fn name_key(f: FileItem) -> Seq<u8> {
    encode_utf8(f.name@)
}

/// The entries are in order of name.
pub open spec fn sorted_by_name(s: Seq<FileItem>) -> bool {
    forall|a: int, b: int| 0 <= a < b < s.len() ==> !lex_lt(name_key(#[trigger] s[b]), name_key(#[trigger] s[a]))
}

/// The entries of a listing that are (or are not) directories, in order.
pub open spec fn of_kind(s: Seq<FileItem>, dirs: bool) -> Seq<FileItem>
    decreases s.len(),
{
    if s.len() == 0 {
        Seq::empty()
    } else {
        of_kind(s.drop_last(), dirs) + if s.last().is_dir == dirs {
            seq![s.last()]
        } else {
            Seq::empty()
        }
    }
}

/// What a browser shows for a directory read as `entries`: the directories
/// sorted by name, then the other entries sorted by name.
pub open spec fn is_listing_of(r: Seq<FileItem>, entries: Seq<FileItem>) -> bool {
    exists|k: int|
        0 <= k <= r.len() && sorted_by_name(#[trigger] r.take(k)) && sorted_by_name(r.skip(k)) && r.take(k).to_multiset()
            == of_kind(entries, true).to_multiset() && r.skip(k).to_multiset() == of_kind(entries, false).to_multiset()
}

/// The entries that are (or are not) directories.
fn split_kind(entries: &Vec<FileItem>, dirs: bool) -> (r: Vec<FileItem>)
    ensures
        r@ == of_kind(entries@, dirs),
{
    let mut out: Vec<FileItem> = Vec::new();
    let mut i: usize = 0;
    while i < entries.len()
        invariant
            i <= entries@.len(),
            out@ == of_kind(entries@.take(i as int), dirs),
        decreases entries.len() - i,
    {
        let ghost t = entries@.take(i + 1);
        assert(t.drop_last() =~= entries@.take(i as int));
        assert(t.last() == entries@[i as int]);
        if entries[i].is_dir == dirs {
            out.push(entries[i].copy());
            assert(out@ =~= of_kind(t, dirs));
        }
        i = i + 1;
    }
    assert(entries@.take(i as int) =~= entries@);
    out
}

/// The entries sorted by name; entries of equal names keep their order.
pub fn sort_by_name(items: Vec<FileItem>) -> (r: Vec<FileItem>)
    ensures
        sorted_by_name(r@),
        r@.to_multiset() == items@.to_multiset(),
{
    broadcast use vstd::seq_lib::group_to_multiset_ensures;
    let mut out: Vec<FileItem> = Vec::new();
    let mut i: usize = 0;
    while i < items.len()
        invariant
            i <= items@.len(),
            sorted_by_name(out@),
            out@.to_multiset() == items@.take(i as int).to_multiset(),
        decreases items.len() - i,
    {
        let x = items[i].copy();
        let xk = x.name.as_str().as_bytes();
        let mut k: usize = 0;
        let mut stop = false;
        while !stop && k < out.len()
            invariant
                k <= out@.len(),
                xk@ == name_key(x),
                forall|j: int| 0 <= j < k ==> !lex_lt(xk@, name_key(#[trigger] out@[j])),
                stop ==> k < out@.len() && lex_lt(xk@, name_key(out@[k as int])),
            decreases out@.len() - k + (if stop { 0int } else { 1int }),
        {
            match compare_keys(xk, out[k].name.as_str().as_bytes()) {
                KeyOrder::Less => {
                    stop = true;
                },
                _ => {
                    k = k + 1;
                },
            }
        }
        let ghost before = out@;
        proof {
            assert forall|j: int| k <= j < before.len() implies lex_lt(xk@, name_key(#[trigger] before[j])) by {
                assert(k < before.len());
                if j > k {
                    lemma_lex_lt_total(name_key(before[k as int]), name_key(before[j]));
                    if name_key(before[k as int]) != name_key(before[j]) {
                        if lex_lt(name_key(before[j]), name_key(before[k as int])) {
                            assert(!lex_lt(name_key(before[j]), name_key(before[k as int])));
                        }
                        lemma_lex_lt_transitive(xk@, name_key(before[k as int]), name_key(before[j]));
                    }
                }
            }
        }
        out.insert(k, x);
        proof {
            assert(out@ == before.insert(k as int, items@[i as int]));
            assert forall|a: int, b: int| 0 <= a < b < out@.len() implies !lex_lt(
                name_key(#[trigger] out@[b]),
                name_key(#[trigger] out@[a]),
            ) by {
                if a == k {
                    assert(out@[b] == before[b - 1]);
                    lemma_lex_lt_asymmetric(xk@, name_key(before[b - 1]));
                } else if b == k {
                    assert(out@[a] == before[a]);
                } else {
                    let a0 = if a < k { a } else { a - 1 };
                    let b0 = if b < k { b } else { b - 1 };
                    assert(out@[a] == before[a0]);
                    assert(out@[b] == before[b0]);
                }
            }
            assert(items@.take(i + 1) =~= items@.take(i as int).push(items@[i as int]));
            vstd::seq_lib::to_multiset_insert(before, k as int, items@[i as int]);
            vstd::seq_lib::to_multiset_build(items@.take(i as int), items@[i as int]);
        }
        i = i + 1;
    }
    assert(items@.take(i as int) =~= items@);
    out
}

/// The listing of a directory read as `entries`: directories by name, then
/// the rest by name.
pub fn listing(entries: Vec<FileItem>) -> (r: Vec<FileItem>)
    ensures
        is_listing_of(r@, entries@),
{
    let dirs = sort_by_name(split_kind(&entries, true));
    let files = sort_by_name(split_kind(&entries, false));
    let ghost d = dirs@;
    let k = dirs.len();
    let mut out = dirs;
    let mut j: usize = 0;
    assert(out@ =~= d + files@.take(0));
    while j < files.len()
        invariant
            k == d.len(),
            j <= files@.len(),
            out@ == d + files@.take(j as int),
        decreases files.len() - j,
    {
        out.push(files[j].copy());
        j = j + 1;
        assert(out@ =~= d + files@.take(j as int));
    }
    assert(files@.take(j as int) =~= files@);
    assert(out@.take(k as int) =~= d);
    assert(out@.skip(k as int) =~= files@);
    assert(sorted_by_name(out@.take(k as int)));
    out
}

/// What `std::path::Path::parent` gives for the path with these
/// characters, as text: the path without its final component. How a path
/// splits into components follows the path rules of the target the crate
/// is built for, and is a function of the text alone.
pub uninterp spec fn parent_of_path(path: Seq<char>) -> Option<Seq<char>>;

/// The parent directory of `path`, by `std::path::Path::parent`, as text.
/// Its documentation gives `None` for the empty path; what else it gives is
/// named by `parent_of_path` and not spelled out.
#[verifier::external_body]
fn path_parent(path: &str) -> (r: Option<String>)
    ensures
        match r {
            Some(p) => parent_of_path(path@) == Some(p@),
            None => parent_of_path(path@) is None,
        },
        path@.len() == 0 ==> r is None,
{
    std::path::Path::new(path).parent().map(|p| p.to_string_lossy().to_string())
}

/// The history after visiting `p` from position `i`: what lay ahead is
/// dropped and `p` becomes the newest entry.
pub open spec fn visit(h: Seq<Seq<char>>, i: int, p: Seq<char>) -> Seq<Seq<char>> {
    h.take(i + 1).push(p)
}

/// A browser over a directory listing with back/forward history.
#[derive(Debug)]
pub struct FileBrowser {
    current_dir: String,
    files: Vec<FileItem>,
    selected_index: usize,
    history: Vec<String>,
    history_index: usize,
}

/// `b` is `a` moved to position `idx` of the same history: it shows the
/// entry there, with the listing and selection kept.
pub open spec fn stepped_to(a: FileBrowser, b: FileBrowser, idx: int) -> bool {
    &&& b.hidx() == idx
    &&& b.hist() == a.hist()
    &&& b.cur() == b.hist()[idx]
    &&& b.listed() == a.listed()
    &&& b.sel() == a.sel()
}

/// The characters of each history entry.
pub open spec fn history_view(h: Seq<String>) -> Seq<Seq<char>> {
    h.map_values(|s: String| s@)
}

impl FileBrowser {
    /// The directory shown.
    pub closed spec fn cur(&self) -> Seq<char> {
        self.current_dir@
    }

    /// Its entries as listed.
    pub closed spec fn listed(&self) -> Seq<FileItem> {
        self.files@
    }

    /// The selected position.
    pub closed spec fn sel(&self) -> int {
        self.selected_index as int
    }

    /// The directories visited.
    pub closed spec fn hist(&self) -> Seq<Seq<char>> {
        history_view(self.history@)
    }

    /// The position in the history.
    pub closed spec fn hidx(&self) -> int {
        self.history_index as int
    }

    /// The position lies in the history and the directory shown is the
    /// history's entry there. Every browser holds this.
    pub open spec fn at_history(&self) -> bool {
        &&& 0 <= self.hidx() < self.hist().len()
        &&& self.cur() == self.hist()[self.hidx()]
    }

    #[verifier::type_invariant]
    closed spec fn consistent(&self) -> bool {
        &&& self.history@.len() >= 1
        &&& self.history_index < self.history@.len()
        &&& self.current_dir@ == self.history@[self.history_index as int]@
        &&& (self.files@.len() == 0 ==> self.selected_index == 0)
        &&& (self.files@.len() > 0 ==> self.selected_index < self.files@.len())
    }

    /// A browser at `start_dir`, whose entries are `entries`.
    pub fn new(start_dir: String, entries: Vec<FileItem>) -> (r: FileBrowser)
        ensures
            r.at_history(),
            r.cur() == start_dir@,
            r.hist() == seq![start_dir@],
            r.hidx() == 0,
            is_listing_of(r.listed(), entries@),
            r.sel() == 0,
    {
        let first = start_dir.clone();
        let history = vec![first];
        let files = listing(entries);
        let r = FileBrowser { current_dir: start_dir, files, selected_index: 0, history, history_index: 0 };
        assert(r.hist() =~= seq![start_dir@]);
        r
    }

    /// Shows `entries` as the current directory's listing and selects the
    /// first entry.
    pub fn refresh(&mut self, entries: Vec<FileItem>)
        ensures
            final(self).at_history(),
            is_listing_of(final(self).listed(), entries@),
            final(self).sel() == 0,
            final(self).cur() == old(self).cur(),
            final(self).hist() == old(self).hist(),
            final(self).hidx() == old(self).hidx(),
    {
        proof {
            use_type_invariant(&*self);
        }
        let files = listing(entries);
        let history = self.take_history();
        *self = FileBrowser {
            current_dir: self.current_dir.clone(),
            files,
            selected_index: 0,
            history,
            history_index: self.history_index,
        };
    }

    fn take_history(&self) -> (r: Vec<String>)
        ensures
            r@ == self.history@,
    {
        let mut h: Vec<String> = Vec::new();
        let mut i: usize = 0;
        while i < self.history.len()
            invariant
                i <= self.history@.len(),
                h@ == self.history@.take(i as int),
            decreases self.history.len() - i,
        {
            h.push(self.history[i].clone());
            i = i + 1;
            assert(h@ =~= self.history@.take(i as int));
        }
        assert(self.history@.take(i as int) =~= self.history@);
        h
    }

    fn take_files(&self) -> (r: Vec<FileItem>)
        ensures
            r@ == self.files@,
    {
        let mut f: Vec<FileItem> = Vec::new();
        let mut i: usize = 0;
        while i < self.files.len()
            invariant
                i <= self.files@.len(),
                f@ == self.files@.take(i as int),
            decreases self.files.len() - i,
        {
            f.push(self.files[i].copy());
            i = i + 1;
            assert(f@ =~= self.files@.take(i as int));
        }
        assert(self.files@.take(i as int) =~= self.files@);
        f
    }

    /// Moves to `dir` as a new history entry; the listing stays until the
    /// caller refreshes it.
    fn visit_dir(&mut self, dir: String)
        ensures
            final(self).cur() == dir@,
            final(self).hist() == visit(old(self).hist(), old(self).hidx(), dir@),
            final(self).hidx() == old(self).hidx() + 1,
            final(self).listed() == old(self).listed(),
            final(self).sel() == old(self).sel(),
    {
        proof {
            use_type_invariant(&*self);
        }
        let hl = self.history.len();
        let mut history = self.take_history();
        history.truncate(self.history_index + 1);
        history.push(dir.clone());
        let ghost h = history@;
        assert(history_view(h) =~= visit(old(self).hist(), old(self).hidx(), dir@));
        let files = self.take_files();
        let idx = self.history_index + 1;
        *self = FileBrowser { current_dir: dir, files, selected_index: self.selected_index, history, history_index: idx };
    }

    /// Enters the selected entry when it is a directory; whether it did.
    /// The caller then refreshes the listing.
    pub fn enter_directory(&mut self) -> (r: bool)
        ensures
            final(self).at_history(),
            !r ==> *final(self) == *old(self),
            r ==> final(self).hidx() == final(self).hist().len() - 1,
            r == (0 <= old(self).sel() < old(self).listed().len() && old(self).listed()[old(self).sel()].is_dir),
            r ==> final(self).cur() == old(self).listed()[old(self).sel()].path@ && final(self).hist() == visit(
                old(self).hist(),
                old(self).hidx(),
                final(self).cur(),
            ) && final(self).hidx() == old(self).hidx() + 1,
            !r ==> final(self).cur() == old(self).cur() && final(self).hist() == old(self).hist()
                && final(self).hidx() == old(self).hidx(),
            final(self).listed() == old(self).listed(),
            final(self).sel() == old(self).sel(),
    {
        proof {
            use_type_invariant(&*self);
        }
        if self.selected_index >= self.files.len() {
            return false;
        }
        if !self.files[self.selected_index].is_dir {
            return false;
        }
        let dir = self.files[self.selected_index].path.clone();
        self.visit_dir(dir);
        true
    }

    /// Moves to the parent directory, when the path has one; whether it
    /// did. The caller then refreshes the listing.
    pub fn go_up(&mut self) -> (r: bool)
        ensures
            final(self).at_history(),
            !r ==> *final(self) == *old(self),
            r ==> final(self).hidx() == final(self).hist().len() - 1,
            r == (parent_of_path(old(self).cur()) is Some),
            r ==> final(self).cur() == parent_of_path(old(self).cur())->0,
            r ==> final(self).hist() == visit(old(self).hist(), old(self).hidx(), final(self).cur())
                && final(self).hidx() == old(self).hidx() + 1,
            !r ==> final(self).cur() == old(self).cur() && final(self).hist() == old(self).hist()
                && final(self).hidx() == old(self).hidx(),
            final(self).listed() == old(self).listed(),
            final(self).sel() == old(self).sel(),
    {
        proof {
            use_type_invariant(&*self);
        }
        match path_parent(self.current_dir.as_str()) {
            Some(parent) => {
                self.visit_dir(parent);
                true
            },
            None => false,
        }
    }

    /// Steps back in the history; whether there was a step.
    pub fn go_back(&mut self) -> (r: bool)
        ensures
            final(self).at_history(),
            r ==> stepped_to(*old(self), *final(self), old(self).hidx() - 1),
            !r ==> *final(self) == *old(self),
            r == (old(self).hidx() > 0),
            r ==> final(self).hidx() == old(self).hidx() - 1,
            !r ==> final(self).hidx() == old(self).hidx(),
            final(self).cur() == final(self).hist()[final(self).hidx()],
            final(self).hist() == old(self).hist(),
            final(self).listed() == old(self).listed(),
            final(self).sel() == old(self).sel(),
    {
        proof {
            use_type_invariant(&*self);
        }
        if self.history_index > 0 {
            self.move_to(self.history_index - 1);
            true
        } else {
            false
        }
    }

    /// Steps forward in the history; whether there was a step.
    pub fn go_forward(&mut self) -> (r: bool)
        ensures
            final(self).at_history(),
            r ==> stepped_to(*old(self), *final(self), old(self).hidx() + 1),
            !r ==> *final(self) == *old(self),
            r == (old(self).hidx() + 1 < old(self).hist().len()),
            r ==> final(self).hidx() == old(self).hidx() + 1,
            !r ==> final(self).hidx() == old(self).hidx(),
            final(self).cur() == final(self).hist()[final(self).hidx()],
            final(self).hist() == old(self).hist(),
            final(self).listed() == old(self).listed(),
            final(self).sel() == old(self).sel(),
    {
        proof {
            use_type_invariant(&*self);
        }
        let hl = self.history.len();
        if self.history_index + 1 < hl {
            self.move_to(self.history_index + 1);
            true
        } else {
            false
        }
    }

    fn move_to(&mut self, idx: usize)
        requires
            idx < old(self).hist().len(),
        ensures
            final(self).hidx() == idx,
            final(self).cur() == final(self).hist()[idx as int],
            final(self).hist() == old(self).hist(),
            final(self).listed() == old(self).listed(),
            final(self).sel() == old(self).sel(),
    {
        proof {
            use_type_invariant(&*self);
        }
        let dir = self.history[idx].clone();
        let history = self.take_history();
        let files = self.take_files();
        *self = FileBrowser { current_dir: dir, files, selected_index: self.selected_index, history, history_index: idx };
    }

    /// Selects the entry before the selected one, if any.
    pub fn select_previous(&mut self)
        ensures
            final(self).at_history(),
            final(self).sel() == (if old(self).listed().len() > 0 && old(self).sel() > 0 {
                old(self).sel() - 1
            } else {
                old(self).sel()
            }),
            final(self).listed() == old(self).listed(),
            final(self).cur() == old(self).cur(),
            final(self).hist() == old(self).hist(),
            final(self).hidx() == old(self).hidx(),
    {
        proof {
            use_type_invariant(&*self);
        }
        if self.files.len() > 0 && self.selected_index > 0 {
            self.set_selection(self.selected_index - 1);
        }
    }

    /// Selects the entry after the selected one, if any.
    pub fn select_next(&mut self)
        ensures
            final(self).at_history(),
            final(self).sel() == (if old(self).listed().len() > 0 && old(self).sel() + 1 < old(self).listed().len() {
                old(self).sel() + 1
            } else {
                old(self).sel()
            }),
            final(self).listed() == old(self).listed(),
            final(self).cur() == old(self).cur(),
            final(self).hist() == old(self).hist(),
            final(self).hidx() == old(self).hidx(),
    {
        proof {
            use_type_invariant(&*self);
        }
        if self.files.len() > 0 && self.selected_index + 1 < self.files.len() {
            self.set_selection(self.selected_index + 1);
        }
    }

    /// Selects the first entry.
    pub fn select_first(&mut self)
        ensures
            final(self).at_history(),
            final(self).sel() == 0,
            final(self).listed() == old(self).listed(),
            final(self).cur() == old(self).cur(),
            final(self).hist() == old(self).hist(),
            final(self).hidx() == old(self).hidx(),
    {
        proof {
            use_type_invariant(&*self);
        }
        self.set_selection(0);
    }

    /// Selects the last entry, if there is one.
    pub fn select_last(&mut self)
        ensures
            final(self).at_history(),
            final(self).sel() == (if old(self).listed().len() > 0 {
                old(self).listed().len() - 1
            } else {
                old(self).sel()
            }),
            final(self).listed() == old(self).listed(),
            final(self).cur() == old(self).cur(),
            final(self).hist() == old(self).hist(),
            final(self).hidx() == old(self).hidx(),
    {
        proof {
            use_type_invariant(&*self);
        }
        if self.files.len() > 0 {
            self.set_selection(self.files.len() - 1);
        }
    }

    fn set_selection(&mut self, sel: usize)
        requires
            sel == 0 || sel < old(self).listed().len(),
        ensures
            final(self).sel() == sel,
            final(self).listed() == old(self).listed(),
            final(self).cur() == old(self).cur(),
            final(self).hist() == old(self).hist(),
            final(self).hidx() == old(self).hidx(),
    {
        proof {
            use_type_invariant(&*self);
        }
        let history = self.take_history();
        let files = self.take_files();
        *self = FileBrowser {
            current_dir: self.current_dir.clone(),
            files,
            selected_index: sel,
            history,
            history_index: self.history_index,
        };
    }

    /// The directory shown.
    pub fn current_dir(&self) -> (r: &String)
        ensures
            r@ == self.cur(),
    {
        &self.current_dir
    }

    /// The listing.
    pub fn files(&self) -> (r: &Vec<FileItem>)
        ensures
            r@ == self.listed(),
    {
        &self.files
    }

    /// The selected position.
    pub fn selected_index(&self) -> (r: usize)
        ensures
            r == self.sel(),
    {
        self.selected_index
    }

    /// The selected entry, if the listing has one there.
    pub fn selected_file(&self) -> (r: Option<&FileItem>)
        ensures
            match r {
                Some(f) => 0 <= self.sel() < self.listed().len() && *f == self.listed()[self.sel()],
                None => !(0 <= self.sel() < self.listed().len()),
            },
    {
        if self.selected_index < self.files.len() {
            Some(&self.files[self.selected_index])
        } else {
            None
        }
    }

    /// Whether the directory shown has a parent.
    pub fn can_go_up(&self) -> (r: bool)
        ensures
            r == (parent_of_path(self.cur()) is Some),
    {
        path_parent(self.current_dir.as_str()).is_some()
    }

    /// Whether there is a step back.
    pub fn can_go_back(&self) -> (r: bool)
        ensures
            r == (self.hidx() > 0),
    {
        self.history_index > 0
    }

    /// Whether there is a step forward.
    pub fn can_go_forward(&self) -> (r: bool)
        ensures
            r == (self.hidx() + 1 < self.hist().len()),
    {
        proof {
            use_type_invariant(self);
        }
        let hl = self.history.len();
        self.history_index + 1 < hl
    }
}

/// Going back and then forward again returns to the directory shown at the
/// start: going back from a browser past its first history entry leaves a
/// step forward, and that step leads to the same directory, position and
/// history as before.
pub proof fn lemma_back_then_forward(b0: FileBrowser, b1: FileBrowser, b2: FileBrowser)
    requires
        b0.at_history(),
        b0.hidx() > 0,
        stepped_to(b0, b1, b0.hidx() - 1),
        stepped_to(b1, b2, b1.hidx() + 1),
    ensures
        b1.hidx() + 1 < b1.hist().len(),
        b2.cur() == b0.cur(),
        b2.hidx() == b0.hidx(),
        b2.hist() == b0.hist(),
{
}

/// Going back after visiting a directory returns to the directory that was
/// shown before, and going forward again returns to the visited one.
pub proof fn lemma_back_after_visit(h: Seq<Seq<char>>, i: int, p: Seq<char>)
    requires
        0 <= i < h.len(),
    ensures
        visit(h, i, p)[i] == h[i],
        visit(h, i, p)[i + 1] == p,
        visit(h, i, p).len() == i + 2,
{
}

} // verus!
