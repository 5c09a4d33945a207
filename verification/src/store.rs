//! The store: an in-memory model of the data directory as a list of files,
//! each a relative `/`-separated path with its contents, every path unique.
//! Repositories work on this model; an unverified shell mirrors it onto a
//! real directory tree, whose directories are implicit in the paths.

use vstd::prelude::*;
use vstd::string::StrSliceExecFns;
use crate::strutil::{ends_with, find_char_from, is_prefix, is_suffix, starts_with, str_eq};

verus! {

/// The contents of one file: record text, or raw image bytes.
pub enum FileData {
    Text(String),
    Bin(Vec<u8>),
}

/// The mathematical value of a file's contents.
pub ghost enum FileDataView {
    Text(Seq<char>),
    Bin(Seq<u8>),
}

impl View for FileData {
    type V = FileDataView;

    open spec fn view(&self) -> FileDataView {
        match self {
            FileData::Text(t) => FileDataView::Text(t@),
            FileData::Bin(b) => FileDataView::Bin(b@),
        }
    }
}

/// One stored file.
pub struct StoredFile {
    pub path: String,
    pub data: FileData,
}

/// The mathematical value of one stored file.
pub ghost struct EntryV {
    pub path: Seq<char>,
    pub data: FileDataView,
}

impl View for StoredFile {
    type V = EntryV;

    open spec fn view(&self) -> EntryV {
        EntryV { path: self.path@, data: self.data@ }
    }
}

/// Some entry holds the path.
pub open spec fn has_path_in(es: Seq<EntryV>, p: Seq<char>) -> bool {
    exists|i: int| 0 <= i < es.len() && (#[trigger] es[i].path) == p
}

/// The index of the entry holding the path.
pub open spec fn idx_of(es: Seq<EntryV>, p: Seq<char>) -> int {
    choose|i: int| 0 <= i < es.len() && (#[trigger] es[i].path) == p
}

/// The data stored under the path.
pub open spec fn data_in(es: Seq<EntryV>, p: Seq<char>) -> FileDataView {
    es[idx_of(es, p)].data
}

/// The entries after writing `d` under `p`: replaced in place when the
/// path exists, appended otherwise.
pub open spec fn entries_after_write(es: Seq<EntryV>, p: Seq<char>, d: FileDataView) -> Seq<
    EntryV,
> {
    if has_path_in(es, p) {
        es.update(idx_of(es, p), EntryV { path: p, data: d })
    } else {
        es.push(EntryV { path: p, data: d })
    }
}

/// The entries after deleting the file under `p`, if any.
pub open spec fn entries_after_delete(es: Seq<EntryV>, p: Seq<char>) -> Seq<EntryV> {
    if has_path_in(es, p) {
        es.remove(idx_of(es, p))
    } else {
        es
    }
}

/// What a write does to the entries, pointwise: the written path holds the
/// new data, any entry at another path is exactly an entry of the old
/// store, and an entry at the written path is exactly the new entry.
pub proof fn lemma_write_props(es: Seq<EntryV>, p: Seq<char>, d: FileDataView)
    requires
        paths_unique(es),
    ensures
        paths_unique(entries_after_write(es, p, d)),
        has_path_in(entries_after_write(es, p, d), p),
        data_in(entries_after_write(es, p, d), p) == d,
        forall|q: Seq<char>|
            q != p ==> #[trigger] has_path_in(entries_after_write(es, p, d), q) == has_path_in(
                es,
                q,
            ),
        forall|q: Seq<char>|
            q != p && has_path_in(es, q) ==> #[trigger] data_in(entries_after_write(es, p, d), q)
                == data_in(es, q),
        forall|k: int|
            0 <= k < entries_after_write(es, p, d).len() ==> (#[trigger] entries_after_write(
                es,
                p,
                d,
            )[k].path == p ==> entries_after_write(es, p, d)[k] == (EntryV { path: p, data: d })),
        forall|k: int|
            0 <= k < entries_after_write(es, p, d).len() && (#[trigger] entries_after_write(
                es,
                p,
                d,
            )[k].path != p) ==> 0 <= k < es.len() && entries_after_write(es, p, d)[k] == es[k],
{
    let e = EntryV { path: p, data: d };
    let es1 = entries_after_write(es, p, d);
    if has_path_in(es, p) {
        let i = idx_of(es, p);
        assert(es[i].path == p);
        assert(es1 =~= es.update(i, e));
        assert forall|a: int, b: int|
            0 <= a < b < es1.len() implies (#[trigger] es1[a].path) != (#[trigger] es1[b].path) by {
            assert(es[a].path != es[b].path);
        }
        lemma_idx_unique(es1, p, i);
        assert forall|q: Seq<char>| q != p implies #[trigger] has_path_in(es1, q) == has_path_in(
            es,
            q,
        ) by {
            if has_path_in(es1, q) {
                let k = idx_of(es1, q);
                assert(es1[k].path == q);
                assert(es[k].path == q);
            }
            if has_path_in(es, q) {
                let k = idx_of(es, q);
                assert(es[k].path == q);
                assert(k != i);
                assert(es1[k].path == q);
            }
        }
        assert forall|q: Seq<char>|
            q != p && has_path_in(es, q) implies #[trigger] data_in(es1, q) == data_in(es, q) by {
            let k = idx_of(es, q);
            assert(es[k].path == q);
            assert(k != i);
            assert(es1[k].path == q);
            lemma_idx_unique(es1, q, k);
            lemma_idx_unique(es, q, k);
        }
        assert forall|k: int|
            0 <= k < es1.len() && (#[trigger] es1[k].path != p) implies 0 <= k < es.len()
            && es1[k] == es[k] by {
            assert(k != i);
        }
    } else {
        let n = es.len() as int;
        assert(es1 =~= es.push(e));
        assert(es1[n] == e);
        assert forall|a: int, b: int|
            0 <= a < b < es1.len() implies (#[trigger] es1[a].path) != (#[trigger] es1[b].path) by {
            if b < n {
                assert(es[a].path != es[b].path);
            } else {
                assert(es1[b] == e);
                assert(es[a].path != e.path);
            }
        }
        lemma_idx_unique(es1, p, n);
        assert forall|q: Seq<char>| q != p implies #[trigger] has_path_in(es1, q) == has_path_in(
            es,
            q,
        ) by {
            if has_path_in(es1, q) {
                let k = idx_of(es1, q);
                assert(es1[k].path == q);
                assert(k < n);
                assert(es[k].path == q);
            }
            if has_path_in(es, q) {
                let k = idx_of(es, q);
                assert(es[k].path == q);
                assert(es1[k].path == q);
            }
        }
        assert forall|q: Seq<char>|
            q != p && has_path_in(es, q) implies #[trigger] data_in(es1, q) == data_in(es, q) by {
            let k = idx_of(es, q);
            assert(es[k].path == q);
            assert(es1[k].path == q);
            lemma_idx_unique(es1, q, k);
            lemma_idx_unique(es, q, k);
        }
        assert forall|k: int|
            0 <= k < es1.len() && (#[trigger] es1[k].path != p) implies 0 <= k < es.len()
            && es1[k] == es[k] by {
            assert(k != n);
        }
    }
}

/// Where an entry of the store after a delete stood before it.
pub open spec fn delete_src(es: Seq<EntryV>, p: Seq<char>, k: int) -> int {
    if has_path_in(es, p) && k >= idx_of(es, p) {
        k + 1
    } else {
        k
    }
}

/// What a delete does to the entries, pointwise: the path is gone, any
/// entry at another path is exactly an entry of the old store.
pub proof fn lemma_delete_props(es: Seq<EntryV>, p: Seq<char>)
    requires
        paths_unique(es),
    ensures
        paths_unique(entries_after_delete(es, p)),
        !has_path_in(entries_after_delete(es, p), p),
        forall|q: Seq<char>|
            q != p ==> #[trigger] has_path_in(entries_after_delete(es, p), q) == has_path_in(
                es,
                q,
            ),
        forall|q: Seq<char>|
            q != p && has_path_in(es, q) ==> #[trigger] data_in(entries_after_delete(es, p), q)
                == data_in(es, q),
        forall|k: int|
            0 <= k < entries_after_delete(es, p).len() ==> 0 <= delete_src(es, p, k) < es.len()
                && #[trigger] entries_after_delete(es, p)[k] == es[delete_src(es, p, k)],
{
    let es1 = entries_after_delete(es, p);
    if has_path_in(es, p) {
        let i = idx_of(es, p);
        assert(es[i].path == p);
        assert(es1 == es.remove(i));
        assert forall|a: int, b: int|
            0 <= a < b < es1.len() implies (#[trigger] es1[a].path) != (#[trigger] es1[b].path) by {
            let a0: int = if a < i {
                a
            } else {
                a + 1
            };
            let b0: int = if b < i {
                b
            } else {
                b + 1
            };
            assert(es1[a] == es[a0] && es1[b] == es[b0]);
            assert(es[a0].path != es[b0].path);
        }
        assert(!has_path_in(es1, p)) by {
            if has_path_in(es1, p) {
                let k = idx_of(es1, p);
                let k0: int = if k < i {
                    k
                } else {
                    k + 1
                };
                assert(es1[k] == es[k0]);
                assert(es[k0].path == p);
                lemma_idx_unique(es, p, k0);
            }
        }
        assert forall|q: Seq<char>| q != p implies #[trigger] has_path_in(es1, q) == has_path_in(
            es,
            q,
        ) by {
            if has_path_in(es1, q) {
                let k = idx_of(es1, q);
                let k0: int = if k < i {
                    k
                } else {
                    k + 1
                };
                assert(es1[k] == es[k0]);
                assert(es[k0].path == q);
            }
            if has_path_in(es, q) {
                let k0 = idx_of(es, q);
                assert(es[k0].path == q);
                assert(k0 != i);
                let k: int = if k0 < i {
                    k0
                } else {
                    k0 - 1
                };
                assert(es1[k] == es[k0]);
                assert(es1[k].path == q);
            }
        }
        assert forall|q: Seq<char>|
            q != p && has_path_in(es, q) implies #[trigger] data_in(es1, q) == data_in(es, q) by {
            let k0 = idx_of(es, q);
            assert(es[k0].path == q);
            assert(k0 != i);
            let k: int = if k0 < i {
                k0
            } else {
                k0 - 1
            };
            assert(es1[k] == es[k0]);
            lemma_idx_unique(es1, q, k);
            lemma_idx_unique(es, q, k0);
        }
    } else {
        assert(es1 == es);
    }
    assert forall|k: int|
        0 <= k < entries_after_delete(es, p).len() implies 0 <= delete_src(es, p, k) < es.len()
        && #[trigger] entries_after_delete(es, p)[k] == es[delete_src(es, p, k)] by {
        if has_path_in(es, p) {
            let i = idx_of(es, p);
            assert(entries_after_delete(es, p)[k] == es.remove(i)[k]);
            assert(es.remove(i)[k] == es[delete_src(es, p, k)]);
        } else {
            assert(entries_after_delete(es, p)[k] == es[k]);
        }
    }
}

/// No two entries share a path.
pub open spec fn paths_unique(es: Seq<EntryV>) -> bool {
    forall|i: int, j: int|
        0 <= i < j < es.len() ==> (#[trigger] es[i].path) != (#[trigger] es[j].path)
}

/// With unique paths, the entry found for a path is the one at any index
/// that holds it.
pub proof fn lemma_idx_unique(es: Seq<EntryV>, p: Seq<char>, i: int)
    requires
        paths_unique(es),
        0 <= i < es.len(),
        es[i].path == p,
    ensures
        idx_of(es, p) == i,
        data_in(es, p) == es[i].data,
        has_path_in(es, p),
{
    let j = idx_of(es, p);
    if j != i {
        if j < i {
            assert(es[j].path != es[i].path);
        } else {
            assert(es[i].path != es[j].path);
        }
    }
}

/// The in-memory data directory.
pub struct DataStore {
    files: Vec<StoredFile>,
}

impl DataStore {
    /// The files, as mathematical values, in store order.
    pub closed spec fn entries(self) -> Seq<EntryV> {
        self.files@.map_values(|f: StoredFile| f@)
    }

    /// Well-formed: every path occurs once.
    pub open spec fn wf(self) -> bool {
        paths_unique(self.entries())
    }

    /// Some file holds the path.
    pub open spec fn has_path(self, p: Seq<char>) -> bool {
        has_path_in(self.entries(), p)
    }

    /// The data stored under the path.
    pub open spec fn data_at(self, p: Seq<char>) -> FileDataView {
        data_in(self.entries(), p)
    }

    /// An empty store.
    pub fn new() -> (s: DataStore)
        ensures
            s.wf(),
            s.entries() == Seq::<EntryV>::empty(),
    {
        let s = DataStore { files: Vec::new() };
        assert(s.entries() =~= Seq::<EntryV>::empty());
        s
    }

    /// How many files the store holds.
    pub fn len(&self) -> (n: usize)
        ensures
            n == self.entries().len(),
    {
        self.files.len()
    }

    /// The path of the file at an index, for walking the store.
    pub fn path_at_index(&self, i: usize) -> (r: &String)
        requires
            i < self.entries().len(),
        ensures
            r@ == self.entries()[i as int].path,
    {
        &self.files[i].path
    }

    /// The data of the file at an index, for walking the store.
    pub fn data_at_index(&self, i: usize) -> (r: &FileData)
        requires
            i < self.entries().len(),
        ensures
            r@ == self.entries()[i as int].data,
    {
        &self.files[i].data
    }

    /// The data under a path, if the file exists.
    pub fn read(&self, path: &str) -> (r: Option<&FileData>)
        requires
            self.wf(),
        ensures
            match r {
                Some(d) => self.has_path(path@) && d@ == self.data_at(path@),
                None => !self.has_path(path@),
            },
    {
        let ghost es = self.entries();
        let mut i: usize = 0;
        while i < self.files.len()
            invariant
                i <= self.files@.len(),
                es == self.entries(),
                self.wf(),
                forall|j: int| 0 <= j < i ==> (#[trigger] es[j].path) != path@,
            decreases self.files@.len() - i,
        {
            if str_eq(self.files[i].path.as_str(), path) {
                proof {
                    lemma_idx_unique(es, path@, i as int);
                }
                return Some(&self.files[i].data);
            }
            i += 1;
        }
        None
    }

    /// Writes the data under the path, replacing in place any file already
    /// there and appending a new file otherwise; every other file keeps its
    /// place and contents.
    pub fn write(&mut self, path: String, data: FileData)
        requires
            old(self).wf(),
        ensures
            final(self).wf(),
            final(self).entries() == entries_after_write(old(self).entries(), path@, data@),
            final(self).has_path(path@),
            final(self).data_at(path@) == data@,
            forall|q: Seq<char>|
                q != path@ ==> #[trigger] final(self).has_path(q) == old(self).has_path(q),
            forall|q: Seq<char>|
                q != path@ && old(self).has_path(q) ==> #[trigger] final(self).data_at(q) == old(
                    self,
                ).data_at(q),
    {
        let ghost es0 = self.entries();
        let f = StoredFile { path, data };
        let ghost e = f@;
        let mut i: usize = 0;
        while i < self.files.len()
            invariant
                i <= self.files@.len(),
                *self == *old(self),
                es0 == self.entries(),
                paths_unique(es0),
                f@ == e,
                e.path == path@,
                e.data == data@,
                forall|j: int| 0 <= j < i ==> (#[trigger] es0[j].path) != e.path,
            decreases self.files@.len() - i,
        {
            if str_eq(self.files[i].path.as_str(), f.path.as_str()) {
                proof {
                    lemma_idx_unique(es0, e.path, i as int);
                }
                self.files.remove(i);
                self.files.insert(i, f);
                proof {
                    let es1 = self.entries();
                    assert(es1 =~= es0.update(i as int, e));
                    assert(paths_unique(es1)) by {
                        assert forall|a: int, b: int|
                            0 <= a < b < es1.len() implies (#[trigger] es1[a].path) != (
                        #[trigger] es1[b].path) by {
                            assert(es1[a].path == if a == i {
                                es0[a].path
                            } else {
                                es0[a].path
                            });
                        }
                    }
                    lemma_idx_unique(es1, e.path, i as int);
                    assert forall|q: Seq<char>|
                        q != e.path implies #[trigger] self.has_path(q) == has_path_in(
                        es0,
                        q,
                    ) by {
                        if has_path_in(es1, q) {
                            let k = idx_of(es1, q);
                            assert(es0[k].path == q);
                        }
                        if has_path_in(es0, q) {
                            let k = idx_of(es0, q);
                            assert(k != i);
                            assert(es1[k].path == q);
                        }
                    }
                    assert forall|q: Seq<char>|
                        q != e.path && has_path_in(es0, q) implies #[trigger] data_in(es1, q)
                        == data_in(es0, q) by {
                        let k = idx_of(es0, q);
                        assert(es0[k].path == q);
                        assert(k != i);
                        assert(es1[k].path == q);
                        lemma_idx_unique(es1, q, k);
                        lemma_idx_unique(es0, q, k);
                    }
                }
                return ;
            }
            i += 1;
        }
        self.files.push(f);
        proof {
            let es1 = self.entries();
            assert(es1 =~= es0.push(e));
            let n = es0.len() as int;
            assert(es1[n] == e);
            assert(paths_unique(es1)) by {
                assert forall|a: int, b: int|
                    0 <= a < b < es1.len() implies (#[trigger] es1[a].path) != (
                #[trigger] es1[b].path) by {
                    if b < n {
                        assert(es0[a].path != es0[b].path);
                    } else {
                        assert(es1[b] == e);
                        assert(es0[a].path != e.path);
                    }
                }
            }
            lemma_idx_unique(es1, e.path, n);
            assert forall|q: Seq<char>|
                q != e.path implies #[trigger] self.has_path(q) == has_path_in(es0, q) by {
                if has_path_in(es1, q) {
                    let k = idx_of(es1, q);
                    assert(es1[k].path == q);
                    assert(k < n);
                    assert(es0[k].path == q);
                }
                if has_path_in(es0, q) {
                    let k = idx_of(es0, q);
                    assert(es0[k].path == q);
                    assert(es1[k].path == q);
                }
            }
            assert forall|q: Seq<char>|
                q != e.path && has_path_in(es0, q) implies #[trigger] data_in(es1, q) == data_in(
                es0,
                q,
            ) by {
                let k = idx_of(es0, q);
                assert(es0[k].path == q);
                assert(es1[k].path == q);
                lemma_idx_unique(es1, q, k);
                lemma_idx_unique(es0, q, k);
            }
        }
    }

    /// Deletes the file under the path; deleting an absent file changes
    /// nothing. Every other file keeps its place and contents.
    pub fn delete(&mut self, path: &str)
        requires
            old(self).wf(),
        ensures
            final(self).wf(),
            final(self).entries() == entries_after_delete(old(self).entries(), path@),
            !final(self).has_path(path@),
            forall|q: Seq<char>|
                q != path@ ==> #[trigger] final(self).has_path(q) == old(self).has_path(q),
            forall|q: Seq<char>|
                q != path@ && old(self).has_path(q) ==> #[trigger] final(self).data_at(q) == old(
                    self,
                ).data_at(q),
    {
        let ghost es0 = self.entries();
        let mut i: usize = 0;
        while i < self.files.len()
            invariant
                i <= self.files@.len(),
                *self == *old(self),
                es0 == self.entries(),
                paths_unique(es0),
                forall|j: int| 0 <= j < i ==> (#[trigger] es0[j].path) != path@,
            decreases self.files@.len() - i,
        {
            if str_eq(self.files[i].path.as_str(), path) {
                proof {
                    lemma_idx_unique(es0, path@, i as int);
                }
                self.files.remove(i);
                proof {
                    let es1 = self.entries();
                    assert(es1 =~= es0.remove(i as int));
                    assert(paths_unique(es1)) by {
                        assert forall|a: int, b: int|
                            0 <= a < b < es1.len() implies (#[trigger] es1[a].path) != (
                        #[trigger] es1[b].path) by {
                            let a0: int = if a < i {
                                a
                            } else {
                                a + 1
                            };
                            let b0: int = if b < i {
                                b
                            } else {
                                b + 1
                            };
                            assert(es1[a] == es0[a0] && es1[b] == es0[b0]);
                            assert(es0[a0].path != es0[b0].path);
                        }
                    }
                    assert(!has_path_in(es1, path@)) by {
                        if has_path_in(es1, path@) {
                            let k = idx_of(es1, path@);
                            let k0: int = if k < i {
                                k
                            } else {
                                k + 1
                            };
                            assert(es1[k] == es0[k0]);
                            assert(es0[k0].path == path@);
                            lemma_idx_unique(es0, path@, k0);
                        }
                    }
                    assert forall|q: Seq<char>|
                        q != path@ implies #[trigger] self.has_path(q) == has_path_in(
                        es0,
                        q,
                    ) by {
                        if has_path_in(es1, q) {
                            let k = idx_of(es1, q);
                            let k0: int = if k < i {
                                k
                            } else {
                                k + 1
                            };
                            assert(es1[k] == es0[k0]);
                            assert(es0[k0].path == q);
                        }
                        if has_path_in(es0, q) {
                            let k0 = idx_of(es0, q);
                            assert(es0[k0].path == q);
                            assert(k0 != i);
                            let k: int = if k0 < i {
                                k0
                            } else {
                                k0 - 1
                            };
                            assert(es1[k] == es0[k0]);
                            assert(es1[k].path == q);
                        }
                    }
                    assert forall|q: Seq<char>|
                        q != path@ && has_path_in(es0, q) implies #[trigger] data_in(es1, q)
                        == data_in(es0, q) by {
                        let k0 = idx_of(es0, q);
                        assert(es0[k0].path == q);
                        assert(k0 != i);
                        let k: int = if k0 < i {
                            k0
                        } else {
                            k0 - 1
                        };
                        assert(es1[k] == es0[k0]);
                        lemma_idx_unique(es1, q, k);
                        lemma_idx_unique(es0, q, k0);
                    }
                }
                return ;
            }
            i += 1;
        }
        assert(!has_path_in(es0, path@));
    }

    /// The `.json` files lying directly in the directory, as path and text
    /// pairs, in store order.
    pub fn json_files_in(&self, dir: &str) -> (r: Vec<(String, String)>)
        ensures
            r@.map_values(|pr: (String, String)| (pr.0@, pr.1@)) == json_listing(
                self.entries(),
                dir@,
            ),
    {
        let ghost es = self.entries();
        let mut out: Vec<(String, String)> = Vec::new();
        assert(out@.map_values(|pr: (String, String)| (pr.0@, pr.1@)) =~= json_listing(
            es.take(0),
            dir@,
        )) by {
            assert(es.take(0) =~= Seq::<EntryV>::empty());
        }
        let mut i: usize = 0;
        while i < self.files.len()
            invariant
                i <= self.files@.len(),
                es == self.entries(),
                out@.map_values(|pr: (String, String)| (pr.0@, pr.1@)) == json_listing(
                    es.take(i as int),
                    dir@,
                ),
            decreases self.files@.len() - i,
        {
            let keep = is_in_dir_json(self.files[i].path.as_str(), dir);
            if keep {
                match &self.files[i].data {
                    FileData::Text(t) => {
                        out.push((self.files[i].path.clone(), t.clone()));
                    },
                    FileData::Bin(_) => {},
                }
            }
            proof {
                lemma_json_listing_take(es, dir@, i as int);
            }
            assert(out@.map_values(|pr: (String, String)| (pr.0@, pr.1@)) =~= json_listing(
                es.take(i + 1),
                dir@,
            ));
            i += 1;
        }
        assert(es.take(es.len() as int) =~= es);
        out
    }

    /// The `.json` files lying exactly two levels under the root (one
    /// intermediate directory), as path and text pairs, in store order.
    pub fn json_files_two_level(&self, root: &str) -> (r: Vec<(String, String)>)
        ensures
            r@.map_values(|pr: (String, String)| (pr.0@, pr.1@)) == two_level_listing(
                self.entries(),
                root@,
            ),
    {
        let ghost es = self.entries();
        let mut out: Vec<(String, String)> = Vec::new();
        assert(out@.map_values(|pr: (String, String)| (pr.0@, pr.1@)) =~= two_level_listing(
            es.take(0),
            root@,
        )) by {
            assert(es.take(0) =~= Seq::<EntryV>::empty());
        }
        let mut i: usize = 0;
        while i < self.files.len()
            invariant
                i <= self.files@.len(),
                es == self.entries(),
                out@.map_values(|pr: (String, String)| (pr.0@, pr.1@)) == two_level_listing(
                    es.take(i as int),
                    root@,
                ),
            decreases self.files@.len() - i,
        {
            let keep = is_two_level_json(self.files[i].path.as_str(), root);
            if keep {
                match &self.files[i].data {
                    FileData::Text(t) => {
                        out.push((self.files[i].path.clone(), t.clone()));
                    },
                    FileData::Bin(_) => {},
                }
            }
            proof {
                lemma_two_level_listing_take(es, root@, i as int);
            }
            assert(out@.map_values(|pr: (String, String)| (pr.0@, pr.1@)) =~= two_level_listing(
                es.take(i + 1),
                root@,
            ));
            i += 1;
        }
        assert(es.take(es.len() as int) =~= es);
        out
    }
}

/// A `.json` file directly inside the directory: `{dir}/{name}.json` with
/// no further separator in the name.
pub open spec fn in_dir_json(p: Seq<char>, dir: Seq<char>) -> bool {
    &&& is_prefix(dir + seq!['/'], p)
    &&& !p.subrange(dir.len() as int + 1, p.len() as int).contains('/')
    &&& is_suffix(".json"@, p)
}

/// The tail has exactly one `/`.
pub open spec fn exactly_one_slash(s: Seq<char>) -> bool {
    exists|k: int|
        0 <= k < s.len() && (#[trigger] s[k]) == '/' && (forall|j: int|
            0 <= j < s.len() && j != k ==> s[j] != '/')
}

/// A `.json` file exactly two levels under the root:
/// `{root}/{folder}/{name}.json`.
pub open spec fn two_level_json(p: Seq<char>, root: Seq<char>) -> bool {
    &&& is_prefix(root + seq!['/'], p)
    &&& exactly_one_slash(p.subrange(root.len() as int + 1, p.len() as int))
    &&& is_suffix(".json"@, p)
}

/// Whether a file entry appears in a flat directory listing.
pub open spec fn in_dir_entry(e: EntryV, dir: Seq<char>) -> bool {
    in_dir_json(e.path, dir) && e.data is Text
}

/// Whether a file entry appears in a two-level listing.
pub open spec fn two_level_entry(e: EntryV, root: Seq<char>) -> bool {
    two_level_json(e.path, root) && e.data is Text
}

/// The path and text pairs of the `.json` files directly in the directory.
pub open spec fn json_listing(es: Seq<EntryV>, dir: Seq<char>) -> Seq<(Seq<char>, Seq<char>)> {
    es.filter(|e: EntryV| in_dir_entry(e, dir)).map_values(
        |e: EntryV| (e.path, e.data->Text_0),
    )
}

/// The path and text pairs of the `.json` files two levels under the root.
pub open spec fn two_level_listing(es: Seq<EntryV>, root: Seq<char>) -> Seq<
    (Seq<char>, Seq<char>),
> {
    es.filter(|e: EntryV| two_level_entry(e, root)).map_values(
        |e: EntryV| (e.path, e.data->Text_0),
    )
}

/// Listing one more entry appends it when it matches.
pub proof fn lemma_json_listing_take(es: Seq<EntryV>, dir: Seq<char>, i: int)
    requires
        0 <= i < es.len(),
    ensures
        json_listing(es.take(i + 1), dir) == if in_dir_entry(es[i], dir) {
            json_listing(es.take(i), dir).push((es[i].path, es[i].data->Text_0))
        } else {
            json_listing(es.take(i), dir)
        },
{
    assert(es.take(i + 1) =~= es.take(i).push(es[i]));
    es.take(i).lemma_filter_push(es[i], |e: EntryV| in_dir_entry(e, dir));
    if in_dir_entry(es[i], dir) {
        assert(json_listing(es.take(i + 1), dir) =~= json_listing(es.take(i), dir).push(
            (es[i].path, es[i].data->Text_0),
        ));
    } else {
        assert(json_listing(es.take(i + 1), dir) =~= json_listing(es.take(i), dir));
    }
}

/// Listing one more entry appends it when it matches.
pub proof fn lemma_two_level_listing_take(es: Seq<EntryV>, root: Seq<char>, i: int)
    requires
        0 <= i < es.len(),
    ensures
        two_level_listing(es.take(i + 1), root) == if two_level_entry(es[i], root) {
            two_level_listing(es.take(i), root).push((es[i].path, es[i].data->Text_0))
        } else {
            two_level_listing(es.take(i), root)
        },
{
    assert(es.take(i + 1) =~= es.take(i).push(es[i]));
    es.take(i).lemma_filter_push(es[i], |e: EntryV| two_level_entry(e, root));
    if two_level_entry(es[i], root) {
        assert(two_level_listing(es.take(i + 1), root) =~= two_level_listing(
            es.take(i),
            root,
        ).push((es[i].path, es[i].data->Text_0)));
    } else {
        assert(two_level_listing(es.take(i + 1), root) =~= two_level_listing(es.take(i), root));
    }
}

/// Whether `p` names a `.json` file directly inside `dir`.
pub fn is_in_dir_json(p: &str, dir: &str) -> (r: bool)
    ensures
        r == in_dir_json(p@, dir@),
{
    let pre = dir.to_owned().concat("/");
    proof {
        reveal_strlit("/");
        assert(pre@ =~= dir@ + seq!['/']);
    }
    if !starts_with(p, pre.as_str()) {
        return false;
    }
    let m = dir.unicode_len();
    let n = p.unicode_len();
    match find_char_from(p, m + 1, '/') {
        Some(_) => {
            let ghost k = choose|k: int|
                m + 1 <= k < n && (#[trigger] p@[k]) == '/' && (forall|j: int|
                    m + 1 <= j < k ==> p@[j] != '/');
            assert(p@.subrange(m + 1, n as int).contains('/')) by {
                assert(p@.subrange(m + 1, n as int)[k - m - 1] == p@[k]);
            }
            false
        },
        None => {
            assert(!p@.subrange(m + 1, n as int).contains('/')) by {
                if p@.subrange(m + 1, n as int).contains('/') {
                    let k = choose|k: int|
                        0 <= k < n - m - 1 && (#[trigger] p@.subrange(m + 1, n as int)[k])
                            == '/';
                    assert(p@[m + 1 + k] == '/');
                }
            }
            ends_with(p, ".json")
        },
    }
}

/// Whether `p` names a `.json` file exactly two levels under `root`.
pub fn is_two_level_json(p: &str, root: &str) -> (r: bool)
    ensures
        r == two_level_json(p@, root@),
{
    let pre = root.to_owned().concat("/");
    proof {
        reveal_strlit("/");
        assert(pre@ =~= root@ + seq!['/']);
    }
    if !starts_with(p, pre.as_str()) {
        return false;
    }
    let m = root.unicode_len();
    let n = p.unicode_len();
    let ghost tail = p@.subrange(m + 1, n as int);
    let k1 = match find_char_from(p, m + 1, '/') {
        Some(k) => k,
        None => {
            assert(!exactly_one_slash(tail)) by {
                if exactly_one_slash(tail) {
                    let k = choose|k: int|
                        0 <= k < tail.len() && tail[k] == '/' && (forall|j: int|
                            0 <= j < tail.len() && j != k ==> tail[j] != '/');
                    assert(p@[m + 1 + k] == tail[k]);
                }
            }
            return false;
        },
    };
    match find_char_from(p, k1 + 1, '/') {
        Some(k2) => {
            assert(!exactly_one_slash(tail)) by {
                if exactly_one_slash(tail) {
                    let k = choose|k: int|
                        0 <= k < tail.len() && tail[k] == '/' && (forall|j: int|
                            0 <= j < tail.len() && j != k ==> tail[j] != '/');
                    assert(tail[k1 - m - 1] == p@[k1 as int]);
                    assert(tail[k2 - m - 1] == p@[k2 as int]);
                }
            }
            false
        },
        None => {
            assert(exactly_one_slash(tail)) by {
                let kk = k1 - m - 1;
                assert(tail[kk] == p@[k1 as int]);
                assert forall|j: int| 0 <= j < tail.len() && j != kk implies tail[j] != '/' by {
                    assert(tail[j] == p@[m + 1 + j]);
                }
            }
            ends_with(p, ".json")
        },
    }
}

} // verus!
