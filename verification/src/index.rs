//! Incremental indexing: which files changed since the last index, by the
//! hash of their content.

use vstd::prelude::*;
use crate::ir::{hash_eq, sha256, ContentHash};
use crate::text::{copy_string, str_eq, chars_of};

verus! {

/// Tracks file content hashes for incremental indexing.
pub struct Indexer {
    project_root: String,
    /// The last known content hash of each file, one entry per path.
    file_hashes: Vec<(String, ContentHash)>,
}

/// A file that has changed since the last index.
pub struct ChangedFile {
    pub path: String,
    pub content: Vec<u8>,
    pub kind: ChangeKind,
}

/// How a file changed.
#[derive(Debug, Clone, Copy, PartialEq, Eq, Structural)]
pub enum ChangeKind {
    Added,
    Modified,
    Deleted,
}

/// The paths of the entries.
pub open spec fn hash_keys(v: Seq<(String, ContentHash)>) -> Seq<Seq<char>> {
    v.map_values(|e: (String, ContentHash)| e.0@)
}

/// What committing the changes, one after the other, makes of the known
/// hashes: a deleted file is forgotten, any other is recorded with the hash
/// of its content.
pub open spec fn committed(m: Map<Seq<char>, Seq<u8>>, changes: Seq<ChangedFile>) -> Map<Seq<char>, Seq<u8>>
    decreases changes.len(),
{
    if changes.len() == 0 {
        m
    } else {
        let before = committed(m, changes.drop_last());
        let c = changes.last();
        if c.kind == ChangeKind::Deleted {
            before.remove(c.path@)
        } else {
            before.insert(c.path@, sha256(c.content@))
        }
    }
}

/// How a file of that content compares with the known hashes: new, changed,
/// or (`None`) unchanged.
pub open spec fn change_kind(m: Map<Seq<char>, Seq<u8>>, path: Seq<char>, content: Seq<u8>) -> Option<ChangeKind> {
    if !m.dom().contains(path) {
        Some(ChangeKind::Added)
    } else if m[path] != sha256(content) {
        Some(ChangeKind::Modified)
    } else {
        None
    }
}

impl Indexer {
    /// One entry per path.
    pub closed spec fn wf(&self) -> bool {
        hash_keys(self.file_hashes@).no_duplicates()
    }

    /// The known hash of each known file.
    pub closed spec fn hashes(&self) -> Map<Seq<char>, Seq<u8>> {
        Map::new(
            |k: Seq<char>| hash_keys(self.file_hashes@).contains(k),
            |k: Seq<char>| self.file_hashes@[hash_keys(self.file_hashes@).index_of(k)].1.0@,
        )
    }

    /// The project root.
    pub closed spec fn root(&self) -> Seq<char> {
        self.project_root@
    }

    proof fn lemma_entry(&self, i: int)
        requires
            self.wf(),
            0 <= i < self.file_hashes@.len(),
        ensures
            self.hashes().dom().contains(self.file_hashes@[i].0@),
            self.hashes()[self.file_hashes@[i].0@] == self.file_hashes@[i].1.0@,
    {
        let ks = hash_keys(self.file_hashes@);
        assert(ks[i] == self.file_hashes@[i].0@);
        assert(ks.contains(ks[i]));
        let j = ks.index_of(ks[i]);
        assert(ks[j] == ks[i]);
    }

    /// An indexer for the project that knows no file yet.
    pub fn new(project_root: &str) -> (r: Result<Self, String>)
        ensures
            r matches Ok(ix) && ix.wf() && ix.root() == project_root@ && ix.hashes().dom() =~= Set::<Seq<char>>::empty(),
    {
        let ix = Indexer { project_root: String::from_str(project_root), file_hashes: Vec::new() };
        proof {
            assert(hash_keys(ix.file_hashes@) =~= Seq::<Seq<char>>::empty());
        }
        Ok(ix)
    }

    /// The project root.
    pub fn project_root(&self) -> (r: &str)
        ensures
            r@ == self.root(),
    {
        self.project_root.as_str()
    }

    fn position(&self, path: &Vec<char>) -> (r: Option<usize>)
        requires
            self.wf(),
        ensures
            match r {
                Some(i) => i < self.file_hashes@.len() && self.file_hashes@[i as int].0@ == path@,
                None => !self.hashes().dom().contains(path@),
            },
    {
        let mut i: usize = 0;
        while i < self.file_hashes.len()
            invariant
                i <= self.file_hashes@.len(),
                forall|j: int| 0 <= j < i ==> self.file_hashes@[j].0@ != path@,
            decreases self.file_hashes@.len() - i,
        {
            if str_eq(&self.file_hashes[i].0, path.as_slice()) {
                return Some(i);
            }
            i = i + 1;
        }
        proof {
            let ks = hash_keys(self.file_hashes@);
            if ks.contains(path@) {
                let j = choose|j: int| 0 <= j < ks.len() && ks[j] == path@;
                assert(self.file_hashes@[j].0@ == path@);
            }
        }
        None
    }

    /// How a file of that content compares with what was last indexed: new,
    /// changed, or unchanged (`None`).
    pub fn change_kind_of(&self, path: &str, content: &[u8]) -> (r: Option<ChangeKind>)
        requires
            self.wf(),
        ensures
            r == change_kind(self.hashes(), path@, content@),
    {
        let p = chars_of(path);
        match self.position(&p) {
            None => Some(ChangeKind::Added),
            Some(i) => {
                let h = ContentHash::from_bytes(content, None);
                proof {
                    self.lemma_entry(i as int);
                }
                if hash_eq(&self.file_hashes[i].1, &h) {
                    None
                } else {
                    Some(ChangeKind::Modified)
                }
            },
        }
    }

    /// The paths of the files last indexed, each once.
    pub fn known_paths(&self) -> (r: Vec<String>)
        requires
            self.wf(),
        ensures
            crate::text::views(r@).no_duplicates(),
            forall|k: Seq<char>| crate::text::views(r@).contains(k) <==> self.hashes().dom().contains(k),
    {
        let mut out: Vec<String> = Vec::new();
        let mut i: usize = 0;
        while i < self.file_hashes.len()
            invariant
                i <= self.file_hashes@.len(),
                self.wf(),
                crate::text::views(out@) == hash_keys(self.file_hashes@).take(i as int),
            decreases self.file_hashes@.len() - i,
        {
            let ghost before = out@;
            out.push(copy_string(&self.file_hashes[i].0));
            proof {
                assert(crate::text::views(out@) =~= crate::text::views(before).push(self.file_hashes@[i as int].0@));
                assert(hash_keys(self.file_hashes@).take(i + 1) =~= hash_keys(self.file_hashes@).take(i as int).push(self.file_hashes@[i as int].0@));
            }
            i = i + 1;
        }
        proof {
            assert(hash_keys(self.file_hashes@).take(self.file_hashes@.len() as int) =~= hash_keys(self.file_hashes@));
        }
        out
    }

    fn commit_one(&mut self, change: &ChangedFile)
        requires
            old(self).wf(),
        ensures
            final(self).wf(),
            final(self).root() == old(self).root(),
            final(self).hashes() == (if change.kind == ChangeKind::Deleted {
                old(self).hashes().remove(change.path@)
            } else {
                old(self).hashes().insert(change.path@, sha256(change.content@))
            }),
    {
        let ghost ov = self.file_hashes@;
        let ghost ok = hash_keys(ov);
        let ghost om = self.hashes();
        let p = chars_of(change.path.as_str());
        let pos = self.position(&p);
        if change.kind == ChangeKind::Deleted {
            match pos {
                Some(i) => {
                    self.file_hashes.remove(i);
                    proof {
                        let nv = self.file_hashes@;
                        let nk = hash_keys(nv);
                        assert(nk =~= ok.remove(i as int));
                        assert(nk.no_duplicates()) by {
                            assert forall|a: int, b: int| 0 <= a < nk.len() && 0 <= b < nk.len() && a != b implies nk[a] != nk[b] by {
                                let a1 = if a < i { a } else { a + 1 };
                                let b1 = if b < i { b } else { b + 1 };
                                assert(nk[a] == ok[a1]);
                                assert(nk[b] == ok[b1]);
                            }
                        }
                        assert(self.wf());
                        let nm = om.remove(change.path@);
                        assert forall|k: Seq<char>| self.hashes().dom().contains(k) <==> nm.dom().contains(k) by {
                            if nk.contains(k) {
                                let a = choose|a: int| 0 <= a < nk.len() && nk[a] == k;
                                let a1 = if a < i { a } else { a + 1 };
                                assert(ok[a1] == k);
                                assert(ok.contains(k));
                                assert(a1 != i);
                                assert(ok[i as int] == change.path@);
                            }
                            if nm.dom().contains(k) {
                                let a = choose|a: int| 0 <= a < ok.len() && ok[a] == k;
                                assert(a != i);
                                let a2 = if a < i { a } else { a - 1 };
                                assert(nk[a2] == k);
                            }
                        }
                        assert forall|k: Seq<char>| #[trigger] self.hashes().dom().contains(k) implies self.hashes()[k] == nm[k] by {
                            let a = nk.index_of(k);
                            assert(nk[a] == k);
                            self.lemma_entry(a);
                            let a1 = if a < i { a } else { a + 1 };
                            assert(nv[a] == ov[a1]);
                            assert(ok[a1] == k);
                            assert(ok.contains(k));
                            assert(ok[i as int] == change.path@);
                            assert(a1 != i);
                            assert(k != change.path@);
                            assert(om[k] == ov[ok.index_of(k)].1.0@);
                            assert(ok[ok.index_of(k)] == k);
                            assert(ok.index_of(k) == a1) by {
                                if ok.index_of(k) != a1 {
                                    assert(ok[ok.index_of(k)] == ok[a1]);
                                }
                            }
                        }
                        assert(self.hashes() =~= nm);
                    }
                },
                None => {
                    proof {
                        assert(om.remove(change.path@) =~= om);
                    }
                },
            }
        } else {
            let h = ContentHash::from_bytes(change.content.as_slice(), None);
            match pos {
                Some(i) => {
                    self.file_hashes.set(i, (copy_string(&change.path), h));
                    proof {
                        let nv = self.file_hashes@;
                        let nk = hash_keys(nv);
                        assert(nk =~= ok.update(i as int, change.path@));
                        assert(nk =~= ok);
                        assert(self.wf());
                        let nm = om.insert(change.path@, sha256(change.content@));
                        assert forall|k: Seq<char>| self.hashes().dom().contains(k) <==> nm.dom().contains(k) by {
                            if k == change.path@ {
                                assert(ok[i as int] == k);
                            }
                        }
                        assert forall|k: Seq<char>| #[trigger] self.hashes().dom().contains(k) implies self.hashes()[k] == nm[k] by {
                            let a = nk.index_of(k);
                            assert(nk[a] == k);
                            self.lemma_entry(a);
                            if a != i {
                                assert(ok[a] == k);
                                assert(ok.contains(k));
                                assert(ok[i as int] == change.path@);
                                assert(k != change.path@);
                                assert(ok.index_of(k) == a) by {
                                    if ok.index_of(k) != a {
                                        assert(ok[ok.index_of(k)] == ok[a]);
                                    }
                                }
                            }
                        }
                        assert(self.hashes() =~= nm);
                    }
                },
                None => {
                    self.file_hashes.push((copy_string(&change.path), h));
                    proof {
                        let nv = self.file_hashes@;
                        let nk = hash_keys(nv);
                        assert(nk =~= ok.push(change.path@));
                        assert(nk.no_duplicates()) by {
                            assert forall|a: int, b: int| 0 <= a < nk.len() && 0 <= b < nk.len() && a != b implies nk[a] != nk[b] by {
                                if a == ok.len() {
                                    assert(!ok.contains(nk[b]) || b != ok.len());
                                    if nk[a] == nk[b] {
                                        assert(ok[b] == change.path@);
                                        assert(ok.contains(change.path@));
                                    }
                                } else if b == ok.len() {
                                    if nk[a] == nk[b] {
                                        assert(ok[a] == change.path@);
                                        assert(ok.contains(change.path@));
                                    }
                                }
                            }
                        }
                        assert(self.wf());
                        let nm = om.insert(change.path@, sha256(change.content@));
                        assert forall|k: Seq<char>| self.hashes().dom().contains(k) <==> nm.dom().contains(k) by {
                            if nk.contains(k) {
                                let a = choose|a: int| 0 <= a < nk.len() && nk[a] == k;
                                if a < ok.len() {
                                    assert(ok[a] == k);
                                }
                            }
                            if ok.contains(k) {
                                let a = choose|a: int| 0 <= a < ok.len() && ok[a] == k;
                                assert(nk[a] == k);
                            }
                            if k == change.path@ {
                                assert(nk[ok.len() as int] == k);
                            }
                        }
                        assert forall|k: Seq<char>| #[trigger] self.hashes().dom().contains(k) implies self.hashes()[k] == nm[k] by {
                            let a = nk.index_of(k);
                            assert(nk[a] == k);
                            self.lemma_entry(a);
                            if a < ok.len() {
                                assert(ok[a] == k);
                                assert(ok.index_of(k) == a) by {
                                    if ok.index_of(k) != a {
                                        assert(ok[ok.index_of(k)] == ok[a]);
                                    }
                                }
                            }
                        }
                        assert(self.hashes() =~= nm);
                    }
                },
            }
        }
    }

    /// Records that the changes were indexed, one after the other: a deleted
    /// file is forgotten, any other is remembered with the hash of its
    /// content.
    pub fn commit_changes(&mut self, changes: &Vec<ChangedFile>) -> (r: Result<(), String>)
        requires
            old(self).wf(),
        ensures
            r is Ok,
            final(self).wf(),
            final(self).root() == old(self).root(),
            final(self).hashes() == committed(old(self).hashes(), changes@),
    {
        let ghost m0 = self.hashes();
        let mut i: usize = 0;
        while i < changes.len()
            invariant
                i <= changes@.len(),
                self.wf(),
                self.root() == old(self).root(),
                m0 == old(self).hashes(),
                self.hashes() == committed(m0, changes@.take(i as int)),
            decreases changes@.len() - i,
        {
            proof {
                assert(changes@.take(i + 1).drop_last() =~= changes@.take(i as int));
            }
            self.commit_one(&changes[i]);
            i = i + 1;
        }
        proof {
            assert(changes@.take(changes@.len() as int) =~= changes@);
        }
        Ok(())
    }
}

/// Once changes are committed, a file whose last change was not a deletion
/// is known with the hash of that change's content, so the same content is
/// then reported unchanged.
pub proof fn law_committed_content_is_unchanged(m: Map<Seq<char>, Seq<u8>>, changes: Seq<ChangedFile>, i: int)
    requires
        0 <= i < changes.len(),
        changes[i].kind != ChangeKind::Deleted,
        forall|j: int| i < j < changes.len() ==> changes[j].path@ != changes[i].path@,
    ensures
        change_kind(committed(m, changes), changes[i].path@, changes[i].content@) is None,
    decreases changes.len(),
{
    if i < changes.len() - 1 {
        law_committed_content_is_unchanged(m, changes.drop_last(), i);
    }
}

/// A file whose last change was a deletion is reported as new afterwards.
pub proof fn law_deleted_is_forgotten(m: Map<Seq<char>, Seq<u8>>, changes: Seq<ChangedFile>, i: int, content: Seq<u8>)
    requires
        0 <= i < changes.len(),
        changes[i].kind == ChangeKind::Deleted,
        forall|j: int| i < j < changes.len() ==> changes[j].path@ != changes[i].path@,
    ensures
        change_kind(committed(m, changes), changes[i].path@, content) == Some(ChangeKind::Added),
    decreases changes.len(),
{
    if i < changes.len() - 1 {
        law_deleted_is_forgotten(m, changes.drop_last(), i, content);
    }
}

/// Against an index that knows no file, every file is new.
pub proof fn law_unknown_file_is_added(path: Seq<char>, content: Seq<u8>)
    ensures
        change_kind(Map::<Seq<char>, Seq<u8>>::empty(), path, content) == Some(ChangeKind::Added),
{
}

/// Committing changes keeps what the index knew of every path the changes
/// do not name.
pub proof fn law_commit_keeps_other_paths(m: Map<Seq<char>, Seq<u8>>, changes: Seq<ChangedFile>, path: Seq<char>)
    requires
        forall|j: int| 0 <= j < changes.len() ==> (#[trigger] changes[j]).path@ != path,
    ensures
        committed(m, changes).dom().contains(path) == m.dom().contains(path),
        m.dom().contains(path) ==> committed(m, changes)[path] == m[path],
    decreases changes.len(),
{
    if changes.len() > 0 {
        let rest = changes.drop_last();
        assert forall|j: int| 0 <= j < rest.len() implies (#[trigger] rest[j]).path@ != path by {
            assert(rest[j] == changes[j]);
        }
        law_commit_keeps_other_paths(m, rest, path);
        assert(changes.last() == changes[changes.len() - 1]);
    }
}

} // verus!
