//! Compares two snapshots (path -> content hash) and lists what changed.

use vstd::prelude::*;
use crate::order::{path_lt, str_lt, lemma_path_lt_total, lemma_path_lt_transitive};
use crate::path_map::PathMap;
use crate::hashing::types::{content_hashes, DirectorySnapshot};

verus! {

/// The kind of change found on a file.
#[derive(Debug, Clone, Copy, PartialEq, Eq, Structural)]
pub enum ChangeKind {
    /// The file was not in the old snapshot.
    Added,
    /// The file is no longer in the new snapshot.
    Removed,
    /// The file is in both snapshots, with a different hash.
    Modified,
}

/// A change on one file.
#[derive(Debug, Clone)]
pub struct FileChange {
    /// The file's path.
    pub path: String,
    /// What changed.
    pub kind: ChangeKind,
    /// The hash in the old snapshot (`None` when the file was absent).
    pub old_hash: Option<String>,
    /// The hash in the new snapshot (`None` when the file has gone).
    pub new_hash: Option<String>,
}

/// A change, with its strings taken as character sequences.
pub struct ChangeView {
    /// The file's path.
    pub path: Seq<char>,
    /// What changed.
    pub kind: ChangeKind,
    /// The hash in the old snapshot, if any.
    pub old_hash: Option<Seq<char>>,
    /// The hash in the new snapshot, if any.
    pub new_hash: Option<Seq<char>>,
}

/// The characters of an optional string.
pub open spec fn opt_view(o: Option<String>) -> Option<Seq<char>> {
    match o {
        Some(s) => Some(s@),
        None => None,
    }
}

impl View for FileChange {
    type V = ChangeView;

    open spec fn view(&self) -> ChangeView {
        ChangeView {
            path: self.path@,
            kind: self.kind,
            old_hash: opt_view(self.old_hash),
            new_hash: opt_view(self.new_hash),
        }
    }
}

/// The result of comparing two snapshots.
#[derive(Debug, Clone)]
pub struct DiffResult {
    /// Every change found, in increasing path order.
    pub changes: Vec<FileChange>,
    /// Number of files in the old snapshot.
    pub total_old: usize,
    /// Number of files in the new snapshot.
    pub total_new: usize,
}

/// A snapshot: each path mapped to the hash of the file's contents.
pub type Snapshot = PathMap<String>;

/// The change that comparing `old` with `new` reports on path `p`, if any.
pub open spec fn expected_change(old: Map<Seq<char>, String>, new: Map<Seq<char>, String>, p: Seq<char>) -> Option<ChangeView> {
    if old.contains_key(p) {
        if new.contains_key(p) {
            if old[p]@ == new[p]@ {
                None
            } else {
                Some(ChangeView { path: p, kind: ChangeKind::Modified, old_hash: Some(old[p]@), new_hash: Some(new[p]@) })
            }
        } else {
            Some(ChangeView { path: p, kind: ChangeKind::Removed, old_hash: Some(old[p]@), new_hash: None })
        }
    } else if new.contains_key(p) {
        Some(ChangeView { path: p, kind: ChangeKind::Added, old_hash: None, new_hash: Some(new[p]@) })
    } else {
        None
    }
}

/// Paths strictly increase along the list.
pub open spec fn sorted_by_path(cs: Seq<FileChange>) -> bool {
    forall|i: int, j: int| 0 <= i < j < cs.len() ==> path_lt(#[trigger] cs[i].path@, #[trigger] cs[j].path@)
}

/// Some change of the list is on path `p`.
pub open spec fn covers(cs: Seq<FileChange>, p: Seq<char>) -> bool {
    exists|k: int| 0 <= k < cs.len() && #[trigger] cs[k].path@ == p
}

/// `cs` is the list of changes from `old` to `new`: in increasing path order,
/// each one the change expected on its path, and one on every path where a
/// change is expected.
pub open spec fn is_diff_of(old: Map<Seq<char>, String>, new: Map<Seq<char>, String>, cs: Seq<FileChange>) -> bool {
    &&& sorted_by_path(cs)
    &&& forall|k: int| 0 <= k < cs.len() ==> expected_change(old, new, #[trigger] cs[k].path@) == Some(cs[k]@)
    &&& forall|p: Seq<char>| #[trigger] expected_change(old, new, p) is Some ==> covers(cs, p)
}

/// The changes of the list that are of kind `kind`, in order.
pub open spec fn of_kind(cs: Seq<FileChange>, kind: ChangeKind) -> Seq<FileChange>
    decreases cs.len(),
{
    if cs.len() == 0 {
        Seq::empty()
    } else if cs.last().kind == kind {
        of_kind(cs.drop_last(), kind).push(cs.last())
    } else {
        of_kind(cs.drop_last(), kind)
    }
}

/// The path is the path of one of the first `n` entries of the map.
pub open spec fn key_among(m: &Snapshot, n: int, p: Seq<char>) -> bool {
    exists|j: int| 0 <= j < n && #[trigger] m.key_at(j) == p
}

/// Inserting a change keeps every path that was covered covered.
proof fn lemma_covers_insert(cs: Seq<FileChange>, pos: int, c: FileChange, p: Seq<char>)
    requires
        0 <= pos <= cs.len(),
        covers(cs, p),
    ensures
        covers(cs.insert(pos, c), p),
{
    let k: int = choose|k: int| 0 <= k < cs.len() && #[trigger] cs[k].path@ == p;
    let t = cs.insert(pos, c);
    if k < pos {
        assert(t[k] == cs[k]);
    } else {
        assert(t[k + 1] == cs[k]);
    }
}

/// Inserts `c` into a list sorted by path, at the place its path belongs.
fn insert_sorted(v: &mut Vec<FileChange>, c: FileChange) -> (pos: usize)
    requires
        sorted_by_path(old(v)@),
        forall|k: int| 0 <= k < old(v)@.len() ==> #[trigger] old(v)@[k].path@ != c.path@,
    ensures
        pos <= old(v)@.len(),
        final(v)@ == old(v)@.insert(pos as int, c),
        sorted_by_path(final(v)@),
{
    let mut i: usize = 0;
    while i < v.len() && str_lt(v[i].path.as_str(), c.path.as_str())
        invariant
            i <= v@.len(),
            forall|k: int| 0 <= k < i ==> path_lt(#[trigger] v@[k].path@, c.path@),
        decreases v@.len() - i,
    {
        i = i + 1;
    }
    let ghost before = v@;
    proof {
        if i < before.len() {
            lemma_path_lt_total(before[i as int].path@, c.path@);
        }
    }
    v.insert(i, c);
    proof {
        let after = v@;
        assert forall|a: int, b: int| 0 <= a < b < after.len() implies path_lt(
            #[trigger] after[a].path@,
            #[trigger] after[b].path@,
        ) by {
            if b < i {
                assert(after[a] == before[a] && after[b] == before[b]);
            } else if b == i {
                assert(after[a] == before[a]);
            } else if a == i {
                assert(after[b] == before[b - 1]);
                if b - 1 > i {
                    assert(path_lt(before[i as int].path@, before[b - 1].path@));
                    lemma_path_lt_transitive(c.path@, before[i as int].path@, before[b - 1].path@);
                }
            } else if a < i {
                assert(after[a] == before[a] && after[b] == before[b - 1]);
            } else {
                assert(after[a] == before[a - 1] && after[b] == before[b - 1]);
            }
        }
    }
    i
}

/// The changes of `cs` of kind `kind`, as references, in order.
fn select_kind(cs: &Vec<FileChange>, kind: ChangeKind) -> (r: Vec<&FileChange>)
    ensures
        r@.len() == of_kind(cs@, kind).len(),
        forall|i: int| 0 <= i < r@.len() ==> *r@[i] == #[trigger] of_kind(cs@, kind)[i],
{
    let mut r: Vec<&FileChange> = Vec::new();
    let mut i: usize = 0;
    while i < cs.len()
        invariant
            i <= cs@.len(),
            r@.len() == of_kind(cs@.take(i as int), kind).len(),
            forall|j: int| 0 <= j < r@.len() ==> *r@[j] == #[trigger] of_kind(cs@.take(i as int), kind)[j],
        decreases cs@.len() - i,
    {
        assert(cs@.take((i + 1) as int).drop_last() =~= cs@.take(i as int));
        if cs[i].kind == kind {
            r.push(&cs[i]);
        }
        i = i + 1;
    }
    assert(cs@.take(cs@.len() as int) =~= cs@);
    r
}

impl DiffResult {
    /// The added files, in order.
    pub fn added(&self) -> (r: Vec<&FileChange>)
        ensures
            r@.len() == of_kind(self.changes@, ChangeKind::Added).len(),
            forall|i: int| 0 <= i < r@.len() ==> *r@[i] == #[trigger] of_kind(self.changes@, ChangeKind::Added)[i],
    {
        select_kind(&self.changes, ChangeKind::Added)
    }

    /// The removed files, in order.
    pub fn removed(&self) -> (r: Vec<&FileChange>)
        ensures
            r@.len() == of_kind(self.changes@, ChangeKind::Removed).len(),
            forall|i: int| 0 <= i < r@.len() ==> *r@[i] == #[trigger] of_kind(self.changes@, ChangeKind::Removed)[i],
    {
        select_kind(&self.changes, ChangeKind::Removed)
    }

    /// The modified files, in order.
    pub fn modified(&self) -> (r: Vec<&FileChange>)
        ensures
            r@.len() == of_kind(self.changes@, ChangeKind::Modified).len(),
            forall|i: int| 0 <= i < r@.len() ==> *r@[i] == #[trigger] of_kind(self.changes@, ChangeKind::Modified)[i],
    {
        select_kind(&self.changes, ChangeKind::Modified)
    }

    /// Whether no change was found.
    pub fn is_clean(&self) -> (b: bool)
        ensures
            b == (self.changes@.len() == 0),
    {
        self.changes.len() == 0
    }

    /// The number of changes.
    pub fn count(&self) -> (n: usize)
        ensures
            n == self.changes@.len(),
    {
        self.changes.len()
    }
}

/// Compares two snapshots: each path of `old` missing from `new` is
/// `Removed`, each path of `new` missing from `old` is `Added`, and each path
/// in both whose hash differs is `Modified`. The changes come in increasing
/// path order; the totals are the sizes of the two snapshots.
pub fn compare_snapshots(old: &Snapshot, new: &Snapshot) -> (r: DiffResult)
    ensures
        is_diff_of(old@, new@, r.changes@),
        r.total_old == old@.len(),
        r.total_new == new@.len(),
        forall|k: int| 0 <= k < r.changes@.len() && #[trigger] r.changes@[k].kind == ChangeKind::Added ==> {
            let p = r.changes@[k].path@;
            &&& !old@.contains_key(p) && new@.contains_key(p)
            &&& r.changes@[k].old_hash is None
            &&& r.changes@[k].new_hash matches Some(h) && h@ == new@[p]@
        },
        forall|k: int| 0 <= k < r.changes@.len() && #[trigger] r.changes@[k].kind == ChangeKind::Removed ==> {
            let p = r.changes@[k].path@;
            &&& old@.contains_key(p) && !new@.contains_key(p)
            &&& r.changes@[k].old_hash matches Some(h) && h@ == old@[p]@
            &&& r.changes@[k].new_hash is None
        },
        forall|k: int| 0 <= k < r.changes@.len() && #[trigger] r.changes@[k].kind == ChangeKind::Modified ==> {
            let p = r.changes@[k].path@;
            &&& old@.contains_key(p) && new@.contains_key(p) && old@[p]@ != new@[p]@
            &&& r.changes@[k].old_hash matches Some(h) && h@ == old@[p]@
            &&& r.changes@[k].new_hash matches Some(h) && h@ == new@[p]@
        },
        forall|p: Seq<char>| #![trigger old@.contains_key(p)] #![trigger new@.contains_key(p)]
            !old@.contains_key(p) && new@.contains_key(p) ==> exists|k: int|
                0 <= k < r.changes@.len() && #[trigger] r.changes@[k].path@ == p && r.changes@[k].kind == ChangeKind::Added,
        forall|p: Seq<char>| #![trigger old@.contains_key(p)] #![trigger new@.contains_key(p)]
            old@.contains_key(p) && !new@.contains_key(p) ==> exists|k: int|
                0 <= k < r.changes@.len() && #[trigger] r.changes@[k].path@ == p && r.changes@[k].kind == ChangeKind::Removed,
        forall|p: Seq<char>| #![trigger old@.contains_key(p)] #![trigger new@.contains_key(p)]
            old@.contains_key(p) && new@.contains_key(p) && old@[p]@ != new@[p]@ ==> exists|k: int|
                0 <= k < r.changes@.len() && #[trigger] r.changes@[k].path@ == p && r.changes@[k].kind == ChangeKind::Modified,
        forall|p: Seq<char>, k: int| #![trigger old@.contains_key(p), r.changes@[k]]
            old@.contains_key(p) && new@.contains_key(p) && old@[p]@ == new@[p]@ && 0 <= k < r.changes@.len()
                ==> r.changes@[k].path@ != p,
{
    let mut changes: Vec<FileChange> = Vec::new();
    let n_old: usize = old.len();
    let n_new: usize = new.len();
    let mut i: usize = 0;
    while i < n_old
        invariant
            i <= n_old,
            n_old == old.spec_len(),
            n_new == new.spec_len(),
            old.entries_agree(),
            new.entries_agree(),
            sorted_by_path(changes@),
            forall|k: int| 0 <= k < changes@.len() ==> expected_change(old@, new@, #[trigger] changes@[k].path@) == Some(changes@[k]@),
            forall|j: int| 0 <= j < i && (#[trigger] expected_change(old@, new@, old.key_at(j))) is Some ==> covers(changes@, old.key_at(j)),
            forall|k: int| 0 <= k < changes@.len() ==> key_among(old, i as int, changes@[k].path@),
        decreases n_old - i,
    {
        let (path, old_hash) = old.entry(i);
        let ghost p = old.key_at(i as int);
        let ghost before = changes@;
        let found = new.get(path.as_str());
        let mut inserted: Option<usize> = None;
        match found {
            Some(new_hash) => {
                if !crate::order::str_eq(new_hash.as_str(), old_hash.as_str()) {
                    let c = FileChange {
                        path: path.clone(),
                        kind: ChangeKind::Modified,
                        old_hash: Some(old_hash.clone()),
                        new_hash: Some(new_hash.clone()),
                    };
                    proof {
                        assert forall|k: int| 0 <= k < changes@.len() implies #[trigger] changes@[k].path@ != c.path@ by {
                            let j: int = choose|j: int| 0 <= j < i && #[trigger] old.key_at(j) == changes@[k].path@;
                        }
                    }
                    inserted = Some(insert_sorted(&mut changes, c));
                }
            },
            None => {
                let c = FileChange {
                    path: path.clone(),
                    kind: ChangeKind::Removed,
                    old_hash: Some(old_hash.clone()),
                    new_hash: None,
                };
                proof {
                    assert forall|k: int| 0 <= k < changes@.len() implies #[trigger] changes@[k].path@ != c.path@ by {
                        let j: int = choose|j: int| 0 <= j < i && #[trigger] old.key_at(j) == changes@[k].path@;
                    }
                }
                inserted = Some(insert_sorted(&mut changes, c));
            },
        }
        proof {
            match inserted {
                Some(pos) => {
                    let pos: int = pos as int;
                    assert(changes@[pos].path@ == p);
                    assert(expected_change(old@, new@, p) == Some(changes@[pos]@));
                    assert forall|k: int| 0 <= k < changes@.len() implies expected_change(old@, new@, #[trigger] changes@[k].path@) == Some(changes@[k]@) by {
                        if k < pos {
                            assert(changes@[k] == before[k]);
                        } else if k > pos {
                            assert(changes@[k] == before[k - 1]);
                        }
                    }
                    assert forall|j: int| 0 <= j < i + 1 && (#[trigger] expected_change(old@, new@, old.key_at(j))) is Some implies covers(changes@, old.key_at(j)) by {
                        if j < i {
                            lemma_covers_insert(before, pos, changes@[pos], old.key_at(j));
                        } else {
                            assert(changes@[pos].path@ == old.key_at(j));
                        }
                    }
                    assert forall|k: int| 0 <= k < changes@.len() implies key_among(old, (i + 1) as int, changes@[k].path@) by {
                        if k < pos {
                            assert(changes@[k] == before[k]);
                            let j: int = choose|j: int| 0 <= j < i && #[trigger] old.key_at(j) == before[k].path@;
                        } else if k > pos {
                            assert(changes@[k] == before[k - 1]);
                            let j: int = choose|j: int| 0 <= j < i && #[trigger] old.key_at(j) == before[k - 1].path@;
                        } else {
                            assert(old.key_at(i as int) == changes@[k].path@);
                        }
                    }
                },
                None => {
                    assert(expected_change(old@, new@, p) is None);
                    assert forall|k: int| 0 <= k < changes@.len() implies key_among(old, (i + 1) as int, changes@[k].path@) by {
                        let j: int = choose|j: int| 0 <= j < i && #[trigger] old.key_at(j) == changes@[k].path@;
                    }
                },
            }
        }
        i = i + 1;
    }
    let mut i: usize = 0;
    while i < n_new
        invariant
            i <= n_new,
            n_old == old.spec_len(),
            n_new == new.spec_len(),
            old.entries_agree(),
            new.entries_agree(),
            sorted_by_path(changes@),
            forall|k: int| 0 <= k < changes@.len() ==> expected_change(old@, new@, #[trigger] changes@[k].path@) == Some(changes@[k]@),
            forall|j: int| 0 <= j < n_old && (#[trigger] expected_change(old@, new@, old.key_at(j))) is Some ==> covers(changes@, old.key_at(j)),
            forall|j: int| 0 <= j < i && (#[trigger] expected_change(old@, new@, new.key_at(j))) is Some ==> covers(changes@, new.key_at(j)),
            forall|k: int| 0 <= k < changes@.len() ==> old@.contains_key(#[trigger] changes@[k].path@) || key_among(new, i as int, changes@[k].path@),
        decreases n_new - i,
    {
        let (path, new_hash) = new.entry(i);
        let ghost p = new.key_at(i as int);
        let ghost before = changes@;
        if !old.contains_key(path.as_str()) {
            let c = FileChange {
                path: path.clone(),
                kind: ChangeKind::Added,
                old_hash: None,
                new_hash: Some(new_hash.clone()),
            };
            proof {
                assert forall|k: int| 0 <= k < changes@.len() implies #[trigger] changes@[k].path@ != c.path@ by {
                    if !old@.contains_key(changes@[k].path@) {
                        let j: int = choose|j: int| 0 <= j < i && #[trigger] new.key_at(j) == changes@[k].path@;
                    }
                }
            }
            let pos: usize = insert_sorted(&mut changes, c);
            proof {
                let pos: int = pos as int;
                assert(changes@[pos].path@ == p);
                assert(expected_change(old@, new@, p) == Some(changes@[pos]@));
                assert forall|k: int| 0 <= k < changes@.len() implies expected_change(old@, new@, #[trigger] changes@[k].path@) == Some(changes@[k]@) by {
                    if k < pos {
                        assert(changes@[k] == before[k]);
                    } else if k > pos {
                        assert(changes@[k] == before[k - 1]);
                    }
                }
                assert forall|j: int| 0 <= j < n_old && (#[trigger] expected_change(old@, new@, old.key_at(j))) is Some implies covers(changes@, old.key_at(j)) by {
                    lemma_covers_insert(before, pos, changes@[pos], old.key_at(j));
                }
                assert forall|j: int| 0 <= j < i + 1 && (#[trigger] expected_change(old@, new@, new.key_at(j))) is Some implies covers(changes@, new.key_at(j)) by {
                    if j < i {
                        lemma_covers_insert(before, pos, changes@[pos], new.key_at(j));
                    } else {
                        assert(changes@[pos].path@ == new.key_at(j));
                    }
                }
                assert forall|k: int| 0 <= k < changes@.len() implies old@.contains_key(#[trigger] changes@[k].path@) || key_among(new, (i + 1) as int, changes@[k].path@) by {
                    if k < pos {
                        assert(changes@[k] == before[k]);
                        if !old@.contains_key(before[k].path@) {
                            let j: int = choose|j: int| 0 <= j < i && #[trigger] new.key_at(j) == before[k].path@;
                        }
                    } else if k > pos {
                        assert(changes@[k] == before[k - 1]);
                        if !old@.contains_key(before[k - 1].path@) {
                            let j: int = choose|j: int| 0 <= j < i && #[trigger] new.key_at(j) == before[k - 1].path@;
                        }
                    } else {
                        assert(new.key_at(i as int) == changes@[k].path@);
                    }
                }
            }
        } else {
            proof {
                assert(expected_change(old@, new@, p) is Some ==> covers(changes@, p)) by {
                    if expected_change(old@, new@, p) is Some {
                        let j: int = choose|j: int| 0 <= j < n_old && old.key_at(j) == p;
                        assert(expected_change(old@, new@, old.key_at(j)) is Some);
                    }
                }
                assert forall|k: int| 0 <= k < changes@.len() implies old@.contains_key(#[trigger] changes@[k].path@) || key_among(new, (i + 1) as int, changes@[k].path@) by {
                    if !old@.contains_key(changes@[k].path@) {
                        let j: int = choose|j: int| 0 <= j < i && #[trigger] new.key_at(j) == changes@[k].path@;
                    }
                }
            }
        }
        i = i + 1;
    }
    proof {
        assert forall|p: Seq<char>| #[trigger] expected_change(old@, new@, p) is Some implies covers(changes@, p) by {
            if old@.contains_key(p) {
                let j: int = choose|j: int| 0 <= j < n_old && old.key_at(j) == p;
                assert(expected_change(old@, new@, old.key_at(j)) is Some);
            } else {
                let j: int = choose|j: int| 0 <= j < n_new && new.key_at(j) == p;
                assert(expected_change(old@, new@, new.key_at(j)) is Some);
            }
        }
    }
    proof {
        crate::diff::laws::lemma_changes_follow_snapshots(old@, new@, changes@);
    }
    DiffResult { changes, total_old: n_old, total_new: n_new }
}

/// Compares two directory snapshots by the SHA-256 of their files, as
/// `compare_snapshots` does.
pub fn compare(old: &DirectorySnapshot, new: &DirectorySnapshot) -> (r: DiffResult)
    ensures
        is_diff_of(content_hashes(old.files@), content_hashes(new.files@), r.changes@),
        r.total_old == old.files@.len(),
        r.total_new == new.files@.len(),
{
    let old_hashes = old.content_hashes();
    let new_hashes = new.content_hashes();
    assert(old_hashes@.dom() =~= old.files@.dom());
    assert(new_hashes@.dom() =~= new.files@.dom());
    compare_snapshots(&old_hashes, &new_hashes)
}

} // verus!
