//! Laws of the comparison: it is determined by the two snapshots, comparing
//! a snapshot with itself finds nothing, comparing the other way round
//! inverts every change, the three kinds partition the changes, and an
//! intact system raises nothing.

use vstd::prelude::*;
use crate::diff::compare::{ChangeKind, ChangeView, FileChange, covers, expected_change, is_diff_of, of_kind};
use crate::order::{path_lt, lemma_path_lt_asymmetric, lemma_path_lt_irreflexive};
use crate::diff::compare::DiffResult;
use crate::diff::report::{html_notice, text_report};
use crate::daemon::scheduler::alert_lines;
use crate::hashing::types::FileSnapshot;

verus! {

/// The changes of a list, with their strings taken as characters.
pub open spec fn change_views(cs: Seq<FileChange>) -> Seq<ChangeView> {
    cs.map_values(|c: FileChange| c@)
}

/// `vs` is the list of changes from `old` to `new`, over characters: in
/// increasing path order, each one the change expected on its path, and one on
/// every path where a change is expected.
pub open spec fn is_diff_view(old: Map<Seq<char>, String>, new: Map<Seq<char>, String>, vs: Seq<ChangeView>) -> bool {
    &&& forall|i: int, j: int| 0 <= i < j < vs.len() ==> path_lt(#[trigger] vs[i].path, #[trigger] vs[j].path)
    &&& forall|k: int| 0 <= k < vs.len() ==> expected_change(old, new, #[trigger] vs[k].path) == Some(vs[k])
    &&& forall|p: Seq<char>| #[trigger] expected_change(old, new, p) is Some ==> exists|k: int| 0 <= k < vs.len() && #[trigger] vs[k].path == p
}

/// The change seen from the other side: added and removed swap, and so do the two hashes.
pub open spec fn inverse_change(c: ChangeView) -> ChangeView {
    ChangeView {
        path: c.path,
        kind: match c.kind {
            ChangeKind::Added => ChangeKind::Removed,
            ChangeKind::Removed => ChangeKind::Added,
            ChangeKind::Modified => ChangeKind::Modified,
        },
        old_hash: c.new_hash,
        new_hash: c.old_hash,
    }
}

proof fn lemma_views_of_diff(old: Map<Seq<char>, String>, new: Map<Seq<char>, String>, cs: Seq<FileChange>)
    requires
        is_diff_of(old, new, cs),
    ensures
        is_diff_view(old, new, change_views(cs)),
{
    let vs = change_views(cs);
    assert forall|i: int, j: int| 0 <= i < j < vs.len() implies path_lt(#[trigger] vs[i].path, #[trigger] vs[j].path) by {
        assert(path_lt(cs[i].path@, cs[j].path@));
    }
    assert forall|k: int| 0 <= k < vs.len() implies expected_change(old, new, #[trigger] vs[k].path) == Some(vs[k]) by {
        assert(expected_change(old, new, cs[k].path@) == Some(cs[k]@));
    }
    assert forall|p: Seq<char>| #[trigger] expected_change(old, new, p) is Some implies exists|k: int| 0 <= k < vs.len() && #[trigger] vs[k].path == p by {
        assert(covers(cs, p));
        let k: int = choose|k: int| 0 <= k < cs.len() && #[trigger] cs[k].path@ == p;
        assert(vs[k].path == p);
    }
}

proof fn lemma_same_position(
    old: Map<Seq<char>, String>,
    new: Map<Seq<char>, String>,
    vs: Seq<ChangeView>,
    ws: Seq<ChangeView>,
    k: int,
)
    requires
        is_diff_view(old, new, vs),
        is_diff_view(old, new, ws),
        0 <= k < vs.len(),
        forall|j: int| 0 <= j < k ==> vs[j] == ws[j],
    ensures
        k < ws.len(),
        vs[k] == ws[k],
{
    let p = vs[k].path;
    assert(expected_change(old, new, p) is Some);
    let m: int = choose|m: int| 0 <= m < ws.len() && #[trigger] ws[m].path == p;
    if m < k {
        assert(vs[m] == ws[m]);
        assert(path_lt(vs[m].path, vs[k].path));
        lemma_path_lt_irreflexive(p);
    }
    let q = ws[k].path;
    assert(expected_change(old, new, q) is Some);
    let m2: int = choose|m2: int| 0 <= m2 < vs.len() && #[trigger] vs[m2].path == q;
    if m2 < k {
        assert(vs[m2] == ws[m2]);
        assert(path_lt(ws[m2].path, ws[k].path));
        lemma_path_lt_irreflexive(q);
    }
    if m > k {
        assert(path_lt(ws[k].path, ws[m].path));
        if m2 == k {
            lemma_path_lt_irreflexive(q);
        } else {
            assert(path_lt(vs[k].path, vs[m2].path));
            lemma_path_lt_asymmetric(p, q);
        }
    }
    assert(expected_change(old, new, q) == Some(ws[k]));
}

/// The list of changes between two snapshots is determined by them: any two
/// lists that meet the contract of `compare_snapshots` hold the same changes.
pub proof fn lemma_diff_is_determined(
    old: Map<Seq<char>, String>,
    new: Map<Seq<char>, String>,
    cs: Seq<FileChange>,
    ds: Seq<FileChange>,
)
    requires
        is_diff_of(old, new, cs),
        is_diff_of(old, new, ds),
    ensures
        change_views(cs) == change_views(ds),
{
    lemma_views_of_diff(old, new, cs);
    lemma_views_of_diff(old, new, ds);
    lemma_diff_view_unique(old, new, change_views(cs), change_views(ds));
}

proof fn lemma_equal_prefix(
    old: Map<Seq<char>, String>,
    new: Map<Seq<char>, String>,
    vs: Seq<ChangeView>,
    ws: Seq<ChangeView>,
    n: int,
)
    requires
        is_diff_view(old, new, vs),
        is_diff_view(old, new, ws),
        0 <= n <= vs.len(),
        n <= ws.len(),
    ensures
        forall|j: int| 0 <= j < n ==> vs[j] == ws[j],
    decreases n,
{
    if n > 0 {
        lemma_equal_prefix(old, new, vs, ws, n - 1);
        lemma_same_position(old, new, vs, ws, n - 1);
    }
}

proof fn lemma_diff_view_unique(
    old: Map<Seq<char>, String>,
    new: Map<Seq<char>, String>,
    vs: Seq<ChangeView>,
    ws: Seq<ChangeView>,
)
    requires
        is_diff_view(old, new, vs),
        is_diff_view(old, new, ws),
    ensures
        vs == ws,
{
    let n: int = if vs.len() < ws.len() { vs.len() as int } else { ws.len() as int };
    lemma_equal_prefix(old, new, vs, ws, n);
    if vs.len() > n {
        lemma_same_position(old, new, vs, ws, n);
    }
    if ws.len() > n {
        assert forall|j: int| 0 <= j < n implies ws[j] == vs[j] by {}
        lemma_same_position(old, new, ws, vs, n);
    }
    assert(vs =~= ws);
}

/// Each change says what the two snapshots hold on its path, and every path
/// that differs has its change: an added path is only in `new`, with no old
/// hash and its new hash; a removed path is only in `old`, with its old hash
/// and no new hash; a modified path is in both with different hashes, and
/// carries both. A path missing from `old` has one change, `Added`; one
/// missing from `new` has one, `Removed`; one in both with different hashes
/// has one, `Modified`; one in both with the same hash has none.
pub proof fn lemma_changes_follow_snapshots(old: Map<Seq<char>, String>, new: Map<Seq<char>, String>, cs: Seq<FileChange>)
    requires
        is_diff_of(old, new, cs),
    ensures
        forall|k: int| 0 <= k < cs.len() && #[trigger] cs[k].kind == ChangeKind::Added ==> {
            let p = cs[k].path@;
            &&& !old.contains_key(p) && new.contains_key(p)
            &&& cs[k].old_hash is None
            &&& cs[k].new_hash matches Some(h) && h@ == new[p]@
        },
        forall|k: int| 0 <= k < cs.len() && #[trigger] cs[k].kind == ChangeKind::Removed ==> {
            let p = cs[k].path@;
            &&& old.contains_key(p) && !new.contains_key(p)
            &&& cs[k].old_hash matches Some(h) && h@ == old[p]@
            &&& cs[k].new_hash is None
        },
        forall|k: int| 0 <= k < cs.len() && #[trigger] cs[k].kind == ChangeKind::Modified ==> {
            let p = cs[k].path@;
            &&& old.contains_key(p) && new.contains_key(p) && old[p]@ != new[p]@
            &&& cs[k].old_hash matches Some(h) && h@ == old[p]@
            &&& cs[k].new_hash matches Some(h) && h@ == new[p]@
        },
        forall|p: Seq<char>| #![trigger old.contains_key(p)] #![trigger new.contains_key(p)]
            !old.contains_key(p) && new.contains_key(p) ==> exists|k: int|
                0 <= k < cs.len() && #[trigger] cs[k].path@ == p && cs[k].kind == ChangeKind::Added,
        forall|p: Seq<char>| #![trigger old.contains_key(p)] #![trigger new.contains_key(p)]
            old.contains_key(p) && !new.contains_key(p) ==> exists|k: int|
                0 <= k < cs.len() && #[trigger] cs[k].path@ == p && cs[k].kind == ChangeKind::Removed,
        forall|p: Seq<char>| #![trigger old.contains_key(p)] #![trigger new.contains_key(p)]
            old.contains_key(p) && new.contains_key(p) && old[p]@ != new[p]@ ==> exists|k: int|
                0 <= k < cs.len() && #[trigger] cs[k].path@ == p && cs[k].kind == ChangeKind::Modified,
        forall|p: Seq<char>, k: int| #![trigger old.contains_key(p), cs[k]]
            old.contains_key(p) && new.contains_key(p) && old[p]@ == new[p]@ && 0 <= k < cs.len()
                ==> cs[k].path@ != p,
{
    assert forall|k: int| 0 <= k < cs.len() implies expected_change(old, new, #[trigger] cs[k].path@) == Some(cs[k]@) by {}
    assert forall|p: Seq<char>| #![trigger old.contains_key(p)] #![trigger new.contains_key(p)]
        (old.contains_key(p) || new.contains_key(p)) && !(old.contains_key(p) && new.contains_key(p) && old[p]@ == new[p]@)
        implies exists|k: int| 0 <= k < cs.len() && #[trigger] cs[k].path@ == p && cs[k].kind == (
            if !old.contains_key(p) { ChangeKind::Added } else if !new.contains_key(p) { ChangeKind::Removed } else { ChangeKind::Modified }
        ) by {
        assert(expected_change(old, new, p) is Some);
        assert(covers(cs, p));
        let k: int = choose|k: int| 0 <= k < cs.len() && #[trigger] cs[k].path@ == p;
        assert(expected_change(old, new, cs[k].path@) == Some(cs[k]@));
    }
    assert forall|p: Seq<char>, k: int| #![trigger old.contains_key(p), cs[k]]
        old.contains_key(p) && new.contains_key(p) && old[p]@ == new[p]@ && 0 <= k < cs.len()
            implies cs[k].path@ != p by {
        assert(expected_change(old, new, cs[k].path@) == Some(cs[k]@));
    }
    assert forall|k: int| 0 <= k < cs.len() && #[trigger] cs[k].kind == ChangeKind::Added implies {
        let p = cs[k].path@;
        &&& !old.contains_key(p) && new.contains_key(p)
        &&& cs[k].old_hash is None
        &&& cs[k].new_hash matches Some(h) && h@ == new[p]@
    } by {
        assert(expected_change(old, new, cs[k].path@) == Some(cs[k]@));
    }
    assert forall|k: int| 0 <= k < cs.len() && #[trigger] cs[k].kind == ChangeKind::Removed implies {
        let p = cs[k].path@;
        &&& old.contains_key(p) && !new.contains_key(p)
        &&& cs[k].old_hash matches Some(h) && h@ == old[p]@
        &&& cs[k].new_hash is None
    } by {
        assert(expected_change(old, new, cs[k].path@) == Some(cs[k]@));
    }
    assert forall|k: int| 0 <= k < cs.len() && #[trigger] cs[k].kind == ChangeKind::Modified implies {
        let p = cs[k].path@;
        &&& old.contains_key(p) && new.contains_key(p) && old[p]@ != new[p]@
        &&& cs[k].old_hash matches Some(h) && h@ == old[p]@
        &&& cs[k].new_hash matches Some(h) && h@ == new[p]@
    } by {
        assert(expected_change(old, new, cs[k].path@) == Some(cs[k]@));
    }
}

/// Comparing a snapshot with itself finds no change.
pub proof fn lemma_compare_with_itself_is_clean(m: Map<Seq<char>, String>, cs: Seq<FileChange>)
    requires
        is_diff_of(m, m, cs),
    ensures
        cs.len() == 0,
{
    if cs.len() > 0 {
        assert(expected_change(m, m, cs[0].path@) == Some(cs[0]@));
    }
}

/// An intact system raises nothing: when the two snapshots are equal, the
/// text report is the single sentence that says so, the HTML report carries
/// the same notice, and the daemon logs no change line.
pub proof fn lemma_intact_system_reports_nothing(
    m: Map<Seq<char>, String>,
    d: DiffResult,
    old_files: Map<Seq<char>, FileSnapshot>,
    new_files: Map<Seq<char>, FileSnapshot>,
    patterns: Seq<String>,
    timestamp: Seq<char>,
)
    requires
        is_diff_of(m, m, d.changes@),
    ensures
        text_report(d) == "Aucun changement détecté.\n"@,
        html_notice(d) == "<p>Aucun changement détecté.</p>\n"@,
        alert_lines(d.changes@, old_files, new_files, patterns, timestamp).len() == 0,
{
    lemma_compare_with_itself_is_clean(m, d.changes@);
}

/// Comparing in the other direction finds the same paths, with added and
/// removed swapped and the two hashes of each change swapped.
pub proof fn lemma_diff_reversed(
    old: Map<Seq<char>, String>,
    new: Map<Seq<char>, String>,
    cs: Seq<FileChange>,
    ds: Seq<FileChange>,
)
    requires
        is_diff_of(old, new, cs),
        is_diff_of(new, old, ds),
    ensures
        change_views(ds) == change_views(cs).map_values(|c: ChangeView| inverse_change(c)),
{
    lemma_views_of_diff(old, new, cs);
    lemma_views_of_diff(new, old, ds);
    let vs = change_views(cs);
    let rs = vs.map_values(|c: ChangeView| inverse_change(c));
    assert forall|p: Seq<char>| #[trigger] expected_change(new, old, p) == match expected_change(old, new, p) {
        Some(c) => Some(inverse_change(c)),
        None => None,
    } by {}
    assert forall|i: int, j: int| 0 <= i < j < rs.len() implies path_lt(#[trigger] rs[i].path, #[trigger] rs[j].path) by {
        assert(path_lt(vs[i].path, vs[j].path));
    }
    assert forall|k: int| 0 <= k < rs.len() implies expected_change(new, old, #[trigger] rs[k].path) == Some(rs[k]) by {
        assert(expected_change(old, new, vs[k].path) == Some(vs[k]));
        assert(expected_change(new, old, vs[k].path) == match expected_change(old, new, vs[k].path) {
            Some(c) => Some(inverse_change(c)),
            None => None,
        });
    }
    assert forall|p: Seq<char>| #[trigger] expected_change(new, old, p) is Some implies exists|k: int| 0 <= k < rs.len() && #[trigger] rs[k].path == p by {
        assert(expected_change(new, old, p) == match expected_change(old, new, p) {
            Some(c) => Some(inverse_change(c)),
            None => None,
        });
        assert(expected_change(old, new, p) is Some);
        let k: int = choose|k: int| 0 <= k < vs.len() && #[trigger] vs[k].path == p;
        assert(rs[k].path == p);
    }
    lemma_diff_view_unique(new, old, change_views(ds), rs);
}

/// Each change is of exactly one kind: the added, removed and modified
/// changes together are as many as all the changes.
pub proof fn lemma_kind_counts(cs: Seq<FileChange>)
    ensures
        of_kind(cs, ChangeKind::Added).len() + of_kind(cs, ChangeKind::Removed).len() + of_kind(
            cs,
            ChangeKind::Modified,
        ).len() == cs.len(),
    decreases cs.len(),
{
    if cs.len() > 0 {
        lemma_kind_counts(cs.drop_last());
    }
}

} // verus!
