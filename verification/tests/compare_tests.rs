use auditfs::diff::compare::{compare_snapshots, ChangeKind, Snapshot};
use auditfs::path_map::PathMap;

/// Builds a snapshot from (path, hash) pairs.
fn snapshot(pairs: &[(&str, &str)]) -> Snapshot {
    let mut m: Snapshot = PathMap::new();
    for (k, v) in pairs {
        m.insert(k.to_string(), v.to_string());
    }
    m
}

#[test]
fn test_aucun_changement() {
    let old = snapshot(&[("/etc/passwd", "aaa"), ("/etc/hosts", "bbb")]);
    let new = snapshot(&[("/etc/passwd", "aaa"), ("/etc/hosts", "bbb")]);
    let result = compare_snapshots(&old, &new);
    assert!(result.is_clean(), "Aucun changement attendu");
}

#[test]
fn test_fichier_ajoute() {
    let old = snapshot(&[("/etc/passwd", "aaa")]);
    let new = snapshot(&[("/etc/passwd", "aaa"), ("/etc/shadow", "ccc")]);
    let result = compare_snapshots(&old, &new);
    assert_eq!(result.added().len(), 1);
    assert_eq!(result.added()[0].path, "/etc/shadow");
}

#[test]
fn test_fichier_supprime() {
    let old = snapshot(&[("/etc/passwd", "aaa"), ("/etc/cron", "bbb")]);
    let new = snapshot(&[("/etc/passwd", "aaa")]);
    let result = compare_snapshots(&old, &new);
    assert_eq!(result.removed().len(), 1);
    assert_eq!(result.removed()[0].path, "/etc/cron");
}

#[test]
fn test_fichier_modifie() {
    let old = snapshot(&[("/etc/passwd", "aaa")]);
    let new = snapshot(&[("/etc/passwd", "zzz")]);
    let result = compare_snapshots(&old, &new);
    assert_eq!(result.modified().len(), 1);
    let change = &result.modified()[0];
    assert_eq!(change.old_hash, Some("aaa".to_string()));
    assert_eq!(change.new_hash, Some("zzz".to_string()));
}

#[test]
fn test_changements_multiples() {
    let old = snapshot(&[("/a", "hash_a"), ("/b", "hash_b"), ("/c", "hash_c")]);
    let new = snapshot(&[("/a", "hash_a"), ("/c", "hash_c_modifie"), ("/d", "hash_d")]);
    let result = compare_snapshots(&old, &new);
    assert_eq!(result.added().len(), 1);
    assert_eq!(result.removed().len(), 1);
    assert_eq!(result.modified().len(), 1);
    assert_eq!(result.count(), 3);
}

#[test]
fn test_tri_par_chemin() {
    let old = snapshot(&[("/z", "1"), ("/a", "2")]);
    let new: Snapshot = PathMap::new();
    let result = compare_snapshots(&old, &new);
    assert_eq!(result.changes[0].path, "/a");
    assert_eq!(result.changes[1].path, "/z");
}

#[test]
fn compare_lists_every_change_in_byte_order() {
    let old = snapshot(&[("/b", "1"), ("/é", "2"), ("/B", "3"), ("/ab", "4")]);
    let new = snapshot(&[("/a", "1"), ("/ab", "5"), ("/B", "3"), ("/z", "6")]);
    let result = compare_snapshots(&old, &new);
    let paths: Vec<&str> = result.changes.iter().map(|c| c.path.as_str()).collect();
    assert_eq!(paths, vec!["/a", "/ab", "/b", "/z", "/é"]);
    let kinds: Vec<ChangeKind> = result.changes.iter().map(|c| c.kind).collect();
    assert_eq!(
        kinds,
        vec![ChangeKind::Added, ChangeKind::Modified, ChangeKind::Removed, ChangeKind::Added, ChangeKind::Removed]
    );
    assert_eq!(result.changes[1].old_hash, Some("4".to_string()));
    assert_eq!(result.changes[1].new_hash, Some("5".to_string()));
    assert_eq!(result.changes[0].old_hash, None);
    assert_eq!(result.changes[2].new_hash, None);
    assert_eq!(result.total_old, 4);
    assert_eq!(result.total_new, 4);
}

#[test]
fn compare_with_itself_is_clean() {
    let s = snapshot(&[("/x", "1"), ("/y", "2"), ("/z", "3")]);
    let result = compare_snapshots(&s, &s);
    assert!(result.is_clean());
    assert_eq!(result.count(), 0);
}

#[test]
fn compare_reversed_swaps_added_and_removed() {
    let a = snapshot(&[("/keep", "1"), ("/gone", "2"), ("/edit", "3")]);
    let b = snapshot(&[("/keep", "1"), ("/new", "4"), ("/edit", "5")]);
    let ab = compare_snapshots(&a, &b);
    let ba = compare_snapshots(&b, &a);
    assert_eq!(ab.count(), ba.count());
    for (x, y) in ab.changes.iter().zip(ba.changes.iter()) {
        assert_eq!(x.path, y.path);
        assert_eq!(x.old_hash, y.new_hash);
        assert_eq!(x.new_hash, y.old_hash);
        let expected = match x.kind {
            ChangeKind::Added => ChangeKind::Removed,
            ChangeKind::Removed => ChangeKind::Added,
            ChangeKind::Modified => ChangeKind::Modified,
        };
        assert_eq!(y.kind, expected);
    }
}

#[test]
fn kind_counts_add_up() {
    let old = snapshot(&[("/1", "a"), ("/2", "b"), ("/3", "c"), ("/4", "d")]);
    let new = snapshot(&[("/2", "b"), ("/3", "x"), ("/5", "e"), ("/6", "f")]);
    let r = compare_snapshots(&old, &new);
    assert_eq!(r.added().len(), 2);
    assert_eq!(r.removed().len(), 2);
    assert_eq!(r.modified().len(), 1);
    assert_eq!(r.added().len() + r.removed().len() + r.modified().len(), r.count());
}

#[test]
fn path_map_insert_replaces() {
    let mut m: Snapshot = PathMap::new();
    m.insert("/a".to_string(), "1".to_string());
    m.insert("/a".to_string(), "2".to_string());
    m.insert("/b".to_string(), "3".to_string());
    assert_eq!(m.len(), 2);
    assert_eq!(m.get("/a"), Some(&"2".to_string()));
    assert!(m.contains_key("/b"));
    assert!(!m.contains_key("/c"));
    assert_eq!(m.get("/c"), None);
}
