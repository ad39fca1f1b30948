use std::collections::HashSet;
use auditfs::scanner::symlink::{is_symlink_loop, register_inode};
use auditfs::scanner::walker::{classify_entry, EntryAction};

#[test]
fn registered_inode_is_a_loop() {
    let mut visited = HashSet::new();
    assert!(!is_symlink_loop(Some(7), &visited));
    register_inode(Some(7), &mut visited);
    assert!(is_symlink_loop(Some(7), &visited));
    assert!(!is_symlink_loop(None, &visited));
    register_inode(None, &mut visited);
    assert_eq!(visited.len(), 1);
}

#[test]
fn entries_are_classified() {
    let mut visited = HashSet::new();
    assert_eq!(classify_entry(false, Some(1), true, false, &mut visited), EntryAction::CollectFile);
    assert_eq!(classify_entry(false, Some(2), false, true, &mut visited), EntryAction::Descend);
    assert_eq!(classify_entry(false, None, false, false, &mut visited), EntryAction::Skip);
    assert!(visited.is_empty());
    assert_eq!(classify_entry(true, Some(5), false, true, &mut visited), EntryAction::Descend);
    assert!(visited.contains(&5));
    assert_eq!(classify_entry(true, Some(5), false, true, &mut visited), EntryAction::Skip);
    assert_eq!(classify_entry(true, None, false, false, &mut visited), EntryAction::Skip);
}
