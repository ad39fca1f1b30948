//! What the walk does with each directory entry.

use vstd::prelude::*;
use std::collections::HashSet;
use crate::scanner::symlink::{is_symlink_loop, register_inode};

verus! {

/// What to do with a directory entry.
#[derive(Debug, Clone, Copy, PartialEq, Eq, Structural)]
pub enum EntryAction {
    /// Leave it: a link back to a visited inode, or neither file nor directory.
    Skip,
    /// Record the file.
    CollectFile,
    /// Walk into the directory.
    Descend,
}

/// The action for an entry, and the visited inodes after it: a symbolic
/// link whose target inode was visited is skipped; any other link has its
/// target inode recorded; then a file is collected, a directory walked into,
/// and anything else skipped. `inode` is the inode the entry resolves to
/// (`None` when it does not resolve); `is_file` and `is_dir` follow links.
pub open spec fn entry_step(
    is_symlink: bool,
    inode: Option<u64>,
    is_file: bool,
    is_dir: bool,
    visited: Set<u64>,
) -> (EntryAction, Set<u64>) {
    if is_symlink && (inode matches Some(i) && visited.contains(i)) {
        (EntryAction::Skip, visited)
    } else {
        let v = if is_symlink {
            match inode {
                Some(i) => visited.insert(i),
                None => visited,
            }
        } else {
            visited
        };
        if is_file {
            (EntryAction::CollectFile, v)
        } else if is_dir {
            (EntryAction::Descend, v)
        } else {
            (EntryAction::Skip, v)
        }
    }
}

/// Decides what to do with a directory entry, recording a link's target inode.
pub fn classify_entry(
    is_symlink: bool,
    inode: Option<u64>,
    is_file: bool,
    is_dir: bool,
    visited: &mut HashSet<u64>,
) -> (a: EntryAction)
    ensures
        (a, final(visited)@) == entry_step(is_symlink, inode, is_file, is_dir, old(visited)@),
        is_symlink && (inode matches Some(i) && old(visited)@.contains(i)) ==> a == EntryAction::Skip,
        !(is_symlink && (inode matches Some(i) && old(visited)@.contains(i))) && is_file ==> a
            == EntryAction::CollectFile,
        !(is_symlink && (inode matches Some(i) && old(visited)@.contains(i))) && !is_file && is_dir ==> a
            == EntryAction::Descend,
        !is_file && !is_dir ==> a == EntryAction::Skip,
        inode matches Some(i) ==> (is_symlink ==> final(visited)@ == old(visited)@.insert(i)),
        !(is_symlink && inode is Some) ==> final(visited)@ == old(visited)@,
{
    proof {
        lemma_entry_step_meaning(is_symlink, inode, is_file, is_dir, old(visited)@);
    }
    if is_symlink {
        if is_symlink_loop(inode, visited) {
            return EntryAction::Skip;
        }
        register_inode(inode, visited);
    }
    if is_file {
        EntryAction::CollectFile
    } else if is_dir {
        EntryAction::Descend
    } else {
        EntryAction::Skip
    }
}

/// What the walk does with an entry, in terms of the entry alone: a link
/// that resolves to a visited inode is skipped and changes nothing; any other
/// entry is handled as what it resolves to (a file is collected, a directory
/// walked into, anything else skipped), whether or not it is a link; only a
/// link records an inode, the one it resolves to.
pub proof fn lemma_entry_step_meaning(
    is_symlink: bool,
    inode: Option<u64>,
    is_file: bool,
    is_dir: bool,
    visited: Set<u64>,
)
    ensures
        ({
            let (action, after) = entry_step(is_symlink, inode, is_file, is_dir, visited);
            let is_loop = is_symlink && (inode matches Some(i) && visited.contains(i));
            &&& is_loop ==> action == EntryAction::Skip && after == visited
            &&& !is_loop && is_file ==> action == EntryAction::CollectFile
            &&& !is_loop && !is_file && is_dir ==> action == EntryAction::Descend
            &&& !is_loop && !is_file && !is_dir ==> action == EntryAction::Skip
            &&& !is_symlink ==> after == visited
            &&& is_symlink && inode is None ==> after == visited
            &&& inode matches Some(i) ==> (is_symlink ==> after == visited.insert(i))
        }),
{
    if is_symlink && (inode matches Some(i) && visited.contains(i)) {
        let i = inode->0;
        assert(visited.insert(i) =~= visited);
    }
}

/// A link is followed at most once: after a link that resolves to an inode
/// has been seen, a second link to the same inode is skipped.
pub proof fn lemma_link_followed_once(inode: u64, visited: Set<u64>, f1: bool, d1: bool, f2: bool, d2: bool)
    ensures
        entry_step(true, Some(inode), f2, d2, entry_step(true, Some(inode), f1, d1, visited).1).0
            == EntryAction::Skip,
{
}

} // verus!
