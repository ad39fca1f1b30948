//! Symbolic-link loops, detected by the inodes already visited.

use vstd::prelude::*;
use std::collections::HashSet;

verus! {

broadcast use vstd::std_specs::hash::group_hash_axioms;

/// Whether following a link leads back to a visited inode. `inode` is the
/// inode the link's target resolves to, `None` when it does not resolve.
pub fn is_symlink_loop(inode: Option<u64>, visited: &HashSet<u64>) -> (r: bool)
    ensures
        r == match inode {
            Some(i) => visited@.contains(i),
            None => false,
        },
{
    match inode {
        Some(i) => visited.contains(&i),
        None => false,
    }
}

/// Records the inode a link resolves to as visited (nothing when it does
/// not resolve).
pub fn register_inode(inode: Option<u64>, visited: &mut HashSet<u64>)
    ensures
        final(visited)@ == match inode {
            Some(i) => old(visited)@.insert(i),
            None => old(visited)@,
        },
{
    match inode {
        Some(i) => {
            visited.insert(i);
        },
        None => {},
    }
}

/// Once a link's inode is registered, following a link to it again is a loop.
pub proof fn lemma_registered_is_loop(visited: Set<u64>, inode: u64)
    ensures
        visited.insert(inode).contains(inode),
{
}

} // verus!
