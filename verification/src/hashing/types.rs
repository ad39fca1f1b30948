//! The snapshot of a file, of a directory tree, and the baseline that holds one.

use vstd::prelude::*;
use crate::hashing::digest::{blake3_digest, blake3_hex, sha256_digest, sha256_hex};
use crate::path_map::PathMap;
use crate::text::hex_lower;

verus! {

/// What is recorded of one file.
#[derive(Debug, Clone)]
pub struct FileSnapshot {
    /// The file's path.
    pub path: String,
    /// Its size in bytes.
    pub size: u64,
    /// SHA-256 of its contents, lowercase hexadecimal.
    pub sha256: String,
    /// BLAKE3 of its contents, lowercase hexadecimal.
    pub blake3: String,
    /// Unix mode bits.
    pub permissions: u32,
    /// Owner's user id.
    pub owner: u32,
    /// Last modification, in seconds since the Unix epoch.
    pub modified_at: i64,
}

impl FileSnapshot {
    /// A snapshot with the given fields.
    pub fn new(
        path: String,
        size: u64,
        sha256: String,
        blake3: String,
        permissions: u32,
        owner: u32,
        modified_at: i64,
    ) -> (s: Self)
        ensures
            s.path == path,
            s.size == size,
            s.sha256 == sha256,
            s.blake3 == blake3,
            s.permissions == permissions,
            s.owner == owner,
            s.modified_at == modified_at,
    {
        FileSnapshot { path, size, sha256, blake3, permissions, owner, modified_at }
    }

    /// The snapshot of a file from its contents and metadata: the size is the
    /// contents' length, the two hashes are those of the contents.
    pub fn from_contents(
        path: String,
        contents: &[u8],
        permissions: u32,
        owner: u32,
        modified_at: i64,
    ) -> (s: Self)
        requires
            contents@.len() <= u64::MAX,
        ensures
            s.path == path,
            s.size == contents@.len(),
            s.sha256@ == hex_lower(sha256_digest(contents@)),
            s.blake3@ == hex_lower(blake3_digest(contents@)),
            s.sha256@.len() == 64,
            s.blake3@.len() == 64,
            s.permissions == permissions,
            s.owner == owner,
            s.modified_at == modified_at,
    {
        let size: u64 = contents.len() as u64;
        FileSnapshot::new(path, size, sha256_hex(contents), blake3_hex(contents), permissions, owner, modified_at)
    }
}

/// The string with the same characters as `s`.
fn owned(s: &str) -> (r: String)
    ensures
        r@ == s@,
{
    let mut r = String::new();
    r.append(s);
    assert(r@ =~= s@);
    r
}

/// `name` when the attribute differs, nothing otherwise.
pub open spec fn attribute_if(differs: bool, name: Seq<char>) -> Seq<Seq<char>> {
    if differs {
        seq![name]
    } else {
        Seq::empty()
    }
}

/// The names of the recorded attributes that differ between two snapshots of
/// a file, in the order size, sha256, blake3, permissions, owner, modified_at.
pub open spec fn changed_attributes(old: FileSnapshot, new: FileSnapshot) -> Seq<Seq<char>> {
    attribute_if(old.size != new.size, "size"@)
        + attribute_if(old.sha256@ != new.sha256@, "sha256"@)
        + attribute_if(old.blake3@ != new.blake3@, "blake3"@)
        + attribute_if(old.permissions != new.permissions, "permissions"@)
        + attribute_if(old.owner != new.owner, "owner"@)
        + attribute_if(old.modified_at != new.modified_at, "modified_at"@)
}

/// The Unix mode lets anyone write (its `0o002` bit is set).
pub open spec fn world_writable(mode: u32) -> bool {
    mode & 2u32 != 0u32
}

impl FileSnapshot {
    /// Whether anyone may write the file.
    pub fn is_world_writable(&self) -> (b: bool)
        ensures
            b == world_writable(self.permissions),
    {
        self.permissions & 2u32 != 0u32
    }

    /// The names of the recorded attributes that differ from `other`, in the
    /// order size, sha256, blake3, permissions, owner, modified_at.
    pub fn changed_attributes(&self, other: &FileSnapshot) -> (r: Vec<String>)
        ensures
            r@.len() == changed_attributes(*self, *other).len(),
            forall|i: int| 0 <= i < r@.len() ==> #[trigger] r@[i]@ == changed_attributes(*self, *other)[i],
    {
        let mut r: Vec<String> = Vec::new();
        let ghost spec_r: Seq<Seq<char>> = Seq::empty();
        if self.size != other.size {
            r.push(owned("size"));
        }
        proof { spec_r = attribute_if(self.size != other.size, "size"@); }
        assert(r@.len() == spec_r.len() && forall|i: int| 0 <= i < r@.len() ==> #[trigger] r@[i]@ == spec_r[i]);
        if !crate::order::str_eq(self.sha256.as_str(), other.sha256.as_str()) {
            r.push(owned("sha256"));
        }
        proof { spec_r = spec_r + attribute_if(self.sha256@ != other.sha256@, "sha256"@); }
        assert(r@.len() == spec_r.len() && forall|i: int| 0 <= i < r@.len() ==> #[trigger] r@[i]@ == spec_r[i]);
        if !crate::order::str_eq(self.blake3.as_str(), other.blake3.as_str()) {
            r.push(owned("blake3"));
        }
        proof { spec_r = spec_r + attribute_if(self.blake3@ != other.blake3@, "blake3"@); }
        assert(r@.len() == spec_r.len() && forall|i: int| 0 <= i < r@.len() ==> #[trigger] r@[i]@ == spec_r[i]);
        if self.permissions != other.permissions {
            r.push(owned("permissions"));
        }
        proof { spec_r = spec_r + attribute_if(self.permissions != other.permissions, "permissions"@); }
        assert(r@.len() == spec_r.len() && forall|i: int| 0 <= i < r@.len() ==> #[trigger] r@[i]@ == spec_r[i]);
        if self.owner != other.owner {
            r.push(owned("owner"));
        }
        proof { spec_r = spec_r + attribute_if(self.owner != other.owner, "owner"@); }
        assert(r@.len() == spec_r.len() && forall|i: int| 0 <= i < r@.len() ==> #[trigger] r@[i]@ == spec_r[i]);
        if self.modified_at != other.modified_at {
            r.push(owned("modified_at"));
        }
        proof { spec_r = spec_r + attribute_if(self.modified_at != other.modified_at, "modified_at"@); }
        assert(spec_r == changed_attributes(*self, *other));
        r
    }
}

/// The files found under a root, by path.
#[derive(Debug, Clone)]
pub struct DirectorySnapshot {
    /// The directory that was scanned.
    pub root: String,
    /// Each file found, by path.
    pub files: PathMap<FileSnapshot>,
    /// When the scan was made, in seconds since the Unix epoch.
    pub created_at: i64,
}

/// A baseline: a directory snapshot and the version of the format.
#[derive(Debug, Clone)]
pub struct IntegrityDB {
    /// The reference snapshot.
    pub baseline: DirectorySnapshot,
    /// Version of the baseline format.
    pub version: String,
}

/// Each path mapped to the SHA-256 of its file.
pub open spec fn content_hashes(files: Map<Seq<char>, FileSnapshot>) -> Map<Seq<char>, String> {
    files.map_values(|f: FileSnapshot| f.sha256)
}

impl DirectorySnapshot {
    /// An empty snapshot of a root, taken at a time.
    pub fn new(root: String, created_at: i64) -> (s: Self)
        ensures
            s.root == root,
            s.created_at == created_at,
            s.files@ == Map::<Seq<char>, FileSnapshot>::empty(),
    {
        DirectorySnapshot { root, files: PathMap::new(), created_at }
    }

    /// Each path mapped to the SHA-256 of its file.
    pub fn content_hashes(&self) -> (m: PathMap<String>)
        ensures
            m@ == content_hashes(self.files@),
    {
        let mut m: PathMap<String> = PathMap::new();
        let n: usize = self.files.len();
        let mut i: usize = 0;
        while i < n
            invariant
                i <= n,
                n == self.files.spec_len(),
                self.files.entries_agree(),
                forall|k: Seq<char>| #[trigger] m@.contains_key(k) <==> exists|j: int| 0 <= j < i && self.files.key_at(j) == k,
                forall|k: Seq<char>| #[trigger] m@.contains_key(k) ==> m@[k] == self.files@[k].sha256,
            decreases n - i,
        {
            let (path, file) = self.files.entry(i);
            proof {
                assert(self.files@.contains_key(self.files.key_at(i as int)));
            }
            m.insert(path.clone(), file.sha256.clone());
            proof {
                assert forall|k: Seq<char>| #[trigger] m@.contains_key(k) <==> exists|j: int| 0 <= j < i + 1 && self.files.key_at(j) == k by {
                    if k == self.files.key_at(i as int) {
                        assert(self.files.key_at(i as int) == k);
                    }
                }
            }
            i = i + 1;
        }
        assert(m@ =~= content_hashes(self.files@));
        m
    }
}

} // verus!
