//! Paths the daemon does not report: those that hold one of the patterns.

use vstd::prelude::*;
use crate::order::slice_eq;

verus! {

/// `needle` occurs in `hay` starting at `i`.
pub open spec fn occurs_at(hay: Seq<u8>, needle: Seq<u8>, i: int) -> bool {
    0 <= i && i + needle.len() <= hay.len() && hay.subrange(i, i + needle.len()) == needle
}

/// `needle` occurs somewhere in `hay`.
pub open spec fn bytes_contain(hay: Seq<u8>, needle: Seq<u8>) -> bool {
    exists|i: int| #[trigger] occurs_at(hay, needle, i)
}

/// The path holds one of the patterns (as UTF-8 text).
pub open spec fn whitelisted(patterns: Seq<String>, path: Seq<char>) -> bool {
    exists|j: int|
        0 <= j < patterns.len() && #[trigger] bytes_contain(
            vstd::utf8::encode_utf8(path),
            vstd::utf8::encode_utf8(patterns[j]@),
        )
}

/// Whether `needle` occurs in `hay`.
pub fn slice_contains(hay: &[u8], needle: &[u8]) -> (r: bool)
    ensures
        r == bytes_contain(hay@, needle@),
{
    if needle.len() > hay.len() {
        proof {
            assert forall|i: int| !#[trigger] occurs_at(hay@, needle@, i) by {}
        }
        return false;
    }
    let last: usize = hay.len() - needle.len();
    let mut i: usize = 0;
    loop
        invariant
            last == hay@.len() - needle@.len(),
            needle@.len() <= hay@.len(),
            hay@.len() == hay.len(),
            i <= last,
            forall|j: int| 0 <= j < i ==> !#[trigger] occurs_at(hay@, needle@, j),
        decreases last - i,
    {
        if slice_eq(&hay[i..i + needle.len()], needle) {
            assert(occurs_at(hay@, needle@, i as int));
            return true;
        }
        if i == last {
            proof {
                assert forall|j: int| !#[trigger] occurs_at(hay@, needle@, j) by {
                    if 0 <= j < i {
                    }
                }
            }
            return false;
        }
        i = i + 1;
    }
}

/// A line of a whitelist file holds a pattern: it is not empty and its first
/// byte is not `#` (such a line is a comment).
pub open spec fn is_pattern_line(line: Seq<char>) -> bool {
    let bytes = vstd::utf8::encode_utf8(line);
    bytes.len() > 0 && bytes[0] != 35u8
}

/// The lines that hold patterns, in order.
pub open spec fn pattern_lines(lines: Seq<String>) -> Seq<String>
    decreases lines.len(),
{
    if lines.len() == 0 {
        Seq::empty()
    } else if is_pattern_line(lines.last()@) {
        pattern_lines(lines.drop_last()).push(lines.last())
    } else {
        pattern_lines(lines.drop_last())
    }
}

/// A path is whitelisted exactly when its UTF-8 bytes are some bytes, then
/// the bytes of one of the patterns, then some more bytes: the pattern may
/// stand anywhere in the path, at its start, its end, or strictly inside.
pub proof fn lemma_whitelisted_means_contains(patterns: Seq<String>, path: Seq<char>)
    ensures
        whitelisted(patterns, path) ==> exists|j: int, before: Seq<u8>, after: Seq<u8>|
            #![trigger before + vstd::utf8::encode_utf8(patterns[j]@) + after]
            0 <= j < patterns.len() && vstd::utf8::encode_utf8(path) == before + vstd::utf8::encode_utf8(
                patterns[j]@,
            ) + after,
        forall|j: int, before: Seq<u8>, after: Seq<u8>|
            #![trigger before + vstd::utf8::encode_utf8(patterns[j]@) + after]
            0 <= j < patterns.len() && vstd::utf8::encode_utf8(path) == before + vstd::utf8::encode_utf8(
                patterns[j]@,
            ) + after ==> whitelisted(patterns, path),
{
    let hay = vstd::utf8::encode_utf8(path);
    if whitelisted(patterns, path) {
        let j: int = choose|j: int|
            0 <= j < patterns.len() && #[trigger] bytes_contain(hay, vstd::utf8::encode_utf8(patterns[j]@));
        let needle = vstd::utf8::encode_utf8(patterns[j]@);
        let i: int = choose|i: int| #[trigger] occurs_at(hay, needle, i);
        let before = hay.take(i);
        let after = hay.skip(i + needle.len());
        assert(hay =~= before + needle + after);
        assert(hay == before + vstd::utf8::encode_utf8(patterns[j]@) + after);
    }
    assert forall|j: int, before: Seq<u8>, after: Seq<u8>|
        #![trigger before + vstd::utf8::encode_utf8(patterns[j]@) + after]
        0 <= j < patterns.len() && hay == before + vstd::utf8::encode_utf8(patterns[j]@) + after
        implies whitelisted(patterns, path) by {
        let needle = vstd::utf8::encode_utf8(patterns[j]@);
        assert(hay.subrange(before.len() as int, before.len() + needle.len() as int) =~= needle);
        assert(occurs_at(hay, needle, before.len() as int));
        assert(bytes_contain(hay, needle));
    }
}

/// The patterns of paths that are not reported.
pub struct Whitelist {
    /// The patterns; a path that holds one of them is ignored.
    pub patterns: Vec<String>,
}

impl Whitelist {
    /// A whitelist of the given patterns.
    pub fn new(patterns: Vec<String>) -> (w: Self)
        ensures
            w.patterns@ == patterns@,
    {
        Whitelist { patterns }
    }

    /// The whitelist of a file's lines: each line that is not empty and does
    /// not start with `#` is a pattern; the other lines are left out.
    pub fn from_lines(lines: &Vec<String>) -> (w: Self)
        ensures
            w.patterns@ == pattern_lines(lines@),
    {
        let mut patterns: Vec<String> = Vec::new();
        let mut i: usize = 0;
        while i < lines.len()
            invariant
                i <= lines@.len(),
                patterns@ == pattern_lines(lines@.take(i as int)),
            decreases lines@.len() - i,
        {
            assert(lines@.take((i + 1) as int).drop_last() =~= lines@.take(i as int));
            let bytes = lines[i].as_str().as_bytes();
            if bytes.len() > 0 && bytes[0] != 35u8 {
                patterns.push(lines[i].clone());
            }
            i = i + 1;
        }
        assert(lines@.take(lines@.len() as int) =~= lines@);
        Whitelist { patterns }
    }

    /// Whether the path holds one of the patterns.
    pub fn is_whitelisted(&self, path: &str) -> (r: bool)
        ensures
            r == whitelisted(self.patterns@, path@),
            r ==> exists|j: int, before: Seq<u8>, after: Seq<u8>|
                #![trigger before + vstd::utf8::encode_utf8(self.patterns@[j]@) + after]
                0 <= j < self.patterns@.len() && vstd::utf8::encode_utf8(path@) == before
                    + vstd::utf8::encode_utf8(self.patterns@[j]@) + after,
            forall|j: int, before: Seq<u8>, after: Seq<u8>|
                #![trigger before + vstd::utf8::encode_utf8(self.patterns@[j]@) + after]
                0 <= j < self.patterns@.len() && vstd::utf8::encode_utf8(path@) == before
                    + vstd::utf8::encode_utf8(self.patterns@[j]@) + after ==> r,
    {
        proof {
            lemma_whitelisted_means_contains(self.patterns@, path@);
        }
        let mut j: usize = 0;
        while j < self.patterns.len()
            invariant
                j <= self.patterns@.len(),
                forall|k: int| 0 <= k < j ==> !#[trigger] bytes_contain(
                    vstd::utf8::encode_utf8(path@),
                    vstd::utf8::encode_utf8(self.patterns@[k]@),
                ),
            decreases self.patterns@.len() - j,
        {
            if slice_contains(path.as_bytes(), self.patterns[j].as_str().as_bytes()) {
                proof {
                    assert(whitelisted(self.patterns@, path@));
                    lemma_whitelisted_means_contains(self.patterns@, path@);
                }
                return true;
            }
            j = j + 1;
        }
        false
    }
}

impl Default for Whitelist {
    /// The empty whitelist: every path is reported.
    fn default() -> (w: Self)
        ensures
            w.patterns@.len() == 0,
    {
        Whitelist { patterns: Vec::new() }
    }
}

} // verus!
