//! A map from paths to values, keyed by the path's characters.

use vstd::prelude::*;

verus! {

/// The map that a list of (path, value) entries denotes: each path maps to
/// the value of its last entry.
pub open spec fn entries_view<V>(s: Seq<(String, V)>) -> Map<Seq<char>, V>
    decreases s.len(),
{
    if s.len() == 0 {
        Map::empty()
    } else {
        entries_view(s.drop_last()).insert(s.last().0@, s.last().1)
    }
}

/// No path occurs twice in the entries.
pub open spec fn keys_distinct<V>(s: Seq<(String, V)>) -> bool {
    forall|i: int, j: int| 0 <= i < s.len() && 0 <= j < s.len() && i != j ==> #[trigger] s[i].0@ != #[trigger] s[j].0@
}

/// With distinct paths, the map holds exactly the entries, and has as many keys.
pub proof fn lemma_entries_view<V>(s: Seq<(String, V)>)
    requires
        keys_distinct(s),
    ensures
        forall|i: int|
            0 <= i < s.len() ==> #[trigger] entries_view(s).contains_key(s[i].0@) && entries_view(s)[s[i].0@]
                == s[i].1,
        forall|k: Seq<char>| #[trigger]
            entries_view(s).contains_key(k) ==> exists|i: int| 0 <= i < s.len() && s[i].0@ == k,
        entries_view(s).dom().finite(),
        entries_view(s).len() == s.len(),
    decreases s.len(),
{
    if s.len() > 0 {
        let t = s.drop_last();
        assert(keys_distinct(t)) by {
            assert forall|i: int, j: int|
                0 <= i < t.len() && 0 <= j < t.len() && i != j implies #[trigger] t[i].0@ != #[trigger] t[j].0@ by {
                assert(t[i] == s[i] && t[j] == s[j]);
            }
        }
        lemma_entries_view(t);
        let last = s.last();
        assert(!entries_view(t).contains_key(last.0@)) by {
            if entries_view(t).contains_key(last.0@) {
                let i: int = choose|i: int| 0 <= i < t.len() && t[i].0@ == last.0@;
                assert(s[i].0@ == s[s.len() - 1].0@);
            }
        }
        assert forall|k: Seq<char>| #[trigger]
            entries_view(s).contains_key(k) implies exists|i: int| 0 <= i < s.len() && s[i].0@ == k by {
            if k != last.0@ {
                let i: int = choose|i: int| 0 <= i < t.len() && t[i].0@ == k;
                assert(s[i] == t[i]);
            } else {
                assert(s[s.len() - 1].0@ == k);
            }
        }
        assert forall|i: int| 0 <= i < s.len() implies #[trigger] entries_view(s).contains_key(s[i].0@)
            && entries_view(s)[s[i].0@] == s[i].1 by {
            if i < s.len() - 1 {
                assert(s[i] == t[i]);
                assert(s[i].0@ != last.0@);
            }
        }
    }
}

/// Replacing the value of one entry replaces the value of its path in the map.
pub proof fn lemma_entries_view_update<V>(s: Seq<(String, V)>, i: int, e: (String, V))
    requires
        keys_distinct(s),
        0 <= i < s.len(),
        e.0@ == s[i].0@,
    ensures
        keys_distinct(s.update(i, e)),
        entries_view(s.update(i, e)) == entries_view(s).insert(e.0@, e.1),
{
    let u = s.update(i, e);
    assert(u.len() == s.len());
    assert forall|a: int| 0 <= a < u.len() implies #[trigger] u[a].0@ == s[a].0@ by {}
    assert(keys_distinct(u)) by {
        assert forall|a: int, b: int|
            0 <= a < u.len() && 0 <= b < u.len() && a != b implies #[trigger] u[a].0@ != #[trigger] u[b].0@ by {
            assert(u[a].0@ == s[a].0@ && u[b].0@ == s[b].0@);
        }
    }
    lemma_entries_view(s);
    lemma_entries_view(u);
    let m = entries_view(s).insert(e.0@, e.1);
    assert forall|k: Seq<char>| #[trigger] entries_view(u).contains_key(k) <==> m.contains_key(k) by {
        if entries_view(u).contains_key(k) {
            let j: int = choose|j: int| 0 <= j < u.len() && u[j].0@ == k;
            assert(s[j].0@ == k);
            assert(entries_view(s).contains_key(s[j].0@));
        }
        if k == e.0@ {
            assert(u[i].0@ == k);
            assert(entries_view(u).contains_key(u[i].0@));
        } else if m.contains_key(k) {
            let j: int = choose|j: int| 0 <= j < s.len() && s[j].0@ == k;
            assert(u[j].0@ == k);
            assert(entries_view(u).contains_key(u[j].0@));
        }
    }
    assert forall|k: Seq<char>| #[trigger] entries_view(u).contains_key(k) implies entries_view(u)[k] == m[k] by {
        let j: int = choose|j: int| 0 <= j < u.len() && u[j].0@ == k;
        assert(entries_view(u)[u[j].0@] == u[j].1);
        if j != i {
            assert(u[j] == s[j]);
            assert(entries_view(s)[s[j].0@] == s[j].1);
        }
    }
    assert(entries_view(u) =~= m);
}

/// A map from paths to values.
#[derive(Debug)]
pub struct PathMap<V> {
    entries: Vec<(String, V)>,
}

impl<V> PathMap<V> {
    #[verifier::type_invariant]
    spec fn distinct(self) -> bool {
        keys_distinct(self.entries@)
    }

    /// The map from each path (as characters) to its value.
    pub closed spec fn view(&self) -> Map<Seq<char>, V> {
        entries_view(self.entries@)
    }

    /// The number of entries.
    pub closed spec fn spec_len(&self) -> nat {
        self.entries@.len()
    }

    /// The path of the `i`-th entry, in the order in which paths were first inserted.
    pub closed spec fn key_at(&self, i: int) -> Seq<char> {
        self.entries@[i].0@
    }

    /// The value of the `i`-th entry.
    pub closed spec fn value_at(&self, i: int) -> V {
        self.entries@[i].1
    }

    /// The facts that tie the entries to the map: each entry is in the map
    /// with its value, each key of the map is some entry's path, no path
    /// occurs twice, and the map has as many keys as there are entries.
    pub open spec fn entries_agree(&self) -> bool {
        &&& self.view().dom().finite()
        &&& self.view().len() == self.spec_len()
        &&& forall|i: int|
            0 <= i < self.spec_len() ==> #[trigger] self.view().contains_key(self.key_at(i))
                && self.view()[self.key_at(i)] == self.value_at(i)
        &&& forall|k: Seq<char>| #[trigger]
            self.view().contains_key(k) ==> exists|i: int| 0 <= i < self.spec_len() && self.key_at(i) == k
        &&& forall|i: int, j: int|
            0 <= i < self.spec_len() && 0 <= j < self.spec_len() && i != j ==> #[trigger] self.key_at(i)
                != #[trigger] self.key_at(j)
    }

    #[verifier::spinoff_prover]
    proof fn lemma_agree(&self)
        requires
            keys_distinct(self.entries@),
        ensures
            self.entries_agree(),
    {
        lemma_entries_view(self.entries@);
        assert forall|k: Seq<char>| #[trigger]
            self.view().contains_key(k) implies exists|i: int| 0 <= i < self.spec_len() && self.key_at(i) == k by {
            let i: int = choose|i: int| 0 <= i < self.entries@.len() && self.entries@[i].0@ == k;
            assert(self.key_at(i) == k);
        }
        assert forall|i: int| 0 <= i < self.spec_len() implies #[trigger] self.view().contains_key(self.key_at(i))
            && self.view()[self.key_at(i)] == self.value_at(i) by {
            assert(self.entries@[i].0@ == self.key_at(i));
        }
        assert forall|i: int, j: int|
            0 <= i < self.spec_len() && 0 <= j < self.spec_len() && i != j implies #[trigger] self.key_at(i)
                != #[trigger] self.key_at(j) by {
            assert(self.entries@[i].0@ != self.entries@[j].0@);
        }
    }

    /// An empty map.
    pub fn new() -> (m: Self)
        ensures
            m@ == Map::<Seq<char>, V>::empty(),
            m.entries_agree(),
    {
        let m = PathMap { entries: Vec::new() };
        proof {
            m.lemma_agree();
        }
        m
    }

    /// The number of paths in the map.
    pub fn len(&self) -> (n: usize)
        ensures
            n == self@.len(),
            n == self.spec_len(),
            self.entries_agree(),
    {
        proof {
            use_type_invariant(self);
            self.lemma_agree();
        }
        self.entries.len()
    }

    /// The path and value of the `i`-th entry.
    pub fn entry(&self, i: usize) -> (e: (&String, &V))
        requires
            i < self.spec_len(),
        ensures
            e.0@ == self.key_at(i as int),
            *e.1 == self.value_at(i as int),
            self.entries_agree(),
    {
        proof {
            use_type_invariant(self);
            self.lemma_agree();
        }
        let e = &self.entries[i];
        (&e.0, &e.1)
    }

    fn find(&self, path: &str) -> (r: Option<usize>)
        ensures
            self.entries_agree(),
            match r {
                Some(i) => i < self.spec_len() && self.key_at(i as int) == path@,
                None => !self@.contains_key(path@),
            },
    {
        proof {
            use_type_invariant(self);
            self.lemma_agree();
        }
        let mut i: usize = 0;
        while i < self.entries.len()
            invariant
                i <= self.spec_len(),
                self.spec_len() == self.entries@.len(),
                self.entries_agree(),
                forall|j: int| 0 <= j < i ==> self.key_at(j) != path@,
            decreases self.entries@.len() - i,
        {
            if crate::order::str_eq(self.entries[i].0.as_str(), path) {
                return Some(i);
            }
            i = i + 1;
        }
        None
    }

    /// Whether the path is in the map.
    pub fn contains_key(&self, path: &str) -> (b: bool)
        ensures
            b == self@.contains_key(path@),
            self.entries_agree(),
    {
        match self.find(path) {
            Some(_) => true,
            None => false,
        }
    }

    /// The value of the path, if the path is in the map.
    pub fn get(&self, path: &str) -> (r: Option<&V>)
        ensures
            self.entries_agree(),
            match r {
                Some(v) => self@.contains_key(path@) && *v == self@[path@],
                None => !self@.contains_key(path@),
            },
    {
        match self.find(path) {
            Some(i) => Some(&self.entries[i].1),
            None => None,
        }
    }

    /// Maps the path to the value, replacing any value it had.
    pub fn insert(&mut self, path: String, value: V)
        ensures
            final(self)@ == old(self)@.insert(path@, value),
    {
        proof {
            use_type_invariant(&*self);
        }
        let found = self.find(path.as_str());
        let mut entries: Vec<(String, V)> = Vec::new();
        std::mem::swap(&mut entries, &mut self.entries);
        match found {
            Some(i) => {
                proof {
                    lemma_entries_view_update(entries@, i as int, (path, value));
                }
                entries.set(i, (path, value));
            },
            None => {
                proof {
                    lemma_entries_view(entries@);
                    let s = entries@.push((path, value));
                    assert(s.drop_last() =~= entries@);
                    assert forall|a: int, b: int|
                        0 <= a < s.len() && 0 <= b < s.len() && a != b implies #[trigger] s[a].0@
                        != #[trigger] s[b].0@ by {
                        if a == s.len() - 1 {
                            assert(entries_view(entries@).contains_key(s[b].0@));
                        } else if b == s.len() - 1 {
                            assert(entries_view(entries@).contains_key(s[a].0@));
                        }
                    }
                }
                entries.push((path, value));
            },
        }
        self.entries = entries;
    }
}

impl<V: Clone> Clone for PathMap<V> {
    /// A copy with the same paths, in the same order, each with a clone of
    /// its value.
    fn clone(&self) -> (r: Self)
        ensures
            r.spec_len() == self.spec_len(),
            forall|i: int| 0 <= i < self.spec_len() ==> #[trigger] r.key_at(i) == self.key_at(i) && cloned(
                self.value_at(i),
                r.value_at(i),
            ),
    {
        proof {
            use_type_invariant(self);
        }
        let mut entries: Vec<(String, V)> = Vec::new();
        let mut i: usize = 0;
        while i < self.entries.len()
            invariant
                i <= self.entries@.len(),
                keys_distinct(self.entries@),
                entries@.len() == i,
                forall|j: int| 0 <= j < i ==> #[trigger] entries@[j].0@ == self.entries@[j].0@ && cloned(
                    self.entries@[j].1,
                    entries@[j].1,
                ),
            decreases self.entries@.len() - i,
        {
            let e = &self.entries[i];
            entries.push((e.0.clone(), e.1.clone()));
            i = i + 1;
        }
        proof {
            assert forall|a: int, b: int|
                0 <= a < entries@.len() && 0 <= b < entries@.len() && a != b implies #[trigger] entries@[a].0@
                != #[trigger] entries@[b].0@ by {
                assert(entries@[a].0@ == self.entries@[a].0@);
                assert(entries@[b].0@ == self.entries@[b].0@);
            }
        }
        PathMap { entries }
    }
}

} // verus!
