//! Change detection: a mapping from canonical object-file path to the
//! epoch time of its last successful compile. A source file is stale
//! when its modification time is newer than the recorded build time of
//! its object path, or when no build time is recorded at all.
//!
//! The surrounding program loads the persisted store into `from_entries`
//! at start-up and serializes `entries` back out after every recorded
//! compile; the staleness rules themselves live here.

use vstd::prelude::*;

verus! {

/// The mapping denoted by an association list, later entries winning.
pub open spec fn entries_map(s: Seq<(String, u64)>) -> Map<Seq<char>, u64>
    decreases s.len(),
{
    if s.len() == 0 {
        Map::empty()
    } else {
        entries_map(s.drop_last()).insert(s.last().0@, s.last().1)
    }
}

/// No two entries share a key.
pub open spec fn entries_unique(s: Seq<(String, u64)>) -> bool {
    forall|i: int, j: int| 0 <= i < j < s.len() ==> s[i].0@ != s[j].0@
}

proof fn lemma_entries_map_dom(s: Seq<(String, u64)>, k: Seq<char>)
    ensures
        entries_map(s).contains_key(k) <==> exists|i: int| 0 <= i < s.len() && s[i].0@ == k,
    decreases s.len(),
{
    if s.len() > 0 {
        lemma_entries_map_dom(s.drop_last(), k);
        if s.last().0@ == k {
            assert(s[s.len() - 1].0@ == k);
        } else if entries_map(s).contains_key(k) {
            let i = choose|i: int| 0 <= i < s.drop_last().len() && s.drop_last()[i].0@ == k;
            assert(s[i].0@ == k);
        } else if exists|i: int| 0 <= i < s.len() && s[i].0@ == k {
            let i = choose|i: int| 0 <= i < s.len() && s[i].0@ == k;
            assert(s.drop_last()[i].0@ == k);
        }
    }
}

proof fn lemma_entries_map_at(s: Seq<(String, u64)>, i: int)
    requires
        entries_unique(s),
        0 <= i < s.len(),
    ensures
        entries_map(s).contains_key(s[i].0@),
        entries_map(s)[s[i].0@] == s[i].1,
    decreases s.len(),
{
    lemma_entries_map_dom(s, s[i].0@);
    if i < s.len() - 1 {
        assert(entries_unique(s.drop_last()));
        lemma_entries_map_at(s.drop_last(), i);
        assert(s.drop_last()[i] == s[i]);
    }
}

proof fn lemma_entries_map_update(s: Seq<(String, u64)>, i: int, v: (String, u64))
    requires
        entries_unique(s),
        0 <= i < s.len(),
        s[i].0@ == v.0@,
    ensures
        entries_map(s.update(i, v)) =~= entries_map(s).insert(v.0@, v.1),
    decreases s.len(),
{
    if i == s.len() - 1 {
        assert(s.update(i, v).drop_last() =~= s.drop_last());
        assert(s.update(i, v).last() == v);
    } else {
        assert(entries_unique(s.drop_last()));
        assert(s.drop_last()[i] == s[i]);
        lemma_entries_map_update(s.drop_last(), i, v);
        assert(s.update(i, v).drop_last() =~= s.drop_last().update(i, v));
        assert(s.update(i, v).last() == s.last());
        // the updated key differs from the last entry's key, so the two
        // inserts commute
        assert(s[i].0@ != s.last().0@);
    }
}

/// Persisted build-time store: object path -> epoch seconds of the last
/// successful compile of that object.
pub struct Cache {
    entries: Vec<(String, u64)>,
}

impl View for Cache {
    type V = Map<Seq<char>, u64>;

    closed spec fn view(&self) -> Map<Seq<char>, u64> {
        entries_map(self.entries@)
    }
}

/// The staleness rule: no recorded entry, or the source's modification
/// time is strictly newer than the recorded build time.
pub open spec fn spec_has_changed(cache: Map<Seq<char>, u64>, path: Seq<char>, time: u64) -> bool {
    !cache.contains_key(path) || cache[path] < time
}

impl Cache {
    /// Keys are pairwise distinct, so the list denotes its map faithfully.
    pub closed spec fn wf(&self) -> bool {
        entries_unique(self.entries@)
    }

    /// An empty store, for a manifest never built before.
    pub fn new() -> (c: Cache)
        ensures
            c.wf(),
            c@ == Map::<Seq<char>, u64>::empty(),
    {
        Cache { entries: Vec::new() }
    }

    /// Rebuild the store from persisted pairs; a later pair for the same
    /// key wins, as if the pairs had been recorded in order.
    pub fn from_entries(list: &Vec<(String, u64)>) -> (c: Cache)
        ensures
            c.wf(),
            c@ == entries_map(list@),
    {
        let mut c = Cache::new();
        let mut i: usize = 0;
        while i < list.len()
            invariant
                i <= list@.len(),
                c.wf(),
                c@ == entries_map(list@.take(i as int)),
            decreases list@.len() - i,
        {
            c.update(list[i].0.as_str(), list[i].1);
            proof {
                assert(list@.take(i + 1 as int).drop_last() =~= list@.take(i as int));
                assert(list@.take(i + 1 as int).last() == list@[i as int]);
            }
            i += 1;
        }
        proof {
            assert(list@.take(list@.len() as int) =~= list@);
        }
        c
    }

    /// The recorded build time of `path`, if any.
    fn get(&self, path: &str) -> (r: Option<u64>)
        requires
            self.wf(),
        ensures
            match r {
                Some(t) => self@.contains_key(path@) && self@[path@] == t,
                None => !self@.contains_key(path@),
            },
    {
        let key = String::from_str(path);
        let mut i: usize = 0;
        while i < self.entries.len()
            invariant
                self.wf(),
                key@ == path@,
                i <= self.entries@.len(),
                forall|j: int| 0 <= j < i ==> self.entries@[j].0@ != path@,
            decreases self.entries@.len() - i,
        {
            if self.entries[i].0 == key {
                proof {
                    lemma_entries_map_at(self.entries@, i as int);
                }
                return Some(self.entries[i].1);
            }
            i += 1;
        }
        proof {
            lemma_entries_map_dom(self.entries@, path@);
        }
        None
    }

    /// Must the object at `path` be rebuilt for a source modified at
    /// `time` (epoch seconds)?
    pub fn has_changed(&self, path: &str, time: u64) -> (r: bool)
        requires
            self.wf(),
        ensures
            r == spec_has_changed(self@, path@, time),
    {
        match self.get(path) {
            None => true,
            Some(t) => t < time,
        }
    }

    /// Record `now` (epoch seconds) as the build time of `path`; called
    /// only after the compile producing `path` has succeeded.
    pub fn update(&mut self, path: &str, now: u64)
        requires
            old(self).wf(),
        ensures
            final(self).wf(),
            final(self)@ == old(self)@.insert(path@, now),
    {
        let key = String::from_str(path);
        let mut i: usize = 0;
        while i < self.entries.len()
            invariant
                self.wf(),
                self.entries@ == old(self).entries@,
                key@ == path@,
                i <= self.entries@.len(),
                forall|j: int| 0 <= j < i ==> self.entries@[j].0@ != path@,
            decreases self.entries@.len() - i,
        {
            if self.entries[i].0 == key {
                self.entries.set(i, (key, now));
                proof {
                    lemma_entries_map_update(old(self).entries@, i as int, (key, now));
                    assert(forall|a: int, b: int|
                        0 <= a < b < self.entries@.len() ==> self.entries@[a].0@
                            != self.entries@[b].0@);
                }
                return;
            }
            i += 1;
        }
        self.entries.push((key, now));
        proof {
            assert(self.entries@.drop_last() =~= old(self).entries@);
            assert(forall|a: int, b: int|
                0 <= a < b < self.entries@.len() ==> self.entries@[a].0@
                    != self.entries@[b].0@);
        }
    }

    /// The pairs backing the store, for persistence by the surrounding
    /// program.
    pub fn entries(&self) -> (r: &Vec<(String, u64)>)
        ensures
            entries_map(r@) == self@,
            self.wf() ==> entries_unique(r@),
    {
        &self.entries
    }
}

} // verus!
