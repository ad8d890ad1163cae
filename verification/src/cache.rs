//! A cache of parsed LUTs keyed by file path, valid while the file's
//! modification time and size stay the same.

use vstd::prelude::*;
use crate::paths::{path_key, paths_equal, same_path, PathKey};

verus! {

/// What identifies one version of a file: its modification time (in
/// nanoseconds from the Unix epoch, when the platform gave one) and its size.
#[derive(Clone, Copy, PartialEq, Eq, Structural, Debug)]
pub struct FileStamp {
    pub modified: Option<i128>,
    pub file_size: u64,
}

/// Parsed LUTs by path, each with the stamp of the file it was read from.
pub struct LutCache<T> {
    entries: Vec<(String, FileStamp, T)>,
}

/// What the cache gives for `path` when the file now has `stamp`: the value
/// stored for the same path (compared component by component, as `PathBuf`
/// keys compare) if it was stored with that very stamp.
pub open spec fn cache_lookup<T>(m: Map<PathKey, (FileStamp, T)>, path: Seq<char>, stamp: FileStamp) -> Option<T> {
    let key = path_key(path);
    if m.contains_key(key) && m[key].0 == stamp {
        Some(m[key].1)
    } else {
        None
    }
}

impl<T> LutCache<T> {
    spec fn has_key(&self, k: PathKey) -> bool {
        exists|i: int| 0 <= i < self.entries@.len() && path_key((#[trigger] self.entries@[i]).0@) == k
    }

    spec fn index_of(&self, k: PathKey) -> int {
        choose|i: int| 0 <= i < self.entries@.len() && path_key((#[trigger] self.entries@[i]).0@) == k
    }

    #[verifier::type_invariant]
    spec fn keys_distinct(&self) -> bool {
        forall|i: int, j: int|
            0 <= i < j < self.entries@.len() ==> path_key((#[trigger] self.entries@[i]).0@)
                != path_key((#[trigger] self.entries@[j]).0@)
    }

    /// The stored stamp and value of each path.
    pub closed spec fn view(&self) -> Map<PathKey, (FileStamp, T)> {
        Map::new(
            |k: PathKey| self.has_key(k),
            |k: PathKey| (self.entries@[self.index_of(k)].1, self.entries@[self.index_of(k)].2),
        )
    }

    /// An empty cache.
    pub fn new() -> (r: Self)
        ensures
            r.view() == Map::<PathKey, (FileStamp, T)>::empty(),
    {
        let r = LutCache { entries: Vec::new() };
        assert(r.view() =~= Map::<PathKey, (FileStamp, T)>::empty());
        r
    }

    fn find(&self, path: &str) -> (r: Option<usize>)
        ensures
            match r {
                Some(i) => i < self.entries@.len() && path_key(self.entries@[i as int].0@) == path_key(path@),
                None => !self.has_key(path_key(path@)),
            },
    {
        let mut i: usize = 0;
        while i < self.entries.len()
            invariant
                i <= self.entries@.len(),
                forall|j: int| 0 <= j < i ==> path_key((#[trigger] self.entries@[j]).0@) != path_key(path@),
            decreases self.entries.len() - i,
        {
            if paths_equal(self.entries[i].0.as_str(), path) {
                return Some(i);
            }
            i = i + 1;
        }
        None
    }

    proof fn lemma_index_of(&self, i: int)
        requires
            0 <= i < self.entries@.len(),
            self.keys_distinct(),
        ensures
            self.has_key(path_key(self.entries@[i].0@)),
            self.index_of(path_key(self.entries@[i].0@)) == i,
    {
        let k = path_key(self.entries@[i].0@);
        assert(path_key(self.entries@[i].0@) == k);
        let j = self.index_of(k);
        if j != i {
            if j < i {
                assert(path_key(self.entries@[j].0@) != path_key(self.entries@[i].0@));
            } else {
                assert(path_key(self.entries@[i].0@) != path_key(self.entries@[j].0@));
            }
        }
    }

    /// The value stored for `path`, if it was stored with `stamp`.
    pub fn get(&self, path: &str, stamp: FileStamp) -> (r: Option<&T>)
        ensures
            r matches Some(v) ==> cache_lookup(self.view(), path@, stamp) == Some(*v),
            r is None ==> cache_lookup(self.view(), path@, stamp) is None,
    {
        proof {
            use_type_invariant(self);
        }
        match self.find(path) {
            Some(i) => {
                proof {
                    self.lemma_index_of(i as int);
                }
                if self.entries[i].1 == stamp {
                    Some(&self.entries[i].2)
                } else {
                    None
                }
            },
            None => None,
        }
    }

    /// Stores `value` for `path`, read from the file version `stamp`,
    /// replacing what was stored for that path.
    pub fn insert(&mut self, path: String, stamp: FileStamp, value: T)
        ensures
            final(self).view() == old(self).view().insert(path_key(path@), (stamp, value)),
    {
        proof {
            use_type_invariant(&*self);
        }
        let ghost before = *self;
        match self.find(path.as_str()) {
            Some(i) => {
                proof {
                    before.lemma_index_of(i as int);
                }
                let mut entries: Vec<(String, FileStamp, T)> = Vec::new();
                std::mem::swap(&mut entries, &mut self.entries);
                let ghost prev = entries@;
                entries.set(i, (path, stamp, value));
                proof {
                    assert forall|a: int, b: int|
                        0 <= a < b < entries@.len() implies path_key((#[trigger] entries@[a]).0@)
                        != path_key((#[trigger] entries@[b]).0@) by {
                        if a != i && b != i {
                            assert(entries@[a] == prev[a] && entries@[b] == prev[b]);
                        } else if a == i {
                            assert(entries@[b] == prev[b]);
                            assert(path_key(prev[a].0@) != path_key(prev[b].0@));
                        } else {
                            assert(entries@[a] == prev[a]);
                            assert(path_key(prev[a].0@) != path_key(prev[b].0@));
                        }
                    }
                }
                self.entries = entries;
                proof {
                    let after = *self;
                    assert forall|k: PathKey| #[trigger] after.has_key(k) == before.has_key(k) by {
                        if before.has_key(k) {
                            let j = before.index_of(k);
                            if j == i {
                                assert(path_key(after.entries@[j].0@) == k);
                            } else {
                                assert(after.entries@[j] == before.entries@[j]);
                            }
                        }
                        if after.has_key(k) {
                            let j = after.index_of(k);
                            if j == i {
                                assert(path_key(before.entries@[j].0@) == k);
                            } else {
                                assert(after.entries@[j] == before.entries@[j]);
                            }
                        }
                    }
                    assert forall|k: PathKey| after.has_key(k) implies after.view()[k] == before.view().insert(
                        path_key(path@),
                        (stamp, value),
                    )[k] by {
                        let j = after.index_of(k);
                        after.lemma_index_of(j);
                        if j == i {
                            assert(k == path_key(path@));
                        } else {
                            assert(after.entries@[j] == before.entries@[j]);
                            before.lemma_index_of(j);
                            assert(k != path_key(path@));
                        }
                    }
                    assert(after.view() =~= before.view().insert(path_key(path@), (stamp, value)));
                }
            },
            None => {
                let ghost prev = self.entries@;
                let mut entries: Vec<(String, FileStamp, T)> = Vec::new();
                std::mem::swap(&mut entries, &mut self.entries);
                entries.push((path, stamp, value));
                proof {
                    let n = prev.len() as int;
                    assert forall|a: int, b: int|
                        0 <= a < b < entries@.len() implies path_key((#[trigger] entries@[a]).0@)
                        != path_key((#[trigger] entries@[b]).0@) by {
                        if b < n {
                            assert(entries@[a] == prev[a] && entries@[b] == prev[b]);
                        } else {
                            assert(entries@[a] == prev[a]);
                            assert(!before.has_key(path_key(entries@[b].0@)));
                        }
                    }
                }
                self.entries = entries;
                proof {
                    let after = *self;
                    let n = prev.len() as int;
                    assert forall|a: int, b: int|
                        0 <= a < b < after.entries@.len() implies path_key((#[trigger] after.entries@[a]).0@)
                        != path_key((#[trigger] after.entries@[b]).0@) by {
                        if b < n {
                            assert(after.entries@[a] == prev[a] && after.entries@[b] == prev[b]);
                        } else {
                            assert(after.entries@[a] == prev[a]);
                            assert(!before.has_key(path_key(after.entries@[b].0@)));
                        }
                    }
                    assert forall|k: PathKey| #[trigger] after.has_key(k) == (before.has_key(k) || k == path_key(path@)) by {
                        if before.has_key(k) {
                            let j = before.index_of(k);
                            assert(after.entries@[j] == before.entries@[j]);
                        }
                        if k == path_key(path@) {
                            assert(path_key(after.entries@[n].0@) == k);
                        }
                        if after.has_key(k) && k != path_key(path@) {
                            let j = after.index_of(k);
                            if j < n {
                                assert(after.entries@[j] == before.entries@[j]);
                            }
                        }
                    }
                    assert forall|k: PathKey| after.has_key(k) implies after.view()[k] == before.view().insert(
                        path_key(path@),
                        (stamp, value),
                    )[k] by {
                        let j = after.index_of(k);
                        after.lemma_index_of(j);
                        if j == n {
                            assert(k == path_key(path@));
                        } else {
                            assert(after.entries@[j] == before.entries@[j]);
                            before.lemma_index_of(j);
                            assert(k != path_key(path@));
                        }
                    }
                    assert(after.view() =~= before.view().insert(path_key(path@), (stamp, value)));
                }
            },
        }
    }

    /// Forgets every stored value.
    pub fn clear(&mut self)
        ensures
            final(self).view() == Map::<PathKey, (FileStamp, T)>::empty(),
    {
        self.entries = Vec::new();
        assert(self.view() =~= Map::<PathKey, (FileStamp, T)>::empty());
    }
}

/// A value stored for a path is given back for that path, and for every
/// spelling of it with the same components, while the stamp stays the same;
/// not once the stamp changes; and storing for one path leaves what the
/// cache gives for every other path as it was.
pub proof fn law_cache_gives_back_what_was_stored<T>(
    m: Map<PathKey, (FileStamp, T)>,
    path: Seq<char>,
    stamp: FileStamp,
    value: T,
    other_stamp: FileStamp,
    other_path: Seq<char>,
)
    ensures
        cache_lookup(m.insert(path_key(path), (stamp, value)), path, stamp) == Some(value),
        same_path(other_path, path) ==> cache_lookup(
            m.insert(path_key(path), (stamp, value)),
            other_path,
            stamp,
        ) == Some(value),
        other_stamp != stamp ==> cache_lookup(
            m.insert(path_key(path), (stamp, value)),
            path,
            other_stamp,
        ) is None,
        !same_path(other_path, path) ==> cache_lookup(
            m.insert(path_key(path), (stamp, value)),
            other_path,
            other_stamp,
        ) == cache_lookup(m, other_path, other_stamp),
{
}

/// A cleared cache gives nothing back.
pub proof fn law_cleared_cache_is_empty<T>(path: Seq<char>, stamp: FileStamp)
    ensures
        cache_lookup(Map::<PathKey, (FileStamp, T)>::empty(), path, stamp) is None,
{
}

} // verus!
