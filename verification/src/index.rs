//! The hash index over the build side: a join-key value mapped to the list
//! of build-row locators sharing that key. Built once before probing and
//! immutable thereafter.

use vstd::prelude::*;
use crate::row::RowPtr;

verus! {

/// Whether some entry of `s` has key `k`.
pub open spec fn key_in(s: Seq<(i64, Vec<RowPtr>)>, k: i64) -> bool {
    exists|j: int| 0 <= j < s.len() && (#[trigger] s[j]).0 == k
}

/// The locator chain stored by the entry of `s` with key `k`.
pub open spec fn chain_of(s: Seq<(i64, Vec<RowPtr>)>, k: i64) -> Seq<RowPtr> {
    let j = choose|j: int| 0 <= j < s.len() && (#[trigger] s[j]).0 == k;
    s[j].1@
}

/// Key to list-of-row-locators mapping; duplicate build keys chain onto
/// one entry.
pub struct HashIndex {
    entries: Vec<(i64, Vec<RowPtr>)>,
}

impl HashIndex {
    /// At most one entry per key.
    pub closed spec fn wf(self) -> bool {
        forall|j1: int, j2: int|
            0 <= j1 < j2 < self.entries@.len() ==> (#[trigger] self.entries@[j1]).0 != (
            #[trigger] self.entries@[j2]).0
    }

    /// The mapping the entries stand for.
    pub closed spec fn as_map(self) -> Map<i64, Seq<RowPtr>> {
        Map::new(
            |k: i64| key_in(self.entries@, k),
            |k: i64| chain_of(self.entries@, k),
        )
    }

    pub fn new() -> (r: HashIndex)
        ensures
            r.wf(),
            r.as_map() =~= Map::<i64, Seq<RowPtr>>::empty(),
    {
        HashIndex { entries: Vec::new() }
    }

    fn position(&self, key: i64) -> (res: Option<usize>)
        ensures
            match res {
                Some(j) => j < self.entries@.len() && self.entries@[j as int].0 == key,
                None => !key_in(self.entries@, key),
            },
    {
        let n = self.entries.len();
        let mut i: usize = 0;
        while i < n
            invariant
                i <= n,
                n == self.entries@.len(),
                forall|j: int| 0 <= j < i ==> (#[trigger] self.entries@[j]).0 != key,
            decreases n - i,
        {
            if self.entries[i].0 == key {
                return Some(i);
            }
            i = i + 1;
        }
        None
    }

    /// Chains `ptr` onto the entry for `key`, creating the entry if the
    /// key is new.
    pub fn insert(&mut self, key: i64, ptr: RowPtr)
        requires
            old(self).wf(),
        ensures
            final(self).wf(),
            final(self).as_map() =~= old(self).as_map().insert(
                key,
                if old(self).as_map().contains_key(key) {
                    old(self).as_map()[key].push(ptr)
                } else {
                    seq![ptr]
                },
            ),
    {
        let ghost old_entries = self.entries@;
        match self.position(key) {
            Some(j) => {
                let mut entry = self.entries.swap_remove(j);
                entry.1.push(ptr);
                self.entries.push(entry);
                proof {
                    let mid = old_entries.update(j as int, old_entries.last()).drop_last();
                    let neu = self.entries@;
                    assert(neu == mid.push(
                        (key, entry.1),
                    ));
                    assert(key_in(old_entries, key));
                    let oj = choose|jj: int|
                        0 <= jj < old_entries.len() && (#[trigger] old_entries[jj]).0 == key;
                    assert(oj == j);
                    assert(chain_of(old_entries, key) == old_entries[j as int].1@);
                    // Every key of the new entries was a key of the old ones,
                    // with the same chain unless it is `key`.
                    assert forall|k: i64| key_in(neu, k) implies key_in(old_entries, k) by {
                        let a = choose|a: int| 0 <= a < neu.len() && (#[trigger] neu[a]).0 == k;
                        if a == neu.len() - 1 {
                            assert(old_entries[j as int].0 == k);
                        } else if a == j && j < mid.len() {
                            assert(old_entries[old_entries.len() - 1].0 == k);
                        } else {
                            assert(old_entries[a].0 == k);
                        }
                    }
                    assert forall|k: i64| key_in(old_entries, k) implies key_in(neu, k) by {
                        let a = choose|a: int|
                            0 <= a < old_entries.len() && (#[trigger] old_entries[a]).0 == k;
                        if a == j {
                            assert(neu[neu.len() - 1].0 == k);
                        } else if a == old_entries.len() - 1 {
                            if j < mid.len() {
                                assert(neu[j as int].0 == k);
                            } else {
                                assert(neu[neu.len() - 1].0 == k);
                            }
                        } else {
                            assert(neu[a].0 == k);
                        }
                    }
                    assert(final(self).wf()) by {
                        assert forall|a1: int, a2: int|
                            0 <= a1 < a2 < neu.len() implies (#[trigger] neu[a1]).0 != (
                        #[trigger] neu[a2]).0 by {
                            if a2 == neu.len() - 1 {
                                if a1 == j && j < mid.len() {
                                    assert(neu[a1] == old_entries[old_entries.len() - 1]);
                                } else {
                                    assert(neu[a1] == old_entries[a1]);
                                }
                                assert(neu[a2].0 == old_entries[j as int].0);
                            } else {
                                if a1 == j {
                                    assert(neu[a1] == old_entries[old_entries.len() - 1]);
                                    assert(neu[a2] == old_entries[a2]);
                                } else if a2 == j {
                                    assert(neu[a2] == old_entries[old_entries.len() - 1]);
                                    assert(neu[a1] == old_entries[a1]);
                                } else {
                                    assert(neu[a1] == old_entries[a1]);
                                    assert(neu[a2] == old_entries[a2]);
                                }
                            }
                        }
                    }
                    assert forall|k: i64| key_in(neu, k) implies chain_of(neu, k) == (if k == key {
                        chain_of(old_entries, key).push(ptr)
                    } else {
                        chain_of(old_entries, k)
                    }) by {
                        let a = choose|a: int| 0 <= a < neu.len() && (#[trigger] neu[a]).0 == k;
                        let b = choose|b: int|
                            0 <= b < old_entries.len() && (#[trigger] old_entries[b]).0 == k;
                        if k == key {
                            assert(neu[neu.len() - 1].0 == key);
                            assert(a == neu.len() - 1);
                            assert(chain_of(neu, k) == entry.1@);
                        } else {
                            assert(a < neu.len() - 1);
                            if a == j && j < mid.len() {
                                assert(neu[a] == old_entries[old_entries.len() - 1]);
                                assert(b == old_entries.len() - 1);
                            } else {
                                assert(neu[a] == old_entries[a]);
                                assert(b == a);
                            }
                            assert(chain_of(neu, k) == old_entries[b].1@);
                        }
                    }
                }
            },
            None => {
                let mut chain: Vec<RowPtr> = Vec::new();
                chain.push(ptr);
                self.entries.push((key, chain));
                proof {
                    let neu = self.entries@;
                    assert forall|k: i64| key_in(neu, k) implies key_in(old_entries, k) || k
                        == key by {
                        let a = choose|a: int| 0 <= a < neu.len() && (#[trigger] neu[a]).0 == k;
                        if a < old_entries.len() {
                            assert(old_entries[a].0 == k);
                        }
                    }
                    assert forall|k: i64| key_in(old_entries, k) implies key_in(neu, k) by {
                        let a = choose|a: int|
                            0 <= a < old_entries.len() && (#[trigger] old_entries[a]).0 == k;
                        assert(neu[a].0 == k);
                    }
                    assert(key_in(neu, key)) by {
                        assert(neu[neu.len() - 1].0 == key);
                    }
                    assert forall|k: i64| key_in(neu, k) implies chain_of(neu, k) == (if k == key {
                        seq![ptr]
                    } else {
                        chain_of(old_entries, k)
                    }) by {
                        let a = choose|a: int| 0 <= a < neu.len() && (#[trigger] neu[a]).0 == k;
                        if k == key {
                            assert(a == neu.len() - 1);
                            assert(chain_of(neu, k) == chain@);
                            assert(chain@ =~= seq![ptr]);
                        } else {
                            assert(a < neu.len() - 1);
                            let b = choose|b: int|
                                0 <= b < old_entries.len() && (#[trigger] old_entries[b]).0 == k;
                            assert(old_entries[a].0 == k);
                            assert(b == a);
                            assert(chain_of(neu, k) == old_entries[b].1@);
                        }
                    }
                }
            },
        }
    }

    /// The locator chain for `key`, if the key was built.
    pub fn find_key(&self, key: i64) -> (res: Option<&Vec<RowPtr>>)
        requires
            self.wf(),
        ensures
            match res {
                Some(chain) => self.as_map().contains_key(key) && chain@ == self.as_map()[key],
                None => !self.as_map().contains_key(key),
            },
    {
        match self.position(key) {
            Some(j) => {
                let chain = &self.entries[j].1;
                proof {
                    assert(key_in(self.entries@, key));
                    let jj = choose|jj: int|
                        0 <= jj < self.entries@.len() && (#[trigger] self.entries@[jj]).0 == key;
                    assert(jj == j);
                }
                Some(chain)
            },
            None => None,
        }
    }
}

} // verus!
