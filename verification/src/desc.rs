//! Per-join configuration and the shared match state that outer and mark
//! joins update while probing.

use vstd::prelude::*;

verus! {

/// Three-valued match status. `Null` records that a comparison was
/// undecidable because an operand was NULL, which `False` cannot express.
#[derive(Clone, Copy, PartialEq, Eq, Structural, Debug)]
pub enum MarkerKind {
    True,
    False,
    Null,
}

/// The join semantics the operator was planned with.
#[derive(Clone, Copy, PartialEq, Eq, Structural, Debug)]
pub enum JoinType {
    Inner,
    Left,
    Right,
    Full,
    Semi,
    Anti,
    Mark,
}

/// Mark-join configuration: the output column index of the mark column, if
/// this is a mark join.
pub struct MarkJoinDesc {
    pub marker_index: Option<usize>,
}

/// A map from build-row position `(chunk_index, row_index)` to the number
/// of times the row was matched; used to dedupe unmatched-row emission.
pub struct RowStateMap {
    entries: Vec<(u32, u32, usize)>,
}

/// Whether some entry of `s` is at position `(c, r)`.
pub open spec fn pos_in(s: Seq<(u32, u32, usize)>, c: u32, r: u32) -> bool {
    exists|j: int| 0 <= j < s.len() && (#[trigger] s[j]).0 == c && s[j].1 == r
}

/// The count stored by the entry of `s` at position `(c, r)`.
pub open spec fn val_of(s: Seq<(u32, u32, usize)>, c: u32, r: u32) -> usize {
    let j = choose|j: int| 0 <= j < s.len() && (#[trigger] s[j]).0 == c && s[j].1 == r;
    s[j].2
}

impl RowStateMap {
    /// At most one entry per position.
    pub closed spec fn wf(self) -> bool {
        forall|j1: int, j2: int|
            0 <= j1 < j2 < self.entries@.len() ==> !((#[trigger] self.entries@[j1]).0 == (
            #[trigger] self.entries@[j2]).0 && self.entries@[j1].1 == self.entries@[j2].1)
    }

    /// The map the entries stand for.
    pub closed spec fn as_map(self) -> Map<(u32, u32), usize> {
        Map::new(
            |k: (u32, u32)| pos_in(self.entries@, k.0, k.1),
            |k: (u32, u32)| val_of(self.entries@, k.0, k.1),
        )
    }

    pub fn new() -> (r: RowStateMap)
        ensures
            r.wf(),
            r.as_map() =~= Map::<(u32, u32), usize>::empty(),
    {
        RowStateMap { entries: Vec::new() }
    }

    fn position(&self, c: u32, r: u32) -> (res: Option<usize>)
        ensures
            match res {
                Some(j) => {
                    &&& j < self.entries@.len()
                    &&& self.entries@[j as int].0 == c
                    &&& self.entries@[j as int].1 == r
                },
                None => !pos_in(self.entries@, c, r),
            },
    {
        let n = self.entries.len();
        let mut i: usize = 0;
        while i < n
            invariant
                i <= n,
                n == self.entries@.len(),
                forall|j: int|
                    0 <= j < i ==> !((#[trigger] self.entries@[j]).0 == c && self.entries@[j].1
                        == r),
            decreases n - i,
        {
            let e = &self.entries[i];
            if e.0 == c && e.1 == r {
                return Some(i);
            }
            i = i + 1;
        }
        None
    }

    /// The count recorded for position `(c, r)`, if any.
    pub fn get(&self, c: u32, r: u32) -> (res: Option<usize>)
        requires
            self.wf(),
        ensures
            res == if self.as_map().contains_key((c, r)) {
                Some(self.as_map()[(c, r)])
            } else {
                None::<usize>
            },
    {
        match self.position(c, r) {
            Some(j) => {
                let v = self.entries[j].2;
                proof {
                    assert(pos_in(self.entries@, c, r));
                    let jj = choose|jj: int|
                        0 <= jj < self.entries@.len() && (#[trigger] self.entries@[jj]).0 == c
                            && self.entries@[jj].1 == r;
                    assert(jj == j);
                }
                Some(v)
            },
            None => None,
        }
    }

    /// Records position `(c, r)` with a count of zero if it is absent;
    /// an existing count is left untouched.
    pub fn or_insert_zero(&mut self, c: u32, r: u32)
        requires
            old(self).wf(),
        ensures
            final(self).wf(),
            final(self).as_map() =~= if old(self).as_map().contains_key((c, r)) {
                old(self).as_map()
            } else {
                old(self).as_map().insert((c, r), 0)
            },
    {
        match self.position(c, r) {
            Some(_) => {
                proof {
                    assert(pos_in(self.entries@, c, r));
                }
            },
            None => {
                let ghost old_entries = self.entries@;
                self.entries.push((c, r, 0));
                proof {
                    assert forall|c2: u32, r2: u32|
                        pos_in(self.entries@, c2, r2) implies pos_in(old_entries, c2, r2) || (c2
                        == c && r2 == r) by {
                        let j = choose|j: int|
                            0 <= j < self.entries@.len() && (#[trigger] self.entries@[j]).0 == c2
                                && self.entries@[j].1 == r2;
                        if j < old_entries.len() {
                            assert(old_entries[j].0 == c2 && old_entries[j].1 == r2);
                        }
                    }
                    assert forall|c2: u32, r2: u32| pos_in(old_entries, c2, r2) implies pos_in(
                        self.entries@,
                        c2,
                        r2,
                    ) by {
                        let j = choose|j: int|
                            0 <= j < old_entries.len() && (#[trigger] old_entries[j]).0 == c2
                                && old_entries[j].1 == r2;
                        assert(self.entries@[j].0 == c2 && self.entries@[j].1 == r2);
                    }
                    assert(pos_in(self.entries@, c, r)) by {
                        let j = self.entries@.len() - 1;
                        assert(self.entries@[j].0 == c && self.entries@[j].1 == r);
                    }
                    assert forall|c2: u32, r2: u32|
                        pos_in(old_entries, c2, r2) implies val_of(self.entries@, c2, r2) == val_of(
                        old_entries,
                        c2,
                        r2,
                    ) by {
                        let j1 = choose|j: int|
                            0 <= j < old_entries.len() && (#[trigger] old_entries[j]).0 == c2
                                && old_entries[j].1 == r2;
                        let j2 = choose|j: int|
                            0 <= j < self.entries@.len() && (#[trigger] self.entries@[j]).0 == c2
                                && self.entries@[j].1 == r2;
                        assert(self.entries@[j1].0 == c2 && self.entries@[j1].1 == r2);
                        if j2 < old_entries.len() {
                            assert(old_entries[j2].0 == c2 && old_entries[j2].1 == r2);
                        } else {
                            assert(!pos_in(old_entries, c, r));
                            assert(old_entries[j1].0 == c && old_entries[j1].1 == r);
                        }
                        assert(j1 == j2);
                    }
                    assert(val_of(self.entries@, c, r) == 0) by {
                        let j = choose|j: int|
                            0 <= j < self.entries@.len() && (#[trigger] self.entries@[j]).0 == c
                                && self.entries@[j].1 == r;
                        if j < old_entries.len() {
                            assert(pos_in(old_entries, c, r));
                        }
                        assert(j == self.entries@.len() - 1);
                    }
                }
            },
        }
    }
}

/// Shared match state for right and full outer joins: the build rows that
/// matched during probing, and the per-row match counts.
pub struct RightJoinDesc {
    pub build_indexes: Vec<crate::row::RowPtr>,
    pub row_state: RowStateMap,
}

/// Immutable join configuration plus the shared mutable match state.
pub struct HashJoinDesc {
    pub join_type: JoinType,
    pub marker_join_desc: MarkJoinDesc,
    pub right_join_desc: RightJoinDesc,
}

} // verus!
