//! Build-side row storage: a stable locator for every build row and the
//! chunked, append-only space the rows live in.

use vstd::prelude::*;
use crate::block::DataBlock;
use crate::desc::MarkerKind;

verus! {

/// A stable address of a build-side row. Identity for membership purposes
/// is `(chunk_index, row_index)` alone; `marker` is a transient tag
/// attached during probing and never part of the identity.
#[derive(Clone, Copy, Debug)]
pub struct RowPtr {
    pub chunk_index: u32,
    pub row_index: u32,
    pub marker: Option<MarkerKind>,
}

impl RowPtr {
    /// Whether this locator addresses position `(c, r)`.
    pub open spec fn at(self, c: u32, r: u32) -> bool {
        self.chunk_index == c && self.row_index == r
    }

    /// Whether two locators address the same build row.
    pub open spec fn same_row(self, other: RowPtr) -> bool {
        self.chunk_index == other.chunk_index && self.row_index == other.row_index
    }
}

/// Whether some locator of `s` addresses position `(c, r)`.
pub open spec fn contains_row(s: Seq<RowPtr>, c: u32, r: u32) -> bool {
    exists|k: int| 0 <= k < s.len() && (#[trigger] s[k]).at(c, r)
}

/// The index of the last locator of `s` at position `(c, r)`, or -1 when
/// there is none. The last one carries the most recently recorded marker.
pub open spec fn last_row_at(s: Seq<RowPtr>, c: u32, r: u32) -> int
    decreases s.len(),
{
    if s.len() == 0 {
        -1
    } else if s[s.len() - 1].at(c, r) {
        s.len() - 1
    } else {
        last_row_at(s.drop_last(), c, r)
    }
}

pub proof fn lemma_last_row_at(s: Seq<RowPtr>, c: u32, r: u32)
    ensures
        contains_row(s, c, r) ==> {
            let j = last_row_at(s, c, r);
            &&& 0 <= j < s.len()
            &&& s[j].at(c, r)
            &&& forall|k: int| j < k < s.len() ==> !(#[trigger] s[k]).at(c, r)
        },
        !contains_row(s, c, r) ==> last_row_at(s, c, r) == -1,
    decreases s.len(),
{
    if s.len() > 0 {
        let t = s.drop_last();
        lemma_last_row_at(t, c, r);
        if !s[s.len() - 1].at(c, r) {
            assert(last_row_at(s, c, r) == last_row_at(t, c, r));
            if contains_row(s, c, r) {
                let k = choose|k: int| 0 <= k < s.len() && (#[trigger] s[k]).at(c, r);
                assert(k < s.len() - 1);
                assert(t[k] == s[k]);
                assert(contains_row(t, c, r));
                let j = last_row_at(t, c, r);
                assert(s[j] == t[j]);
                assert forall|k2: int| j < k2 < s.len() implies !(#[trigger] s[k2]).at(c, r) by {
                    if k2 < s.len() - 1 {
                        assert(t[k2] == s[k2]);
                    }
                }
            } else {
                if contains_row(t, c, r) {
                    let k = choose|k: int| 0 <= k < t.len() && (#[trigger] t[k]).at(c, r);
                    assert(s[k] == t[k]);
                    assert(contains_row(s, c, r));
                }
            }
        }
    }
}

/// An append-only sequence of build-side batches, read-only once probing
/// starts.
pub struct RowSpace {
    pub chunks: Vec<DataBlock>,
}

impl RowSpace {
    pub open spec fn well_formed(self) -> bool {
        forall|i: int| 0 <= i < self.chunks@.len() ==> (#[trigger] self.chunks@[i]).well_formed()
    }

    pub fn new() -> (r: RowSpace)
        ensures
            r.chunks@.len() == 0,
    {
        RowSpace { chunks: Vec::new() }
    }

    pub fn num_chunks(&self) -> (r: usize)
        ensures
            r == self.chunks@.len(),
    {
        self.chunks.len()
    }

    /// Appends one build batch during the build phase.
    pub fn push_chunk(&mut self, chunk: DataBlock)
        ensures
            final(self).chunks@ == old(self).chunks@.push(chunk),
    {
        self.chunks.push(chunk);
    }
}

} // verus!
