//! The column model: plain, constant and nullable columns over a small set
//! of scalar kinds, with a mathematical view used by every contract.

use vstd::prelude::*;
use crate::bitmap::Bitmap;
use crate::bitmap::opt_bit;

verus! {

/// A logical scalar value held by a column cell.
#[derive(Clone, Copy, PartialEq, Eq, Structural, Debug)]
pub enum Scalar {
    Int(i64),
    Bool(bool),
}

/// Mathematical shape of a column, mirroring `Column` with sequences in
/// place of vectors.
pub enum ColumnView {
    Int(Seq<i64>),
    Bool(Seq<bool>),
    Constant(Box<ColumnView>, nat),
    Nullable(Box<ColumnView>, Option<Seq<bool>>),
    Null(nat),
}

impl ColumnView {
    /// Number of logical rows.
    pub open spec fn len(self) -> nat
        decreases self,
    {
        match self {
            ColumnView::Int(v) => v.len(),
            ColumnView::Bool(v) => v.len(),
            ColumnView::Constant(_, n) => n,
            ColumnView::Nullable(inner, _) => inner.len(),
            ColumnView::Null(n) => n,
        }
    }

    /// Structural invariant: a constant wraps a single-row, non-constant
    /// column; a nullable column never wraps another nullable one and its
    /// bitmap, when present, is as long as the inner column.
    pub open spec fn well_formed(self) -> bool
        decreases self,
    {
        match self {
            ColumnView::Int(_) => true,
            ColumnView::Bool(_) => true,
            ColumnView::Null(_) => true,
            ColumnView::Constant(inner, _) => {
                let ic = *inner;
                &&& ic.well_formed()
                &&& ic.len() == 1
                &&& !(ic is Constant)
            },
            ColumnView::Nullable(inner, v) => {
                let ic = *inner;
                &&& ic.well_formed()
                &&& !(ic is Nullable)
                &&& (v matches Some(b) ==> b.len() == ic.len())
            },
        }
    }

    /// The logical value at row `i`: `None` stands for NULL.
    pub open spec fn cell(self, i: int) -> Option<Scalar>
        recommends
            0 <= i < self.len(),
        decreases self,
    {
        match self {
            ColumnView::Int(v) => Some(Scalar::Int(v[i])),
            ColumnView::Bool(v) => Some(Scalar::Bool(v[i])),
            ColumnView::Null(_) => None,
            ColumnView::Constant(inner, _) => (*inner).cell(0),
            ColumnView::Nullable(inner, v) => {
                if opt_bit(v, i) {
                    (*inner).cell(i)
                } else {
                    None
                }
            },
        }
    }

    /// Whether row `i` holds a value.
    pub open spec fn present(self, i: int) -> bool {
        self.cell(i) is Some
    }

    /// The presence bitmap the column reports: fully-null columns report
    /// none, nullable columns their own (optional) bitmap, all others none.
    pub open spec fn validity_view(self) -> Option<Seq<bool>> {
        match self {
            ColumnView::Nullable(_, v) => v,
            _ => None,
        }
    }

    /// Whether the column can hold NULLs at all.
    pub open spec fn nullable_kind(self) -> bool {
        self is Nullable || self is Null
    }
}

/// A typed, vectorized column: plain values, a constant repeated value, a
/// nullable wrapper with an optional presence bitmap, or a fully-null
/// column.
#[derive(Debug)]
pub enum Column {
    Int(Vec<i64>),
    Bool(Vec<bool>),
    Constant(Box<Column>, usize),
    Nullable(Box<Column>, Option<Bitmap>),
    Null(usize),
}

/// The mathematical view of a column.
pub open spec fn cview(c: Column) -> ColumnView
    decreases c,
{
    match c {
        Column::Int(v) => ColumnView::Int(v@),
        Column::Bool(v) => ColumnView::Bool(v@),
        Column::Constant(inner, n) => ColumnView::Constant(Box::new(cview(*inner)), n as nat),
        Column::Nullable(inner, v) => ColumnView::Nullable(
            Box::new(cview(*inner)),
            match v {
                Some(b) => Some(b@),
                None => None,
            },
        ),
        Column::Null(n) => ColumnView::Null(n as nat),
    }
}

impl View for Column {
    type V = ColumnView;

    open spec fn view(&self) -> ColumnView {
        cview(*self)
    }
}

impl Column {
    pub fn len(&self) -> (r: usize)
        ensures
            r == self@.len(),
        decreases self,
    {
        match self {
            Column::Int(v) => v.len(),
            Column::Bool(v) => v.len(),
            Column::Constant(_, n) => *n,
            Column::Nullable(inner, _) => inner.len(),
            Column::Null(n) => *n,
        }
    }

    pub fn is_null(&self) -> (r: bool)
        ensures
            r == (self@ is Null),
    {
        matches!(self, Column::Null(_))
    }

    pub fn is_const(&self) -> (r: bool)
        ensures
            r == (self@ is Constant),
    {
        matches!(self, Column::Constant(_, _))
    }

    pub fn is_nullable(&self) -> (r: bool)
        ensures
            r == (self@ is Nullable),
    {
        matches!(self, Column::Nullable(_, _))
    }

    pub fn well_formed_exec(&self) -> (r: bool)
        ensures
            r == self@.well_formed(),
        decreases self,
    {
        match self {
            Column::Int(_) => true,
            Column::Bool(_) => true,
            Column::Null(_) => true,
            Column::Constant(inner, _) => {
                inner.well_formed_exec() && inner.len() == 1 && !inner.is_const()
            },
            Column::Nullable(inner, v) => {
                let bitmap_fits = match v {
                    Some(b) => b.len() == inner.len(),
                    None => true,
                };
                inner.well_formed_exec() && !inner.is_nullable() && bitmap_fits
            },
        }
    }

    /// `(is_all_null, bitmap)`: whether the column is fully null, and the
    /// presence bitmap it carries, if any.
    pub fn validity(&self) -> (r: (bool, Option<&Bitmap>))
        ensures
            r.0 == (self@ is Null),
            match r.1 {
                Some(b) => self@.validity_view() == Some(b@),
                None => self@.validity_view() is None,
            },
    {
        match self {
            Column::Null(_) => (true, None),
            Column::Nullable(_, Some(b)) => (false, Some(b)),
            Column::Nullable(_, None) => (false, None),
            _ => (false, None),
        }
    }

    /// The logical value at row `i`.
    pub fn value_at(&self, i: usize) -> (r: Option<Scalar>)
        requires
            i < self@.len(),
            self@.well_formed(),
        ensures
            r == self@.cell(i as int),
        decreases self,
    {
        match self {
            Column::Int(v) => Some(Scalar::Int(v[i])),
            Column::Bool(v) => Some(Scalar::Bool(v[i])),
            Column::Null(_) => None,
            Column::Constant(inner, _) => inner.value_at(0),
            Column::Nullable(inner, v) => {
                let present = match v {
                    Some(b) => b.get_bit(i),
                    None => true,
                };
                if present {
                    inner.value_at(i)
                } else {
                    None
                }
            },
        }
    }

    pub fn duplicate(&self) -> (r: Column)
        ensures
            r@ == self@,
        decreases self,
    {
        match self {
            Column::Int(v) => Column::Int(dup_vec_i64(v)),
            Column::Bool(v) => Column::Bool(dup_vec_bool(v)),
            Column::Null(n) => Column::Null(*n),
            Column::Constant(inner, n) => Column::Constant(Box::new(inner.duplicate()), *n),
            Column::Nullable(inner, v) => {
                let bm = match v {
                    Some(b) => Some(b.duplicate()),
                    None => None,
                };
                Column::Nullable(Box::new(inner.duplicate()), bm)
            },
        }
    }
}

/// The window of `len` rows of `c` starting at `offset`: values, bitmaps
/// and nesting are windowed together; a constant or fully-null column
/// only changes its length.
pub open spec fn cslice(c: ColumnView, offset: int, len: int) -> ColumnView
    decreases c,
{
    match c {
        ColumnView::Int(v) => ColumnView::Int(v.subrange(offset, offset + len)),
        ColumnView::Bool(v) => ColumnView::Bool(v.subrange(offset, offset + len)),
        ColumnView::Null(_) => ColumnView::Null(len as nat),
        ColumnView::Constant(inner, _) => ColumnView::Constant(inner, len as nat),
        ColumnView::Nullable(inner, ob) => ColumnView::Nullable(
            Box::new(cslice(*inner, offset, len)),
            match ob {
                Some(b) => Some(b.subrange(offset, offset + len)),
                None => None,
            },
        ),
    }
}

/// A slice is as long as asked, stays well formed, and holds exactly the
/// cells of the window it was taken from.
pub proof fn lemma_cslice_props(c: ColumnView, offset: int, len: int)
    requires
        c.well_formed(),
        0 <= offset,
        0 <= len,
        offset + len <= c.len(),
    ensures
        cslice(c, offset, len).len() == len,
        cslice(c, offset, len).well_formed(),
        forall|i: int| 0 <= i < len ==> cslice(c, offset, len).cell(i) == c.cell(offset + i),
    decreases c,
{
    match c {
        ColumnView::Nullable(inner, ob) => {
            lemma_cslice_props(*inner, offset, len);
            let r = cslice(c, offset, len);
            assert forall|i: int| 0 <= i < len implies r.cell(i) == c.cell(offset + i) by {
                assert(cslice(*inner, offset, len).cell(i) == (*inner).cell(offset + i));
            }
        },
        _ => {},
    }
}

impl Column {
    /// A view of `length` rows starting at `offset`.
    pub fn slice(&self, offset: usize, length: usize) -> (r: Column)
        requires
            self@.well_formed(),
            offset + length <= self@.len(),
        ensures
            r@ == cslice(self@, offset as int, length as int),
            r@.len() == length,
            r@.well_formed(),
            forall|i: int| 0 <= i < length ==> r@.cell(i) == self@.cell(offset + i),
        decreases self,
    {
        let r = match self {
            Column::Int(v) => Column::Int(sub_vec_i64(v, offset, length)),
            Column::Bool(v) => Column::Bool(sub_vec_bool(v, offset, length)),
            Column::Null(_) => Column::Null(length),
            Column::Constant(inner, _) => Column::Constant(Box::new(inner.duplicate()), length),
            Column::Nullable(inner, ob) => {
                let sb = match ob {
                    Some(b) => Some(b.slice(offset, length)),
                    None => None,
                };
                Column::Nullable(Box::new(inner.slice(offset, length)), sb)
            },
        };
        proof {
            lemma_cslice_props(self@, offset as int, length as int);
        }
        r
    }
}

fn sub_vec_i64(v: &Vec<i64>, offset: usize, length: usize) -> (r: Vec<i64>)
    requires
        offset + length <= v@.len(),
    ensures
        r@ == v@.subrange(offset as int, offset + length),
{
    let n = v.len();
    let mut out: Vec<i64> = Vec::new();
    let mut i: usize = 0;
    while i < length
        invariant
            i <= length,
            n == v@.len(),
            offset + length <= n,
            out@ =~= v@.subrange(offset as int, offset + i),
        decreases length - i,
    {
        out.push(v[offset + i]);
        i = i + 1;
    }
    out
}

fn sub_vec_bool(v: &Vec<bool>, offset: usize, length: usize) -> (r: Vec<bool>)
    requires
        offset + length <= v@.len(),
    ensures
        r@ == v@.subrange(offset as int, offset + length),
{
    let n = v.len();
    let mut out: Vec<bool> = Vec::new();
    let mut i: usize = 0;
    while i < length
        invariant
            i <= length,
            n == v@.len(),
            offset + length <= n,
            out@ =~= v@.subrange(offset as int, offset + i),
        decreases length - i,
    {
        out.push(v[offset + i]);
        i = i + 1;
    }
    out
}

/// Whether the column is boolean-typed: every value it can hold is a
/// boolean. A fully-null column counts as boolean-typed.
pub open spec fn bool_typed(c: ColumnView) -> bool
    decreases c,
{
    match c {
        ColumnView::Bool(_) => true,
        ColumnView::Null(_) => true,
        ColumnView::Int(_) => false,
        ColumnView::Constant(inner, _) => bool_typed(*inner),
        ColumnView::Nullable(inner, _) => bool_typed(*inner),
    }
}

/// The boolean a predicate-result cell admits a row with: true exactly
/// when the cell holds true; a NULL or false cell rejects the row.
pub open spec fn effective_bool(c: ColumnView, i: int) -> bool {
    c.cell(i) == Some(Scalar::Bool(true))
}

impl Column {
    pub fn is_bool_typed(&self) -> (r: bool)
        ensures
            r == bool_typed(self@),
        decreases self,
    {
        match self {
            Column::Bool(_) => true,
            Column::Null(_) => true,
            Column::Int(_) => false,
            Column::Constant(inner, _) => inner.is_bool_typed(),
            Column::Nullable(inner, _) => inner.is_bool_typed(),
        }
    }
}

/// What wrapping column `c` with presence bitmap `v` produces:
/// - a fully-null column stays itself (nulls never become non-null);
/// - a constant applies the first bit of `v` to its single inner value and
///   stays constant, since a constant's nullness is uniform;
/// - a nullable column intersects `v` with its existing bitmap, positions
///   of `v` beyond the existing bitmap padded as absent;
/// - any other column is wrapped as nullable with `v` as its bitmap.
pub open spec fn set_validity_view(c: ColumnView, v: Seq<bool>) -> ColumnView
    decreases c,
{
    match c {
        ColumnView::Null(n) => ColumnView::Null(n),
        ColumnView::Constant(inner, n) => ColumnView::Constant(
            Box::new(set_validity_view(*inner, v.subrange(0, 1))),
            n,
        ),
        ColumnView::Nullable(inner, ob) => {
            let ic = *inner;
            let existing = match ob {
                Some(b) => b,
                None => Seq::new(ic.len(), |i: int| true),
            };
            let nb = Seq::new(
                v.len(),
                |i: int| if i < existing.len() {
                    v[i] && existing[i]
                } else {
                    false
                },
            );
            ColumnView::Nullable(inner, Some(nb))
        },
        _ => ColumnView::Nullable(Box::new(c), Some(v)),
    }
}

/// The bitmap must cover the wrapped column: at least the existing bitmap
/// of a nullable column, at least one bit for a constant.
pub open spec fn set_validity_pre(c: ColumnView, v: Seq<bool>) -> bool {
    match c {
        ColumnView::Nullable(inner, _) => v.len() >= (*inner).len(),
        ColumnView::Constant(_, _) => v.len() >= 1,
        _ => true,
    }
}

/// Wrapping keeps the row count, and an aligned bitmap keeps the column
/// well formed.
pub proof fn lemma_set_validity_len(c: ColumnView, v: Seq<bool>)
    requires
        c.well_formed(),
        set_validity_pre(c, v),
    ensures
        set_validity_view(c, v).len() == c.len(),
        v.len() == c.len() ==> set_validity_view(c, v).well_formed(),
    decreases c,
{
    match c {
        ColumnView::Constant(inner, n) => {
            lemma_set_validity_len(*inner, v.subrange(0, 1));
        },
        _ => {},
    }
}

/// Wrapping a column with a validity never reinterprets values, it only
/// removes presence: every cell still present holds its original value.
pub proof fn lemma_set_validity_only_presence(c: ColumnView, v: Seq<bool>, i: int)
    requires
        c.well_formed(),
        set_validity_pre(c, v),
        0 <= i < c.len(),
    ensures
        set_validity_view(c, v).cell(i) is Some ==> set_validity_view(c, v).cell(i) == c.cell(i),
    decreases c,
{
    match c {
        ColumnView::Constant(inner, n) => {
            if (*inner).len() > 0 {
                lemma_set_validity_only_presence(*inner, v.subrange(0, 1), 0);
            }
        },
        _ => {},
    }
}

fn dup_vec_i64(v: &Vec<i64>) -> (r: Vec<i64>)
    ensures
        r@ == v@,
{
    let n = v.len();
    let mut out: Vec<i64> = Vec::new();
    let mut i: usize = 0;
    while i < n
        invariant
            i <= n,
            n == v@.len(),
            out@ =~= v@.subrange(0, i as int),
        decreases n - i,
    {
        out.push(v[i]);
        i = i + 1;
    }
    proof {
        assert(out@ =~= v@);
    }
    out
}

fn dup_vec_bool(v: &Vec<bool>) -> (r: Vec<bool>)
    ensures
        r@ == v@,
{
    let n = v.len();
    let mut out: Vec<bool> = Vec::new();
    let mut i: usize = 0;
    while i < n
        invariant
            i <= n,
            n == v@.len(),
            out@ =~= v@.subrange(0, i as int),
        decreases n - i,
    {
        out.push(v[i]);
        i = i + 1;
    }
    proof {
        assert(out@ =~= v@);
    }
    out
}

} // verus!
