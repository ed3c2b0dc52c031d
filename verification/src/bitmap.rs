//! Presence bitmaps: one flag per row, `true` meaning the value is present
//! and `false` meaning it is NULL.

use vstd::prelude::*;

verus! {

/// How many of the first `i` flags of `s` are unset.
pub open spec fn count_unset(s: Seq<bool>, i: int) -> nat
    recommends
        0 <= i <= s.len(),
    decreases i,
{
    if i <= 0 {
        0
    } else {
        count_unset(s, i - 1) + (if s[i - 1] { 0nat } else { 1nat })
    }
}

pub proof fn lemma_count_unset_zero(s: Seq<bool>, i: int)
    requires
        0 <= i <= s.len(),
    ensures
        count_unset(s, i) == 0 <==> (forall|j: int| 0 <= j < i ==> s[j]),
    decreases i,
{
    if i > 0 {
        lemma_count_unset_zero(s, i - 1);
    }
}

pub proof fn lemma_count_unset_full(s: Seq<bool>, i: int)
    requires
        0 <= i <= s.len(),
    ensures
        count_unset(s, i) == i <==> (forall|j: int| 0 <= j < i ==> !s[j]),
        count_unset(s, i) <= i,
    decreases i,
{
    if i > 0 {
        lemma_count_unset_full(s, i - 1);
    }
}

/// A per-row presence bitmap.
#[derive(Debug)]
pub struct Bitmap {
    bits: Vec<bool>,
}

impl View for Bitmap {
    type V = Seq<bool>;

    closed spec fn view(&self) -> Seq<bool> {
        self.bits@
    }
}

impl Bitmap {
    pub fn new() -> (r: Bitmap)
        ensures
            r@ == Seq::<bool>::empty(),
    {
        Bitmap { bits: Vec::new() }
    }

    pub fn from_bools(bits: Vec<bool>) -> (r: Bitmap)
        ensures
            r@ == bits@,
    {
        Bitmap { bits }
    }

    /// A bitmap of `n` copies of `value`.
    pub fn filled(n: usize, value: bool) -> (r: Bitmap)
        ensures
            r@ == Seq::new(n as nat, |i: int| value),
    {
        let mut bits: Vec<bool> = Vec::new();
        let mut i: usize = 0;
        while i < n
            invariant
                i <= n,
                bits@ =~= Seq::new(i as nat, |j: int| value),
            decreases n - i,
        {
            bits.push(value);
            i = i + 1;
        }
        proof {
            assert(bits@ =~= Seq::new(n as nat, |i: int| value));
        }
        Bitmap { bits }
    }

    pub fn len(&self) -> (r: usize)
        ensures
            r == self@.len(),
    {
        self.bits.len()
    }

    pub fn get_bit(&self, i: usize) -> (r: bool)
        requires
            i < self@.len(),
        ensures
            r == self@[i as int],
    {
        self.bits[i]
    }

    pub fn push(&mut self, value: bool)
        ensures
            final(self)@ == old(self)@.push(value),
    {
        self.bits.push(value);
    }

    /// Appends `n` copies of `value`.
    pub fn extend_constant(&mut self, n: usize, value: bool)
        ensures
            final(self)@ == old(self)@ + Seq::new(n as nat, |i: int| value),
    {
        let mut i: usize = 0;
        while i < n
            invariant
                i <= n,
                self@ =~= old(self)@ + Seq::new(i as nat, |j: int| value),
            decreases n - i,
        {
            self.bits.push(value);
            i = i + 1;
        }
        proof {
            assert(self@ =~= old(self)@ + Seq::new(n as nat, |i: int| value));
        }
    }

    pub fn slice(&self, offset: usize, length: usize) -> (r: Bitmap)
        requires
            offset + length <= self@.len(),
        ensures
            r@ == self@.subrange(offset as int, offset + length),
    {
        let n = self.bits.len();
        let mut bits: Vec<bool> = Vec::new();
        let mut i: usize = 0;
        while i < length
            invariant
                i <= length,
                n == self@.len(),
                offset + length <= n,
                bits@ =~= self@.subrange(offset as int, offset + i),
            decreases length - i,
        {
            bits.push(self.bits[offset + i]);
            i = i + 1;
        }
        Bitmap { bits }
    }

    /// How many rows the bitmap marks as absent.
    pub fn unset_bits(&self) -> (r: usize)
        ensures
            r == count_unset(self@, self@.len() as int),
            r == 0 <==> (forall|j: int| 0 <= j < self@.len() ==> self@[j]),
    {
        let n = self.bits.len();
        let mut count: usize = 0;
        let mut i: usize = 0;
        while i < n
            invariant
                i <= n,
                n == self@.len(),
                count == count_unset(self@, i as int),
                count <= i,
            decreases n - i,
        {
            proof {
                lemma_count_unset_full(self@, i + 1);
            }
            if !self.bits[i] {
                count = count + 1;
            }
            i = i + 1;
        }
        proof {
            lemma_count_unset_zero(self@, n as int);
        }
        count
    }

    pub fn duplicate(&self) -> (r: Bitmap)
        ensures
            r@ == self@,
    {
        let n = self.bits.len();
        let mut bits: Vec<bool> = Vec::new();
        let mut i: usize = 0;
        while i < n
            invariant
                i <= n,
                n == self@.len(),
                bits@ =~= self@.subrange(0, i as int),
            decreases n - i,
        {
            bits.push(self.bits[i]);
            i = i + 1;
        }
        proof {
            assert(bits@ =~= self@);
        }
        Bitmap { bits }
    }
}

/// The flag an optional bitmap gives row `i`: a missing bitmap means every
/// row is present.
pub open spec fn opt_bit(v: Option<Seq<bool>>, i: int) -> bool {
    match v {
        Some(s) => s[i],
        None => true,
    }
}

pub open spec fn opt_view(o: Option<&Bitmap>) -> Option<Seq<bool>> {
    match o {
        Some(b) => Some(b@),
        None => None,
    }
}

pub open spec fn opt_bitmap_view(o: Option<Bitmap>) -> Option<Seq<bool>> {
    match o {
        Some(b) => Some(b@),
        None => None,
    }
}

/// Length shared by every bitmap that is present; meaningful only when they
/// agree, which `combine_validities_3` requires.
pub open spec fn opt_len3(
    a: Option<Seq<bool>>,
    b: Option<Seq<bool>>,
    c: Option<Seq<bool>>,
) -> nat {
    match a {
        Some(s) => s.len(),
        None => match b {
            Some(s) => s.len(),
            None => match c {
                Some(s) => s.len(),
                None => 0,
            },
        },
    }
}

fn opt_get(o: Option<&Bitmap>, i: usize) -> (r: bool)
    requires
        o matches Some(b) ==> i < b@.len(),
    ensures
        r == opt_bit(opt_view(o), i as int),
{
    match o {
        Some(b) => b.get_bit(i),
        None => true,
    }
}

/// Intersection of up to three optional presence bitmaps: a row is present
/// in the result exactly when every given bitmap marks it present, a missing
/// bitmap standing for "all present". The result is `None` only when all
/// three inputs are.
pub fn combine_validities_3(
    a: Option<&Bitmap>,
    b: Option<&Bitmap>,
    c: Option<&Bitmap>,
) -> (r: Option<Bitmap>)
    requires
        a is Some && b is Some ==> a->0@.len() == b->0@.len(),
        a is Some && c is Some ==> a->0@.len() == c->0@.len(),
        b is Some && c is Some ==> b->0@.len() == c->0@.len(),
    ensures
        r is None <==> (a is None && b is None && c is None),
        r matches Some(rb) ==> {
            let n = opt_len3(opt_view(a), opt_view(b), opt_view(c));
            &&& rb@.len() == n
            &&& forall|i: int|
                0 <= i < n ==> rb@[i] == (opt_bit(opt_view(a), i) && opt_bit(opt_view(b), i)
                    && opt_bit(opt_view(c), i))
        },
{
    if a.is_none() && b.is_none() && c.is_none() {
        return None;
    }
    let n: usize = match a {
        Some(x) => x.len(),
        None => match b {
            Some(y) => y.len(),
            None => match c {
                Some(z) => z.len(),
                None => 0,
            },
        },
    };
    let ghost gn = opt_len3(opt_view(a), opt_view(b), opt_view(c));
    let mut out = Bitmap::new();
    let mut i: usize = 0;
    while i < n
        invariant
            i <= n,
            n == gn,
            a matches Some(x) ==> x@.len() == n,
            b matches Some(y) ==> y@.len() == n,
            c matches Some(z) ==> z@.len() == n,
            out@.len() == i,
            forall|j: int|
                0 <= j < i ==> out@[j] == (opt_bit(opt_view(a), j) && opt_bit(opt_view(b), j)
                    && opt_bit(opt_view(c), j)),
        decreases n - i,
    {
        let bit = opt_get(a, i) && opt_get(b, i) && opt_get(c, i);
        out.push(bit);
        i = i + 1;
    }
    Some(out)
}

} // verus!
