//! Dense containers addressed by an integer key, or a pair of keys, taken
//! from closed intervals that need not start at zero.

use vstd::prelude::*;

verus! {

/// The number of keys in the closed interval `range`.
pub open spec fn span(range: (i32, i32)) -> int {
    range.1 - range.0 + 1
}

/// The position of the pair `(k0, k1)` where the second key runs fastest.
pub open spec fn flat(range0: (i32, i32), range1: (i32, i32), k0: int, k1: int) -> int {
    (k0 - range0.0) * span(range1) + (k1 - range1.0)
}

/// Distinct pairs of keys lie at distinct positions, all of them below the
/// number of pairs, and each position belongs to the pair it is split into.
pub proof fn lemma_flat_bounds(range0: (i32, i32), range1: (i32, i32), k0: int, k1: int)
    requires
        range0.0 <= k0 <= range0.1,
        range1.0 <= k1 <= range1.1,
    ensures
        0 <= flat(range0, range1, k0, k1) < span(range0) * span(range1),
        flat(range0, range1, k0, k1) / span(range1) == k0 - range0.0,
        flat(range0, range1, k0, k1) % span(range1) == k1 - range1.0,
{
    let w = span(range1);
    let r = k0 - range0.0;
    let c = k1 - range1.0;
    assert(0 <= r * w && (r + 1) * w <= span(range0) * w && (r + 1) * w == r * w + w)
        by (nonlinear_arith)
        requires
            0 <= r < span(range0),
            0 < w,
    ;
    vstd::arithmetic::div_mod::lemma_fundamental_div_mod_converse(r * w + c, w, r, c);
}

/// A position below the number of pairs is that of exactly one pair of keys.
pub proof fn lemma_flat_inverse(range0: (i32, i32), range1: (i32, i32), i: int)
    requires
        range0.0 <= range0.1,
        range1.0 <= range1.1,
        0 <= i < span(range0) * span(range1),
    ensures
        range0.0 <= range0.0 + i / span(range1) <= range0.1,
        range1.0 <= range1.0 + i % span(range1) <= range1.1,
        flat(range0, range1, range0.0 + i / span(range1), range1.0 + i % span(range1)) == i,
{
    let w = span(range1);
    let h = span(range0);
    vstd::arithmetic::div_mod::lemma_fundamental_div_mod(i, w);
    let q = i / w;
    assert(0 <= q < h) by (nonlinear_arith)
        requires
            i == w * q + i % w,
            0 <= i % w < w,
            0 <= i < h * w,
            0 < w,
    ;
    assert(q * w == w * q) by (nonlinear_arith);
}

/// Records addressed by one key from a closed interval, stored in ascending
/// order of the key. Records are appended until the interval is filled.
pub struct NdVec1<T> {
    pub range: (i32, i32),
    pub data: Vec<T>,
}

impl<T> View for NdVec1<T> {
    type V = Seq<T>;

    open spec fn view(&self) -> Seq<T> {
        self.data@
    }
}

impl<T> NdVec1<T> {
    /// The interval is not empty and holds room for every stored record.
    pub open spec fn wf(&self) -> bool {
        &&& self.range.0 <= self.range.1
        &&& self.data@.len() <= span(self.range)
    }

    /// Every key of the interval has its record.
    pub open spec fn is_full(&self) -> bool {
        self.data@.len() == span(self.range)
    }

    /// A record is stored under the key `k`.
    pub open spec fn holds(&self, k: int) -> bool {
        self.range.0 <= k && k - self.range.0 < self.data@.len()
    }

    /// The record stored under the key `k`.
    pub open spec fn spec_index(&self, k: int) -> T {
        self.data@[k - self.range.0]
    }

    /// An empty container for the keys `range.0 ..= range.1`.
    pub fn new(range: (i32, i32)) -> (r: Self)
        requires
            range.0 <= range.1,
            span(range) <= usize::MAX,
        ensures
            r.wf(),
            r.range == range,
            r@.len() == 0,
    {
        let n: i64 = range.1 as i64 - range.0 as i64 + 1;
        NdVec1 { range, data: Vec::with_capacity(n as usize) }
    }

    /// The number of records stored.
    pub fn len(&self) -> (n: usize)
        ensures
            n == self@.len(),
    {
        self.data.len()
    }

    /// The number of keys in the interval.
    pub fn capacity(&self) -> (n: u64)
        requires
            self.wf(),
        ensures
            n == span(self.range),
    {
        (self.range.1 as i64 - self.range.0 as i64 + 1) as u64
    }

    /// Whether a record is stored under `k`.
    pub fn contains(&self, k: i32) -> (b: bool)
        ensures
            b == self.holds(k as int),
    {
        k >= self.range.0 && ((k as i64 - self.range.0 as i64) as u64) < self.data.len() as u64
    }

    /// Appends the record of the smallest key that has none yet.
    pub fn push(&mut self, value: T)
        requires
            old(self).wf(),
            !old(self).is_full(),
        ensures
            final(self).wf(),
            final(self).range == old(self).range,
            final(self)@ == old(self)@.push(value),
    {
        self.data.push(value);
    }

    /// The record stored under `k`.
    pub fn get(&self, k: i32) -> (r: &T)
        requires
            self.holds(k as int),
        ensures
            *r == self[k as int],
    {
        let i: usize = (k as i64 - self.range.0 as i64) as usize;
        &self.data[i]
    }

    /// Replaces the record stored under `k`.
    pub fn set(&mut self, k: i32, value: T)
        requires
            old(self).holds(k as int),
        ensures
            final(self).range == old(self).range,
            final(self)@ == old(self)@.update(k - old(self).range.0, value),
    {
        let i: usize = (k as i64 - self.range.0 as i64) as usize;
        self.data[i] = value;
    }

    /// The record at position `i` in ascending order of the keys.
    pub fn at(&self, i: usize) -> (r: &T)
        requires
            i < self@.len(),
        ensures
            *r == self@[i as int],
    {
        &self.data[i]
    }

    /// The key of the record at position `i`.
    pub fn key_at(&self, i: usize) -> (k: i32)
        requires
            self.wf(),
            i < self@.len(),
        ensures
            k == self.range.0 + i,
            self.holds(k as int),
    {
        (self.range.0 as i64 + i as i64) as i32
    }
}

/// Records addressed by a pair of keys, each from its own closed interval,
/// stored in ascending order of the pair: by the first key, then the second.
pub struct NdVec2<T> {
    pub range0: (i32, i32),
    pub range1: (i32, i32),
    pub data: Vec<T>,
}

impl<T> View for NdVec2<T> {
    type V = Seq<T>;

    open spec fn view(&self) -> Seq<T> {
        self.data@
    }
}

impl<T> NdVec2<T> {
    /// The number of pairs of keys.
    pub open spec fn room(&self) -> int {
        span(self.range0) * span(self.range1)
    }

    /// Neither interval is empty and there is room for every stored record.
    pub open spec fn wf(&self) -> bool {
        &&& self.range0.0 <= self.range0.1
        &&& self.range1.0 <= self.range1.1
        &&& self.room() <= usize::MAX
        &&& self.data@.len() <= self.room()
    }

    /// Every pair of keys has its record.
    pub open spec fn is_full(&self) -> bool {
        self.data@.len() == self.room()
    }

    /// Both keys lie in their intervals.
    pub open spec fn in_range(&self, k: (int, int)) -> bool {
        &&& self.range0.0 <= k.0 <= self.range0.1
        &&& self.range1.0 <= k.1 <= self.range1.1
    }

    /// The position of the pair `k` in the order of storage.
    pub open spec fn offset(&self, k: (int, int)) -> int {
        flat(self.range0, self.range1, k.0, k.1)
    }

    /// A record is stored under the pair `k`.
    pub open spec fn holds(&self, k: (int, int)) -> bool {
        self.in_range(k) && self.offset(k) < self.data@.len()
    }

    /// The record stored under the pair `k`.
    pub open spec fn spec_index(&self, k: (int, int)) -> T {
        self.data@[self.offset(k)]
    }

    /// An empty container for the pairs of `range0` and `range1`.
    pub fn new(range0: (i32, i32), range1: (i32, i32)) -> (r: Self)
        requires
            range0.0 <= range0.1,
            range1.0 <= range1.1,
            span(range0) * span(range1) <= usize::MAX,
        ensures
            r.wf(),
            r.range0 == range0,
            r.range1 == range1,
            r@.len() == 0,
    {
        let h: u64 = (range0.1 as i64 - range0.0 as i64 + 1) as u64;
        let w: u64 = (range1.1 as i64 - range1.0 as i64 + 1) as u64;
        NdVec2 { range0, range1, data: Vec::with_capacity((h * w) as usize) }
    }

    /// The number of records stored.
    pub fn len(&self) -> (n: usize)
        ensures
            n == self@.len(),
    {
        self.data.len()
    }

    /// The position of the pair `k`.
    pub fn index_of(&self, k: (i32, i32)) -> (i: usize)
        requires
            self.wf(),
            self.in_range((k.0 as int, k.1 as int)),
        ensures
            i == self.offset((k.0 as int, k.1 as int)),
    {
        proof {
            lemma_flat_bounds(self.range0, self.range1, k.0 as int, k.1 as int);
        }
        let w: u64 = (self.range1.1 as i64 - self.range1.0 as i64 + 1) as u64;
        let r: u64 = (k.0 as i64 - self.range0.0 as i64) as u64;
        let c: u64 = (k.1 as i64 - self.range1.0 as i64) as u64;
        assert(r * w <= r * w + c);
        (r * w + c) as usize
    }

    /// Whether a record is stored under the pair `k`.
    pub fn contains(&self, k: (i32, i32)) -> (b: bool)
        requires
            self.wf(),
        ensures
            b == self.holds((k.0 as int, k.1 as int)),
    {
        if k.0 < self.range0.0 || k.0 > self.range0.1 || k.1 < self.range1.0 || k.1
            > self.range1.1 {
            false
        } else {
            self.index_of(k) < self.data.len()
        }
    }

    /// Appends the record of the smallest pair that has none yet.
    pub fn push(&mut self, value: T)
        requires
            old(self).wf(),
            !old(self).is_full(),
        ensures
            final(self).wf(),
            final(self).range0 == old(self).range0,
            final(self).range1 == old(self).range1,
            final(self)@ == old(self)@.push(value),
    {
        self.data.push(value);
    }

    /// The record stored under the pair `k`.
    pub fn get(&self, k: (i32, i32)) -> (r: &T)
        requires
            self.wf(),
            self.holds((k.0 as int, k.1 as int)),
        ensures
            *r == self[(k.0 as int, k.1 as int)],
    {
        let i: usize = self.index_of(k);
        &self.data[i]
    }

    /// Replaces the record stored under the pair `k`.
    pub fn set(&mut self, k: (i32, i32), value: T)
        requires
            old(self).wf(),
            old(self).holds((k.0 as int, k.1 as int)),
        ensures
            final(self).wf(),
            final(self).range0 == old(self).range0,
            final(self).range1 == old(self).range1,
            final(self)@ == old(self)@.update(old(self).offset((k.0 as int, k.1 as int)), value),
    {
        let i: usize = self.index_of(k);
        self.data[i] = value;
    }

    /// The record at position `i` in the order of storage.
    pub fn at(&self, i: usize) -> (r: &T)
        requires
            i < self@.len(),
        ensures
            *r == self@[i as int],
    {
        &self.data[i]
    }

    /// The record at position `i` in the order of storage, to be changed in
    /// place.
    pub fn at_mut(&mut self, i: usize) -> (r: &mut T)
        requires
            i < old(self)@.len(),
        ensures
            *r == old(self)@[i as int],
            final(self).range0 == old(self).range0,
            final(self).range1 == old(self).range1,
            final(self)@ == old(self)@.update(i as int, *final(r)),
    {
        &mut self.data[i]
    }

    /// Replaces the record at position `i` in the order of storage.
    pub fn set_at(&mut self, i: usize, value: T)
        requires
            i < old(self)@.len(),
        ensures
            final(self).range0 == old(self).range0,
            final(self).range1 == old(self).range1,
            final(self)@ == old(self)@.update(i as int, value),
    {
        self.data[i] = value;
    }

    /// The pair of keys of the record at position `i`.
    pub fn key_at(&self, i: usize) -> (k: (i32, i32))
        requires
            self.wf(),
            i < self@.len(),
        ensures
            k.0 == self.range0.0 + i as int / span(self.range1),
            k.1 == self.range1.0 + i as int % span(self.range1),
            self.holds((k.0 as int, k.1 as int)),
            self.offset((k.0 as int, k.1 as int)) == i,
    {
        proof {
            lemma_flat_inverse(self.range0, self.range1, i as int);
        }
        let w: u64 = (self.range1.1 as i64 - self.range1.0 as i64 + 1) as u64;
        let q: u64 = i as u64 / w;
        let c: u64 = i as u64 % w;
        ((self.range0.0 as i64 + q as i64) as i32, (self.range1.0 as i64 + c as i64) as i32)
    }
}

} // verus!
