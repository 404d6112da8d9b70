//! The policy and the value estimates: one entry for each pair of counts.

use vstd::prelude::*;
use crate::graph::{GraphInfo, VALUE_BOUND};
use crate::nd_vec::{NdVec2, lemma_flat_bounds};

verus! {

/// The numbers of `s` as mathematical integers.
pub open spec fn ints(s: Seq<i128>) -> Seq<int> {
    Seq::new(s.len(), |i: int| s[i] as int)
}

/// A container with one entry, `value`, for each pair of counts up to
/// `range`.
pub fn filled<T: Copy>(range: i32, value: T) -> (v: NdVec2<T>)
    requires
        0 <= range,
        (range + 1) * (range + 1) <= usize::MAX,
    ensures
        v.wf(),
        v.is_full(),
        v.range0 == (0i32, range),
        v.range1 == (0i32, range),
        forall|i: int| 0 <= i < v@.len() ==> v@[i] == value,
{
    let mut v: NdVec2<T> = NdVec2::new((0, range), (0, range));
    let n: usize = ((range as u64 + 1) * (range as u64 + 1)) as usize;
    let mut i: usize = 0;
    while i < n
        invariant
            v.wf(),
            v.range0 == (0i32, range),
            v.range1 == (0i32, range),
            n == (range + 1) * (range + 1),
            i <= n,
            v@.len() == i,
            forall|j: int| 0 <= j < v@.len() ==> v@[j] == value,
        decreases n - i,
    {
        v.push(value);
        i = i + 1;
    }
    v
}

/// The action chosen in each state.
pub struct Policy {
    pub state_action: NdVec2<i32>,
}

impl View for Policy {
    type V = Seq<i32>;

    open spec fn view(&self) -> Seq<i32> {
        self.state_action@
    }
}

impl Policy {
    /// The policy has an action for each pair of counts up to `range`, and
    /// each is a move of at most `limit`.
    pub open spec fn wf(&self, range: int, limit: int) -> bool {
        &&& self.state_action.wf()
        &&& self.state_action.is_full()
        &&& self.state_action.range0 == (0i32, range as i32)
        &&& self.state_action.range1 == (0i32, range as i32)
        &&& forall|i: int| 0 <= i < self@.len() ==> -limit <= #[trigger] self@[i] <= limit
    }

    /// The policy that moves nothing in any state.
    pub fn new(gi: &GraphInfo) -> (p: Self)
        requires
            0 <= gi.state_range,
            (gi.state_range + 1) * (gi.state_range + 1) <= usize::MAX,
        ensures
            p.wf(gi.state_range as int, 0),
            p@.len() == (gi.state_range + 1) * (gi.state_range + 1),
            forall|i: int| 0 <= i < p@.len() ==> p@[i] == 0,
    {
        Policy { state_action: filled(gi.state_range, 0i32) }
    }

    /// The action chosen in the state with the counts `count`.
    pub fn action_for(&self, count: (i32, i32)) -> (a: i32)
        requires
            self.state_action.wf(),
            self.state_action.holds((count.0 as int, count.1 as int)),
        ensures
            a == self.state_action[(count.0 as int, count.1 as int)],
    {
        *self.state_action.get(count)
    }
}

/// The value estimated for each state.
pub struct Values {
    pub state_v: NdVec2<i128>,
}

impl View for Values {
    type V = Seq<int>;

    open spec fn view(&self) -> Seq<int> {
        ints(self.state_v@)
    }
}

/// No value is farther from zero than the bound on values.
pub open spec fn bounded(values: Seq<int>) -> bool {
    forall|i: int| 0 <= i < values.len() ==> -VALUE_BOUND <= #[trigger] values[i] <= VALUE_BOUND
}

impl Values {
    /// There is a bounded value for each pair of counts up to `range`.
    pub open spec fn wf(&self, range: int) -> bool {
        &&& self.state_v.wf()
        &&& self.state_v.is_full()
        &&& self.state_v.range0 == (0i32, range as i32)
        &&& self.state_v.range1 == (0i32, range as i32)
        &&& bounded(self@)
    }

    /// The estimates before any evaluation: zero for every state.
    pub fn new(gi: &GraphInfo) -> (v: Self)
        requires
            0 <= gi.state_range,
            (gi.state_range + 1) * (gi.state_range + 1) <= usize::MAX,
        ensures
            v.wf(gi.state_range as int),
            v@.len() == (gi.state_range + 1) * (gi.state_range + 1),
            forall|i: int| 0 <= i < v@.len() ==> v@[i] == 0,
    {
        Values { state_v: filled(gi.state_range, 0i128) }
    }

    /// The value estimated for the state with the counts `count`.
    pub fn value_of(&self, count: (i32, i32)) -> (x: i128)
        requires
            self.state_v.wf(),
            self.state_v.holds((count.0 as int, count.1 as int)),
        ensures
            x == self@[self.state_v.offset((count.0 as int, count.1 as int))],
    {
        proof {
            lemma_flat_bounds(self.state_v.range0, self.state_v.range1, count.0 as int, count.1 as int);
        }
        *self.state_v.get(count)
    }
}

} // verus!
