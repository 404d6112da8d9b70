//! The model of the rental problem: states, actions and the transitions
//! between states, built once from the configuration.

use vstd::prelude::*;
use vstd::string::StringExecFns;
use std::collections::BTreeMap;
use crate::distribution::{Distribution, truncated_expectation, lemma_expectation_bounds};
use crate::fixed::{ONE, scaled, nearest, clamped, scale, round, lemma_product_bound, lemma_scaled_bound};
use crate::label::{state_label, signed, push_plain, push_signed};
use crate::nd_vec::{NdVec1, NdVec2, flat, lemma_flat_bounds, lemma_flat_inverse};

verus! {

/// The largest inventory bound that a configuration may ask for.
pub const MAX_RANGE: i32 = 1000;

/// The largest move limit that a configuration may ask for.
pub const MAX_MOVE: i32 = 1000;

/// The largest reward per rental, in either direction: a thousand.
pub const MAX_RENT_REWARD: i64 = 1_000_000_000_000;

/// The largest parking cost, in either direction: a thousand.
pub const MAX_PARKING_COST: i64 = 1_000_000_000_000;

/// No state's reward is farther from zero than this: the rentals of two
/// full locations at the largest reward, and two parking costs.
pub const STATE_REWARD_BOUND: i64 = 2_002_000_000_000_000;

/// No action's reward is farther from zero than this: two for each unit of
/// the largest move.
pub const ACTION_REWARD_BOUND: i64 = 2_000_000_000_000;

/// No value estimate is farther from zero than this: the two bounds on
/// rewards together, times `ONE`, which no discount below one lets a value
/// exceed.
pub const VALUE_BOUND: i128 = 2_004_000_000_000_000_000_000_000;

/// What the model is built from: the four distributions of the numbers
/// rented and returned at each location, the limits and the reward per rental.
pub struct GraphInfo {
    pub dist_rent_0: Distribution,
    pub dist_rent_1: Distribution,
    pub dist_return_0: Distribution,
    pub dist_return_1: Distribution,
    pub move_limit: i32,
    pub state_range: i32,
    pub rent_reward: i64,
}

/// The optional change of the rules: one unit moved outward for free, and a
/// cost at each location that holds more than the parking limit.
#[derive(Clone, Copy, Debug)]
pub struct GraphChange {
    pub free_shuttle: bool,
    pub parking_limit: i32,
    pub parking_cost: i64,
}

/// The identity of a state: its label, its two counts and the rentals
/// expected at each location.
pub struct StateDesc {
    pub name: String,
    pub count: (i32, i32),
    pub rent: (i64, i64),
}

/// One successor of a state under an action, with its probability.
#[derive(Clone, Copy, Debug, PartialEq, Eq)]
pub struct Transition {
    pub action: i32,
    pub from: (i32, i32),
    pub to: (i32, i32),
    pub prob: i64,
}

/// A state: its identity, its reward, its transitions in the order in which
/// they were added and, for each action, the positions of its transitions.
pub struct State {
    pub desc: StateDesc,
    pub reward: i64,
    pub action: BTreeMap<i32, Vec<usize>>,
    pub transition: Vec<Transition>,
}

/// The identity of an action: its label and the number moved from the first
/// location to the second.
pub struct ActionDesc {
    pub name: String,
    pub value: i32,
}

/// An action with its reward.
pub struct Action {
    pub desc: ActionDesc,
    pub reward: i64,
}

/// The model: one state for each pair of counts, one action for each move.
pub struct Graph {
    pub state: NdVec2<State>,
    pub action: NdVec1<Action>,
}

/// The cost of parking in the state with the counts `m` and `n`.
pub open spec fn parking_penalty(c: Option<GraphChange>, m: int, n: int) -> int {
    match c {
        Some(v) => (if m > v.parking_limit {
            v.parking_cost as int
        } else {
            0
        }) + (if n > v.parking_limit {
            v.parking_cost as int
        } else {
            0
        }),
        None => 0,
    }
}

/// The reward of a state: what the expected rentals bring in, less the cost
/// of parking.
pub open spec fn state_reward(rent: (i64, i64), rent_reward: i64, c: Option<GraphChange>, m: int, n: int) -> int {
    scaled(rent.0 + rent.1, rent_reward as int) - parking_penalty(c, m, n)
}

/// The number of units that the move `k` makes for free.
pub open spec fn free_credit(c: Option<GraphChange>, k: int) -> int {
    match c {
        Some(v) => if k > 0 && v.free_shuttle {
            1
        } else {
            0
        },
        None => 0,
    }
}

/// The reward of the move `k`: minus two for each unit moved and paid for.
pub open spec fn action_reward(c: Option<GraphChange>, k: int) -> int {
    -2 * ((if k < 0 {
        -k
    } else {
        k
    }) - free_credit(c, k)) * ONE
}

/// The count that a location is expected to hold after a day: what was left
/// after rentals, plus `moved`, plus the expected returns, rounded and kept
/// within `0 ..= range`.
pub open spec fn next_count(count: int, rent: int, moved: int, back: int, range: int) -> int {
    clamped(nearest(count * ONE - rent + moved * ONE + back), 0, range)
}

/// The positions in `ts`, in ascending order, of the transitions of the
/// action `a`.
pub open spec fn positions(ts: Seq<Transition>, a: int) -> Seq<usize>
    decreases ts.len(),
{
    if ts.len() == 0 {
        Seq::empty()
    } else if ts.last().action == a {
        positions(ts.drop_last(), a).push((ts.len() - 1) as usize)
    } else {
        positions(ts.drop_last(), a)
    }
}

/// The map `index` holds, for each action that has a transition in `ts` and
/// for no other, the positions of its transitions.
pub open spec fn grouped(ts: Seq<Transition>, index: Map<i32, Vec<usize>>) -> bool {
    forall|a: i32|
        {
            &&& #[trigger] index.contains_key(a) <==> positions(ts, a as int).len() > 0
            &&& index.contains_key(a) ==> index[a]@ == positions(ts, a as int)
        }
}

/// Each position listed for an action is that of a transition of the action,
/// and no more positions are listed than there are transitions.
pub proof fn lemma_positions_sound(ts: Seq<Transition>, a: int, j: int)
    requires
        ts.len() <= usize::MAX,
        0 <= j < positions(ts, a).len(),
    ensures
        positions(ts, a)[j] < ts.len(),
        ts[positions(ts, a)[j] as int].action == a,
        positions(ts, a).len() <= ts.len(),
    decreases ts.len(),
{
    if ts.len() > 0 {
        let rest = positions(ts.drop_last(), a);
        if j < rest.len() {
            lemma_positions_sound(ts.drop_last(), a, j);
        } else if rest.len() > 0 {
            lemma_positions_sound(ts.drop_last(), a, 0);
        }
    }
}

/// The move of the transition at position `i` of a state: no move first,
/// then the moves outward `1 ..= limit`, then the moves inward.
pub open spec fn move_at(i: int, limit: int) -> int {
    if i <= limit {
        i
    } else {
        limit - i
    }
}

/// The position of the transition of the move `a` in a state.
pub open spec fn slot_of(a: int, limit: int) -> int {
    if a >= 0 {
        a
    } else {
        limit - a
    }
}

/// Where the transitions stand in the order of `move_at`, each move has one
/// transition, at its slot.
pub proof fn lemma_positions_of_moves(ts: Seq<Transition>, limit: int, a: int)
    requires
        0 <= limit,
        ts.len() <= 2 * limit + 1,
        ts.len() <= usize::MAX,
        forall|i: int| 0 <= i < ts.len() ==> (#[trigger] ts[i]).action == move_at(i, limit),
        -limit <= a <= limit,
    ensures
        positions(ts, a) == if slot_of(a, limit) < ts.len() {
            seq![slot_of(a, limit) as usize]
        } else {
            Seq::<usize>::empty()
        },
    decreases ts.len(),
{
    if ts.len() > 0 {
        let rest = ts.drop_last();
        assert forall|i: int| 0 <= i < rest.len() implies (#[trigger] rest[i]).action == move_at(
            i,
            limit,
        ) by {
            assert(rest[i] == ts[i]);
        }
        lemma_positions_of_moves(rest, limit, a);
        if ts.last().action == a {
            assert(positions(ts, a) =~= seq![slot_of(a, limit) as usize]);
        }
    }
}

impl GraphInfo {
    /// The limits lie within what the arithmetic can hold and the four
    /// distributions are well formed.
    pub open spec fn wf(&self) -> bool {
        &&& 0 <= self.state_range <= MAX_RANGE
        &&& 0 <= self.move_limit <= MAX_MOVE
        &&& -MAX_RENT_REWARD <= self.rent_reward <= MAX_RENT_REWARD
        &&& self.dist_rent_0.wf()
        &&& self.dist_rent_1.wf()
        &&& self.dist_return_0.wf()
        &&& self.dist_return_1.wf()
    }

    /// The states of a well-formed configuration can be counted by the
    /// machine.
    pub proof fn lemma_states_fit(&self)
        requires
            0 <= self.state_range <= MAX_RANGE,
        ensures
            (self.state_range + 1) * (self.state_range + 1) <= usize::MAX,
    {
        let w = self.state_range + 1;
        assert(w * w <= 1001 * 1001) by (nonlinear_arith)
            requires
                0 <= w <= 1001,
        ;
    }

    /// The returns expected at each location, whatever the state.
    pub open spec fn back(&self) -> (int, int) {
        (
            truncated_expectation(self.dist_return_0@, self.state_range as int),
            truncated_expectation(self.dist_return_1@, self.state_range as int),
        )
    }
}

impl GraphChange {
    /// The parking cost lies within what the arithmetic can hold.
    pub open spec fn wf(&self) -> bool {
        -MAX_PARKING_COST <= self.parking_cost <= MAX_PARKING_COST
    }
}

/// The change, where there is one, is well formed.
pub open spec fn change_wf(c: Option<GraphChange>) -> bool {
    match c {
        Some(v) => v.wf(),
        None => true,
    }
}

impl StateDesc {
    /// The counts are not negative and the expected rentals at a location lie
    /// between zero and its count.
    pub open spec fn wf(&self) -> bool {
        &&& 0 <= self.count.0
        &&& 0 <= self.count.1
        &&& 0 <= self.rent.0 <= self.count.0 * ONE
        &&& 0 <= self.rent.1 <= self.count.1 * ONE
    }

    /// The identity with the label `name`, the counts `count` and the
    /// expected rentals `rent`.
    pub fn new(name: String, count: (i32, i32), rent: (i64, i64)) -> (r: Self)
        ensures
            r.name == name,
            r.count == count,
            r.rent == rent,
    {
        StateDesc { name, count, rent }
    }
}

impl Transition {
    /// This is the transition of the move `k` from a state with the identity
    /// `desc`, under the configuration `gi`.
    pub open spec fn is_move(&self, desc: &StateDesc, k: int, gi: &GraphInfo) -> bool {
        &&& self.action == k
        &&& self.from == desc.count
        &&& self.to.0 == next_count(desc.count.0 as int, desc.rent.0 as int, -k, gi.back().0, gi.state_range as int)
        &&& self.to.1 == next_count(desc.count.1 as int, desc.rent.1 as int, k, gi.back().1, gi.state_range as int)
        &&& self.prob == ONE
    }
}

impl State {
    /// The identity and the reward are those of the state with the counts
    /// `m` and `n` under the configuration `gi` and the change `c`.
    pub open spec fn described(&self, gi: &GraphInfo, c: Option<GraphChange>, m: int, n: int) -> bool {
        &&& self.desc.name@ == state_label(m, n)
        &&& self.desc.count.0 == m
        &&& self.desc.count.1 == n
        &&& self.desc.rent.0 == truncated_expectation(gi.dist_rent_0@, m)
        &&& self.desc.rent.1 == truncated_expectation(gi.dist_rent_1@, n)
        &&& self.reward == state_reward(self.desc.rent, gi.rent_reward, c, m, n)
    }

    /// The transitions are those of the moves in the order of `move_at`, one
    /// for each move, and they are grouped by action.
    pub open spec fn linked(&self, gi: &GraphInfo) -> bool {
        &&& self.transition@.len() == 2 * gi.move_limit + 1
        &&& forall|i: int|
            0 <= i < self.transition@.len() ==> (#[trigger] self.transition@[i]).is_move(
                &self.desc,
                move_at(i, gi.move_limit as int),
                gi,
            )
        &&& grouped(self.transition@, self.action@)
    }

    /// This is the complete state with the counts `m` and `n`.
    pub open spec fn built(&self, gi: &GraphInfo, c: Option<GraphChange>, m: int, n: int) -> bool {
        self.described(gi, c, m, n) && self.linked(gi)
    }

    /// A state with the identity `desc` and the reward `reward`, as yet
    /// without transitions.
    pub fn new(desc: StateDesc, reward: i64) -> (r: Self)
        ensures
            r.desc == desc,
            r.reward == reward,
            r.transition@.len() == 0,
            r.action@ == Map::<i32, Vec<usize>>::empty(),
    {
        State { desc, reward, action: BTreeMap::new(), transition: Vec::new() }
    }

    /// The label of the state.
    pub fn name(&self) -> (r: &str)
        ensures
            r@ == self.desc.name@,
    {
        self.desc.name.as_str()
    }

    /// The counts at the two locations.
    pub fn count(&self) -> (r: (i32, i32))
        ensures
            r == self.desc.count,
    {
        self.desc.count
    }

    /// The rentals expected at the two locations.
    pub fn rent(&self) -> (r: (i64, i64))
        ensures
            r == self.desc.rent,
    {
        self.desc.rent
    }

    /// The counts expected to be left at each location after rentals.
    pub fn expected_count(&self) -> (r: (i64, i64))
        requires
            self.desc.wf(),
        ensures
            r.0 == self.desc.count.0 * ONE - self.desc.rent.0,
            r.1 == self.desc.count.1 * ONE - self.desc.rent.1,
    {
        let c: (i32, i32) = self.desc.count;
        let r: (i64, i64) = self.desc.rent;
        (c.0 as i64 * ONE - r.0, c.1 as i64 * ONE - r.1)
    }
}

impl PartialEq for State {
    /// Two states are the same state where they have the same label.
    fn eq(&self, other: &Self) -> (r: bool) {
        self.desc.name == other.desc.name
    }
}

impl vstd::std_specs::cmp::PartialEqSpecImpl for State {
    open spec fn obeys_eq_spec() -> bool {
        true
    }

    open spec fn eq_spec(&self, other: &Self) -> bool {
        self.desc.name@ == other.desc.name@
    }
}

impl ActionDesc {
    /// The identity with the label `name` of the move `value`.
    pub fn new(name: String, value: i32) -> (r: Self)
        ensures
            r.name == name,
            r.value == value,
    {
        ActionDesc { name, value }
    }
}

impl Action {
    /// This is the action of the move `k` under the change `c`.
    pub open spec fn made(&self, c: Option<GraphChange>, k: int) -> bool {
        &&& self.desc.name@ == signed(k)
        &&& self.desc.value == k
        &&& self.reward == action_reward(c, k)
    }

    /// The action with the identity `desc` and the reward `reward`.
    pub fn new(desc: ActionDesc, reward: i64) -> (r: Self)
        ensures
            r.desc == desc,
            r.reward == reward,
    {
        Action { desc, reward }
    }

    /// The label of the action.
    pub fn name(&self) -> (r: &str)
        ensures
            r@ == self.desc.name@,
    {
        self.desc.name.as_str()
    }
}

/// The reward of a state lies within its bound.
pub proof fn lemma_state_reward_bound(rent: (i64, i64), rent_reward: i64, c: Option<GraphChange>, m: int, n: int)
    requires
        -MAX_RENT_REWARD <= rent_reward <= MAX_RENT_REWARD,
        change_wf(c),
        0 <= m <= MAX_RANGE,
        0 <= n <= MAX_RANGE,
        0 <= rent.0 <= m * ONE,
        0 <= rent.1 <= n * ONE,
    ensures
        -STATE_REWARD_BOUND <= state_reward(rent, rent_reward, c, m, n) <= STATE_REWARD_BOUND,
{
    lemma_product_bound(rent.0 + rent.1, rent_reward as int, 2_000_000_000_000, 1_000_000_000_000);
    assert(2_000_000_000_000int * 1_000_000_000_000int == 2_000_000_000_000_000int * ONE)
        by (nonlinear_arith);
    lemma_scaled_bound(rent.0 + rent.1, rent_reward as int, 2_000_000_000_000_000);
}

impl Graph {
    /// The inventory bound of the model.
    pub open spec fn range(&self) -> int {
        self.state.range0.1 as int
    }

    /// The move limit of the model.
    pub open spec fn limit(&self) -> int {
        self.action.range.1 as int
    }

    /// The model holds one state for each pair of counts up to `range` and
    /// one action for each move up to `limit`.
    pub open spec fn shaped(&self, range: int, limit: int) -> bool {
        &&& self.state.wf()
        &&& self.state.is_full()
        &&& self.state.range0 == (0i32, range as i32)
        &&& self.state.range1 == (0i32, range as i32)
        &&& self.action.wf()
        &&& self.action.is_full()
        &&& self.action.range == ((-limit) as i32, limit as i32)
    }

    /// The model is the one that the configuration `gi` and the change `c`
    /// describe.
    pub open spec fn built(&self, gi: &GraphInfo, c: Option<GraphChange>) -> bool {
        &&& self.shaped(gi.state_range as int, gi.move_limit as int)
        &&& forall|m: int, n: int|
            0 <= m <= gi.state_range && 0 <= n <= gi.state_range ==> (#[trigger] self.state.spec_index(
                (m, n),
            )).built(gi, c, m, n)
        &&& forall|k: int|
            -gi.move_limit <= k <= gi.move_limit ==> (#[trigger] self.action.spec_index(k)).made(c, k)
    }

    /// The transition leaves the state with the counts `count`, arrives at a
    /// state of the model by a move of the model, and is certain.
    pub open spec fn transition_ok(&self, t: Transition, count: (i32, i32)) -> bool {
        &&& t.from == count
        &&& 0 <= t.to.0 <= self.range()
        &&& 0 <= t.to.1 <= self.range()
        &&& -self.limit() <= t.action <= self.limit()
        &&& t.prob == ONE
    }

    /// The state at position `i` has the counts of its position, a bounded
    /// reward, and exactly one transition for each move, grouped by action.
    pub open spec fn state_ok(&self, i: int) -> bool {
        let s = self.state@[i];
        &&& s.desc.count.0 == i / (self.range() + 1)
        &&& s.desc.count.1 == i % (self.range() + 1)
        &&& -STATE_REWARD_BOUND <= s.reward <= STATE_REWARD_BOUND
        &&& s.transition@.len() <= usize::MAX
        &&& forall|j: int|
            0 <= j < s.transition@.len() ==> self.transition_ok(#[trigger] s.transition@[j], s.desc.count)
        &&& grouped(s.transition@, s.action@)
        &&& forall|a: int|
            -self.limit() <= a <= self.limit() ==> (#[trigger] positions(s.transition@, a)).len() == 1
    }

    /// The invariant of a complete model.
    pub open spec fn wf(&self) -> bool {
        &&& 0 <= self.range() <= MAX_RANGE
        &&& 0 <= self.limit() <= MAX_MOVE
        &&& self.shaped(self.range(), self.limit())
        &&& forall|i: int| 0 <= i < self.state@.len() ==> #[trigger] self.state_ok(i)
        &&& forall|j: int|
            0 <= j < self.action@.len() ==> -ACTION_REWARD_BOUND <= (#[trigger] self.action@[j]).reward
                <= ACTION_REWARD_BOUND
    }

    /// A model built from a well-formed configuration is well formed.
    pub proof fn lemma_built_wf(&self, gi: &GraphInfo, c: Option<GraphChange>)
        requires
            gi.wf(),
            change_wf(c),
            self.built(gi, c),
        ensures
            self.wf(),
            self.range() == gi.state_range,
            self.limit() == gi.move_limit,
    {
        let r = (0i32, gi.state_range);
        let w = gi.state_range + 1;
        let lim = gi.move_limit as int;
        assert forall|i: int| 0 <= i < self.state@.len() implies #[trigger] self.state_ok(i) by {
            lemma_flat_inverse(r, r, i);
            let m = i / w;
            let n = i % w;
            let s = self.state.spec_index((m, n));
            assert(s.built(gi, c, m, n));
            assert(s == self.state@[i]);
            lemma_expectation_bounds(gi.dist_rent_0@, m);
            lemma_expectation_bounds(gi.dist_rent_1@, n);
            lemma_state_reward_bound(s.desc.rent, gi.rent_reward, c, m, n);
            assert forall|j: int| 0 <= j < s.transition@.len() implies self.transition_ok(
                #[trigger] s.transition@[j],
                s.desc.count,
            ) by {
                assert(s.transition@[j].is_move(&s.desc, move_at(j, lim), gi));
            }
            assert forall|a: int| -lim <= a <= lim implies (#[trigger] positions(
                s.transition@,
                a,
            )).len() == 1 by {
                lemma_positions_of_moves(s.transition@, lim, a);
            }
        }
        assert forall|j: int| 0 <= j < self.action@.len() implies -ACTION_REWARD_BOUND <= (
        #[trigger] self.action@[j]).reward <= ACTION_REWARD_BOUND by {
            let k = j - lim;
            assert(self.action.spec_index(k).made(c, k));
        }
    }

    /// A built model has a state for each pair of counts up to the inventory
    /// bound, and an action for each move up to the move limit in either
    /// direction.
    pub proof fn lemma_counts(&self, gi: &GraphInfo, c: Option<GraphChange>)
        requires
            self.built(gi, c),
            0 <= gi.state_range,
            0 <= gi.move_limit,
        ensures
            self.state@.len() == (gi.state_range + 1) * (gi.state_range + 1),
            self.action@.len() == 2 * gi.move_limit + 1,
    {
    }

    /// Every transition of a built model arrives at a pair of counts of the
    /// model, whatever the state it leaves and whatever the move.
    pub proof fn lemma_destination_in_range(&self, gi: &GraphInfo, c: Option<GraphChange>, m: int, n: int, j: int)
        requires
            self.built(gi, c),
            0 <= m <= gi.state_range,
            0 <= n <= gi.state_range,
            0 <= j <= 2 * gi.move_limit,
        ensures
            0 <= self.state.spec_index((m, n)).transition@[j].to.0 <= gi.state_range,
            0 <= self.state.spec_index((m, n)).transition@[j].to.1 <= gi.state_range,
    {
        let s = self.state.spec_index((m, n));
        assert(s.built(gi, c, m, n));
        assert(s.transition@[j].is_move(&s.desc, move_at(j, gi.move_limit as int), gi));
    }

    /// From the state without any inventory, moving nothing leads to the
    /// expected returns of each location, rounded and kept within the
    /// inventory bound.
    pub proof fn lemma_origin_self_move(&self, gi: &GraphInfo, c: Option<GraphChange>)
        requires
            self.built(gi, c),
            0 <= gi.state_range,
            0 <= gi.move_limit,
        ensures
            self.state.spec_index((0, 0)).transition@[0].action == 0,
            self.state.spec_index((0, 0)).transition@[0].to.0 == clamped(
                nearest(gi.back().0),
                0,
                gi.state_range as int,
            ),
            self.state.spec_index((0, 0)).transition@[0].to.1 == clamped(
                nearest(gi.back().1),
                0,
                gi.state_range as int,
            ),
    {
        let s = self.state.spec_index((0, 0));
        assert(s.built(gi, c, 0, 0));
        assert(s.transition@[0].is_move(&s.desc, move_at(0, gi.move_limit as int), gi));
        assert(truncated_expectation(gi.dist_rent_0@, 0) == 0) by {
            assert(crate::distribution::partial_mean(gi.dist_rent_0@, -1) == 0);
        }
        assert(truncated_expectation(gi.dist_rent_1@, 0) == 0) by {
            assert(crate::distribution::partial_mean(gi.dist_rent_1@, -1) == 0);
        }
    }

    /// An empty model with room for the states and actions of `gi`.
    pub fn new(gi: &GraphInfo) -> (g: Self)
        requires
            0 <= gi.state_range,
            0 <= gi.move_limit,
            (gi.state_range + 1) * (gi.state_range + 1) <= usize::MAX,
        ensures
            g.state.wf(),
            g.action.wf(),
            g.state.range0 == (0i32, gi.state_range),
            g.state.range1 == (0i32, gi.state_range),
            g.action.range == ((-gi.move_limit) as i32, gi.move_limit),
            g.state@.len() == 0,
            g.action@.len() == 0,
    {
        let s: i32 = gi.state_range;
        let a: i32 = gi.move_limit;
        Graph { state: NdVec2::new((0, s), (0, s)), action: NdVec1::new((-a, a)) }
    }

    /// Appends the state with the identity `desc` and the reward `reward`.
    pub fn add_state(&mut self, desc: StateDesc, reward: i64)
        requires
            old(self).state.wf(),
            !old(self).state.is_full(),
        ensures
            final(self).action == old(self).action,
            final(self).state.wf(),
            final(self).state.range0 == old(self).state.range0,
            final(self).state.range1 == old(self).state.range1,
            final(self).state@.len() == old(self).state@.len() + 1,
            final(self).state@.drop_last() == old(self).state@,
            final(self).state@.last().desc == desc,
            final(self).state@.last().reward == reward,
            final(self).state@.last().transition@.len() == 0,
            final(self).state@.last().action@ == Map::<i32, Vec<usize>>::empty(),
    {
        let state = State::new(desc, reward);
        self.state.push(state);
        assert(self.state@.drop_last() =~= old(self).state@);
    }

    /// Appends the action with the identity `desc` and the reward `reward`.
    pub fn add_action(&mut self, desc: ActionDesc, reward: i64)
        requires
            old(self).action.wf(),
            !old(self).action.is_full(),
        ensures
            final(self).state == old(self).state,
            final(self).action.wf(),
            final(self).action.range == old(self).action.range,
            final(self).action@ == old(self).action@.push((Action { desc, reward })),
    {
        let action = Action::new(desc, reward);
        self.action.push(action);
    }

    /// The label of the state with the counts `m` and `n`.
    pub fn state_name(m: i32, n: i32) -> (s: String)
        ensures
            s@ == state_label(m as int, n as int),
    {
        let mut s = String::new();
        push_plain(&mut s, m);
        proof {
            reveal_strlit("_");
        }
        s.append("_");
        push_plain(&mut s, n);
        assert(s@ =~= state_label(m as int, n as int));
        s
    }

    /// The label of the move `v`.
    pub fn action_name(v: i32) -> (s: String)
        ensures
            s@ == signed(v as int),
    {
        let mut s = String::new();
        push_signed(&mut s, v);
        assert(s@ =~= signed(v as int));
        s
    }

    /// The expectation of the smaller of `v` and a variable distributed as
    /// `dist`.
    pub fn expected_count(v: i32, dist: &Distribution) -> (r: i64)
        requires
            dist.wf(),
            0 <= v,
        ensures
            r == truncated_expectation(dist@, v as int),
            0 <= r <= v * ONE,
    {
        dist.expected_count(v)
    }

    /// The count that a location holds next, from the count expected after
    /// rentals, the number moved in and the returns expected.
    pub fn settle(left: i64, moved: i32, back: i64, range: i32) -> (r: i32)
        requires
            0 <= range,
        ensures
            r == clamped(nearest(left + moved * ONE + back), 0, range as int),
    {
        let x: i128 = left as i128 + moved as i128 * (ONE as i128) + back as i128;
        let q: i128 = round(x);
        if q < 0 {
            0
        } else if q > range as i128 {
            range
        } else {
            q as i32
        }
    }

    /// Groups the positions of the transitions of `s` by their action.
    pub fn parse_action(s: &mut State)
        ensures
            final(s).desc == old(s).desc,
            final(s).reward == old(s).reward,
            final(s).transition == old(s).transition,
            grouped(final(s).transition@, final(s).action@),
    {
        let mut map: BTreeMap<i32, Vec<usize>> = BTreeMap::new();
        let n: usize = s.transition.len();
        let mut i: usize = 0;
        while i < n
            invariant
                *s == *old(s),
                n == s.transition@.len(),
                i <= n,
                grouped(s.transition@.take(i as int), map@),
            decreases n - i,
        {
            let a: i32 = s.transition[i].action;
            let ghost before = map@;
            let ghost prefix = s.transition@.take(i as int);
            let ghost next = s.transition@.take(i + 1);
            let mut list: Vec<usize> = match map.remove(&a) {
                Some(v) => v,
                None => Vec::new(),
            };
            list.push(i);
            map.insert(a, list);
            proof {
                assert(next.drop_last() =~= prefix);
                assert(next.last() == s.transition@[i as int]);
                assert forall|b: i32|
                    {
                        &&& #[trigger] map@.contains_key(b) <==> positions(next, b as int).len() > 0
                        &&& map@.contains_key(b) ==> map@[b]@ == positions(next, b as int)
                    } by {
                    assert(before.contains_key(b) <==> positions(prefix, b as int).len() > 0);
                    if b == a {
                        if !before.contains_key(a) {
                            assert(positions(prefix, a as int) =~= Seq::<usize>::empty());
                        }
                    }
                }
            }
            i = i + 1;
        }
        assert(s.transition@.take(n as int) =~= s.transition@);
        s.action = map;
    }

    /// Fills an empty model with the states, the actions and the transitions
    /// that the configuration `gi` and the change `c` describe.
    pub fn setup(&mut self, gi: &GraphInfo, c: Option<GraphChange>)
        requires
            gi.wf(),
            change_wf(c),
            old(self).state.wf(),
            old(self).action.wf(),
            old(self).state.range0 == (0i32, gi.state_range),
            old(self).state.range1 == (0i32, gi.state_range),
            old(self).action.range == ((-gi.move_limit) as i32, gi.move_limit),
            old(self).state@.len() == 0,
            old(self).action@.len() == 0,
        ensures
            final(self).built(gi, c),
            final(self).wf(),
            final(self).state@.len() == (gi.state_range + 1) * (gi.state_range + 1),
            final(self).action@.len() == 2 * gi.move_limit + 1,
    {
        let sr: i32 = gi.state_range;
        let lim: i32 = gi.move_limit;
        let ghost r = (0i32, sr);
        let ghost w = sr + 1;
        let mut m: i32 = 0;
        while m <= sr
            invariant
                gi.wf(),
                change_wf(c),
                sr == gi.state_range,
                r == (0i32, sr),
                w == sr + 1,
                0 <= m <= sr + 1,
                self.action == old(self).action,
                self.state.wf(),
                self.state.range0 == r,
                self.state.range1 == r,
                self.state@.len() == m * w,
                forall|i: int|
                    0 <= i < self.state@.len() ==> {
                        &&& (#[trigger] self.state@[i]).described(gi, c, i / w, i % w)
                        &&& self.state@[i].transition@.len() == 0
                    },
            decreases sr + 1 - m,
        {
            let mut n: i32 = 0;
            while n <= sr
                invariant
                    gi.wf(),
                    change_wf(c),
                    sr == gi.state_range,
                    r == (0i32, sr),
                    w == sr + 1,
                    0 <= m <= sr,
                    0 <= n <= sr + 1,
                    self.action == old(self).action,
                    self.state.wf(),
                    self.state.range0 == r,
                    self.state.range1 == r,
                    self.state@.len() == m * w + n,
                    forall|i: int|
                        0 <= i < self.state@.len() ==> {
                            &&& (#[trigger] self.state@[i]).described(gi, c, i / w, i % w)
                            &&& self.state@[i].transition@.len() == 0
                        },
                decreases sr + 1 - n,
            {
                let ghost before = self.state@;
                proof {
                    lemma_flat_bounds(r, r, m as int, n as int);
                }
                let rent0: i64 = Graph::expected_count(m, &gi.dist_rent_0);
                let rent1: i64 = Graph::expected_count(n, &gi.dist_rent_1);
                let desc = StateDesc::new(Graph::state_name(m, n), (m, n), (rent0, rent1));
                let state_reward: i64 = Graph::reward_of_state((rent0, rent1), gi, c, m, n);
                self.add_state(desc, state_reward);
                assert forall|i: int| 0 <= i < self.state@.len() implies {
                    &&& (#[trigger] self.state@[i]).described(gi, c, i / w, i % w)
                    &&& self.state@[i].transition@.len() == 0
                } by {
                    if i < before.len() {
                        assert(self.state@[i] == self.state@.drop_last()[i]);
                    }
                }
                n = n + 1;
            }
            assert(m * w + w == (m + 1) * w) by (nonlinear_arith);
            m = m + 1;
        }
        let ghost states = self.state@;
        let mut k: i32 = -lim;
        while k <= lim
            invariant
                lim == gi.move_limit,
                0 <= lim <= MAX_MOVE,
                -lim <= k <= lim + 1,
                self.state.wf(),
                self.state.range0 == r,
                self.state.range1 == r,
                self.state@ == states,
                self.action.wf(),
                self.action.range == ((-lim) as i32, lim),
                self.action@.len() == k + lim,
                forall|j: int| 0 <= j < self.action@.len() ==> (#[trigger] self.action@[j]).made(c, j - lim),
            decreases lim + 1 - k,
        {
            let desc = ActionDesc::new(Graph::action_name(k), k);
            let action_reward: i64 = Graph::reward_of_action(c, k);
            self.add_action(desc, action_reward);
            k = k + 1;
        }
        let ghost actions = self.action@;
        let total: usize = self.state.len();
        let mut i: usize = 0;
        while i < total
            invariant
                gi.wf(),
                sr == gi.state_range,
                w == sr + 1,
                total == w * w,
                i <= total,
                self.state.wf(),
                self.state.range0 == r,
                self.state.range1 == r,
                self.state@.len() == total,
                self.action.wf(),
                self.action.range == ((-lim) as i32, lim),
                self.action@ == actions,
                forall|j: int| 0 <= j < total ==> (#[trigger] self.state@[j]).described(gi, c, j / w, j % w),
                forall|j: int| 0 <= j < i ==> (#[trigger] self.state@[j]).linked(gi),
                forall|j: int| i <= j < total ==> (#[trigger] self.state@[j]).transition@.len() == 0,
            decreases total - i,
        {
            proof {
                lemma_flat_inverse(r, r, i as int);
                assert(self.state@[i as int].described(gi, c, i as int / w, i as int % w));
                lemma_expectation_bounds(gi.dist_rent_0@, i as int / w);
                lemma_expectation_bounds(gi.dist_rent_1@, i as int % w);
            }
            let s = self.state.at_mut(i);
            Graph::add_transitions(s, gi);
            i = i + 1;
        }
        proof {
            assert forall|m: int, n: int| 0 <= m <= sr && 0 <= n <= sr implies (
            #[trigger] self.state.spec_index((m, n))).built(gi, c, m, n) by {
                lemma_flat_bounds(r, r, m, n);
                let j = flat(r, r, m, n);
                assert(self.state@[j].described(gi, c, j / w, j % w));
                assert(self.state@[j].linked(gi));
            }
            assert forall|k: int| -lim <= k <= lim implies (#[trigger] self.action.spec_index(k)).made(
                c,
                k,
            ) by {
                assert(self.action@[k + lim].made(c, k + lim - lim));
            }
            self.lemma_built_wf(gi, c);
        }
    }

    /// The reward of the state with the counts `m` and `n` and the expected
    /// rentals `rent`.
    pub fn reward_of_state(rent: (i64, i64), gi: &GraphInfo, c: Option<GraphChange>, m: i32, n: i32) -> (r: i64)
        requires
            -MAX_RENT_REWARD <= gi.rent_reward <= MAX_RENT_REWARD,
            change_wf(c),
            0 <= m <= MAX_RANGE,
            0 <= n <= MAX_RANGE,
            0 <= rent.0 <= m * ONE,
            0 <= rent.1 <= n * ONE,
        ensures
            r == state_reward(rent, gi.rent_reward, c, m as int, n as int),
            -STATE_REWARD_BOUND <= r <= STATE_REWARD_BOUND,
    {
        let both: i64 = rent.0 + rent.1;
        proof {
            lemma_product_bound(both as int, gi.rent_reward as int, 2_000_000_000_000, 1_000_000_000_000);
            assert(2_000_000_000_000int * 1_000_000_000_000int == 2_000_000_000_000_000int * ONE)
                by (nonlinear_arith);
            lemma_scaled_bound(both as int, gi.rent_reward as int, 2_000_000_000_000_000);
        }
        let earned: i64 = scale(both, gi.rent_reward as i128) as i64;
        let penalty: i64 = match c {
            Some(v) => (if m > v.parking_limit {
                v.parking_cost
            } else {
                0
            }) + (if n > v.parking_limit {
                v.parking_cost
            } else {
                0
            }),
            None => 0,
        };
        earned - penalty
    }

    /// The reward of the move `k`.
    pub fn reward_of_action(c: Option<GraphChange>, k: i32) -> (r: i64)
        requires
            -MAX_MOVE <= k <= MAX_MOVE,
        ensures
            r == action_reward(c, k as int),
            -ACTION_REWARD_BOUND <= r <= 0,
    {
        let size: i64 = if k < 0 {
            -(k as i64)
        } else {
            k as i64
        };
        let credit: i64 = match c {
            Some(v) => if k > 0 && v.free_shuttle {
                1
            } else {
                0
            },
            None => 0,
        };
        -2 * (size - credit) * ONE
    }

    /// Gives `s` one transition for each move, no move first, then the moves
    /// outward, then the moves inward, and groups them by action.
    pub fn add_transitions(s: &mut State, gi: &GraphInfo)
        requires
            old(s).desc.wf(),
            old(s).transition@.len() == 0,
            gi.dist_return_0.wf(),
            gi.dist_return_1.wf(),
            0 <= gi.state_range,
            0 <= gi.move_limit <= MAX_MOVE,
        ensures
            final(s).desc == old(s).desc,
            final(s).reward == old(s).reward,
            final(s).linked(gi),
    {
        let m: i32 = gi.move_limit;
        Graph::add_transition_for_move(s, 0, gi);
        let mut k: i32 = 1;
        while k <= m
            invariant
                m == gi.move_limit,
                0 <= m <= MAX_MOVE,
                1 <= k <= m + 1,
                s.desc == old(s).desc,
                s.reward == old(s).reward,
                s.desc.wf(),
                gi.dist_return_0.wf(),
                gi.dist_return_1.wf(),
                0 <= gi.state_range,
                s.transition@.len() == k,
                forall|i: int|
                    0 <= i < s.transition@.len() ==> (#[trigger] s.transition@[i]).is_move(
                        &s.desc,
                        move_at(i, m as int),
                        gi,
                    ),
            decreases m + 1 - k,
        {
            let ghost before = s.transition@;
            Graph::add_transition_for_move(s, k, gi);
            assert forall|i: int| 0 <= i < s.transition@.len() implies (#[trigger] s.transition@[i]).is_move(
                &s.desc,
                move_at(i, m as int),
                gi,
            ) by {
                if i < before.len() {
                    assert(s.transition@[i] == s.transition@.drop_last()[i]);
                }
            }
            k = k + 1;
        }
        let mut k: i32 = 1;
        while k <= m
            invariant
                m == gi.move_limit,
                0 <= m <= MAX_MOVE,
                1 <= k <= m + 1,
                s.desc == old(s).desc,
                s.reward == old(s).reward,
                s.desc.wf(),
                gi.dist_return_0.wf(),
                gi.dist_return_1.wf(),
                0 <= gi.state_range,
                s.transition@.len() == m + k,
                forall|i: int|
                    0 <= i < s.transition@.len() ==> (#[trigger] s.transition@[i]).is_move(
                        &s.desc,
                        move_at(i, m as int),
                        gi,
                    ),
            decreases m + 1 - k,
        {
            let ghost before = s.transition@;
            Graph::add_transition_for_move(s, -k, gi);
            assert forall|i: int| 0 <= i < s.transition@.len() implies (#[trigger] s.transition@[i]).is_move(
                &s.desc,
                move_at(i, m as int),
                gi,
            ) by {
                if i < before.len() {
                    assert(s.transition@[i] == s.transition@.drop_last()[i]);
                }
            }
            k = k + 1;
        }
        Graph::parse_action(s);
    }

    /// Appends to `s` its transition for the move `k`.
    pub fn add_transition_for_move(s: &mut State, k: i32, gi: &GraphInfo)
        requires
            old(s).desc.wf(),
            gi.dist_return_0.wf(),
            gi.dist_return_1.wf(),
            0 <= gi.state_range,
            -i32::MAX <= k,
        ensures
            final(s).desc == old(s).desc,
            final(s).reward == old(s).reward,
            final(s).action == old(s).action,
            final(s).transition@.len() == old(s).transition@.len() + 1,
            final(s).transition@.drop_last() == old(s).transition@,
            final(s).transition@.last().is_move(&old(s).desc, k as int, gi),
    {
        let (c0, c1) = s.expected_count();
        let sr: i32 = gi.state_range;
        let return0: i64 = Graph::expected_count(sr, &gi.dist_return_0);
        let return1: i64 = Graph::expected_count(sr, &gi.dist_return_1);
        let to: (i32, i32) = (Graph::settle(c0, -k, return0, sr), Graph::settle(c1, k, return1, sr));
        let from: (i32, i32) = s.count();
        s.transition.push(Transition { action: k, from, to, prob: ONE });
        assert(s.transition@.drop_last() =~= old(s).transition@);
    }
}

} // verus!
