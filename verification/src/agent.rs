//! Policy iteration: evaluation of the policy by repeated sweeps over the
//! states, and improvement of the policy by one step of lookahead.

use vstd::prelude::*;
use crate::fixed::{ONE, scaled, distance, scale, abs_diff, lemma_product_bound, lemma_scaled_bound, lemma_scaled_one};
use crate::graph::{Graph, State, Transition, positions, lemma_positions_sound, VALUE_BOUND};
use crate::nd_vec::{lemma_flat_bounds, lemma_flat_inverse};
use crate::policy::{Policy, Values};

verus! {

/// How the agent evaluates: the discount, the change of value below which a
/// sweep counts as converged, and the largest number of sweeps.
#[derive(Clone, Copy, Debug)]
pub struct AgentInfo {
    pub discount: i64,
    pub theta: i64,
    pub max_iter: i32,
}

impl AgentInfo {
    /// The discount lies strictly between zero and one, the threshold is
    /// positive and at least one sweep is allowed.
    pub open spec fn wf(&self) -> bool {
        &&& 0 < self.discount < ONE
        &&& 0 < self.theta
        &&& 1 <= self.max_iter
    }
}

impl Transition {
    /// What the transition brings in: the reward of the state it leaves, the
    /// reward of its action, and the discounted value of the state it
    /// arrives at.
    pub open spec fn spec_reward(&self, g: &Graph, values: Seq<int>, discount: int) -> int {
        g.state.spec_index((self.from.0 as int, self.from.1 as int)).reward + g.action.spec_index(
            self.action as int,
        ).reward + scaled(discount, values[g.state.offset((self.to.0 as int, self.to.1 as int))])
    }

    /// What the transition brings in, weighted by its probability.
    pub open spec fn weighted(&self, g: &Graph, values: Seq<int>, discount: int) -> int {
        scaled(self.prob as int, self.spec_reward(g, values, discount))
    }

    /// What the transition brings in under the estimates `v`.
    pub fn reward(&self, g: &Graph, v: &Values, discount: i64) -> (r: i128)
        requires
            g.wf(),
            v.wf(g.range()),
            0 <= self.from.0 <= g.range(),
            0 <= self.from.1 <= g.range(),
            0 <= self.to.0 <= g.range(),
            0 <= self.to.1 <= g.range(),
            -g.limit() <= self.action <= g.limit(),
            0 <= discount < ONE,
        ensures
            r == self.spec_reward(g, v@, discount as int),
            -VALUE_BOUND <= r <= VALUE_BOUND,
    {
        proof {
            lemma_flat_bounds(g.state.range0, g.state.range1, self.from.0 as int, self.from.1 as int);
            lemma_flat_bounds(g.state.range0, g.state.range1, self.to.0 as int, self.to.1 as int);
            let i = g.state.offset((self.from.0 as int, self.from.1 as int));
            assert(g.state_ok(i));
        }
        let here: i64 = g.state.get(self.from).reward;
        let cost: i64 = g.action.get(self.action).reward;
        let there: i128 = v.value_of(self.to);
        proof {
            let j = self.action - g.action.range.0;
            assert(g.action@[j].reward == cost);
            let x = v@[g.state.offset((self.to.0 as int, self.to.1 as int))];
            assert(-VALUE_BOUND <= x <= VALUE_BOUND);
            lemma_product_bound(discount as int, x, 999_999_999, VALUE_BOUND as int);
            let m: int = 2_003_999_997_996_000_000_000_000;
            assert(999_999_999 * VALUE_BOUND == m * ONE);
            lemma_scaled_bound(discount as int, x, m);
        }
        here as i128 + cost as i128 + scale(discount, there)
    }
}

/// The sum of what the transitions of the action `a` among `ts` bring in,
/// each weighted by its probability.
pub open spec fn action_return(ts: Seq<Transition>, a: int, g: &Graph, values: Seq<int>, discount: int) -> int
    decreases ts.len(),
{
    if ts.len() == 0 {
        0
    } else {
        action_return(ts.drop_last(), a, g, values, discount) + if ts.last().action == a {
            ts.last().weighted(g, values, discount)
        } else {
            0
        }
    }
}

/// The sum of what the transitions at the positions `list` bring in, each
/// weighted by its probability.
pub open spec fn listed_return(ts: Seq<Transition>, list: Seq<usize>, g: &Graph, values: Seq<int>, discount: int) -> int
    decreases list.len(),
{
    if list.len() == 0 {
        0
    } else {
        listed_return(ts, list.drop_last(), g, values, discount) + ts[list.last() as int].weighted(
            g,
            values,
            discount,
        )
    }
}

/// A sum over listed positions does not depend on transitions beyond them.
pub proof fn lemma_listed_prefix(ts: Seq<Transition>, list: Seq<usize>, g: &Graph, values: Seq<int>, discount: int)
    requires
        ts.len() > 0,
        forall|j: int| 0 <= j < list.len() ==> list[j] < ts.len() - 1,
    ensures
        listed_return(ts, list, g, values, discount) == listed_return(ts.drop_last(), list, g, values, discount),
    decreases list.len(),
{
    if list.len() > 0 {
        lemma_listed_prefix(ts, list.drop_last(), g, values, discount);
    }
}

/// Summing over the positions of an action's transitions gives the return
/// of the action.
pub proof fn lemma_listed_is_action_return(ts: Seq<Transition>, a: int, g: &Graph, values: Seq<int>, discount: int)
    requires
        ts.len() <= usize::MAX,
    ensures
        listed_return(ts, positions(ts, a), g, values, discount) == action_return(ts, a, g, values, discount),
    decreases ts.len(),
{
    if ts.len() > 0 {
        let rest = ts.drop_last();
        let list = positions(rest, a);
        lemma_listed_is_action_return(rest, a, g, values, discount);
        assert forall|j: int| 0 <= j < list.len() implies list[j] < ts.len() - 1 by {
            lemma_positions_sound(rest, a, j);
        }
        lemma_listed_prefix(ts, list, g, values, discount);
        if ts.last().action == a {
            assert(positions(ts, a).drop_last() =~= list);
        }
    }
}

impl State {
    /// The value of taking the action `a` in this state and following the
    /// estimates `values` afterwards.
    pub open spec fn spec_lookahead(&self, a: int, g: &Graph, values: Seq<int>, discount: int) -> int {
        action_return(self.transition@, a, g, values, discount)
    }
}

impl Graph {
    /// The state at position `i` stands at its own counts.
    pub proof fn lemma_state_position(&self, i: int)
        requires
            self.wf(),
            0 <= i < self.state@.len(),
        ensures
            0 <= self.state@[i].desc.count.0 <= self.range(),
            0 <= self.state@[i].desc.count.1 <= self.range(),
            self.state.offset((self.state@[i].desc.count.0 as int, self.state@[i].desc.count.1 as int)) == i,
            self.state.spec_index((self.state@[i].desc.count.0 as int, self.state@[i].desc.count.1 as int))
                == self.state@[i],
    {
        assert(self.state_ok(i));
        lemma_flat_inverse(self.state.range0, self.state.range1, i);
    }

    /// In a well-formed model the value of an action in a state is what its
    /// one transition brings in.
    pub proof fn lemma_lookahead_single(&self, i: int, a: int, values: Seq<int>, discount: int)
        requires
            self.wf(),
            0 <= i < self.state@.len(),
            -self.limit() <= a <= self.limit(),
        ensures
            positions(self.state@[i].transition@, a).len() == 1,
            positions(self.state@[i].transition@, a)[0] < self.state@[i].transition@.len(),
            self.transition_ok(
                self.state@[i].transition@[positions(self.state@[i].transition@, a)[0] as int],
                self.state@[i].desc.count,
            ),
            self.state@[i].transition@[positions(self.state@[i].transition@, a)[0] as int].action == a,
            self.state@[i].spec_lookahead(a, self, values, discount)
                == self.state@[i].transition@[positions(self.state@[i].transition@, a)[0] as int].spec_reward(
                self,
                values,
                discount,
            ),
    {
        let s = self.state@[i];
        let ts = s.transition@;
        let list = positions(ts, a);
        assert(self.state_ok(i));
        assert(list.len() == 1);
        lemma_positions_sound(ts, a, 0);
        lemma_listed_is_action_return(ts, a, self, values, discount);
        let t = ts[list[0] as int];
        assert(self.transition_ok(t, s.desc.count));
        assert(list.drop_last().len() == 0);
        assert(listed_return(ts, list, self, values, discount) == listed_return(
            ts,
            list.drop_last(),
            self,
            values,
            discount,
        ) + t.weighted(self, values, discount));
        lemma_scaled_one(t.spec_reward(self, values, discount));
    }

    /// The value of taking the action `a` in the state at position `i` and
    /// following the estimates `v` afterwards.
    pub fn lookahead(&self, i: usize, a: i32, v: &Values, discount: i64) -> (r: i128)
        requires
            self.wf(),
            v.wf(self.range()),
            i < self.state@.len(),
            -self.limit() <= a <= self.limit(),
            0 <= discount < ONE,
        ensures
            r == self.state@[i as int].spec_lookahead(a as int, self, v@, discount as int),
            -VALUE_BOUND <= r <= VALUE_BOUND,
    {
        let s: &State = self.state.at(i);
        proof {
            self.lemma_lookahead_single(i as int, a as int, v@, discount as int);
            self.lemma_state_position(i as int);
            assert(self.state_ok(i as int));
            assert(s.action@.contains_key(a));
        }
        let mut sum: i128 = 0;
        match s.action.get(&a) {
            Some(list) => {
                let n: usize = list.len();
                let mut j: usize = 0;
                while j < n
                    invariant
                        self.wf(),
                        v.wf(self.range()),
                        i < self.state@.len(),
                        *s == self.state@[i as int],
                        0 <= discount < ONE,
                        list@ == positions(s.transition@, a as int),
                        n == list@.len(),
                        n == 1,
                        j <= n,
                        sum == listed_return(s.transition@, list@.take(j as int), self, v@, discount as int),
                        j == 0 ==> sum == 0,
                        -VALUE_BOUND <= sum <= VALUE_BOUND,
                    decreases n - j,
                {
                    proof {
                        self.lemma_state_position(i as int);
                        assert(self.state_ok(i as int));
                        lemma_positions_sound(s.transition@, a as int, j as int);
                    }
                    let t: Transition = s.transition[list[j]];
                    let x: i128 = t.reward(self, v, discount);
                    proof {
                        lemma_scaled_one(x as int);
                        assert(t.prob * x == 1_000_000_000 * x) by (nonlinear_arith)
                            requires
                                t.prob == 1_000_000_000,
                        ;
                        assert(list@.take(j + 1).drop_last() =~= list@.take(j as int));
                    }
                    sum = sum + scale(t.prob, x);
                    j = j + 1;
                }
                proof {
                    assert(list@.take(n as int) =~= list@);
                    lemma_listed_is_action_return(s.transition@, a as int, self, v@, discount as int);
                    lemma_positions_sound(s.transition@, a as int, 0);
                    assert(list@.take(1).drop_last() =~= list@.take(0));
                }
            },
            None => {},
        }
        sum
    }
}

/// The new value of the state at position `i`: the value of the action that
/// the policy chooses there.
pub open spec fn backup(g: &Graph, policy: Seq<i32>, values: Seq<int>, discount: int, i: int) -> int {
    g.state@[i].spec_lookahead(policy[i] as int, g, values, discount)
}

/// The values after the first `k` states of a sweep have been given their new
/// value, one after the other and each in the place of its old value, so that
/// a later state sees the new values of the states before it.
pub open spec fn swept(g: &Graph, policy: Seq<i32>, values: Seq<int>, discount: int, k: int) -> Seq<int>
    decreases k,
{
    if k <= 0 {
        values
    } else {
        let prev = swept(g, policy, values, discount, k - 1);
        prev.update(k - 1, backup(g, policy, prev, discount, k - 1))
    }
}

/// The values after one sweep over all the states in the order of storage.
pub open spec fn sweep(g: &Graph, policy: Seq<i32>, values: Seq<int>, discount: int) -> Seq<int> {
    swept(g, policy, values, discount, values.len() as int)
}

/// The largest distance between the old and the new value among the first
/// `k` states.
pub open spec fn largest_change(before: Seq<int>, after: Seq<int>, k: int) -> int
    decreases k,
{
    if k <= 0 {
        0
    } else {
        let rest = largest_change(before, after, k - 1);
        let d = distance(after[k - 1], before[k - 1]);
        if d > rest {
            d
        } else {
            rest
        }
    }
}

/// The largest distance between the old and the new value of a state.
pub open spec fn delta(before: Seq<int>, after: Seq<int>) -> int {
    largest_change(before, after, before.len() as int)
}

/// The values after evaluation: sweeps are repeated until one changes no
/// value by more than `theta`, or until `max_iter` sweeps are done, of which
/// `done` have been made before.
pub open spec fn evaluated(
    g: &Graph,
    policy: Seq<i32>,
    values: Seq<int>,
    discount: int,
    theta: int,
    max_iter: int,
    done: int,
) -> Seq<int>
    decreases max_iter - done,
{
    let next = sweep(g, policy, values, discount);
    if delta(values, next) <= theta || done + 1 >= max_iter {
        next
    } else {
        evaluated(g, policy, next, discount, theta, max_iter, done + 1)
    }
}

/// A sweep in progress keeps the number of values and has not yet touched
/// the states from position `k` on.
pub proof fn lemma_swept_shape(g: &Graph, policy: Seq<i32>, values: Seq<int>, discount: int, k: int)
    requires
        k <= values.len(),
    ensures
        swept(g, policy, values, discount, k).len() == values.len(),
        forall|j: int| k <= j < values.len() && 0 <= j ==> swept(g, policy, values, discount, k)[j] == values[j],
    decreases k,
{
    if k > 0 {
        lemma_swept_shape(g, policy, values, discount, k - 1);
    }
}

/// Once a sweep has passed a state, the state keeps its new value until the
/// sweep ends.
pub proof fn lemma_swept_stable(g: &Graph, policy: Seq<i32>, values: Seq<int>, discount: int, k: int, n: int)
    requires
        0 <= k <= n <= values.len(),
    ensures
        forall|j: int| 0 <= j < k ==> swept(g, policy, values, discount, n)[j] == swept(g, policy, values, discount, k)[j],
    decreases n - k,
{
    if k < n {
        lemma_swept_stable(g, policy, values, discount, k, n - 1);
        lemma_swept_shape(g, policy, values, discount, n - 1);
    }
}

/// The largest change among the first `k` states depends on their values
/// alone.
pub proof fn lemma_largest_change_agree(before: Seq<int>, a: Seq<int>, b: Seq<int>, k: int)
    requires
        forall|j: int| 0 <= j < k ==> a[j] == b[j],
    ensures
        largest_change(before, a, k) == largest_change(before, b, k),
    decreases k,
{
    if k > 0 {
        lemma_largest_change_agree(before, a, b, k - 1);
    }
}

/// The largest change is not negative, and no state among the first `k`
/// changes by more.
pub proof fn lemma_largest_change_bounds(before: Seq<int>, after: Seq<int>, k: int)
    ensures
        0 <= largest_change(before, after, k),
        forall|j: int| 0 <= j < k ==> distance(after[j], before[j]) <= largest_change(before, after, k),
    decreases k,
{
    if k > 0 {
        lemma_largest_change_bounds(before, after, k - 1);
    }
}

/// Evaluates the policy `p`: sweeps over the states in the order of storage,
/// giving each the value of the action that the policy chooses there, until a
/// sweep changes no value by more than the threshold or the allowed number of
/// sweeps is done.
pub fn evaluate_policy(g: &Graph, v: &mut Values, p: &Policy, info: &AgentInfo)
    requires
        g.wf(),
        old(v).wf(g.range()),
        p.wf(g.range(), g.limit()),
        info.wf(),
    ensures
        final(v).wf(g.range()),
        final(v)@ == evaluated(
            g,
            p@,
            old(v)@,
            info.discount as int,
            info.theta as int,
            info.max_iter as int,
            0,
        ),
{
    let ghost first = v@;
    let ghost d = info.discount as int;
    let n: usize = g.state.len();
    let mut i: i32 = 0;
    loop
        invariant_except_break
            0 <= i < info.max_iter,
            evaluated(g, p@, first, d, info.theta as int, info.max_iter as int, 0) == evaluated(
                g,
                p@,
                v@,
                d,
                info.theta as int,
                info.max_iter as int,
                i as int,
            ),
        invariant
            g.wf(),
            v.wf(g.range()),
            p.wf(g.range(), g.limit()),
            info.wf(),
            d == info.discount,
            n == g.state@.len(),
        ensures
            v@ == evaluated(g, p@, first, d, info.theta as int, info.max_iter as int, 0),
        decreases info.max_iter - i,
    {
        let ghost start = v@;
        let mut delta: i128 = 0;
        let mut k: usize = 0;
        while k < n
            invariant
                g.wf(),
                v.wf(g.range()),
                p.wf(g.range(), g.limit()),
                info.wf(),
                d == info.discount,
                n == g.state@.len(),
                start.len() == n,
                k <= n,
                v@ == swept(g, p@, start, d, k as int),
                delta == largest_change(start, v@, k as int),
                0 <= delta <= 2 * VALUE_BOUND,
            decreases n - k,
        {
            let ghost prev = v@;
            proof {
                g.lemma_state_position(k as int);
                lemma_swept_shape(g, p@, start, d, k as int);
            }
            let s: &State = g.state.at(k);
            let v_old: i128 = *v.state_v.at(k);
            assert(prev[k as int] == v_old && -VALUE_BOUND <= prev[k as int] <= VALUE_BOUND);
            let a: i32 = p.action_for(s.count());
            let v_new: i128 = g.lookahead(k, a, v, info.discount);
            v.state_v.set_at(k, v_new);
            let change: i128 = abs_diff(v_new, v_old);
            if change > delta {
                delta = change;
            }
            proof {
                assert(v@ =~= prev.update(k as int, v_new as int));
                lemma_largest_change_agree(start, v@, prev, k as int);
            }
            k = k + 1;
        }
        i = i + 1;
        if delta <= info.theta as i128 || i >= info.max_iter {
            break ;
        }
    }
}

/// The size of a move, whatever its direction.
pub open spec fn magnitude(a: int) -> int {
    if a < 0 {
        -a
    } else {
        a
    }
}

/// The order in which actions of equal value are preferred: the smaller move
/// first, and of two moves of one size the inward one.
pub open spec fn precedes(a: int, b: int) -> bool {
    magnitude(a) < magnitude(b) || (magnitude(a) == magnitude(b) && a <= b)
}

/// In the state at position `i` the action `a` is chosen over the action
/// `b`: its value is higher, or the same and `a` is preferred.
pub open spec fn prevails(g: &Graph, values: Seq<int>, discount: int, i: int, a: int, b: int) -> bool {
    let x = g.state@[i].spec_lookahead(a, g, values, discount);
    let y = g.state@[i].spec_lookahead(b, g, values, discount);
    y < x || (y == x && precedes(a, b))
}

/// The action `a` is the one to choose in the state at position `i`: a move
/// of the model that is chosen over every move of the model.
pub open spec fn is_greedy(g: &Graph, values: Seq<int>, discount: int, i: int, a: int) -> bool {
    &&& -g.limit() <= a <= g.limit()
    &&& forall|b: int| -g.limit() <= b <= g.limit() ==> #[trigger] prevails(g, values, discount, i, a, b)
}

/// No state has two actions to choose.
pub proof fn lemma_greedy_unique(g: &Graph, values: Seq<int>, discount: int, i: int, a: int, b: int)
    requires
        is_greedy(g, values, discount, i, a),
        is_greedy(g, values, discount, i, b),
    ensures
        a == b,
{
    assert(prevails(g, values, discount, i, a, b));
    assert(prevails(g, values, discount, i, b, a));
}

/// The action to choose is worth at least as much as any move of the model.
pub proof fn lemma_greedy_is_best(g: &Graph, values: Seq<int>, discount: int, i: int, a: int, b: int)
    requires
        is_greedy(g, values, discount, i, a),
        -g.limit() <= b <= g.limit(),
    ensures
        g.state@[i].spec_lookahead(b, g, values, discount) <= g.state@[i].spec_lookahead(a, g, values, discount),
{
    assert(prevails(g, values, discount, i, a, b));
}

/// The policy that chooses in each state the action to choose under the
/// estimates `values`.
pub open spec fn improved(g: &Graph, values: Seq<int>, discount: int) -> Seq<i32> {
    Seq::new(g.state@.len(), |i: int| choose|a: i32| is_greedy(g, values, discount, i, a as int))
}

/// The values, the policy and whether the policy is stable after policy
/// iteration: evaluation and improvement take turns until an improvement
/// changes no action, for at most `rounds` turns.
pub open spec fn iterated(g: &Graph, values: Seq<int>, policy: Seq<i32>, info: AgentInfo, rounds: nat) -> (
    Seq<int>,
    Seq<i32>,
    bool,
)
    decreases rounds,
{
    if rounds == 0 {
        (values, policy, false)
    } else {
        let estimates = evaluated(
            g,
            policy,
            values,
            info.discount as int,
            info.theta as int,
            info.max_iter as int,
            0,
        );
        let chosen = improved(g, estimates, info.discount as int);
        if chosen == policy {
            (estimates, chosen, true)
        } else {
            iterated(g, estimates, chosen, info, (rounds - 1) as nat)
        }
    }
}

/// Once policy iteration has become stable within `n` turns, allowing it
/// more turns changes nothing of what it arrives at.
pub proof fn lemma_iterated_settles(g: &Graph, values: Seq<int>, policy: Seq<i32>, info: AgentInfo, n: nat, m: nat)
    requires
        iterated(g, values, policy, info, n).2,
        n <= m,
    ensures
        iterated(g, values, policy, info, m) == iterated(g, values, policy, info, n),
    decreases n,
{
    if n > 0 {
        let estimates = evaluated(
            g,
            policy,
            values,
            info.discount as int,
            info.theta as int,
            info.max_iter as int,
            0,
        );
        let chosen = improved(g, estimates, info.discount as int);
        if chosen != policy {
            lemma_iterated_settles(g, estimates, chosen, info, (n - 1) as nat, (m - 1) as nat);
        }
    }
}

/// Whether the action `a` is preferred to the action `b` where their values
/// are equal.
pub fn comes_first(a: i32, b: i32) -> (r: bool)
    requires
        -i32::MAX <= a,
        -i32::MAX <= b,
    ensures
        r == precedes(a as int, b as int),
{
    let ma: i32 = if a < 0 {
        -a
    } else {
        a
    };
    let mb: i32 = if b < 0 {
        -b
    } else {
        b
    };
    ma < mb || (ma == mb && a <= b)
}

impl Graph {
    /// The action to choose in the state at position `i` under the estimates
    /// `v`.
    pub fn best_action(&self, i: usize, v: &Values, discount: i64) -> (a: i32)
        requires
            self.wf(),
            v.wf(self.range()),
            i < self.state@.len(),
            0 <= discount < ONE,
        ensures
            is_greedy(self, v@, discount as int, i as int, a as int),
    {
        let lim: i32 = self.action.range.1;
        let mut best: i32 = -lim;
        let mut best_value: i128 = self.lookahead(i, best, v, discount);
        let mut a: i32 = -lim;
        while a < lim
            invariant
                self.wf(),
                v.wf(self.range()),
                i < self.state@.len(),
                0 <= discount < ONE,
                lim == self.limit(),
                -lim <= best <= a <= lim,
                best_value == self.state@[i as int].spec_lookahead(best as int, self, v@, discount as int),
                forall|b: int| -lim <= b <= a ==> #[trigger] prevails(self, v@, discount as int, i as int, best as int, b),
            decreases lim - a,
        {
            a = a + 1;
            let value: i128 = self.lookahead(i, a, v, discount);
            let ghost old_best = best;
            if value > best_value || (value == best_value && comes_first(a, best)) {
                best = a;
                best_value = value;
            }
            assert forall|b: int| -lim <= b <= a implies #[trigger] prevails(
                self,
                v@,
                discount as int,
                i as int,
                best as int,
                b,
            ) by {
                if b < a {
                    assert(prevails(self, v@, discount as int, i as int, old_best as int, b));
                }
            }
        }
        best
    }
}

/// Improves the policy `p`: each state is given the action of the highest
/// value under the estimates `v`, the preferred one among equals. Tells
/// whether no state changed its action.
pub fn improve_policy(p: &mut Policy, g: &Graph, v: &Values, info: &AgentInfo) -> (policy_stable: bool)
    requires
        g.wf(),
        v.wf(g.range()),
        old(p).wf(g.range(), g.limit()),
        info.wf(),
    ensures
        final(p).wf(g.range(), g.limit()),
        final(p)@.len() == old(p)@.len(),
        forall|i: int|
            0 <= i < g.state@.len() ==> is_greedy(g, v@, info.discount as int, i, #[trigger] final(p)@[i] as int),
        forall|i: int|
            0 <= i < g.state@.len() ==> g.state@[i].spec_lookahead(
                old(p)@[i] as int,
                g,
                v@,
                info.discount as int,
            ) <= g.state@[i].spec_lookahead(#[trigger] final(p)@[i] as int, g, v@, info.discount as int),
        final(p)@ == improved(g, v@, info.discount as int),
        policy_stable == (final(p)@ == old(p)@),
{
    let ghost first = p@;
    let ghost d = info.discount as int;
    let n: usize = g.state.len();
    let mut policy_stable: bool = true;
    let mut k: usize = 0;
    while k < n
        invariant
            g.wf(),
            v.wf(g.range()),
            p.wf(g.range(), g.limit()),
            0 < info.discount < ONE,
            d == info.discount,
            n == g.state@.len(),
            first.len() == n,
            p@.len() == n,
            k <= n,
            forall|i: int| 0 <= i < n ==> -g.limit() <= #[trigger] first[i] <= g.limit(),
            forall|i: int| k <= i < n ==> p@[i] == first[i],
            forall|i: int| 0 <= i < k ==> is_greedy(g, v@, d, i, #[trigger] p@[i] as int),
            policy_stable == (forall|i: int| 0 <= i < k ==> p@[i] == first[i]),
        decreases n - k,
    {
        let ghost prev = p@;
        let a_old: i32 = *p.state_action.at(k);
        let a_new: i32 = g.best_action(k, v, info.discount);
        let state_stable: bool = a_old == a_new;
        p.state_action.set_at(k, a_new);
        policy_stable = policy_stable && state_stable;
        proof {
            assert(p@ =~= prev.update(k as int, a_new));
            assert forall|i: int| 0 <= i < k + 1 implies is_greedy(g, v@, d, i, #[trigger] p@[i] as int) by {
                if i < k {
                    assert(is_greedy(g, v@, d, i, prev[i] as int));
                }
            }
            if policy_stable {
                assert forall|i: int| 0 <= i < k + 1 implies p@[i] == first[i] by {
                    if i < k {
                        assert(prev[i] == first[i]);
                    }
                }
            } else {
                if state_stable {
                    let j = choose|j: int| 0 <= j < k && prev[j] != first[j];
                    assert(p@[j] != first[j]);
                } else {
                    assert(p@[k as int] != first[k as int]);
                }
            }
        }
        k = k + 1;
    }
    proof {
        assert forall|i: int| 0 <= i < n implies g.state@[i].spec_lookahead(first[i] as int, g, v@, d)
            <= g.state@[i].spec_lookahead(#[trigger] p@[i] as int, g, v@, d) by {
            assert(is_greedy(g, v@, d, i, p@[i] as int));
            lemma_greedy_is_best(g, v@, d, i, p@[i] as int, first[i] as int);
        }
        if policy_stable {
            assert(p@ =~= first);
        }
        assert forall|i: int| 0 <= i < n implies p@[i] == improved(g, v@, d)[i] by {
            assert(is_greedy(g, v@, d, i, p@[i] as int));
            let a = choose|a: i32| is_greedy(g, v@, d, i, a as int);
            lemma_greedy_unique(g, v@, d, i, p@[i] as int, a as int);
        }
        assert(p@ =~= improved(g, v@, d));
    }
    policy_stable
}

/// Policy iteration: evaluates and improves in turn until an improvement
/// changes no action, for at most `max_rounds` turns. Tells whether the
/// policy became stable.
pub fn iterate_policy(g: &Graph, v: &mut Values, p: &mut Policy, info: &AgentInfo, max_rounds: u32) -> (stable: bool)
    requires
        g.wf(),
        old(v).wf(g.range()),
        old(p).wf(g.range(), g.limit()),
        info.wf(),
    ensures
        final(v).wf(g.range()),
        final(p).wf(g.range(), g.limit()),
        (final(v)@, final(p)@, stable) == iterated(g, old(v)@, old(p)@, *info, max_rounds as nat),
{
    let ghost first_v = v@;
    let ghost first_p = p@;
    let mut left: u32 = max_rounds;
    while left > 0
        invariant
            g.wf(),
            v.wf(g.range()),
            p.wf(g.range(), g.limit()),
            info.wf(),
            first_v == old(v)@,
            first_p == old(p)@,
            iterated(g, first_v, first_p, *info, max_rounds as nat) == iterated(g, v@, p@, *info, left as nat),
        decreases left,
    {
        let ghost values = v@;
        let ghost policy = p@;
        evaluate_policy(g, v, p, info);
        let stable: bool = improve_policy(p, g, v, info);
        if stable {
            assert(iterated(g, values, policy, *info, left as nat) == (v@, p@, true));
            return true;
        }
        left = left - 1;
    }
    false
}

} // verus!
