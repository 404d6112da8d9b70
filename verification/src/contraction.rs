//! Evaluation under a fixed policy contracts: from one sweep to the next the
//! largest change of a value shrinks by the discount, up to rounding.

use vstd::prelude::*;
use crate::agent::{backup, swept, sweep, largest_change, delta, lemma_swept_shape, lemma_swept_stable, lemma_largest_change_bounds};
use crate::fixed::{ONE, scaled, distance, shrunk, lemma_shrunk_bounds, lemma_shrunk_strict, lemma_scaled_close, lemma_scaled_contracts};
use crate::graph::{Graph, positions};
use crate::nd_vec::lemma_flat_bounds;

verus! {

/// The policy has an action of the model for each state of the model.
pub open spec fn policy_fits(g: &Graph, policy: Seq<i32>) -> bool {
    &&& policy.len() == g.state@.len()
    &&& forall|i: int| 0 <= i < policy.len() ==> -g.limit() <= #[trigger] policy[i] <= g.limit()
}

/// The position of the state that the policy leads to from the state at
/// position `i`.
pub open spec fn successor(g: &Graph, policy: Seq<i32>, i: int) -> int {
    let ts = g.state@[i].transition@;
    let t = ts[positions(ts, policy[i] as int)[0] as int];
    g.state.offset((t.to.0 as int, t.to.1 as int))
}

/// The rewards of the state at position `i` and of the action that the policy
/// chooses there.
pub open spec fn gain(g: &Graph, policy: Seq<i32>, i: int) -> int {
    g.state@[i].reward + g.action.spec_index(policy[i] as int).reward
}

/// The new value of a state is its gain plus the discounted value of its
/// successor.
pub proof fn lemma_backup_form(g: &Graph, policy: Seq<i32>, values: Seq<int>, discount: int, i: int)
    requires
        g.wf(),
        policy_fits(g, policy),
        0 <= i < g.state@.len(),
    ensures
        0 <= successor(g, policy, i) < g.state@.len(),
        backup(g, policy, values, discount, i) == gain(g, policy, i) + scaled(
            discount,
            values[successor(g, policy, i)],
        ),
{
    let a = policy[i] as int;
    g.lemma_lookahead_single(i, a, values, discount);
    g.lemma_state_position(i);
    let ts = g.state@[i].transition@;
    let t = ts[positions(ts, a)[0] as int];
    lemma_flat_bounds(g.state.range0, g.state.range1, t.to.0 as int, t.to.1 as int);
}

/// The new value of a state is off the exact sum of its gain and the
/// discounted value of its successor by at most half a unit.
pub proof fn lemma_backup_close(g: &Graph, policy: Seq<i32>, values: Seq<int>, discount: int, i: int)
    requires
        g.wf(),
        policy_fits(g, policy),
        0 <= i < g.state@.len(),
    ensures
        2 * distance(
            backup(g, policy, values, discount, i) * ONE,
            gain(g, policy, i) * ONE + discount * values[successor(g, policy, i)],
        ) <= ONE,
{
    lemma_backup_form(g, policy, values, discount, i);
    lemma_scaled_close(discount, values[successor(g, policy, i)]);
}

/// Where no state among the first `k` changes by more than `bound`, the
/// largest change among them is at most `bound`.
pub proof fn lemma_largest_change_below(before: Seq<int>, after: Seq<int>, k: int, bound: int)
    requires
        0 <= bound,
        forall|j: int| 0 <= j < k ==> distance(after[j], before[j]) <= bound,
    ensures
        largest_change(before, after, k) <= bound,
    decreases k,
{
    if k > 0 {
        lemma_largest_change_below(before, after, k - 1, bound);
    }
}

/// The value that a sweep gives the state at position `i` is the new value
/// computed from the values as they stand when the sweep arrives there.
pub proof fn lemma_sweep_entry(g: &Graph, policy: Seq<i32>, values: Seq<int>, discount: int, i: int)
    requires
        0 <= i < values.len(),
    ensures
        sweep(g, policy, values, discount).len() == values.len(),
        sweep(g, policy, values, discount)[i] == backup(
            g,
            policy,
            swept(g, policy, values, discount, i),
            discount,
            i,
        ),
        forall|j: int|
            0 <= j < i ==> swept(g, policy, values, discount, i)[j] == sweep(g, policy, values, discount)[j],
        forall|j: int| i <= j < values.len() ==> swept(g, policy, values, discount, i)[j] == values[j],
{
    let n = values.len() as int;
    lemma_swept_shape(g, policy, values, discount, n);
    lemma_swept_shape(g, policy, values, discount, i);
    lemma_swept_shape(g, policy, values, discount, i + 1);
    lemma_swept_stable(g, policy, values, discount, i, n);
    lemma_swept_stable(g, policy, values, discount, i + 1, n);
}

/// Among the first `k` states, none changes in the second of two successive
/// sweeps by more than the discounted largest change of the first.
pub proof fn lemma_contraction_upto(g: &Graph, policy: Seq<i32>, values: Seq<int>, discount: int, k: int)
    requires
        g.wf(),
        policy_fits(g, policy),
        values.len() == g.state@.len(),
        0 <= discount < ONE,
        0 <= k <= values.len(),
    ensures
        forall|j: int|
            0 <= j < k ==> distance(
                sweep(g, policy, sweep(g, policy, values, discount), discount)[j],
                sweep(g, policy, values, discount)[j],
            ) <= shrunk(discount, delta(values, sweep(g, policy, values, discount))),
    decreases k,
{
    if k > 0 {
        lemma_contraction_upto(g, policy, values, discount, k - 1);
        let i = k - 1;
        let n = values.len() as int;
        let v1 = sweep(g, policy, values, discount);
        let v2 = sweep(g, policy, v1, discount);
        let d1 = delta(values, v1);
        let c = shrunk(discount, d1);
        lemma_sweep_entry(g, policy, values, discount, i);
        lemma_sweep_entry(g, policy, v1, discount, i);
        let w0 = swept(g, policy, values, discount, i);
        let w1 = swept(g, policy, v1, discount, i);
        lemma_backup_form(g, policy, w0, discount, i);
        lemma_backup_form(g, policy, w1, discount, i);
        let to = successor(g, policy, i);
        lemma_largest_change_bounds(values, v1, n);
        lemma_shrunk_bounds(discount, d1, d1);
        lemma_scaled_contracts(discount, w1[to], w0[to]);
        if to < i {
            assert(distance(v2[to], v1[to]) <= c);
            lemma_shrunk_bounds(discount, distance(w1[to], w0[to]), d1);
        } else {
            assert(distance(v1[to], values[to]) <= d1);
            lemma_shrunk_bounds(discount, distance(w1[to], w0[to]), d1);
        }
        assert(distance(v2[i], v1[i]) <= c);
    }
}

/// Evaluation contracts: the largest change of a value in a sweep is at most
/// the largest change in the sweep before it, times the discount and rounded
/// up. It is strictly smaller as long as the change before, times the
/// discount's distance from one, is at least one.
pub proof fn lemma_evaluation_contracts(g: &Graph, policy: Seq<i32>, values: Seq<int>, discount: int)
    requires
        g.wf(),
        policy_fits(g, policy),
        values.len() == g.state@.len(),
        0 <= discount < ONE,
    ensures
        delta(
            sweep(g, policy, values, discount),
            sweep(g, policy, sweep(g, policy, values, discount), discount),
        ) <= shrunk(discount, delta(values, sweep(g, policy, values, discount))),
        shrunk(discount, delta(values, sweep(g, policy, values, discount))) <= delta(
            values,
            sweep(g, policy, values, discount),
        ),
        delta(values, sweep(g, policy, values, discount)) * (ONE - discount) >= ONE ==> delta(
            sweep(g, policy, values, discount),
            sweep(g, policy, sweep(g, policy, values, discount), discount),
        ) < delta(values, sweep(g, policy, values, discount)),
{
    let n = values.len() as int;
    let v1 = sweep(g, policy, values, discount);
    let v2 = sweep(g, policy, v1, discount);
    let d1 = delta(values, v1);
    lemma_swept_shape(g, policy, values, discount, n);
    lemma_contraction_upto(g, policy, values, discount, n);
    lemma_largest_change_bounds(values, v1, n);
    lemma_shrunk_bounds(discount, d1, d1);
    lemma_largest_change_below(v1, v2, n, shrunk(discount, d1));
    if d1 * (ONE - discount) >= ONE {
        lemma_shrunk_strict(discount, d1);
    }
}

} // verus!
