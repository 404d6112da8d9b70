//! From a configuration to a policy: validation, construction of the model
//! and policy iteration in one call.

use vstd::prelude::*;
use crate::agent::{AgentInfo, iterate_policy, iterated};
use crate::config::ConfigError;
use crate::graph::{Graph, GraphChange, GraphInfo, change_wf};
use crate::policy::{Policy, Values};

verus! {

/// The model of a configuration, with the estimates and the policy that
/// policy iteration arrived at, and whether the policy is stable.
pub struct Solution {
    pub graph: Graph,
    pub values: Values,
    pub policy: Policy,
    pub stable: bool,
}

/// The first field at fault among those of the configuration, of the change
/// and of the agent's settings, in this order, if there is one.
pub open spec fn first_fault(gi: &GraphInfo, c: Option<GraphChange>, info: &AgentInfo) -> Option<ConfigError> {
    if gi.fault() is Some {
        gi.fault()
    } else if !change_wf(c) {
        Some(ConfigError::ParkingCost)
    } else {
        info.fault()
    }
}

/// The values before any evaluation and the policy before any improvement:
/// zero for each of `n` states.
pub open spec fn zeros<T>(n: int, zero: T) -> Seq<T> {
    Seq::new(n as nat, |i: int| zero)
}

/// Validates the configuration, builds its model and runs policy iteration
/// from the policy that moves nothing and from estimates of zero, for at most
/// `max_rounds` turns of evaluation and improvement.
pub fn solve(gi: &GraphInfo, c: Option<GraphChange>, info: &AgentInfo, max_rounds: u32) -> (r: Result<
    Solution,
    ConfigError,
>)
    ensures
        match r {
            Ok(s) => {
                &&& first_fault(gi, c, info) is None
                &&& s.graph.built(gi, c)
                &&& s.graph.wf()
                &&& s.values.wf(gi.state_range as int)
                &&& s.policy.wf(gi.state_range as int, gi.move_limit as int)
                &&& (s.values@, s.policy@, s.stable) == iterated(
                    &s.graph,
                    zeros(s.graph.state@.len() as int, 0int),
                    zeros(s.graph.state@.len() as int, 0i32),
                    *info,
                    max_rounds as nat,
                )
            },
            Err(e) => first_fault(gi, c, info) == Some(e),
        },
{
    match gi.validate() {
        Err(e) => {
            return Err(e);
        },
        Ok(_) => {},
    }
    match c {
        Some(change) => match change.validate() {
            Err(e) => {
                return Err(e);
            },
            Ok(_) => {},
        },
        None => {},
    }
    match info.validate() {
        Err(e) => {
            return Err(e);
        },
        Ok(_) => {},
    }
    proof {
        gi.lemma_states_fit();
    }
    let mut graph = Graph::new(gi);
    graph.setup(gi, c);
    let mut values = Values::new(gi);
    let mut policy = Policy::new(gi);
    proof {
        assert(values@ =~= zeros(graph.state@.len() as int, 0int));
        assert(policy@ =~= zeros(graph.state@.len() as int, 0i32));
    }
    let stable: bool = iterate_policy(&graph, &mut values, &mut policy, info, max_rounds);
    Ok(Solution { graph, values, policy, stable })
}

} // verus!
