use car_rental::distribution::Distribution;
use car_rental::fixed::ONE;
use car_rental::graph::{Graph, GraphChange, GraphInfo};

fn poisson(rate: f64, n: usize) -> Distribution {
    let mut masses: Vec<i64> = Vec::new();
    let mut p = (-rate).exp();
    for k in 0..=n {
        masses.push((p * ONE as f64).floor() as i64);
        p = p * rate / (k as f64 + 1.0);
    }
    Distribution::new(masses).unwrap()
}

fn scenario_info(range: i32, limit: i32) -> GraphInfo {
    GraphInfo {
        dist_rent_0: poisson(3.0, range as usize),
        dist_rent_1: poisson(4.0, range as usize),
        dist_return_0: poisson(3.0, range as usize),
        dist_return_1: poisson(2.0, range as usize),
        move_limit: limit,
        state_range: range,
        rent_reward: 10 * ONE,
    }
}

fn scenario_change() -> GraphChange {
    GraphChange { free_shuttle: true, parking_limit: 10, parking_cost: 4 * ONE }
}

fn build(gi: &GraphInfo, c: Option<GraphChange>) -> Graph {
    let mut g = Graph::new(gi);
    g.setup(gi, c);
    g
}

#[test]
fn counts_of_states_and_actions() {
    for (range, limit) in [(0, 0), (1, 0), (0, 3), (4, 2), (20, 5)] {
        let gi = scenario_info(range, limit);
        let g = build(&gi, None);
        assert_eq!(g.state.len(), ((range + 1) * (range + 1)) as usize);
        assert_eq!(g.action.len(), (2 * limit + 1) as usize);
    }
}

#[test]
fn states_stand_at_their_counts() {
    let gi = scenario_info(4, 2);
    let g = build(&gi, None);
    for m in 0..=4 {
        for n in 0..=4 {
            let s = g.state.get((m, n));
            assert_eq!(s.count(), (m, n));
            assert_eq!(s.name(), format!("{}_{}", m, n));
            assert_eq!(g.state.index_of((m, n)), (m * 5 + n) as usize);
        }
    }
    assert_eq!(g.state.at(0).count(), (0, 0));
    assert_eq!(g.state.at(1).count(), (0, 1));
    assert_eq!(g.state.at(5).count(), (1, 0));
    assert_eq!(g.state.key_at(7), (1, 2));
}

#[test]
fn action_rewards_without_change() {
    let gi = scenario_info(3, 5);
    let g = build(&gi, None);
    assert_eq!(g.action.get(2).reward, -4 * ONE);
    assert_eq!(g.action.get(-2).reward, -4 * ONE);
    assert_eq!(g.action.get(0).reward, 0);
    assert_eq!(g.action.get(5).reward, -10 * ONE);
    assert_eq!(Graph::reward_of_action(None, 2), -4 * ONE);
}

#[test]
fn action_rewards_with_free_shuttle() {
    let gi = scenario_info(3, 5);
    let g = build(&gi, Some(scenario_change()));
    assert_eq!(g.action.get(2).reward, -2 * ONE);
    assert_eq!(g.action.get(-2).reward, -4 * ONE);
    assert_eq!(g.action.get(1).reward, 0);
    assert_eq!(g.action.get(0).reward, 0);
    assert_eq!(g.action.get(-1).reward, -2 * ONE);
}

#[test]
fn free_shuttle_switched_off_changes_nothing() {
    let c = GraphChange { free_shuttle: false, parking_limit: 10, parking_cost: 4 * ONE };
    assert_eq!(Graph::reward_of_action(Some(c), 2), -4 * ONE);
    assert_eq!(Graph::reward_of_action(Some(c), -2), -4 * ONE);
}

#[test]
fn action_labels_and_values() {
    let gi = scenario_info(2, 2);
    let g = build(&gi, None);
    let expected = ["-2", "-1", "+0", "+1", "+2"];
    for (i, k) in (-2..=2).enumerate() {
        let a = g.action.get(k);
        assert_eq!(a.name(), expected[i]);
        assert_eq!(a.desc.value, k);
        assert_eq!(g.action.key_at(i), k);
    }
}

#[test]
fn transitions_stay_in_range() {
    let gi = scenario_info(20, 5);
    let g = build(&gi, Some(scenario_change()));
    for i in 0..g.state.len() {
        let s = g.state.at(i);
        assert_eq!(s.transition.len(), 11);
        for t in s.transition.iter() {
            assert_eq!(t.from, s.count());
            assert!(0 <= t.to.0 && t.to.0 <= 20);
            assert!(0 <= t.to.1 && t.to.1 <= 20);
            assert_eq!(t.prob, ONE);
        }
    }
}

#[test]
fn outward_move_from_empty_state_is_clamped() {
    let gi = GraphInfo {
        dist_rent_0: Distribution::new(vec![ONE]).unwrap(),
        dist_rent_1: Distribution::new(vec![ONE]).unwrap(),
        dist_return_0: Distribution::new(vec![ONE]).unwrap(),
        dist_return_1: Distribution::new(vec![ONE]).unwrap(),
        move_limit: 3,
        state_range: 5,
        rent_reward: 10 * ONE,
    };
    let g = build(&gi, None);
    let s = g.state.get((0, 0));
    let out = s.transition[3];
    assert_eq!(out.action, 3);
    assert_eq!(out.to, (0, 3));
    let back = s.transition[6];
    assert_eq!(back.action, -3);
    assert_eq!(back.to, (3, 0));
    let top = g.state.get((5, 5));
    assert_eq!(top.transition[2].action, 2);
    assert_eq!(top.transition[2].to, (3, 5));
}

#[test]
fn transitions_follow_the_order_of_moves() {
    let gi = scenario_info(3, 2);
    let g = build(&gi, None);
    let s = g.state.get((1, 2));
    let moves: Vec<i32> = s.transition.iter().map(|t| t.action).collect();
    assert_eq!(moves, vec![0, 1, 2, -1, -2]);
    assert_eq!(s.action.len(), 5);
    assert_eq!(s.action[&0], vec![0]);
    assert_eq!(s.action[&1], vec![1]);
    assert_eq!(s.action[&2], vec![2]);
    assert_eq!(s.action[&-1], vec![3]);
    assert_eq!(s.action[&-2], vec![4]);
}

#[test]
fn self_move_from_origin_goes_to_rounded_returns() {
    let gi = scenario_info(20, 5);
    let g = build(&gi, None);
    let back0 = Graph::expected_count(20, &gi.dist_return_0);
    let back1 = Graph::expected_count(20, &gi.dist_return_1);
    let s = g.state.get((0, 0));
    let t = s.transition[0];
    assert_eq!(t.action, 0);
    assert_eq!(t.to.0 as i128, car_rental::fixed::round(back0 as i128).clamp(0, 20));
    assert_eq!(t.to.1 as i128, car_rental::fixed::round(back1 as i128).clamp(0, 20));
    assert_eq!(t.to, (3, 2));
}

#[test]
fn state_rewards() {
    let half = Distribution::new(vec![500_000_000, 300_000_000, 200_000_000]).unwrap();
    let gi = GraphInfo {
        dist_rent_0: Distribution::new(vec![500_000_000, 300_000_000, 200_000_000]).unwrap(),
        dist_rent_1: Distribution::new(vec![0, ONE]).unwrap(),
        dist_return_0: half,
        dist_return_1: Distribution::new(vec![ONE]).unwrap(),
        move_limit: 1,
        state_range: 3,
        rent_reward: 10 * ONE,
    };
    let g = build(&gi, None);
    assert_eq!(g.state.get((0, 0)).reward, 0);
    assert_eq!(g.state.get((1, 0)).rent(), (500_000_000, 0));
    assert_eq!(g.state.get((1, 0)).reward, 5 * ONE);
    assert_eq!(g.state.get((3, 2)).rent(), (700_000_000, ONE));
    assert_eq!(g.state.get((3, 2)).reward, 17 * ONE);
    assert_eq!(g.state.get((3, 2)).expected_count(), (2_300_000_000, ONE));
    let c = GraphChange { free_shuttle: false, parking_limit: 1, parking_cost: 4 * ONE };
    let g = build(&gi, Some(c));
    assert_eq!(g.state.get((1, 1)).reward, 15 * ONE);
    assert_eq!(g.state.get((2, 1)).reward, 13 * ONE);
    assert_eq!(g.state.get((3, 2)).reward, 17 * ONE - 8 * ONE);
}

#[test]
fn settle_rounds_and_clamps() {
    assert_eq!(Graph::settle(2_300_000_000, 0, 1_200_000_000, 20), 4);
    assert_eq!(Graph::settle(2_300_000_000, 0, 1_199_999_999, 20), 3);
    assert_eq!(Graph::settle(0, -5, ONE, 20), 0);
    assert_eq!(Graph::settle(19 * ONE, 5, 0, 20), 20);
    assert_eq!(Graph::settle(i32::MAX as i64 * ONE, i32::MAX, i32::MAX as i64 * ONE, i32::MAX), i32::MAX);
    assert_eq!(Graph::settle(0, -i32::MAX, 0, 7), 0);
}
