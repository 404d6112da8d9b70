use car_rental::agent::AgentInfo;
use car_rental::config::ConfigError;
use car_rental::distribution::Distribution;
use car_rental::fixed::ONE;
use car_rental::graph::{GraphChange, GraphInfo, State, StateDesc};
use car_rental::nd_vec::{NdVec1, NdVec2};

#[test]
fn one_key_from_a_negative_start() {
    let mut v: NdVec1<i32> = NdVec1::new((-3, 3));
    assert_eq!(v.len(), 0);
    assert_eq!(v.capacity(), 7);
    assert!(!v.contains(-3));
    for k in -3..=3 {
        v.push(k * 10);
    }
    assert_eq!(v.len(), 7);
    for k in -3..=3 {
        assert!(v.contains(k));
        assert_eq!(*v.get(k), k * 10);
    }
    assert!(!v.contains(-4));
    assert!(!v.contains(4));
    assert!(!v.contains(i32::MIN));
    assert!(!v.contains(i32::MAX));
    v.set(-2, 99);
    assert_eq!(*v.get(-2), 99);
    assert_eq!(*v.get(-3), -30);
    assert_eq!(*v.get(-1), -10);
    assert_eq!(*v.at(1), 99);
    assert_eq!(v.key_at(0), -3);
    assert_eq!(v.key_at(6), 3);
}

#[test]
fn one_key_partly_filled() {
    let mut v: NdVec1<u8> = NdVec1::new((5, 9));
    v.push(1);
    v.push(2);
    assert!(v.contains(5));
    assert!(v.contains(6));
    assert!(!v.contains(7));
    assert!(!v.contains(4));
    assert_eq!(v.len(), 2);
    assert_eq!(v.capacity(), 5);
}

#[test]
fn two_keys_in_ascending_order_of_the_pair() {
    let mut v: NdVec2<(i32, i32)> = NdVec2::new((-1, 1), (2, 5));
    for a in -1..=1 {
        for b in 2..=5 {
            v.push((a, b));
        }
    }
    assert_eq!(v.len(), 12);
    for a in -1..=1 {
        for b in 2..=5 {
            assert!(v.contains((a, b)));
            assert_eq!(*v.get((a, b)), (a, b));
            let i = v.index_of((a, b));
            assert_eq!(i, ((a + 1) * 4 + (b - 2)) as usize);
            assert_eq!(v.key_at(i), (a, b));
            assert_eq!(*v.at(i), (a, b));
        }
    }
    assert!(!v.contains((-2, 2)));
    assert!(!v.contains((2, 2)));
    assert!(!v.contains((0, 1)));
    assert!(!v.contains((0, 6)));
    v.set((0, 3), (7, 7));
    assert_eq!(*v.get((0, 3)), (7, 7));
    assert_eq!(*v.get((0, 2)), (0, 2));
    v.set_at(0, (8, 8));
    assert_eq!(*v.get((-1, 2)), (8, 8));
    *v.at_mut(11) = (9, 9);
    assert_eq!(*v.get((1, 5)), (9, 9));
}

#[test]
fn two_keys_partly_filled() {
    let mut v: NdVec2<u8> = NdVec2::new((0, 1), (0, 2));
    v.push(1);
    v.push(2);
    v.push(3);
    v.push(4);
    assert!(v.contains((0, 2)));
    assert!(v.contains((1, 0)));
    assert!(!v.contains((1, 1)));
    assert!(!v.contains((1, 2)));
}

#[test]
fn states_are_equal_by_label() {
    let a = State::new(StateDesc::new(String::from("1_2"), (1, 2), (0, 0)), 5);
    let b = State::new(StateDesc::new(String::from("1_2"), (3, 4), (7, 7)), 9);
    let c = State::new(StateDesc::new(String::from("2_1"), (1, 2), (0, 0)), 5);
    assert!(a == b);
    assert!(a != c);
}

fn one() -> Distribution {
    Distribution::new(vec![ONE]).unwrap()
}

fn bad() -> Distribution {
    Distribution { mass: vec![ONE, ONE], total: vec![ONE, 2 * ONE] }
}

fn info() -> GraphInfo {
    GraphInfo {
        dist_rent_0: one(),
        dist_rent_1: one(),
        dist_return_0: one(),
        dist_return_1: one(),
        move_limit: 5,
        state_range: 20,
        rent_reward: 10 * ONE,
    }
}

#[test]
fn a_sound_configuration_is_accepted() {
    assert_eq!(info().validate(), Ok(()));
    let mut gi = info();
    gi.state_range = 0;
    gi.move_limit = 0;
    gi.rent_reward = -1_000_000_000_000;
    assert_eq!(gi.validate(), Ok(()));
    gi.state_range = 1000;
    gi.move_limit = 1000;
    gi.rent_reward = 1_000_000_000_000;
    assert_eq!(gi.validate(), Ok(()));
}

#[test]
fn the_first_field_at_fault_is_named() {
    let mut gi = info();
    gi.state_range = -1;
    gi.move_limit = -1;
    assert_eq!(gi.validate(), Err(ConfigError::StateRange));
    gi.state_range = 1001;
    assert_eq!(gi.validate(), Err(ConfigError::StateRange));
    gi.state_range = 20;
    assert_eq!(gi.validate(), Err(ConfigError::MoveLimit));
    gi.move_limit = 1001;
    gi.rent_reward = 1_000_000_000_001;
    assert_eq!(gi.validate(), Err(ConfigError::MoveLimit));
    gi.move_limit = 5;
    assert_eq!(gi.validate(), Err(ConfigError::RentReward));
    gi.rent_reward = -1_000_000_000_001;
    gi.dist_rent_0 = bad();
    assert_eq!(gi.validate(), Err(ConfigError::RentReward));
    gi.rent_reward = 0;
    gi.dist_rent_1 = bad();
    assert_eq!(gi.validate(), Err(ConfigError::RentDistribution0));
    gi.dist_rent_0 = one();
    gi.dist_return_0 = bad();
    assert_eq!(gi.validate(), Err(ConfigError::RentDistribution1));
    gi.dist_rent_1 = one();
    gi.dist_return_1 = bad();
    assert_eq!(gi.validate(), Err(ConfigError::ReturnDistribution0));
    gi.dist_return_0 = one();
    assert_eq!(gi.validate(), Err(ConfigError::ReturnDistribution1));
    gi.dist_return_1 = one();
    assert_eq!(gi.validate(), Ok(()));
}

#[test]
fn the_change_is_checked() {
    let mut c = GraphChange { free_shuttle: true, parking_limit: 10, parking_cost: 4 * ONE };
    assert_eq!(c.validate(), Ok(()));
    c.parking_cost = 1_000_000_000_001;
    assert_eq!(c.validate(), Err(ConfigError::ParkingCost));
    c.parking_cost = -1_000_000_000_001;
    assert_eq!(c.validate(), Err(ConfigError::ParkingCost));
    c.parking_cost = -1_000_000_000_000;
    c.parking_limit = i32::MIN;
    assert_eq!(c.validate(), Ok(()));
}

#[test]
fn the_settings_of_the_agent_are_checked() {
    let mut a = AgentInfo { discount: 900_000_000, theta: 100_000_000, max_iter: 16 };
    assert_eq!(a.validate(), Ok(()));
    a.discount = 0;
    a.theta = 0;
    assert_eq!(a.validate(), Err(ConfigError::Discount));
    a.discount = ONE;
    assert_eq!(a.validate(), Err(ConfigError::Discount));
    a.discount = ONE - 1;
    a.max_iter = 0;
    assert_eq!(a.validate(), Err(ConfigError::Theta));
    a.theta = 1;
    assert_eq!(a.validate(), Err(ConfigError::MaxIter));
    a.max_iter = 1;
    assert_eq!(a.validate(), Ok(()));
}

#[test]
fn fields_at_fault_have_names() {
    assert_eq!(ConfigError::StateRange.field(), "state_range");
    assert_eq!(ConfigError::MoveLimit.field(), "move_limit");
    assert_eq!(ConfigError::RentReward.field(), "rent_reward");
    assert_eq!(ConfigError::RentDistribution0.field(), "dist_rent_0");
    assert_eq!(ConfigError::RentDistribution1.field(), "dist_rent_1");
    assert_eq!(ConfigError::ReturnDistribution0.field(), "dist_return_0");
    assert_eq!(ConfigError::ReturnDistribution1.field(), "dist_return_1");
    assert_eq!(ConfigError::ParkingCost.field(), "parking_cost");
    assert_eq!(ConfigError::Discount.field(), "discount");
    assert_eq!(ConfigError::Theta.field(), "theta");
    assert_eq!(ConfigError::MaxIter.field(), "max_iter");
}
