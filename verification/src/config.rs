//! Validation of a configuration before a model is built from it.

use vstd::prelude::*;
use crate::agent::AgentInfo;
use crate::distribution::{Distribution, cumulative, fault_at, lemma_valid_iff_faultless};
use crate::fixed::ONE;
use crate::graph::{GraphChange, GraphInfo, MAX_MOVE, MAX_PARKING_COST, MAX_RANGE, MAX_RENT_REWARD};

verus! {

/// The field of a configuration that is at fault.
#[derive(Clone, Copy, Debug, PartialEq, Eq, Structural)]
pub enum ConfigError {
    /// The inventory bound is negative or above `MAX_RANGE`.
    StateRange,
    /// The move limit is negative or above `MAX_MOVE`.
    MoveLimit,
    /// The reward per rental is farther from zero than `MAX_RENT_REWARD`.
    RentReward,
    /// The distribution of rentals at the first location is not well formed.
    RentDistribution0,
    /// The distribution of rentals at the second location is not well formed.
    RentDistribution1,
    /// The distribution of returns at the first location is not well formed.
    ReturnDistribution0,
    /// The distribution of returns at the second location is not well formed.
    ReturnDistribution1,
    /// The parking cost is farther from zero than `MAX_PARKING_COST`.
    ParkingCost,
    /// The discount is not strictly between zero and one.
    Discount,
    /// The threshold is not positive.
    Theta,
    /// Less than one sweep is allowed.
    MaxIter,
}

impl ConfigError {
    /// The name of the field at fault.
    pub open spec fn spec_field(self) -> Seq<char> {
        match self {
            ConfigError::StateRange => "state_range"@,
            ConfigError::MoveLimit => "move_limit"@,
            ConfigError::RentReward => "rent_reward"@,
            ConfigError::RentDistribution0 => "dist_rent_0"@,
            ConfigError::RentDistribution1 => "dist_rent_1"@,
            ConfigError::ReturnDistribution0 => "dist_return_0"@,
            ConfigError::ReturnDistribution1 => "dist_return_1"@,
            ConfigError::ParkingCost => "parking_cost"@,
            ConfigError::Discount => "discount"@,
            ConfigError::Theta => "theta"@,
            ConfigError::MaxIter => "max_iter"@,
        }
    }

    /// The name of the field at fault.
    pub fn field(&self) -> (s: &'static str)
        ensures
            s@ == self.spec_field(),
    {
        match self {
            ConfigError::StateRange => "state_range",
            ConfigError::MoveLimit => "move_limit",
            ConfigError::RentReward => "rent_reward",
            ConfigError::RentDistribution0 => "dist_rent_0",
            ConfigError::RentDistribution1 => "dist_rent_1",
            ConfigError::ReturnDistribution0 => "dist_return_0",
            ConfigError::ReturnDistribution1 => "dist_return_1",
            ConfigError::ParkingCost => "parking_cost",
            ConfigError::Discount => "discount",
            ConfigError::Theta => "theta",
            ConfigError::MaxIter => "max_iter",
        }
    }
}

impl Distribution {
    /// Whether the tables are well formed.
    pub fn is_valid(&self) -> (b: bool)
        ensures
            b == self.wf(),
    {
        let n: usize = self.mass.len();
        if self.total.len() != n {
            return false;
        }
        let mut sum: i64 = 0;
        let mut i: usize = 0;
        while i < n
            invariant
                n == self.mass@.len(),
                n == self.total@.len(),
                i <= n,
                sum == cumulative(self.mass@, i - 1),
                0 <= sum <= ONE,
                forall|j: int| 0 <= j < i ==> self.total@[j] == cumulative(self.mass@, j),
                forall|j: int| 0 <= j < i ==> !fault_at(self.mass@, j),
            decreases n - i,
        {
            let p: i64 = self.mass[i];
            if p < 0 || p > ONE - sum {
                proof {
                    assert(cumulative(self.mass@, i as int) == sum + p);
                    assert(fault_at(self.mass@, i as int));
                    lemma_valid_iff_faultless(self.mass@);
                }
                return false;
            }
            sum = sum + p;
            if self.total[i] != sum {
                return false;
            }
            i = i + 1;
        }
        proof {
            lemma_valid_iff_faultless(self.mass@);
        }
        true
    }
}

impl GraphInfo {
    /// The first field at fault, in the order of the checks, if there is one.
    pub open spec fn fault(&self) -> Option<ConfigError> {
        if !(0 <= self.state_range <= MAX_RANGE) {
            Some(ConfigError::StateRange)
        } else if !(0 <= self.move_limit <= MAX_MOVE) {
            Some(ConfigError::MoveLimit)
        } else if !(-MAX_RENT_REWARD <= self.rent_reward <= MAX_RENT_REWARD) {
            Some(ConfigError::RentReward)
        } else if !self.dist_rent_0.wf() {
            Some(ConfigError::RentDistribution0)
        } else if !self.dist_rent_1.wf() {
            Some(ConfigError::RentDistribution1)
        } else if !self.dist_return_0.wf() {
            Some(ConfigError::ReturnDistribution0)
        } else if !self.dist_return_1.wf() {
            Some(ConfigError::ReturnDistribution1)
        } else {
            None
        }
    }

    /// Accepts a well-formed configuration and names the first field at fault
    /// of any other.
    pub fn validate(&self) -> (r: Result<(), ConfigError>)
        ensures
            r is Ok <==> self.wf(),
            r == match self.fault() {
                Some(e) => Err::<(), ConfigError>(e),
                None => Ok::<(), ConfigError>(()),
            },
    {
        if self.state_range < 0 || self.state_range > MAX_RANGE {
            Err(ConfigError::StateRange)
        } else if self.move_limit < 0 || self.move_limit > MAX_MOVE {
            Err(ConfigError::MoveLimit)
        } else if self.rent_reward < -MAX_RENT_REWARD || self.rent_reward > MAX_RENT_REWARD {
            Err(ConfigError::RentReward)
        } else if !self.dist_rent_0.is_valid() {
            Err(ConfigError::RentDistribution0)
        } else if !self.dist_rent_1.is_valid() {
            Err(ConfigError::RentDistribution1)
        } else if !self.dist_return_0.is_valid() {
            Err(ConfigError::ReturnDistribution0)
        } else if !self.dist_return_1.is_valid() {
            Err(ConfigError::ReturnDistribution1)
        } else {
            Ok(())
        }
    }
}

impl GraphChange {
    /// Accepts a well-formed change and names the field at fault of any
    /// other.
    pub fn validate(&self) -> (r: Result<(), ConfigError>)
        ensures
            r is Ok <==> self.wf(),
            r is Err ==> r == Err::<(), ConfigError>(ConfigError::ParkingCost),
    {
        if self.parking_cost < -MAX_PARKING_COST || self.parking_cost > MAX_PARKING_COST {
            Err(ConfigError::ParkingCost)
        } else {
            Ok(())
        }
    }
}

impl AgentInfo {
    /// The first field at fault, in the order of the checks, if there is one.
    pub open spec fn fault(&self) -> Option<ConfigError> {
        if !(0 < self.discount < ONE) {
            Some(ConfigError::Discount)
        } else if !(0 < self.theta) {
            Some(ConfigError::Theta)
        } else if !(1 <= self.max_iter) {
            Some(ConfigError::MaxIter)
        } else {
            None
        }
    }

    /// Accepts well-formed settings and names the first field at fault of
    /// any other.
    pub fn validate(&self) -> (r: Result<(), ConfigError>)
        ensures
            r is Ok <==> self.wf(),
            r == match self.fault() {
                Some(e) => Err::<(), ConfigError>(e),
                None => Ok::<(), ConfigError>(()),
            },
    {
        if self.discount <= 0 || self.discount >= ONE {
            Err(ConfigError::Discount)
        } else if self.theta <= 0 {
            Err(ConfigError::Theta)
        } else if self.max_iter < 1 {
            Err(ConfigError::MaxIter)
        } else {
            Ok(())
        }
    }
}

} // verus!
