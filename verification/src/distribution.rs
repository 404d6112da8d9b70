//! Discrete distributions over the non-negative integers, given as a table of
//! fixed-point point masses, and the expectation of a capped variable.

use vstd::prelude::*;
use crate::fixed::ONE;

verus! {

/// The mass at `k`: the table's entry, and nothing beyond the table.
pub open spec fn mass_at(m: Seq<i64>, k: int) -> int {
    if 0 <= k < m.len() {
        m[k] as int
    } else {
        0
    }
}

/// The mass of `0 ..= k` taken together.
pub open spec fn cumulative(m: Seq<i64>, k: int) -> int
    decreases k + 1,
{
    if k < 0 {
        0
    } else {
        cumulative(m, k - 1) + mass_at(m, k)
    }
}

/// The sum of `n` times the mass at `n`, over `n` in `0 ..= v`.
pub open spec fn partial_mean(m: Seq<i64>, v: int) -> int
    decreases v + 1,
{
    if v < 0 {
        0
    } else {
        partial_mean(m, v - 1) + mass_at(m, v) * v
    }
}

/// The expectation of the smaller of `v` and a variable with the masses `m`:
/// values up to `v` count as they are, all the remaining mass counts as `v`.
pub open spec fn truncated_expectation(m: Seq<i64>, v: int) -> int {
    partial_mean(m, v) + (ONE - cumulative(m, v)) * v
}

/// No mass is negative.
pub open spec fn non_negative(m: Seq<i64>) -> bool {
    forall|i: int| 0 <= i < m.len() ==> m[i] >= 0
}

/// No mass is negative and all of them together do not exceed one.
pub open spec fn valid_masses(m: Seq<i64>) -> bool {
    non_negative(m) && cumulative(m, m.len() - 1) <= ONE
}

/// The entry at `i` is negative, or brings the mass up to `i` above one.
pub open spec fn fault_at(m: Seq<i64>, i: int) -> bool {
    0 <= i < m.len() && (m[i] < 0 || cumulative(m, i) > ONE)
}

/// The cumulative mass does not shrink as the bound grows.
pub proof fn lemma_cumulative_monotone(m: Seq<i64>, j: int, k: int)
    requires
        non_negative(m),
        j <= k,
    ensures
        cumulative(m, j) <= cumulative(m, k),
    decreases k - j,
{
    if j < k {
        lemma_cumulative_monotone(m, j, k - 1);
    }
}

/// Beyond the table the cumulative mass stays what it is at the table's end.
pub proof fn lemma_cumulative_saturates(m: Seq<i64>, k: int)
    requires
        k >= m.len() - 1,
    ensures
        cumulative(m, k) == cumulative(m, m.len() - 1),
    decreases k + 1,
{
    if k > m.len() - 1 {
        lemma_cumulative_saturates(m, k - 1);
    }
}

/// The cumulative mass of a valid table lies between zero and one.
pub proof fn lemma_cumulative_bounds(m: Seq<i64>, k: int)
    requires
        valid_masses(m),
    ensures
        0 <= cumulative(m, k) <= ONE,
{
    if k < 0 {
    } else {
        lemma_cumulative_monotone(m, -1, k);
        if k <= m.len() - 1 {
            lemma_cumulative_monotone(m, k, m.len() - 1);
        } else {
            lemma_cumulative_saturates(m, k);
        }
    }
}

/// A table is valid exactly if no entry is at fault.
pub proof fn lemma_valid_iff_faultless(m: Seq<i64>)
    ensures
        valid_masses(m) <==> forall|i: int| !fault_at(m, i),
{
    if valid_masses(m) {
        assert forall|i: int| !fault_at(m, i) by {
            lemma_cumulative_bounds(m, i);
        }
    }
    if forall|i: int| !fault_at(m, i) {
        assert(non_negative(m)) by {
            assert forall|i: int| 0 <= i < m.len() implies m[i] >= 0 by {
                assert(!fault_at(m, i));
            }
        }
        if m.len() > 0 {
            assert(!fault_at(m, m.len() - 1));
        }
    }
}

/// The partial mean up to `v` is at most `v` times the mass up to `v`.
pub proof fn lemma_partial_mean_bound(m: Seq<i64>, v: int)
    requires
        non_negative(m),
    ensures
        0 <= partial_mean(m, v),
        v >= 0 ==> partial_mean(m, v) <= cumulative(m, v) * v,
    decreases v + 1,
{
    if v >= 0 {
        lemma_partial_mean_bound(m, v - 1);
        lemma_cumulative_monotone(m, -1, v - 1);
        let c = cumulative(m, v - 1);
        let p = mass_at(m, v);
        assert(0 <= p * v && c * (v - 1) <= c * v && c * v + p * v == (c + p) * v)
            by (nonlinear_arith)
            requires
                0 <= c,
                0 <= p,
                0 <= v,
        ;
    }
}

/// Raising the cap by one raises the expectation by the mass that lies above
/// the old cap.
pub proof fn lemma_expectation_step(m: Seq<i64>, v: int)
    requires
        v >= -1,
    ensures
        truncated_expectation(m, v + 1) == truncated_expectation(m, v) + (ONE - cumulative(m, v)),
{
    let c = cumulative(m, v);
    let p = mass_at(m, v + 1);
    let one = ONE as int;
    assert(p * (v + 1) + (one - (c + p)) * (v + 1) == (one - c) * v + (one - c))
        by (nonlinear_arith);
}

/// The expectation of a variable capped at `v` lies between zero and `v`.
pub proof fn lemma_expectation_bounds(m: Seq<i64>, v: int)
    requires
        valid_masses(m),
        0 <= v,
    ensures
        0 <= truncated_expectation(m, v) <= v * ONE,
{
    lemma_partial_mean_bound(m, v);
    lemma_cumulative_bounds(m, v);
    let c = cumulative(m, v);
    let one = ONE as int;
    assert(0 <= (one - c) * v && c * v + (one - c) * v == v * one) by (nonlinear_arith)
        requires
            0 <= c <= one,
            0 <= v,
    ;
}

/// The expectation of a capped variable does not shrink as the cap grows.
pub proof fn lemma_expectation_monotone(m: Seq<i64>, v: int, w: int)
    requires
        valid_masses(m),
        0 <= v <= w,
    ensures
        truncated_expectation(m, v) <= truncated_expectation(m, w),
    decreases w - v,
{
    if v < w {
        lemma_expectation_monotone(m, v, w - 1);
        lemma_expectation_step(m, w - 1);
        lemma_cumulative_bounds(m, w - 1);
    }
}

/// Why a table of masses was turned down, with the first entry at fault.
#[derive(Clone, Copy, Debug, PartialEq, Eq, Structural)]
pub enum MassError {
    /// The entry at this index is negative.
    Negative(usize),
    /// The entries up to and including this index add up to more than one.
    Excess(usize),
}

impl MassError {
    /// The index of the entry at fault.
    pub open spec fn index(self) -> int {
        match self {
            MassError::Negative(i) => i as int,
            MassError::Excess(i) => i as int,
        }
    }
}

/// A table of point masses together with its running totals.
pub struct Distribution {
    pub mass: Vec<i64>,
    pub total: Vec<i64>,
}

impl View for Distribution {
    type V = Seq<i64>;

    open spec fn view(&self) -> Seq<i64> {
        self.mass@
    }
}

impl Distribution {
    /// The masses are valid and each running total is the mass up to its
    /// index.
    pub open spec fn wf(&self) -> bool {
        &&& valid_masses(self.mass@)
        &&& self.total@.len() == self.mass@.len()
        &&& forall|i: int| 0 <= i < self.total@.len() ==> self.total@[i] == cumulative(self.mass@, i)
    }

    /// The distribution with the masses `mass`, where they are valid; else
    /// the first entry at fault.
    pub fn new(mass: Vec<i64>) -> (r: Result<Distribution, MassError>)
        ensures
            r is Ok <==> valid_masses(mass@),
            match r {
                Ok(d) => d.wf() && d@ == mass@,
                Err(e) => {
                    &&& fault_at(mass@, e.index())
                    &&& forall|j: int| 0 <= j < e.index() ==> !fault_at(mass@, j)
                    &&& e is Negative <==> mass@[e.index()] < 0
                },
            },
    {
        let mut total: Vec<i64> = Vec::with_capacity(mass.len());
        let mut sum: i64 = 0;
        let mut i: usize = 0;
        while i < mass.len()
            invariant
                i <= mass.len(),
                total@.len() == i,
                sum == cumulative(mass@, i - 1),
                0 <= sum <= ONE,
                forall|j: int| 0 <= j < i ==> total@[j] == cumulative(mass@, j),
                forall|j: int| 0 <= j < i ==> !fault_at(mass@, j),
            decreases mass.len() - i,
        {
            let p: i64 = mass[i];
            if p < 0 {
                proof {
                    lemma_valid_iff_faultless(mass@);
                }
                return Err(MassError::Negative(i));
            }
            if p > ONE - sum {
                proof {
                    assert(cumulative(mass@, i as int) == sum + p);
                    assert(fault_at(mass@, i as int));
                    lemma_valid_iff_faultless(mass@);
                }
                return Err(MassError::Excess(i));
            }
            sum = sum + p;
            total.push(sum);
            i = i + 1;
        }
        proof {
            lemma_valid_iff_faultless(mass@);
        }
        Ok(Distribution { mass, total })
    }

    /// The mass at `k`.
    pub fn pmf(&self, k: usize) -> (p: i64)
        ensures
            p == mass_at(self@, k as int),
    {
        if k < self.mass.len() {
            self.mass[k]
        } else {
            0
        }
    }

    /// The mass of `0 ..= k` taken together.
    pub fn cdf(&self, k: usize) -> (c: i64)
        requires
            self.wf(),
        ensures
            c == cumulative(self@, k as int),
    {
        let n: usize = self.total.len();
        if k < n {
            self.total[k]
        } else if n == 0 {
            proof {
                lemma_cumulative_saturates(self@, k as int);
            }
            0
        } else {
            proof {
                lemma_cumulative_saturates(self@, k as int);
            }
            self.total[n - 1]
        }
    }

    /// The expectation of the smaller of `v` and a variable of this
    /// distribution.
    pub fn expected_count(&self, v: i32) -> (r: i64)
        requires
            self.wf(),
            0 <= v,
        ensures
            r == truncated_expectation(self@, v as int),
            0 <= r <= v * ONE,
    {
        let cap: usize = v as usize;
        let mut sum: i64 = 0;
        let mut n: usize = 0;
        while n <= cap
            invariant
                self.wf(),
                cap == v,
                0 <= v,
                n <= cap + 1,
                sum == partial_mean(self@, n - 1),
            decreases cap + 1 - n,
        {
            let p: i64 = self.pmf(n);
            proof {
                lemma_partial_mean_bound(self@, n as int);
                lemma_cumulative_bounds(self@, n as int);
                lemma_cumulative_bounds(self@, n - 1);
                let c = cumulative(self@, n as int);
                assert(c * n <= ONE * v && 0 <= p * n <= ONE * v) by (nonlinear_arith)
                    requires
                        0 <= c <= ONE,
                        0 <= p <= ONE,
                        0 <= n <= v,
                ;
            }
            sum = sum + p * (n as i64);
            n = n + 1;
        }
        let c: i64 = self.cdf(cap);
        proof {
            lemma_expectation_bounds(self@, v as int);
            lemma_cumulative_bounds(self@, v as int);
            lemma_partial_mean_bound(self@, v as int);
            assert(0 <= (ONE - c) * v <= ONE * v) by (nonlinear_arith)
                requires
                    0 <= c <= ONE,
                    0 <= v,
            ;
        }
        sum + (ONE - c) * (v as i64)
    }
}

} // verus!
