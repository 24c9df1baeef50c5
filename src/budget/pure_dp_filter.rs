use vstd::prelude::*;

use crate::budget::traits::{Budget, Filter, FilterStatus};
use crate::error::PdsError;

verus! {

/// A budget for pure differential privacy, with support for infinite budget.
///
/// Infinite budget serves noiseless requests, and filters whose capacity is
/// `Infinite` accept every request. A finite epsilon is a fixed-point number
/// (see [`crate::mechanisms::UNIT`]).
#[derive(Debug, Clone, Copy, PartialEq, Eq, Structural)]
pub enum PureDPBudget {
    /// Infinite budget, for filters with no set capacity or requests that
    /// add no noise.
    Infinite,
    /// Finite pure-DP epsilon, in fixed point.
    Epsilon(u64),
}

impl Budget for PureDPBudget {}

/// Status and remaining budget after asking `requested` from a filter that
/// holds `remaining`.
pub open spec fn pure_dp_consume(remaining: PureDPBudget, requested: PureDPBudget) -> (
    FilterStatus,
    PureDPBudget,
) {
    match remaining {
        PureDPBudget::Infinite => (FilterStatus::Continue, remaining),
        PureDPBudget::Epsilon(r) => match requested {
            PureDPBudget::Epsilon(q) => if q <= r {
                (FilterStatus::Continue, PureDPBudget::Epsilon((r - q) as u64))
            } else {
                (FilterStatus::OutOfBudget, remaining)
            },
            PureDPBudget::Infinite => (FilterStatus::OutOfBudget, remaining),
        },
    }
}

/// The remaining budget after asking each of `requests` in turn from a
/// filter that holds `remaining`.
pub open spec fn remaining_after(remaining: PureDPBudget, requests: Seq<PureDPBudget>) -> PureDPBudget
    decreases requests.len(),
{
    if requests.len() == 0 {
        remaining
    } else {
        pure_dp_consume(remaining_after(remaining, requests.drop_last()), requests.last()).1
    }
}

/// The sum of the epsilons of those of `requests` that were granted
/// (answered `Continue`), asked in turn from a filter that holds
/// `remaining`.
pub open spec fn granted_epsilon(remaining: PureDPBudget, requests: Seq<PureDPBudget>) -> nat
    decreases requests.len(),
{
    if requests.len() == 0 {
        0
    } else {
        let before = remaining_after(remaining, requests.drop_last());
        let granted = pure_dp_consume(before, requests.last()).0 == FilterStatus::Continue;
        granted_epsilon(remaining, requests.drop_last()) + match requests.last() {
            PureDPBudget::Epsilon(q) => if granted {
                q as nat
            } else {
                0
            },
            PureDPBudget::Infinite => 0,
        }
    }
}

/// A finite filter never grants more than its capacity: after any
/// sequence of check-and-consume requests, the granted epsilons add up to
/// at most the capacity, and what remains is the capacity minus them.
///
/// Each call of `check_and_consume` moves the remaining budget by
/// `pure_dp_consume`, so `remaining_after` is what a filter holds after a
/// sequence of calls.
pub proof fn lemma_finite_filter_accounting(capacity: u64, requests: Seq<PureDPBudget>)
    ensures
        granted_epsilon(PureDPBudget::Epsilon(capacity), requests) <= capacity,
        remaining_after(PureDPBudget::Epsilon(capacity), requests) == PureDPBudget::Epsilon(
            (capacity - granted_epsilon(PureDPBudget::Epsilon(capacity), requests)) as u64,
        ),
    decreases requests.len(),
{
    if requests.len() > 0 {
        lemma_finite_filter_accounting(capacity, requests.drop_last());
    }
}

/// An out-of-budget answer leaves the remaining budget as it was.
pub proof fn lemma_out_of_budget_keeps_remaining(remaining: PureDPBudget, requested: PureDPBudget)
    ensures
        pure_dp_consume(remaining, requested).0 == FilterStatus::OutOfBudget
            ==> pure_dp_consume(remaining, requested).1 == remaining,
{
}

/// An infinite request is granted by an infinite filter and refused by
/// every finite one.
pub proof fn lemma_infinite_request(remaining: PureDPBudget)
    ensures
        remaining is Infinite ==> pure_dp_consume(remaining, PureDPBudget::Infinite).0
            == FilterStatus::Continue,
        remaining is Epsilon ==> pure_dp_consume(remaining, PureDPBudget::Infinite).0
            == FilterStatus::OutOfBudget,
{
}

/// A filter for pure differential privacy.
#[derive(Debug)]
pub struct PureDPBudgetFilter {
    pub remaining_budget: PureDPBudget,
}

impl Filter<PureDPBudget> for PureDPBudgetFilter {
    type Error = PdsError;

    open spec fn remaining(&self) -> PureDPBudget {
        self.remaining_budget
    }

    open spec fn consume_spec(remaining: PureDPBudget, requested: PureDPBudget) -> (
        FilterStatus,
        PureDPBudget,
    ) {
        pure_dp_consume(remaining, requested)
    }

    fn new(capacity: PureDPBudget) -> (r: Result<Self, PdsError>)
        ensures
            r is Ok,
    {
        Ok(PureDPBudgetFilter { remaining_budget: capacity })
    }

    fn check_and_consume(&mut self, budget: &PureDPBudget) -> (r: Result<FilterStatus, PdsError>)
        ensures
            r is Ok,
    {
        // Infinite is checked by hand: budgets have no general order or
        // subtraction, only this one comparison.
        let status = match self.remaining_budget {
            // Infinite filters accept every request, infinite ones too.
            PureDPBudget::Infinite => FilterStatus::Continue,
            PureDPBudget::Epsilon(remaining_epsilon) => match budget {
                PureDPBudget::Epsilon(requested_epsilon) => {
                    if *requested_epsilon <= remaining_epsilon {
                        self.remaining_budget = PureDPBudget::Epsilon(
                            remaining_epsilon - *requested_epsilon,
                        );
                        FilterStatus::Continue
                    } else {
                        FilterStatus::OutOfBudget
                    }
                },
                // Infinite requests on finite filters are always rejected.
                PureDPBudget::Infinite => FilterStatus::OutOfBudget,
            },
        };
        Ok(status)
    }

    fn get_remaining_budget(&self) -> (r: Result<PureDPBudget, PdsError>)
        ensures
            r is Ok,
    {
        Ok(self.remaining_budget)
    }
}

} // verus!
