use std::collections::HashMap;
use std::marker::PhantomData;

use vstd::prelude::*;

use crate::budget::pure_dp_filter::{pure_dp_consume, PureDPBudget, PureDPBudgetFilter};
use crate::budget::traits::{Filter, FilterStatus, FilterStorage};
use crate::error::PdsError;

verus! {

broadcast use vstd::std_specs::hash::group_hash_axioms;

/// In-memory filter storage: a hash map from filter id to filter.
#[derive(Debug)]
pub struct HashMapFilterStorage<K, F, Budget> {
    filters: HashMap<K, F>,
    _marker: PhantomData<Budget>,
}

impl<K, F, Budget> HashMapFilterStorage<K, F, Budget> {
    /// The filters held, by id.
    pub closed spec fn filter_map(&self) -> Map<K, F> {
        self.filters@
    }

    /// An empty storage.
    pub fn new() -> (r: Self)
        ensures
            r.filter_map() == Map::<K, F>::empty(),
    {
        Self { filters: HashMap::new(), _marker: PhantomData }
    }
}

impl FilterStorage for HashMapFilterStorage<usize, PureDPBudgetFilter, PureDPBudget> {
    type FilterId = usize;
    type Budget = PureDPBudget;
    type Error = PdsError;

    open spec fn filters(&self) -> Map<usize, PureDPBudget> {
        self.filter_map().map_values(|f: PureDPBudgetFilter| f.remaining_budget)
    }

    /// Nothing fails in memory.
    open spec fn is_infallible(&self) -> bool {
        true
    }

    open spec fn consume_spec(remaining: PureDPBudget, requested: PureDPBudget) -> (
        FilterStatus,
        PureDPBudget,
    ) {
        pure_dp_consume(remaining, requested)
    }

    fn new_filter(&mut self, filter_id: usize, capacity: PureDPBudget) -> (r: Result<(), PdsError>)
        ensures
            r is Ok,
    {
        let filter = PureDPBudgetFilter::new(capacity)?;
        self.filters.insert(filter_id, filter);
        assert(self.filters() =~= old(self).filters().insert(filter_id, capacity));
        Ok(())
    }

    fn is_initialized(&mut self, filter_id: &usize) -> (r: Result<bool, PdsError>)
        ensures
            r is Ok,
    {
        Ok(self.filters.contains_key(filter_id))
    }

    fn check_and_consume(&mut self, filter_id: &usize, budget: &PureDPBudget) -> (r: Result<
        FilterStatus,
        PdsError,
    >)
        ensures
            old(self).filters().contains_key(*filter_id) <==> r is Ok,
    {
        match self.filters.remove(filter_id) {
            None => Err(PdsError::FilterNotInitialized),
            Some(mut filter) => {
                let status = filter.check_and_consume(budget);
                self.filters.insert(*filter_id, filter);
                assert(self.filters() =~= old(self).filters().insert(
                    *filter_id,
                    filter.remaining_budget,
                ));
                status
            },
        }
    }

    fn get_remaining_budget(&self, filter_id: &usize) -> (r: Result<PureDPBudget, PdsError>) {
        match self.filters.get(filter_id) {
            None => Err(PdsError::FilterDoesNotExist),
            Some(filter) => filter.get_remaining_budget(),
        }
    }
}

} // verus!
