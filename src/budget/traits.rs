use vstd::prelude::*;

verus! {

/// Marker trait for privacy budgets.
pub trait Budget: Sized {}

/// Outcome of a check-and-consume on a filter.
#[derive(Debug, Clone, Copy, PartialEq, Eq, Structural)]
pub enum FilterStatus {
    /// The budget was available and has been consumed.
    Continue,
    /// The budget was not available; nothing was consumed.
    OutOfBudget,
}

/// A privacy filter: it holds a remaining budget and consumes from it.
///
/// In the formalism of privacy filters, `Continue` is CONTINUE and
/// `OutOfBudget` is HALT.
pub trait Filter<T: Budget>: Sized {
    type Error;

    /// The budget that the filter still holds.
    spec fn remaining(&self) -> T;

    /// Status and remaining budget after asking `requested` from a filter
    /// that holds `remaining`.
    spec fn consume_spec(remaining: T, requested: T) -> (FilterStatus, T);

    /// Initializes a new filter with a given capacity.
    fn new(capacity: T) -> (r: Result<Self, Self::Error>)
        ensures
            r matches Ok(f) ==> f.remaining() == capacity,
    ;

    /// Tries to consume a given budget from the filter.
    fn check_and_consume(&mut self, budget: &T) -> (r: Result<FilterStatus, Self::Error>)
        ensures
            r matches Ok(s) ==> (s, final(self).remaining()) == Self::consume_spec(
                old(self).remaining(),
                *budget,
            ),
            r is Err ==> final(self).remaining() == old(self).remaining(),
    ;

    /// Gets the remaining budget of this filter. For local inspection only:
    /// it must not leave the device.
    fn get_remaining_budget(&self) -> (r: Result<T, Self::Error>)
        ensures
            r matches Ok(b) ==> b == self.remaining(),
    ;
}

/// A collection of filters, one per filter id.
pub trait FilterStorage: Sized {
    type FilterId;
    type Budget;
    type Error;

    /// The remaining budget of each filter that exists.
    spec fn filters(&self) -> Map<Self::FilterId, Self::Budget>;

    /// Whether the storage never fails but where its contract says it must
    /// (an in-memory storage); a storage on a device or a network may fail
    /// at any call.
    spec fn is_infallible(&self) -> bool;

    /// Status and remaining budget after asking `requested` from a filter
    /// that holds `remaining`.
    spec fn consume_spec(remaining: Self::Budget, requested: Self::Budget) -> (
        FilterStatus,
        Self::Budget,
    );

    /// Initializes a new filter with an associated filter id and capacity,
    /// replacing any filter with that id.
    fn new_filter(&mut self, filter_id: Self::FilterId, capacity: Self::Budget) -> (r: Result<
        (),
        Self::Error,
    >)
        ensures
            r is Ok ==> final(self).filters() == old(self).filters().insert(filter_id, capacity),
            r is Err ==> final(self).filters() == old(self).filters(),
            old(self).is_infallible() ==> r is Ok && final(self).is_infallible(),
    ;

    /// Checks whether filter `filter_id` exists.
    fn is_initialized(&mut self, filter_id: &Self::FilterId) -> (r: Result<bool, Self::Error>)
        ensures
            final(self).filters() == old(self).filters(),
            r matches Ok(b) ==> b == old(self).filters().contains_key(*filter_id),
            old(self).is_infallible() ==> r is Ok && final(self).is_infallible(),
    ;

    /// Tries to consume a given budget from the filter with id `filter_id`.
    /// Fails if that filter does not exist.
    fn check_and_consume(&mut self, filter_id: &Self::FilterId, budget: &Self::Budget) -> (r:
        Result<FilterStatus, Self::Error>)
        ensures
            !old(self).filters().contains_key(*filter_id) ==> r is Err,
            old(self).is_infallible() && old(self).filters().contains_key(*filter_id) ==> r is Ok,
            old(self).is_infallible() ==> final(self).is_infallible(),
            r is Err ==> final(self).filters() == old(self).filters(),
            r matches Ok(s) ==> {
                let (status, rem) = Self::consume_spec(old(self).filters()[*filter_id], *budget);
                &&& s == status
                &&& final(self).filters() == old(self).filters().insert(*filter_id, rem)
            },
    ;

    /// Gets the remaining budget of a filter; fails if it does not exist.
    fn get_remaining_budget(&self, filter_id: &Self::FilterId) -> (r: Result<
        Self::Budget,
        Self::Error,
    >)
        ensures
            r matches Ok(b) ==> self.filters().contains_key(*filter_id) && b == self.filters()[*filter_id],
            self.is_infallible() && self.filters().contains_key(*filter_id) ==> r is Ok,
            !self.filters().contains_key(*filter_id) ==> r is Err,
    ;
}

} // verus!
