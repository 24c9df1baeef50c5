use std::collections::HashMap;
use std::marker::PhantomData;

use vstd::prelude::*;

use crate::error::PdsError;
use crate::events::traits::{
    epochs_after_add, epochs_view, events_view, EpochEvents, Event, EventStorage,
    RelevantEventSelector,
};

verus! {

broadcast use vstd::std_specs::hash::group_hash_axioms;

/// The events of one epoch, in order of arrival.
pub type VecEpochEvents<E> = Vec<E>;

impl<E> EpochEvents for Vec<E> {
    open spec fn spec_is_empty(&self) -> bool {
        self@.len() == 0
    }

    fn is_empty(&self) -> (r: bool) {
        self.len() == 0
    }
}

/// In-memory event storage: a hash map from epoch id to the events of that
/// epoch. Retrieval returns copies.
#[derive(Debug)]
pub struct HashMapEventStorage<E, RES> {
    epochs: HashMap<usize, Vec<E>>,
    _phantom: PhantomData<RES>,
}

impl<E, RES> HashMapEventStorage<E, RES> {
    /// The stored events, by epoch.
    pub closed spec fn epoch_map(&self) -> Map<usize, Vec<E>> {
        self.epochs@
    }
}

impl<E: Event, RES: RelevantEventSelector<Event = E>> HashMapEventStorage<E, RES> {
    /// An empty storage.
    pub fn new() -> (r: Self)
        ensures
            r.epochs() == Map::<usize, Seq<E::V>>::empty(),
    {
        let r = Self { epochs: HashMap::new(), _phantom: PhantomData };
        assert(r.epochs() =~= Map::<usize, Seq<E::V>>::empty());
        r
    }
}

impl<E: Event, RES: RelevantEventSelector<Event = E>> EventStorage for HashMapEventStorage<E, RES> {
    type Event = E;
    type RelevantEventSelector = RES;
    type Error = PdsError;

    open spec fn epochs(&self) -> Map<usize, Seq<E::V>> {
        epochs_view(self.epoch_map())
    }

    /// Nothing fails in memory.
    open spec fn is_infallible(&self) -> bool {
        true
    }

    fn add_event(&mut self, event: E) -> (r: Result<(), PdsError>)
        ensures
            r is Ok,
    {
        let epoch_id = event.get_epoch_id();
        let mut events = match self.epochs.remove(&epoch_id) {
            Some(events) => events,
            None => Vec::new(),
        };
        proof {
            let before = if old(self).epochs().contains_key(epoch_id) {
                old(self).epochs()[epoch_id]
            } else {
                Seq::empty()
            };
            assert(events_view(events@) =~= before);
        }
        let ghost pre = events@;
        events.push(event);
        proof {
            assert(events_view(events@) =~= events_view(pre).push(event@));
        }
        self.epochs.insert(epoch_id, events);
        assert(self.epochs() =~= epochs_after_add::<E>(old(self).epochs(), event@));
        Ok(())
    }

    fn get_relevant_epoch_events(&self, epoch_id: &usize, relevant_event_selector: &RES) -> (r:
        Result<Option<Vec<E>>, PdsError>)
        ensures
            r is Ok,
    {
        match self.epochs.get(epoch_id) {
            None => Ok(None),
            Some(events) => {
                let mut relevant: Vec<E> = Vec::new();
                let mut i: usize = 0;
                while i < events.len()
                    invariant
                        i <= events@.len(),
                        events_view(relevant@) == events_view(events@.take(i as int)).filter(
                            |v| relevant_event_selector.spec_is_relevant(v),
                        ),
                    decreases events@.len() - i,
                {
                    let ghost pre = relevant@;
                    let keep = relevant_event_selector.is_relevant_event(&events[i]);
                    if keep {
                        relevant.push(events[i].clone_event());
                        assert(events_view(relevant@) =~= events_view(pre).push(events@[i as int]@));
                    }
                    proof {
                        let s = events_view(events@.take(i as int));
                        assert(events_view(events@.take(i + 1)) =~= s.push(events@[i as int]@));
                        s.lemma_filter_push(
                            events@[i as int]@,
                            |v| relevant_event_selector.spec_is_relevant(v),
                        );
                    }
                    i += 1;
                }
                assert(events@.take(i as int) =~= events@);
                Ok(Some(relevant))
            },
        }
    }
}

} // verus!
