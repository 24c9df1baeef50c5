use vstd::prelude::*;

verus! {

/// Marker trait for epoch identifiers. Epochs are numbered by `usize`.
pub trait EpochId {}

impl EpochId for usize {}

/// An event with an associated epoch.
///
/// Contracts speak of an event through its view, so that an event with
/// owned fields (strings, vectors) can be copied with a known result.
pub trait Event: Sized + View {
    /// The epoch of an event, read from its view.
    spec fn epoch_of(v: Self::V) -> usize;

    fn get_epoch_id(&self) -> (r: usize)
        ensures
            r == Self::epoch_of(self@),
    ;

    /// A copy of the event.
    fn clone_event(&self) -> (r: Self)
        ensures
            r@ == self@,
    ;
}

/// Collection of the events of one epoch.
pub trait EpochEvents {
    spec fn spec_is_empty(&self) -> bool;

    fn is_empty(&self) -> (r: bool)
        ensures
            r == self.spec_is_empty(),
    ;
}

/// Selector that tags relevant events one by one. Can carry immutable
/// state.
pub trait RelevantEventSelector {
    type Event: Event;

    /// Whether an event (given by its view) is relevant.
    spec fn spec_is_relevant(&self, event: <Self::Event as View>::V) -> bool;

    /// Checks whether a single event is relevant.
    fn is_relevant_event(&self, event: &Self::Event) -> (r: bool)
        ensures
            r == self.spec_is_relevant(event@),
    ;
}

/// The views of a sequence of events.
pub open spec fn events_view<E: View>(events: Seq<E>) -> Seq<E::V> {
    events.map_values(|e: E| e@)
}

/// The views of the events of each epoch.
pub open spec fn epochs_view<E: View>(epochs: Map<usize, Vec<E>>) -> Map<usize, Seq<E::V>> {
    epochs.map_values(|events: Vec<E>| events_view(events@))
}

/// Whether no epoch of `per_epoch` holds an event.
pub open spec fn all_epochs_empty<V>(per_epoch: Map<usize, Seq<V>>) -> bool {
    forall|e: usize| #[trigger] per_epoch.contains_key(e) ==> per_epoch[e].len() == 0
}

/// Events per epoch after `event` was appended to the sequence of its epoch.
pub open spec fn epochs_after_add<E: Event>(epochs: Map<usize, Seq<E::V>>, event: E::V) -> Map<
    usize,
    Seq<E::V>,
> {
    let epoch = E::epoch_of(event);
    let before = if epochs.contains_key(epoch) {
        epochs[epoch]
    } else {
        Seq::empty()
    };
    epochs.insert(epoch, before.push(event))
}

/// Interface to store events and retrieve them by epoch.
pub trait EventStorage {
    type Event: Event;
    type RelevantEventSelector: RelevantEventSelector<Event = Self::Event>;
    type Error;

    /// The stored events of each epoch that has received one, in order of
    /// arrival.
    spec fn epochs(&self) -> Map<usize, Seq<<Self::Event as View>::V>>;

    /// Whether the storage never fails (an in-memory storage); a storage on
    /// a device or a network may fail at any call.
    spec fn is_infallible(&self) -> bool;

    /// Stores a new event.
    fn add_event(&mut self, event: Self::Event) -> (r: Result<(), Self::Error>)
        ensures
            r is Ok ==> final(self).epochs() == epochs_after_add::<Self::Event>(
                old(self).epochs(),
                event@,
            ),
            r is Err ==> final(self).epochs() == old(self).epochs(),
            old(self).is_infallible() ==> r is Ok && final(self).is_infallible(),
    ;

    /// The relevant events of an epoch, in order; `None` if the epoch never
    /// received an event.
    fn get_relevant_epoch_events(
        &self,
        epoch_id: &usize,
        relevant_event_selector: &Self::RelevantEventSelector,
    ) -> (r: Result<Option<Vec<Self::Event>>, Self::Error>)
        ensures
            r matches Ok(found) ==> {
                &&& found is None <==> !self.epochs().contains_key(*epoch_id)
                &&& found matches Some(events) ==> events_view(events@) == self.epochs()[
                    *epoch_id
                ].filter(|v| relevant_event_selector.spec_is_relevant(v))
            },
            self.is_infallible() ==> r is Ok,
    ;
}

} // verus!
