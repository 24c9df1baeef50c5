use pdslib::events::ara_event::AraEvent;
use pdslib::events::hashmap_event_storage::HashMapEventStorage;
use pdslib::events::simple_event::SimpleEvent;
use pdslib::events::traits::{EpochEvents, Event, EventStorage, RelevantEventSelector};
use pdslib::queries::ara_histogram::AraRelevantEventSelector;
use pdslib::queries::simple_last_touch_histogram::SimpleRelevantEventSelector;

#[test]
fn test_simple_event() {
    let event = SimpleEvent {
        id: 1,
        epoch_number: 1,
        event_key: 3,
    };
    assert_eq!(event.id, 1);
}

fn simple(id: usize, epoch_number: usize, event_key: usize) -> SimpleEvent {
    SimpleEvent {
        id,
        epoch_number,
        event_key,
    }
}

#[test]
fn storage_filters_relevant_events_in_order() {
    let mut storage = HashMapEventStorage::<SimpleEvent, SimpleRelevantEventSelector>::new();
    storage.add_event(simple(1, 4, 1)).unwrap();
    storage.add_event(simple(2, 4, 5)).unwrap();
    storage.add_event(simple(3, 5, 9)).unwrap();
    storage.add_event(simple(4, 4, 7)).unwrap();
    let selector = SimpleRelevantEventSelector {
        min_event_key: 2,
        max_event_key: 8,
    };
    let found = storage
        .get_relevant_epoch_events(&4, &selector)
        .unwrap()
        .unwrap();
    assert_eq!(found, vec![simple(2, 4, 5), simple(4, 4, 7)]);
    assert!(!found.is_empty());
}

#[test]
fn storage_distinguishes_unseen_and_irrelevant_epochs() {
    let mut storage = HashMapEventStorage::<SimpleEvent, SimpleRelevantEventSelector>::new();
    storage.add_event(simple(1, 2, 1)).unwrap();
    let selector = SimpleRelevantEventSelector {
        min_event_key: 5,
        max_event_key: 5,
    };
    let irrelevant = storage.get_relevant_epoch_events(&2, &selector).unwrap();
    assert_eq!(irrelevant, Some(vec![]));
    assert!(EpochEvents::is_empty(&irrelevant.unwrap()));
    assert_eq!(storage.get_relevant_epoch_events(&3, &selector).unwrap(), None);
}

#[test]
fn selectors() {
    let range = SimpleRelevantEventSelector {
        min_event_key: 2,
        max_event_key: 3,
    };
    assert!(!range.is_relevant_event(&simple(1, 1, 1)));
    assert!(range.is_relevant_event(&simple(1, 1, 2)));
    assert!(range.is_relevant_event(&simple(1, 1, 3)));
    assert!(!range.is_relevant_event(&simple(1, 1, 4)));
    let empty = SimpleRelevantEventSelector {
        min_event_key: 3,
        max_event_key: 2,
    };
    assert!(!empty.is_relevant_event(&simple(1, 1, 2)));
    let ara = AraRelevantEventSelector { filters: vec![] };
    let event = AraEvent {
        id: 1,
        epoch_number: 1,
        aggregatable_sources: vec![],
    };
    assert!(ara.is_relevant_event(&event));
}

#[test]
fn ara_event_copies_keep_their_sources() {
    let event = AraEvent {
        id: 8,
        epoch_number: 3,
        aggregatable_sources: vec![("a".to_string(), 1), ("b".to_string(), 2)],
    };
    let copy = event.clone_event();
    assert_eq!(copy.id, 8);
    assert_eq!(copy.get_epoch_id(), 3);
    assert_eq!(copy.aggregatable_sources, event.aggregatable_sources);
}
