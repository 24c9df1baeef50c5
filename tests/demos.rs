use std::marker::PhantomData;

use pdslib::budget::hashmap_filter_storage::HashMapFilterStorage;
use pdslib::budget::pure_dp_filter::{PureDPBudget, PureDPBudgetFilter};
use pdslib::error::PdsError;
use pdslib::events::ara_event::AraEvent;
use pdslib::events::hashmap_event_storage::HashMapEventStorage;
use pdslib::events::simple_event::SimpleEvent;
use pdslib::mechanisms::UNIT;
use pdslib::pds::epoch_pds::EpochPrivateDataService;
use pdslib::queries::ara_histogram::{AraHistogramRequest, AraRelevantEventSelector};
use pdslib::queries::simple_last_touch_histogram::{
    SimpleLastTouchHistogramRequest, SimpleRelevantEventSelector,
};

fn always_relevant_event() -> SimpleRelevantEventSelector {
    SimpleRelevantEventSelector {
        min_event_key: 0,
        max_event_key: usize::MAX,
    }
}

#[test]
fn ara_demo_main() {
    let events = HashMapEventStorage::<AraEvent, AraRelevantEventSelector>::new();
    let filters: HashMapFilterStorage<usize, PureDPBudgetFilter, PureDPBudget> =
        HashMapFilterStorage::new();

    let mut pds = EpochPrivateDataService {
        filter_storage: filters,
        event_storage: events,
        epoch_capacity: PureDPBudget::Epsilon(3 * UNIT),
        _phantom_request: PhantomData::<AraHistogramRequest>,
        _phantom_error: PhantomData::<PdsError>,
    };

    let sources1 = vec![
        ("campaignCounts".to_string(), 0x159),
        ("geoValue".to_string(), 0x5),
    ];

    let event1 = AraEvent {
        id: 1,
        epoch_number: 1,
        aggregatable_sources: sources1,
    };

    pds.register_event(event1.clone()).unwrap();

    // Test basic attribution
    let request1 = AraHistogramRequest {
        start_epoch: 1,
        end_epoch: 2,
        per_event_attributable_value: 32768 * UNIT,
        attributable_value: 65536 * UNIT,
        noise_scale: 65536 * UNIT,
        source_key: "campaignCounts".to_string(),
        trigger_keypiece: 0x400,
        filters: AraRelevantEventSelector { filters: vec![] }, // Not filtering yet.
    };

    let report1 = pds.compute_report(request1).unwrap();
    println!("Report1: {:?}", report1);

    // One event attributed to the binary OR of the source keypiece and trigger
    // keypiece = 0x159 | 0x400
    assert!(report1.contains_key(&0x559));
    assert_eq!(report1.get(&0x559), Some(32768 * UNIT));
}

#[test]
fn ppa_workflow_main() {
    // Set up storage and Private Data Service.
    let events = HashMapEventStorage::<SimpleEvent, SimpleRelevantEventSelector>::new();
    let filters: HashMapFilterStorage<usize, PureDPBudgetFilter, PureDPBudget> =
        HashMapFilterStorage::new();

    let mut pds = EpochPrivateDataService {
        filter_storage: filters,
        event_storage: events,
        epoch_capacity: PureDPBudget::Epsilon(3 * UNIT),
        _phantom_request: PhantomData::<SimpleLastTouchHistogramRequest>,
        _phantom_error: PhantomData::<PdsError>,
    };

    // Create an impression (event, with very basic metadata).
    let event = SimpleEvent {
        id: 1,
        epoch_number: 1,
        event_key: 3,
    };

    // Save impression.
    pds.register_event(event.clone()).unwrap();

    // The noise scale is the query's global sensitivity over the requested
    // epsilon.
    let query_global_sensitivity = 100 * UNIT;
    let requested_epsilon = 1;
    let laplace_noise_scale = query_global_sensitivity / requested_epsilon;

    // Can depend on what the querier knows about this conversion.
    let report_global_sensitivity = 70 * UNIT;

    // Relevant events: those whose key is greater than 1.
    let is_relevant_event = SimpleRelevantEventSelector {
        min_event_key: 2,
        max_event_key: usize::MAX,
    };

    // Create a request to measure a conversion (report request).
    let report_request = SimpleLastTouchHistogramRequest {
        epoch_start: 1,
        epoch_end: 4,
        attributable_value: report_global_sensitivity,
        laplace_noise_scale,
        selector: is_relevant_event,
    };

    // Measure conversion.
    let report = pds.compute_report(report_request).unwrap();

    // Look at the histogram stored in the report (unencrypted here).
    assert_eq!(report.bin_value, Some((event.event_key, 70 * UNIT)));
}

#[test]
fn simple_events_demo_main() {
    let events = HashMapEventStorage::<SimpleEvent, SimpleRelevantEventSelector>::new();
    let filters: HashMapFilterStorage<usize, PureDPBudgetFilter, PureDPBudget> =
        HashMapFilterStorage::new();

    let mut pds = EpochPrivateDataService {
        filter_storage: filters,
        event_storage: events,
        epoch_capacity: PureDPBudget::Epsilon(3 * UNIT),
        _phantom_request: PhantomData::<SimpleLastTouchHistogramRequest>,
        _phantom_error: PhantomData::<PdsError>,
    };

    let event = SimpleEvent {
        id: 1,
        epoch_number: 1,
        event_key: 3,
    };
    let event2 = SimpleEvent {
        id: 1,
        epoch_number: 2,
        event_key: 3,
    };
    let event3 = SimpleEvent {
        id: 2,
        epoch_number: 2,
        event_key: 3,
    };
    let event4 = SimpleEvent {
        id: 1,
        epoch_number: 3,
        event_key: 3,
    };

    pds.register_event(event.clone()).unwrap();
    let report_request = SimpleLastTouchHistogramRequest {
        epoch_start: 1,
        epoch_end: 1,
        attributable_value: 3 * UNIT,
        laplace_noise_scale: UNIT,
        selector: always_relevant_event(),
    };
    let report = pds.compute_report(report_request).unwrap();
    let bucket = Some((event.event_key, 3 * UNIT));
    assert_eq!(report.bin_value, bucket);

    // Test having multiple events in one epoch
    pds.register_event(event2.clone()).unwrap();

    let report_request2 = SimpleLastTouchHistogramRequest {
        epoch_start: 1,
        epoch_end: 1, // test restricting the end epoch
        attributable_value: UNIT / 10, // epoch 1 has no budget left, so even 0.1 is too much
        laplace_noise_scale: UNIT,
        selector: always_relevant_event(),
    };
    let report2 = pds.compute_report(report_request2).unwrap();
    // The capacity 3.0 of epoch 1 was spent by the first request: the null
    // report comes back.
    assert_eq!(report2.bin_value, None);

    let report_request2 = SimpleLastTouchHistogramRequest {
        epoch_start: 1,
        epoch_end: 2,
        attributable_value: 3 * UNIT,
        laplace_noise_scale: UNIT,
        selector: always_relevant_event(),
    };
    let report2 = pds.compute_report(report_request2).unwrap();
    let bucket2 = Some((event2.event_key, 3 * UNIT));
    assert_eq!(report2.bin_value, bucket2);

    // Test request for epoch empty yet.
    let report_request3_empty = SimpleLastTouchHistogramRequest {
        epoch_start: 3, // Epoch 3 not created yet.
        epoch_end: 3,   // Epoch 3 not created yet.
        attributable_value: 0,
        laplace_noise_scale: UNIT,
        selector: always_relevant_event(),
    };
    let report3_empty = pds.compute_report(report_request3_empty).unwrap();
    assert_eq!(report3_empty.bin_value, None);

    // Test restricting attributable_value
    pds.register_event(event4.clone()).unwrap();
    let report_request3_over_budget = SimpleLastTouchHistogramRequest {
        epoch_start: 1,
        epoch_end: 3,
        attributable_value: 4 * UNIT,
        laplace_noise_scale: UNIT,
        selector: always_relevant_event(),
    };
    let report3_over_budget = pds.compute_report(report_request3_over_budget).unwrap();
    assert_eq!(report3_over_budget.bin_value, None);

    // The first event met is in epoch 3, whose budget is still unused.
    let report_request3 = SimpleLastTouchHistogramRequest {
        epoch_start: 1,
        epoch_end: 3,
        attributable_value: 3 * UNIT,
        laplace_noise_scale: UNIT,
        selector: always_relevant_event(),
    };
    let report3 = pds.compute_report(report_request3).unwrap();
    let bucket3 = Some((event3.event_key, 3 * UNIT));
    assert_eq!(report3.bin_value, bucket3);

    // Check that irrelevant events are ignored
    let report_request4 = SimpleLastTouchHistogramRequest {
        epoch_start: 1,
        epoch_end: 3,
        attributable_value: 3 * UNIT,
        laplace_noise_scale: UNIT,
        selector: SimpleRelevantEventSelector {
            min_event_key: 1,
            max_event_key: 1,
        },
    };
    let report4 = pds.compute_report(report_request4).unwrap();
    let bucket4: Option<(usize, u64)> = None;
    assert_eq!(report4.bin_value, bucket4);
}
