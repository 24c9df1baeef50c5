use std::collections::HashMap;

use pdslib::events::ara_event::AraEvent;
use pdslib::events::simple_event::SimpleEvent;
use pdslib::mechanisms::{NoiseScale, NormType, UNIT};
use pdslib::queries::ara_histogram::{AraHistogramRequest, AraRelevantEventSelector};
use pdslib::queries::histogram::{HistogramReport, HistogramRequest};
use pdslib::queries::simple_last_touch_histogram::{
    SimpleLastTouchHistogramReport, SimpleLastTouchHistogramRequest, SimpleRelevantEventSelector,
};
use pdslib::queries::traits::{epoch_range_rev, EpochReportRequest, Report};

fn ara_event(id: usize, epoch_number: usize, sources: &[(&str, usize)]) -> AraEvent {
    AraEvent {
        id,
        epoch_number,
        aggregatable_sources: sources.iter().map(|(k, v)| (k.to_string(), *v)).collect(),
    }
}

fn ara_request(start: usize, end: usize, per_event: u64, cap: u64) -> AraHistogramRequest {
    AraHistogramRequest {
        start_epoch: start,
        end_epoch: end,
        per_event_attributable_value: per_event,
        attributable_value: cap,
        noise_scale: cap,
        source_key: "campaignCounts".to_string(),
        trigger_keypiece: 0x400,
        filters: AraRelevantEventSelector { filters: vec![] },
    }
}

#[test]
fn epoch_ranges_run_backwards() {
    assert_eq!(epoch_range_rev(2, 5), vec![5, 4, 3, 2]);
    assert_eq!(epoch_range_rev(3, 3), vec![3]);
    assert_eq!(epoch_range_rev(4, 3), Vec::<usize>::new());
    assert_eq!(epoch_range_rev(0, 1), vec![1, 0]);
}

#[test]
fn bucket_key_ors_keypieces() {
    let request = ara_request(1, 1, UNIT, UNIT);
    let event = ara_event(1, 1, &[("geoValue", 0x5), ("campaignCounts", 0x159)]);
    assert_eq!(request.get_bucket_key(&event), 0x559);
    // A missing source key counts as keypiece 0.
    let other = ara_event(2, 1, &[("geoValue", 0x5)]);
    assert_eq!(request.get_bucket_key(&other), 0x400);
}

#[test]
fn histogram_within_cap_keeps_every_value() {
    let request = ara_request(1, 2, 32768 * UNIT, 65536 * UNIT);
    let mut per_epoch = HashMap::new();
    per_epoch.insert(2, vec![ara_event(1, 2, &[("campaignCounts", 0x1)])]);
    per_epoch.insert(1, vec![ara_event(2, 1, &[("campaignCounts", 0x2)])]);
    let report = request.compute_report(&per_epoch);
    assert_eq!(report.len(), 2);
    assert_eq!(report.get(&0x401), Some(32768 * UNIT));
    assert_eq!(report.get(&0x402), Some(32768 * UNIT));
    assert_eq!(
        request.get_single_epoch_individual_sensitivity(&report, NormType::L1),
        65536 * UNIT as u128
    );
}

#[test]
fn histogram_over_cap_keeps_a_strict_prefix() {
    // Epoch 2 comes first, then epoch 1; the third value would exceed the
    // cap, so it and everything after it are dropped.
    let request = ara_request(1, 2, 40 * UNIT, 100 * UNIT);
    let mut per_epoch = HashMap::new();
    per_epoch.insert(
        2,
        vec![
            ara_event(1, 2, &[("campaignCounts", 0x1)]),
            ara_event(2, 2, &[("campaignCounts", 0x1)]),
        ],
    );
    per_epoch.insert(1, vec![ara_event(3, 1, &[("campaignCounts", 0x3)])]);
    let report = request.compute_report(&per_epoch);
    assert_eq!(report.len(), 1);
    assert_eq!(report.get(&0x401), Some(80 * UNIT));
    assert!(!report.contains_key(&0x403));
    assert_eq!(report.l1_norm(), 80 * UNIT);
}

#[test]
fn histogram_first_value_over_cap_gives_empty_report() {
    let request = ara_request(1, 1, 2 * UNIT, UNIT);
    let mut per_epoch = HashMap::new();
    per_epoch.insert(1, vec![ara_event(1, 1, &[])]);
    let report = request.compute_report(&per_epoch);
    assert_eq!(report.len(), 0);
    assert_eq!(report.l1_norm(), 0);
}

#[test]
fn histogram_norms_and_sensitivities() {
    let request = ara_request(1, 1, 3 * UNIT, 10 * UNIT);
    let mut per_epoch = HashMap::new();
    per_epoch.insert(
        1,
        vec![
            ara_event(1, 1, &[("campaignCounts", 0x1)]),
            ara_event(2, 1, &[("campaignCounts", 0x2)]),
        ],
    );
    let report = request.compute_report(&per_epoch);
    assert_eq!(report.l1_norm(), 6 * UNIT);
    // sqrt(2 * (3e6)^2) = 4242640.68...
    assert_eq!(report.l2_norm(), 4_242_640);
    assert_eq!(
        request.get_single_epoch_individual_sensitivity(&report, NormType::L2),
        4_242_640
    );
    assert_eq!(
        request.get_report_global_sensitivity(),
        2 * 10 * UNIT as u128
    );
    assert_eq!(
        EpochReportRequest::get_noise_scale(&request),
        NoiseScale::Laplace(10 * UNIT)
    );
    assert_eq!(HistogramReport::null_report().len(), 0);
}

fn last_touch(start: usize, end: usize, value: u64) -> SimpleLastTouchHistogramRequest {
    SimpleLastTouchHistogramRequest {
        epoch_start: start,
        epoch_end: end,
        attributable_value: value,
        laplace_noise_scale: UNIT,
        selector: SimpleRelevantEventSelector {
            min_event_key: 0,
            max_event_key: usize::MAX,
        },
    }
}

#[test]
fn last_touch_takes_last_event_of_most_recent_epoch() {
    let request = last_touch(1, 3, 5 * UNIT);
    let mut per_epoch = HashMap::new();
    per_epoch.insert(
        1,
        vec![SimpleEvent {
            id: 1,
            epoch_number: 1,
            event_key: 10,
        }],
    );
    per_epoch.insert(
        2,
        vec![
            SimpleEvent {
                id: 2,
                epoch_number: 2,
                event_key: 20,
            },
            SimpleEvent {
                id: 3,
                epoch_number: 2,
                event_key: 21,
            },
        ],
    );
    per_epoch.insert(3, vec![]);
    let report = request.compute_report(&per_epoch);
    assert_eq!(report.bin_value, Some((21, 5 * UNIT)));
    assert_eq!(
        request.get_single_epoch_individual_sensitivity(&report, NormType::L1),
        5 * UNIT as u128
    );
    assert_eq!(
        request.get_single_epoch_individual_sensitivity(&report, NormType::L2),
        5 * UNIT as u128
    );
    assert_eq!(request.get_report_global_sensitivity(), 5 * UNIT as u128);
}

#[test]
fn last_touch_without_events_is_null() {
    let request = last_touch(1, 3, 5 * UNIT);
    let per_epoch: HashMap<usize, Vec<SimpleEvent>> = HashMap::new();
    let report = request.compute_report(&per_epoch);
    assert_eq!(report, SimpleLastTouchHistogramReport::null_report());
    assert_eq!(report, SimpleLastTouchHistogramReport::default());
    assert_eq!(HistogramReport::default().len(), 0);
    assert_eq!(
        request.get_single_epoch_individual_sensitivity(&report, NormType::L1),
        0
    );
}

#[test]
fn histogram_attributes_epochs_outside_the_range_too() {
    // Requested epochs first, newest first, then the others by increasing
    // id: 2, 1, then 4, then 5.
    let request = ara_request(1, 2, 10 * UNIT, 25 * UNIT);
    let mut per_epoch = HashMap::new();
    per_epoch.insert(5, vec![ara_event(1, 5, &[("campaignCounts", 0x5)])]);
    per_epoch.insert(1, vec![ara_event(2, 1, &[("campaignCounts", 0x1)])]);
    per_epoch.insert(4, vec![ara_event(3, 4, &[("campaignCounts", 0x4)])]);
    let values = request.get_values(&per_epoch);
    let epochs: Vec<usize> = values.iter().map(|(e, _)| e.epoch_number).collect();
    assert_eq!(epochs, vec![1, 4, 5]);
    assert!(values.iter().all(|(_, v)| *v == 10 * UNIT));
    let report = request.compute_report(&per_epoch);
    assert_eq!(report.get(&0x401), Some(10 * UNIT));
    assert_eq!(report.get(&0x404), Some(10 * UNIT));
    assert!(!report.contains_key(&0x405));
}

#[test]
fn histogram_of_an_epoch_outside_the_range() {
    let request = ara_request(1, 1, UNIT, 2 * UNIT);
    let mut per_epoch = HashMap::new();
    per_epoch.insert(5, vec![ara_event(1, 5, &[("campaignCounts", 0x2)])]);
    let values = request.get_values(&per_epoch);
    assert_eq!(values.len(), 1);
    assert_eq!(values[0].1, UNIT);
}

#[test]
fn histogram_bins_in_order_of_first_attribution() {
    let request = ara_request(1, 1, UNIT, 10 * UNIT);
    let mut per_epoch = HashMap::new();
    per_epoch.insert(
        1,
        vec![
            ara_event(1, 1, &[("campaignCounts", 0x2)]),
            ara_event(2, 1, &[("campaignCounts", 0x1)]),
            ara_event(3, 1, &[("campaignCounts", 0x2)]),
        ],
    );
    let report = request.compute_report(&per_epoch);
    assert_eq!(report.bins(), vec![(0x402, 2 * UNIT), (0x401, UNIT)]);
}
