use std::collections::HashMap;

use vstd::prelude::*;

use crate::events::simple_event::SimpleEvent;
use crate::events::traits::{all_epochs_empty, epochs_view, RelevantEventSelector};
use crate::mechanisms::{NoiseScale, NormType};
use crate::queries::traits::{
    epoch_range_desc, epoch_range_rev, EpochReportRequest, Report, ReportRequest,
};

verus! {

broadcast use vstd::std_specs::hash::group_hash_axioms;

/// Selects the simple events whose key lies in
/// `[min_event_key, max_event_key]`; an empty range selects nothing.
#[derive(Debug, Clone, Copy, PartialEq, Eq, Structural)]
pub struct SimpleRelevantEventSelector {
    pub min_event_key: usize,
    pub max_event_key: usize,
}

impl RelevantEventSelector for SimpleRelevantEventSelector {
    type Event = SimpleEvent;

    open spec fn spec_is_relevant(&self, event: SimpleEvent) -> bool {
        self.min_event_key <= event.event_key <= self.max_event_key
    }

    fn is_relevant_event(&self, event: &SimpleEvent) -> (r: bool) {
        self.min_event_key <= event.event_key && event.event_key <= self.max_event_key
    }
}

/// A last-touch request over a range of epochs: the whole attributable
/// value goes to the key of the last relevant event of the most recent
/// epoch that has one. Relevance is decided by `selector`, by default a
/// range of event keys.
#[derive(Debug, Clone, Copy)]
pub struct SimpleLastTouchHistogramRequest<S = SimpleRelevantEventSelector> {
    pub epoch_start: usize,
    pub epoch_end: usize,
    /// Attributable value, in fixed point.
    pub attributable_value: u64,
    /// Laplace noise scale, in fixed point.
    pub laplace_noise_scale: u64,
    pub selector: S,
}

/// A histogram with at most one bin.
#[derive(Debug, Clone, Copy, PartialEq, Eq)]
pub struct SimpleLastTouchHistogramReport {
    /// Bucket key (the event key) and attributed value, or `None` if
    /// nothing was attributed.
    pub bin_value: Option<(usize, u64)>,
}

impl View for SimpleLastTouchHistogramReport {
    type V = Option<(usize, u64)>;

    open spec fn view(&self) -> Option<(usize, u64)> {
        self.bin_value
    }
}

/// The default report attributes nothing: the null report.
impl Default for SimpleLastTouchHistogramReport {
    fn default() -> (r: Self)
        ensures
            r.bin_value is None,
    {
        SimpleLastTouchHistogramReport { bin_value: None }
    }
}

impl Report for SimpleLastTouchHistogramReport {
    open spec fn null_spec() -> Option<(usize, u64)> {
        None
    }

    fn null_report() -> (r: Self) {
        SimpleLastTouchHistogramReport { bin_value: None }
    }
}

impl<S> ReportRequest for SimpleLastTouchHistogramRequest<S> {
    type Report = SimpleLastTouchHistogramReport;
}

/// Last-touch attribution: along `epoch_ids`, the first epoch of
/// `per_epoch` with a relevant event gives `value` to the key of its last
/// event.
pub open spec fn last_touch(
    epoch_ids: Seq<usize>,
    per_epoch: Map<usize, Seq<SimpleEvent>>,
    value: u64,
) -> Option<(usize, u64)>
    decreases epoch_ids.len(),
{
    if epoch_ids.len() == 0 {
        None
    } else {
        let id = epoch_ids[0];
        if per_epoch.contains_key(id) && per_epoch[id].len() > 0 {
            Some((per_epoch[id].last().event_key, value))
        } else {
            last_touch(epoch_ids.skip(1), per_epoch, value)
        }
    }
}

/// When no epoch holds a relevant event, last touch attributes nothing.
pub proof fn lemma_last_touch_without_events(
    epoch_ids: Seq<usize>,
    per_epoch: Map<usize, Seq<SimpleEvent>>,
    value: u64,
)
    requires
        all_epochs_empty(per_epoch),
    ensures
        last_touch(epoch_ids, per_epoch, value) is None,
    decreases epoch_ids.len(),
{
    if epoch_ids.len() > 0 {
        lemma_last_touch_without_events(epoch_ids.skip(1), per_epoch, value);
    }
}

impl<S: RelevantEventSelector<Event = SimpleEvent> + Copy> EpochReportRequest for SimpleLastTouchHistogramRequest<S> {
    type Event = SimpleEvent;
    type RelevantEventSelector = S;

    open spec fn epoch_ids_spec(&self) -> Seq<usize> {
        epoch_range_desc(self.epoch_start, self.epoch_end)
    }

    open spec fn is_relevant_spec(&self, event: SimpleEvent) -> bool {
        self.selector.spec_is_relevant(event)
    }

    open spec fn report_spec(&self, per_epoch: Map<usize, Seq<SimpleEvent>>) -> Option<(usize, u64)> {
        last_touch(self.epoch_ids_spec(), per_epoch, self.attributable_value)
    }

    /// The report has at most one bin, so L1 and L2 norms agree.
    open spec fn single_epoch_sensitivity_spec(
        &self,
        report: Option<(usize, u64)>,
        norm_type: NormType,
    ) -> nat {
        match report {
            Some((_, value)) => value as nat,
            None => 0,
        }
    }

    /// A single bin: no factor 2.
    open spec fn global_sensitivity_spec(&self) -> nat {
        self.attributable_value as nat
    }

    open spec fn noise_scale_spec(&self) -> NoiseScale {
        NoiseScale::Laplace(self.laplace_noise_scale)
    }

    proof fn lemma_report_without_events_is_null(&self, per_epoch: Map<usize, Seq<SimpleEvent>>) {
        lemma_last_touch_without_events(self.epoch_ids_spec(), per_epoch, self.attributable_value);
    }

    fn get_epoch_ids(&self) -> (r: Vec<usize>) {
        epoch_range_rev(self.epoch_start, self.epoch_end)
    }

    fn get_relevant_event_selector(&self) -> (r: S) {
        self.selector
    }

    fn compute_report(&self, relevant_events_per_epoch: &HashMap<usize, Vec<SimpleEvent>>) -> (r:
        SimpleLastTouchHistogramReport) {
        let ghost per_epoch = epochs_view(relevant_events_per_epoch@);
        // Most recent epoch first; within an epoch, events are in order of
        // arrival, so the last one is the most recent.
        let epoch_ids = self.get_epoch_ids();
        let mut i: usize = 0;
        assert(epoch_ids@.skip(0) =~= epoch_ids@);
        while i < epoch_ids.len()
            invariant
                i <= epoch_ids@.len(),
                epoch_ids@ == self.epoch_ids_spec(),
                per_epoch == epochs_view(relevant_events_per_epoch@),
                last_touch(epoch_ids@, per_epoch, self.attributable_value) == last_touch(
                    epoch_ids@.skip(i as int),
                    per_epoch,
                    self.attributable_value,
                ),
            decreases epoch_ids@.len() - i,
        {
            let ghost rest = epoch_ids@.skip(i as int);
            assert(rest[0] == epoch_ids@[i as int]);
            assert(rest.skip(1) =~= epoch_ids@.skip(i + 1));
            match relevant_events_per_epoch.get(&epoch_ids[i]) {
                Some(events) => {
                    if events.len() > 0 {
                        let last = events[events.len() - 1];
                        return SimpleLastTouchHistogramReport {
                            bin_value: Some((last.event_key, self.attributable_value)),
                        };
                    }
                },
                None => {},
            }
            i += 1;
        }
        SimpleLastTouchHistogramReport { bin_value: None }
    }

    fn get_single_epoch_individual_sensitivity(
        &self,
        report: &SimpleLastTouchHistogramReport,
        norm_type: NormType,
    ) -> (r: u128) {
        let attributed_value: u64 = match report.bin_value {
            Some((_, value)) => value,
            None => 0,
        };
        match norm_type {
            NormType::L1 => attributed_value as u128,
            NormType::L2 => attributed_value as u128,
        }
    }

    fn get_report_global_sensitivity(&self) -> (r: u128) {
        self.attributable_value as u128
    }

    fn get_noise_scale(&self) -> (r: NoiseScale) {
        NoiseScale::Laplace(self.laplace_noise_scale)
    }
}

} // verus!
