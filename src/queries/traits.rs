use std::collections::HashMap;

use vstd::prelude::*;

use crate::events::traits::{all_epochs_empty, epochs_view, Event, RelevantEventSelector};
use crate::mechanisms::{NoiseScale, NormType};

verus! {

/// A report as a device emits it (in plaintext). It has a null value, sent
/// on errors and when no budget is left, so that such devices look like the
/// others once reports are encrypted.
pub trait Report: Sized + View {
    /// The view of the null report.
    spec fn null_spec() -> Self::V;

    /// The null report.
    fn null_report() -> (r: Self)
        ensures
            r@ == Self::null_spec(),
    ;
}

/// A generic query.
pub trait ReportRequest {
    type Report: Report;
}

/// The view of the report of a request.
pub type ReportView<Q> = <<Q as ReportRequest>::Report as View>::V;

/// The view of an event of a request.
pub type EventView<Q> = <<Q as EpochReportRequest>::Event as View>::V;

/// An epoch-based query.
pub trait EpochReportRequest: ReportRequest {
    type Event: Event;
    type RelevantEventSelector: RelevantEventSelector<Event = Self::Event>;

    /// The requested epochs, in the order in which attribution runs.
    spec fn epoch_ids_spec(&self) -> Seq<usize>;

    /// Whether an event is relevant to the request.
    spec fn is_relevant_spec(&self, event: <Self::Event as View>::V) -> bool;

    /// The report computed from the relevant events of each epoch.
    spec fn report_spec(&self, per_epoch: Map<usize, Seq<<Self::Event as View>::V>>) -> <<Self as ReportRequest>::Report as View>::V;

    /// Individual sensitivity of a report computed over a single epoch, in
    /// fixed point.
    spec fn single_epoch_sensitivity_spec(
        &self,
        report: <<Self as ReportRequest>::Report as View>::V,
        norm_type: NormType,
    ) -> nat;

    /// Global sensitivity of the request, in fixed point.
    spec fn global_sensitivity_spec(&self) -> nat;

    /// Scale of the noise that the aggregator adds.
    spec fn noise_scale_spec(&self) -> NoiseScale;

    /// When no epoch holds a relevant event, the report is the null
    /// report.
    proof fn lemma_report_without_events_is_null(
        &self,
        per_epoch: Map<usize, Seq<<Self::Event as View>::V>>,
    )
        requires
            all_epochs_empty(per_epoch),
        ensures
            self.report_spec(per_epoch) == <<Self as ReportRequest>::Report as Report>::null_spec(),
    ;

    /// Returns the requested epoch ids, in the order attribution runs.
    fn get_epoch_ids(&self) -> (r: Vec<usize>)
        ensures
            r@ == self.epoch_ids_spec(),
    ;

    /// Returns the selector of the events relevant to the request.
    fn get_relevant_event_selector(&self) -> (r: Self::RelevantEventSelector)
        ensures
            forall|v| #[trigger] r.spec_is_relevant(v) == self.is_relevant_spec(v),
    ;

    /// Computes the report for the given relevant events of each epoch.
    fn compute_report(&self, relevant_events_per_epoch: &HashMap<usize, Vec<Self::Event>>) -> (r:
        Self::Report)
        ensures
            r@ == self.report_spec(epochs_view(relevant_events_per_epoch@)),
    ;

    /// Individual sensitivity when the report is computed over one epoch.
    fn get_single_epoch_individual_sensitivity(
        &self,
        report: &Self::Report,
        norm_type: NormType,
    ) -> (r: u128)
        ensures
            r == self.single_epoch_sensitivity_spec(report@, norm_type),
    ;

    /// Global sensitivity of the request.
    fn get_report_global_sensitivity(&self) -> (r: u128)
        ensures
            r == self.global_sensitivity_spec(),
    ;

    /// Scale of the noise that the aggregator adds.
    fn get_noise_scale(&self) -> (r: NoiseScale)
        ensures
            r == self.noise_scale_spec(),
    ;
}

/// A passive privacy loss: one budget, debited from each epoch.
#[derive(Debug)]
pub struct PassivePrivacyLossRequest<EI, PrivacyBudget> {
    pub epoch_ids: Vec<EI>,
    pub privacy_budget: PrivacyBudget,
}

/// The epochs from `end` down to `start`, most recent first.
pub open spec fn epoch_range_desc(start: usize, end: usize) -> Seq<usize> {
    if start <= end {
        Seq::new((end - start + 1) as nat, |i: int| (end - i) as usize)
    } else {
        Seq::empty()
    }
}

/// The epochs from `end` down to `start`, most recent first.
pub fn epoch_range_rev(start: usize, end: usize) -> (r: Vec<usize>)
    ensures
        r@ == epoch_range_desc(start, end),
{
    let mut ids: Vec<usize> = Vec::new();
    if start <= end {
        let mut e: usize = end;
        loop
            invariant_except_break
                start <= e <= end,
                ids@ =~= epoch_range_desc(start, end).take((end - e) as int),
            ensures
                ids@ =~= epoch_range_desc(start, end),
            decreases e - start,
        {
            ids.push(e);
            if e == start {
                break;
            }
            e -= 1;
        }
    }
    ids
}

} // verus!
