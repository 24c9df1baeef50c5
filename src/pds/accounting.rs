//! What the budgeting of a report request guarantees.
use vstd::prelude::*;

use crate::budget::pure_dp_filter::{pure_dp_consume, PureDPBudget};
use crate::budget::traits::FilterStatus;
use crate::events::traits::all_epochs_empty;
use crate::mechanisms::NoiseScale;
use crate::pds::epoch_pds::{
    budget_pass, collect_relevant, lookup, relevant_of, relevant_events, report_budgeting, request_loss,
    with_filter, FilterMap,
};
use crate::queries::traits::{EpochReportRequest, EventView, Report, ReportView};

verus! {

/// Every filter that existed keeps its budget, and every new filter holds
/// the capacity: no budget was spent.
pub open spec fn no_budget_spent(before: FilterMap, after: FilterMap, capacity: PureDPBudget) -> bool {
    &&& forall|e: usize| #[trigger]
        before.contains_key(e) ==> after.contains_key(e) && after[e] == before[e]
    &&& forall|e: usize| #[trigger]
        after.contains_key(e) && !before.contains_key(e) ==> after[e] == capacity
}

proof fn lemma_push_contains(prev: Seq<usize>, id: usize, e: usize)
    ensures
        prev.push(id).contains(e) <==> (prev.contains(e) || e == id),
{
    let ids = prev.push(id);
    if prev.contains(e) {
        let i = choose|i: int| 0 <= i < prev.len() && prev[i] == e;
        assert(ids[i] == e);
    }
    if e == id {
        assert(ids[prev.len() as int] == e);
    }
    if ids.contains(e) && e != id {
        let i = choose|i: int| 0 <= i < ids.len() && ids[i] == e;
        assert(prev[i] == e);
    }
}

/// The budgeting pass, epoch by epoch: each requested epoch is charged its
/// loss once, from the budget its filter had before the request (or the
/// capacity, for a new filter), and is kept exactly when that charge went
/// through; other epochs are left alone.
pub proof fn lemma_budget_pass<Q: EpochReportRequest>(
    request: Q,
    filters: FilterMap,
    relevant: Map<usize, Seq<EventView<Q>>>,
    draft: ReportView<Q>,
    num_epochs: nat,
    capacity: PureDPBudget,
    epoch_ids: Seq<usize>,
)
    requires
        epoch_ids.no_duplicates(),
    ensures
        ({
            let (after, kept) = budget_pass(
                request,
                filters,
                relevant,
                draft,
                num_epochs,
                capacity,
                epoch_ids,
            );
            &&& forall|e: usize|
                !(#[trigger] epoch_ids.contains(e)) ==> {
                    &&& after.contains_key(e) == filters.contains_key(e)
                    &&& filters.contains_key(e) ==> after[e] == filters[e]
                    &&& lookup(kept, e) == lookup(relevant, e)
                }
            &&& forall|e: usize| #[trigger]
                epoch_ids.contains(e) ==> {
                    let (status, remaining) = pure_dp_consume(
                        with_filter(filters, e, capacity)[e],
                        request_loss(request, lookup(relevant, e), draft, num_epochs),
                    );
                    &&& after.contains_key(e) && after[e] == remaining
                    &&& kept.contains_key(e) <==> (relevant.contains_key(e) && status
                        == FilterStatus::Continue)
                    &&& kept.contains_key(e) ==> kept[e] == relevant[e]
                }
        }),
    decreases epoch_ids.len(),
{
    if epoch_ids.len() > 0 {
        let prev = epoch_ids.drop_last();
        let id = epoch_ids.last();
        assert(epoch_ids =~= prev.push(id));
        assert(prev.no_duplicates());
        assert(!prev.contains(id)) by {
            if prev.contains(id) {
                let i = choose|i: int| 0 <= i < prev.len() && prev[i] == id;
                assert(epoch_ids[i] == epoch_ids[epoch_ids.len() - 1]);
            }
        }
        lemma_budget_pass(request, filters, relevant, draft, num_epochs, capacity, prev);
        let (after, kept) = budget_pass(
            request,
            filters,
            relevant,
            draft,
            num_epochs,
            capacity,
            epoch_ids,
        );
        assert forall|e: usize| !(#[trigger] epoch_ids.contains(e)) implies {
            &&& after.contains_key(e) == filters.contains_key(e)
            &&& filters.contains_key(e) ==> after[e] == filters[e]
            &&& lookup(kept, e) == lookup(relevant, e)
        } by {
            lemma_push_contains(prev, id, e);
        }
        assert forall|e: usize| #[trigger] epoch_ids.contains(e) implies {
            let (status, remaining) = pure_dp_consume(
                with_filter(filters, e, capacity)[e],
                request_loss(request, lookup(relevant, e), draft, num_epochs),
            );
            &&& after.contains_key(e) && after[e] == remaining
            &&& kept.contains_key(e) <==> (relevant.contains_key(e) && status
                == FilterStatus::Continue)
            &&& kept.contains_key(e) ==> kept[e] == relevant[e]
        } by {
            lemma_push_contains(prev, id, e);
            lemma_push_contains(prev, id, id);
        }
    }
}

/// Budget is never double-spent: for a request whose epochs are distinct,
/// every epoch whose events the report uses was charged exactly the loss
/// the request claims for it, once, from the budget its filter had before
/// the request; what remains is that budget minus the loss.
pub proof fn lemma_no_double_spending<Q: EpochReportRequest>(
    request: Q,
    filters: FilterMap,
    stored: Map<usize, Seq<EventView<Q>>>,
    capacity: PureDPBudget,
    epoch_id: usize,
)
    requires
        request.epoch_ids_spec().no_duplicates(),
        report_budgeting(request, filters, stored, capacity).1.contains_key(epoch_id),
    ensures
        ({
            let relevant = relevant_events(request, stored);
            let after = report_budgeting(request, filters, stored, capacity).0;
            let loss = request_loss(
                request,
                lookup(relevant, epoch_id),
                request.report_spec(relevant),
                relevant.len(),
            );
            pure_dp_consume(with_filter(filters, epoch_id, capacity)[epoch_id], loss) == (
                FilterStatus::Continue,
                after[epoch_id],
            )
        }),
{
    let relevant = relevant_events(request, stored);
    let ids = request.epoch_ids_spec();
    lemma_budget_pass(
        request,
        filters,
        relevant,
        request.report_spec(relevant),
        relevant.len(),
        capacity,
        ids,
    );
    lemma_collect_within_request(request, stored, ids);
    if !ids.contains(epoch_id) {
        assert(relevant.contains_key(epoch_id));
    }
}

/// Only requested epochs are collected, and each with the relevant events
/// of what is stored.
proof fn lemma_collect_within_request<Q: EpochReportRequest>(
    request: Q,
    stored: Map<usize, Seq<EventView<Q>>>,
    epoch_ids: Seq<usize>,
)
    ensures
        forall|e: usize| #[trigger]
            collect_relevant(request, stored, epoch_ids).contains_key(e) ==> epoch_ids.contains(e)
                && stored.contains_key(e) && collect_relevant(request, stored, epoch_ids)[e]
                == relevant_of(request, stored[e]),
    decreases epoch_ids.len(),
{
    if epoch_ids.len() > 0 {
        let prev = epoch_ids.drop_last();
        let id = epoch_ids.last();
        assert(epoch_ids =~= prev.push(id));
        lemma_collect_within_request(request, stored, prev);
        assert forall|e: usize| #[trigger]
            collect_relevant(request, stored, epoch_ids).contains_key(e) implies epoch_ids.contains(
            e,
        ) && stored.contains_key(e) && collect_relevant(request, stored, epoch_ids)[e]
            == relevant_of(request, stored[e]) by {
            lemma_push_contains(prev, id, e);
            let before = collect_relevant(request, stored, prev);
            if stored.contains_key(id) {
                assert(collect_relevant(request, stored, epoch_ids) == before.insert(
                    id,
                    relevant_of(request, stored[id]),
                ));
            } else {
                assert(collect_relevant(request, stored, epoch_ids) == before);
            }
            if e != id {
                assert(before.contains_key(e));
            }
        }
    }
}

/// A pass in which no epoch has a relevant event charges nothing.
proof fn lemma_pass_without_events<Q: EpochReportRequest>(
    request: Q,
    filters: FilterMap,
    relevant: Map<usize, Seq<EventView<Q>>>,
    draft: ReportView<Q>,
    num_epochs: nat,
    capacity: PureDPBudget,
    epoch_ids: Seq<usize>,
)
    requires
        all_epochs_empty(relevant),
    ensures
        ({
            let (after, kept) = budget_pass(
                request,
                filters,
                relevant,
                draft,
                num_epochs,
                capacity,
                epoch_ids,
            );
            &&& no_budget_spent(filters, after, capacity)
            &&& all_epochs_empty(kept)
            &&& forall|e: usize| #[trigger] kept.contains_key(e) ==> relevant.contains_key(e)
        }),
    decreases epoch_ids.len(),
{
    if epoch_ids.len() > 0 {
        lemma_pass_without_events(
            request,
            filters,
            relevant,
            draft,
            num_epochs,
            capacity,
            epoch_ids.drop_last(),
        );
        let (f, k) = budget_pass(
            request,
            filters,
            relevant,
            draft,
            num_epochs,
            capacity,
            epoch_ids.drop_last(),
        );
        let id = epoch_ids.last();
        let loss = request_loss(request, lookup(k, id), draft, num_epochs);
        assert(loss == PureDPBudget::Epsilon(0));
        let (after, kept) = budget_pass(
            request,
            filters,
            relevant,
            draft,
            num_epochs,
            capacity,
            epoch_ids,
        );
        assert(no_budget_spent(filters, after, capacity));
    }
}

/// With no relevant events, nothing is collected but empty epochs.
proof fn lemma_collect_empty_when_nothing_relevant<Q: EpochReportRequest>(
    request: Q,
    stored: Map<usize, Seq<EventView<Q>>>,
    epoch_ids: Seq<usize>,
)
    requires
        forall|e: usize, i: int|
            #![trigger stored[e][i]]
            epoch_ids.contains(e) && stored.contains_key(e) && 0 <= i < stored[e].len()
                ==> !request.is_relevant_spec(stored[e][i]),
    ensures
        all_epochs_empty(collect_relevant(request, stored, epoch_ids)),
{
    lemma_collect_within_request(request, stored, epoch_ids);
    let m = collect_relevant(request, stored, epoch_ids);
    assert forall|e: usize| #[trigger] m.contains_key(e) implies m[e].len() == 0 by {
        let pred = |v| request.is_relevant_spec(v);
        let f = stored[e].filter(pred);
        assert(f == relevant_of(request, stored[e]));
        if f.len() > 0 {
            stored[e].lemma_filter_pred(pred, 0);
            assert(f.contains(f[0]));
            stored[e].lemma_filter_contains_rev(pred, f[0]);
            let i = choose|i: int| 0 <= i < stored[e].len() && stored[e][i] == f[0];
            assert(!request.is_relevant_spec(stored[e][i]));
        }
    }
}

/// Two successive report requests that find no relevant event spend no
/// budget: filters that existed keep their budget, new ones hold the
/// capacity. Both reports are the null report.
pub proof fn lemma_requests_without_relevant_events_spend_nothing<Q: EpochReportRequest>(
    first: Q,
    second: Q,
    filters: FilterMap,
    stored: Map<usize, Seq<EventView<Q>>>,
    capacity: PureDPBudget,
)
    requires
        all_epochs_empty(relevant_events(first, stored)),
        all_epochs_empty(relevant_events(second, stored)),
    ensures
        ({
            let (after_first, kept_first) = report_budgeting(first, filters, stored, capacity);
            let (after_second, kept_second) = report_budgeting(
                second,
                after_first,
                stored,
                capacity,
            );
            &&& no_budget_spent(filters, after_first, capacity)
            &&& no_budget_spent(filters, after_second, capacity)
            &&& first.report_spec(kept_first) == <Q::Report as Report>::null_spec()
            &&& second.report_spec(kept_second) == <Q::Report as Report>::null_spec()
        }),
{
    let r1 = relevant_events(first, stored);
    let r2 = relevant_events(second, stored);
    lemma_pass_without_events(
        first,
        filters,
        r1,
        first.report_spec(r1),
        r1.len(),
        capacity,
        first.epoch_ids_spec(),
    );
    let after_first = report_budgeting(first, filters, stored, capacity).0;
    lemma_pass_without_events(
        second,
        after_first,
        r2,
        second.report_spec(r2),
        r2.len(),
        capacity,
        second.epoch_ids_spec(),
    );
    let after_second = report_budgeting(second, after_first, stored, capacity).0;
    first.lemma_report_without_events_is_null(report_budgeting(first, filters, stored, capacity).1);
    second.lemma_report_without_events_is_null(
        report_budgeting(second, after_first, stored, capacity).1,
    );
    assert forall|e: usize| #[trigger]
        after_second.contains_key(e) && !filters.contains_key(e) implies after_second[e]
        == capacity by {
        if after_first.contains_key(e) {
            assert(after_second[e] == after_first[e]);
        }
    }
}

/// A noiseless request (noise scale 0) with distinct epochs uses the
/// events of an epoch that has relevant events exactly when that epoch's
/// filter is infinite.
pub proof fn lemma_noiseless_request_needs_infinite_filters<Q: EpochReportRequest>(
    request: Q,
    filters: FilterMap,
    stored: Map<usize, Seq<EventView<Q>>>,
    capacity: PureDPBudget,
    epoch_id: usize,
)
    requires
        request.noise_scale_spec() == NoiseScale::Laplace(0),
        request.epoch_ids_spec().no_duplicates(),
        request.epoch_ids_spec().contains(epoch_id),
        relevant_events(request, stored).contains_key(epoch_id),
        relevant_events(request, stored)[epoch_id].len() > 0,
    ensures
        report_budgeting(request, filters, stored, capacity).1.contains_key(epoch_id)
            <==> with_filter(filters, epoch_id, capacity)[epoch_id] is Infinite,
{
    let relevant = relevant_events(request, stored);
    lemma_budget_pass(
        request,
        filters,
        relevant,
        request.report_spec(relevant),
        relevant.len(),
        capacity,
        request.epoch_ids_spec(),
    );
    let loss = request_loss(
        request,
        lookup(relevant, epoch_id),
        request.report_spec(relevant),
        relevant.len(),
    );
    assert(loss == PureDPBudget::Infinite);
}

/// A request none of whose epochs has ever received an event gets the
/// null report and spends no budget.
pub proof fn lemma_request_on_unseen_epochs<Q: EpochReportRequest>(
    request: Q,
    filters: FilterMap,
    stored: Map<usize, Seq<EventView<Q>>>,
    capacity: PureDPBudget,
)
    requires
        forall|e: usize| #[trigger]
            request.epoch_ids_spec().contains(e) ==> !stored.contains_key(e),
    ensures
        ({
            let (after, kept) = report_budgeting(request, filters, stored, capacity);
            &&& request.report_spec(kept) == <Q::Report as Report>::null_spec()
            &&& no_budget_spent(filters, after, capacity)
        }),
{
    let ids = request.epoch_ids_spec();
    let relevant = relevant_events(request, stored);
    lemma_collect_within_request(request, stored, ids);
    assert(relevant =~= Map::<usize, Seq<EventView<Q>>>::empty());
    lemma_pass_without_events(
        request,
        filters,
        relevant,
        request.report_spec(relevant),
        relevant.len(),
        capacity,
        ids,
    );
    let kept = report_budgeting(request, filters, stored, capacity).1;
    assert(kept =~= Map::<usize, Seq<EventView<Q>>>::empty());
    request.lemma_report_without_events_is_null(kept);
}

/// A request for which every stored event of its epochs is irrelevant
/// (for instance a last-touch request whose selector rejects them all) gets
/// the null report and spends no budget.
pub proof fn lemma_request_with_only_irrelevant_events<Q: EpochReportRequest>(
    request: Q,
    filters: FilterMap,
    stored: Map<usize, Seq<EventView<Q>>>,
    capacity: PureDPBudget,
)
    requires
        forall|e: usize, i: int|
            #![trigger stored[e][i]]
            request.epoch_ids_spec().contains(e) && stored.contains_key(e) && 0 <= i
                < stored[e].len() ==> !request.is_relevant_spec(stored[e][i]),
    ensures
        ({
            let (after, kept) = report_budgeting(request, filters, stored, capacity);
            &&& request.report_spec(kept) == <Q::Report as Report>::null_spec()
            &&& no_budget_spent(filters, after, capacity)
        }),
{
    let ids = request.epoch_ids_spec();
    let relevant = relevant_events(request, stored);
    lemma_collect_empty_when_nothing_relevant(request, stored, ids);
    lemma_pass_without_events(
        request,
        filters,
        relevant,
        request.report_spec(relevant),
        relevant.len(),
        capacity,
        ids,
    );
    let kept = report_budgeting(request, filters, stored, capacity).1;
    request.lemma_report_without_events_is_null(kept);
}

} // verus!
