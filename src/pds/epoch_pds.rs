use std::collections::HashMap;
use std::marker::PhantomData;

use vstd::arithmetic::div_mod::{lemma_fundamental_div_mod, lemma_mod_pos_bound};
use vstd::prelude::*;

use crate::budget::hashmap_filter_storage::HashMapFilterStorage;
use crate::budget::pure_dp_filter::{pure_dp_consume, PureDPBudget, PureDPBudgetFilter};
use crate::budget::traits::{FilterStatus, FilterStorage};
use crate::error::PdsError;
use crate::events::hashmap_event_storage::HashMapEventStorage;
use crate::events::traits::{
    epochs_after_add, epochs_view, events_view, EventStorage, RelevantEventSelector,
};
use crate::mechanisms::{NoiseScale, NormType, UNIT};
use crate::queries::traits::{
    EpochReportRequest, EventView, PassivePrivacyLossRequest, Report, ReportView,
};

verus! {

broadcast use vstd::std_specs::hash::group_hash_axioms;

/// The remaining budget of each filter, by epoch.
pub type FilterMap = Map<usize, PureDPBudget>;

/// `x / y` rounded up.
pub open spec fn ceil_div(x: nat, y: nat) -> nat {
    if x % y == 0 {
        x / y
    } else {
        x / y + 1
    }
}

/// The privacy loss of a Laplace mechanism with scale `noise_scale` on a
/// report of the given sensitivity (both in fixed point): `sensitivity /
/// noise_scale`, rounded up to the next fixed-point epsilon.
///
/// A zero noise scale is a non-private request and asks for infinite
/// budget. A loss beyond the largest finite epsilon is infinite as well: no
/// finite filter could pay either of them.
pub open spec fn loss_from_sensitivity(sensitivity: nat, noise_scale: u64) -> PureDPBudget {
    if noise_scale == 0 {
        PureDPBudget::Infinite
    } else {
        let q = ceil_div(sensitivity * (UNIT as nat), noise_scale as nat);
        if q <= u64::MAX {
            PureDPBudget::Epsilon(q as u64)
        } else {
            PureDPBudget::Infinite
        }
    }
}

/// Individual privacy loss of an epoch whose relevant events are `events`
/// (`None`: the epoch has never received an event), when `num_epochs`
/// epochs were found.
pub open spec fn individual_loss<V>(
    events: Option<Seq<V>>,
    num_epochs: nat,
    single_epoch_sensitivity: nat,
    global_sensitivity: nat,
    noise_scale: NoiseScale,
) -> PureDPBudget {
    match events {
        None => PureDPBudget::Epsilon(0),
        Some(evs) => if evs.len() == 0 {
            PureDPBudget::Epsilon(0)
        } else {
            let sensitivity = if num_epochs == 1 {
                single_epoch_sensitivity
            } else {
                global_sensitivity
            };
            match noise_scale {
                NoiseScale::Laplace(b) => loss_from_sensitivity(sensitivity, b),
            }
        },
    }
}

/// Individual privacy loss of an epoch for `request`, given the draft
/// report computed over all epochs found.
pub open spec fn request_loss<Q: EpochReportRequest>(
    request: Q,
    events: Option<Seq<EventView<Q>>>,
    draft: ReportView<Q>,
    num_epochs: nat,
) -> PureDPBudget {
    individual_loss(
        events,
        num_epochs,
        request.single_epoch_sensitivity_spec(draft, NormType::L1),
        request.global_sensitivity_spec(),
        request.noise_scale_spec(),
    )
}

/// The events of `events` that are relevant to `request`, in order.
pub open spec fn relevant_of<Q: EpochReportRequest>(request: Q, events: Seq<EventView<Q>>) -> Seq<
    EventView<Q>,
> {
    events.filter(|v| request.is_relevant_spec(v))
}

/// The relevant events of the epochs `epoch_ids`, for the epochs that
/// `stored` has.
pub open spec fn collect_relevant<Q: EpochReportRequest>(
    request: Q,
    stored: Map<usize, Seq<EventView<Q>>>,
    epoch_ids: Seq<usize>,
) -> Map<usize, Seq<EventView<Q>>>
    decreases epoch_ids.len(),
{
    if epoch_ids.len() == 0 {
        Map::empty()
    } else {
        let before = collect_relevant(request, stored, epoch_ids.drop_last());
        let id = epoch_ids.last();
        if stored.contains_key(id) {
            before.insert(id, relevant_of(request, stored[id]))
        } else {
            before
        }
    }
}

/// The filters once the filter of `epoch_id` exists: a new filter starts at
/// `capacity`.
pub open spec fn with_filter(filters: FilterMap, epoch_id: usize, capacity: PureDPBudget) -> FilterMap {
    if filters.contains_key(epoch_id) {
        filters
    } else {
        filters.insert(epoch_id, capacity)
    }
}

/// Filters and kept epochs after charging `loss` to the filter of
/// `epoch_id`; the epoch is dropped if its filter is out of budget.
pub open spec fn budget_step<V>(
    filters: FilterMap,
    kept: Map<usize, Seq<V>>,
    epoch_id: usize,
    loss: PureDPBudget,
    capacity: PureDPBudget,
) -> (FilterMap, Map<usize, Seq<V>>) {
    let f = with_filter(filters, epoch_id, capacity);
    let (status, remaining) = pure_dp_consume(f[epoch_id], loss);
    (
        f.insert(epoch_id, remaining),
        if status == FilterStatus::Continue {
            kept
        } else {
            kept.remove(epoch_id)
        },
    )
}

/// The events that `kept` holds for `epoch_id`, if any.
pub open spec fn lookup<V>(kept: Map<usize, Seq<V>>, epoch_id: usize) -> Option<Seq<V>> {
    if kept.contains_key(epoch_id) {
        Some(kept[epoch_id])
    } else {
        None
    }
}

/// Filters and kept epochs after charging each epoch of `epoch_ids` in
/// turn, starting from `filters` and the relevant events `relevant`.
pub open spec fn budget_pass<Q: EpochReportRequest>(
    request: Q,
    filters: FilterMap,
    relevant: Map<usize, Seq<EventView<Q>>>,
    draft: ReportView<Q>,
    num_epochs: nat,
    capacity: PureDPBudget,
    epoch_ids: Seq<usize>,
) -> (FilterMap, Map<usize, Seq<EventView<Q>>>)
    decreases epoch_ids.len(),
{
    if epoch_ids.len() == 0 {
        (filters, relevant)
    } else {
        let (f, kept) = budget_pass(
            request,
            filters,
            relevant,
            draft,
            num_epochs,
            capacity,
            epoch_ids.drop_last(),
        );
        let id = epoch_ids.last();
        let loss = request_loss(request, lookup(kept, id), draft, num_epochs);
        budget_step(f, kept, id, loss, capacity)
    }
}

/// The relevant events of all epochs of `request`.
pub open spec fn relevant_events<Q: EpochReportRequest>(
    request: Q,
    stored: Map<usize, Seq<EventView<Q>>>,
) -> Map<usize, Seq<EventView<Q>>> {
    collect_relevant(request, stored, request.epoch_ids_spec())
}

/// Filters after `request`, and the epochs whose events its report uses.
pub open spec fn report_budgeting<Q: EpochReportRequest>(
    request: Q,
    filters: FilterMap,
    stored: Map<usize, Seq<EventView<Q>>>,
    capacity: PureDPBudget,
) -> (FilterMap, Map<usize, Seq<EventView<Q>>>) {
    let relevant = relevant_events(request, stored);
    budget_pass(
        request,
        filters,
        relevant,
        request.report_spec(relevant),
        relevant.len(),
        capacity,
        request.epoch_ids_spec(),
    )
}

/// Filters and status after debiting `budget` from each epoch of
/// `epoch_ids` in turn, stopping at the first filter out of budget (the
/// epochs before it stay debited).
pub open spec fn passive_pass(
    filters: FilterMap,
    epoch_ids: Seq<usize>,
    budget: PureDPBudget,
    capacity: PureDPBudget,
) -> (FilterMap, FilterStatus)
    decreases epoch_ids.len(),
{
    if epoch_ids.len() == 0 {
        (filters, FilterStatus::Continue)
    } else {
        let id = epoch_ids[0];
        let f = with_filter(filters, id, capacity);
        let (status, remaining) = pure_dp_consume(f[id], budget);
        let after = f.insert(id, remaining);
        if status == FilterStatus::OutOfBudget {
            (after, FilterStatus::OutOfBudget)
        } else {
            passive_pass(after, epoch_ids.skip(1), budget, capacity)
        }
    }
}

/// The views of the events of an epoch, if it has an entry.
pub open spec fn found_view<E: View>(events: Option<&Vec<E>>) -> Option<Seq<E::V>> {
    match events {
        Some(v) => Some(events_view(v@)),
        None => None,
    }
}

/// The loss for a given sensitivity and noise scale.
fn loss_for(sensitivity: u128, noise_scale: u64) -> (r: PureDPBudget)
    ensures
        r == loss_from_sensitivity(sensitivity as nat, noise_scale),
{
    // Near-zero noise scales are non-private, i.e. they request infinite
    // budget, which only infinite filters grant.
    if noise_scale == 0 {
        return PureDPBudget::Infinite;
    }
    let b = noise_scale as u128;
    let ghost s: int = sensitivity as int;
    let ghost d: int = noise_scale as int;
    let ghost x: int = s * (UNIT as int);
    let ghost q: int = ceil_div(x as nat, d as nat) as int;
    proof {
        lemma_fundamental_div_mod(x, d);
        lemma_mod_pos_bound(x, d);
        assert(x <= q * d) by (nonlinear_arith)
            requires
                x == d * (x / d) + x % d,
                0 <= x % d < d,
                q == if x % d == 0 { x / d } else { x / d + 1 },
        ;
    }
    if sensitivity > u128::MAX / (UNIT as u128) {
        proof {
            assert(x > u128::MAX) by (nonlinear_arith)
                requires
                    s > (u128::MAX as int) / (UNIT as int),
                    x == s * (UNIT as int),
                    UNIT == 1_000_000,
            ;
            if q <= u64::MAX {
                assert(q * d <= u64::MAX * u64::MAX) by (nonlinear_arith)
                    requires
                        0 <= q <= u64::MAX,
                        0 <= d <= u64::MAX,
                ;
            }
        }
        return PureDPBudget::Infinite;
    }
    assert(x <= u128::MAX) by (nonlinear_arith)
        requires
            s <= (u128::MAX as int) / (UNIT as int),
            x == s * UNIT,
            UNIT == 1_000_000,
    ;
    let scaled = sensitivity * (UNIT as u128);
    assert(scaled == x);
    let down = scaled / b;
    let rem = scaled % b;
    let ceiling: u128 = if rem == 0 {
        down
    } else {
        assert(down < u128::MAX) by (nonlinear_arith)
            requires
                x == d * (x / d) + x % d,
                0 < x % d < d,
                x <= u128::MAX,
                down == x / d,
        ;
        down + 1
    };
    assert(ceiling == q);
    if ceiling <= u64::MAX as u128 {
        PureDPBudget::Epsilon(ceiling as u64)
    } else {
        PureDPBudget::Infinite
    }
}

/// The filters after the budgeting pass has charged the first `i`
/// requested epochs.
pub open spec fn filters_after_epochs<Q: EpochReportRequest>(
    request: Q,
    filters: FilterMap,
    stored: Map<usize, Seq<EventView<Q>>>,
    capacity: PureDPBudget,
    i: int,
) -> FilterMap {
    let relevant = relevant_events(request, stored);
    budget_pass(
        request,
        filters,
        relevant,
        request.report_spec(relevant),
        relevant.len(),
        capacity,
        request.epoch_ids_spec().take(i),
    ).0
}

/// The filters after debiting `budget` from each epoch of `epoch_ids`,
/// whatever the answers.
pub open spec fn debited_filters(
    filters: FilterMap,
    epoch_ids: Seq<usize>,
    budget: PureDPBudget,
    capacity: PureDPBudget,
) -> FilterMap
    decreases epoch_ids.len(),
{
    if epoch_ids.len() == 0 {
        filters
    } else {
        let before = with_filter(
            debited_filters(filters, epoch_ids.drop_last(), budget, capacity),
            epoch_ids.last(),
            capacity,
        );
        before.insert(epoch_ids.last(), pure_dp_consume(before[epoch_ids.last()], budget).1)
    }
}

/// Whether a filter storage consumes budget as pure-DP filters do.
pub open spec fn consumes_pure_dp<FS: FilterStorage<FilterId = usize, Budget = PureDPBudget>>() -> bool {
    forall|remaining: PureDPBudget, requested: PureDPBudget|
        #[trigger] FS::consume_spec(remaining, requested) == pure_dp_consume(remaining, requested)
}

/// Epoch-based private data service, over a filter storage and an event
/// storage. It assumes a single querier, so a filter id is an epoch id.
#[derive(Debug)]
pub struct EpochPrivateDataService<FS, ES, Q, ERR> {
    /// Filter storage.
    pub filter_storage: FS,
    /// Event storage.
    pub event_storage: ES,
    /// Capacity of the filter of each new epoch.
    pub epoch_capacity: PureDPBudget,
    /// Type of accepted requests.
    pub _phantom_request: PhantomData<Q>,
    /// Type of errors.
    pub _phantom_error: PhantomData<ERR>,
}

impl<Q: EpochReportRequest> EpochPrivateDataService<
    HashMapFilterStorage<usize, PureDPBudgetFilter, PureDPBudget>,
    HashMapEventStorage<Q::Event, Q::RelevantEventSelector>,
    Q,
    PdsError,
> {
    /// A service over in-memory storages, with no events and no filters.
    pub fn new(epoch_capacity: PureDPBudget) -> (r: Self)
        ensures
            r.filter_storage.filters() == FilterMap::empty(),
            r.filter_storage.is_infallible(),
            r.event_storage.epochs() == Map::<usize, Seq<EventView<Q>>>::empty(),
            r.event_storage.is_infallible(),
            r.epoch_capacity == epoch_capacity,
    {
        let filter_storage = HashMapFilterStorage::new();
        assert(filter_storage.filters() =~= FilterMap::empty());
        EpochPrivateDataService {
            filter_storage,
            event_storage: HashMapEventStorage::new(),
            epoch_capacity,
            _phantom_request: PhantomData,
            _phantom_error: PhantomData,
        }
    }
}

impl<FS, ES, Q, ERR> EpochPrivateDataService<FS, ES, Q, ERR> where
    Q: EpochReportRequest,
    FS: FilterStorage<FilterId = usize, Budget = PureDPBudget>,
    ES: EventStorage<Event = Q::Event, RelevantEventSelector = Q::RelevantEventSelector>,
    ERR: From<FS::Error> + From<ES::Error>,
 {
    /// Registers a new event. No budget is involved.
    pub fn register_event(&mut self, event: Q::Event) -> (r: Result<(), ERR>)
        ensures
            r is Ok ==> final(self).event_storage.epochs() == epochs_after_add::<Q::Event>(
                old(self).event_storage.epochs(),
                event@,
            ),
            r is Err ==> final(self).event_storage.epochs() == old(self).event_storage.epochs(),
            old(self).event_storage.is_infallible() ==> r is Ok
                && final(self).event_storage.is_infallible(),
            final(self).filter_storage == old(self).filter_storage,
            final(self).epoch_capacity == old(self).epoch_capacity,
    {
        match self.event_storage.add_event(event) {
            Ok(()) => Ok(()),
            Err(e) => Err(ERR::from(e)),
        }
    }

    /// Makes sure that the filter of `epoch_id` exists. A failure to create
    /// it is not reported: it would tell whether the filter existed. A
    /// failure to look the filter up is.
    fn initialize_filter_if_necessary(&mut self, epoch_id: &usize) -> (r: Result<(), ERR>)
        ensures
            r is Err ==> final(self).filter_storage.filters() == old(
                self,
            ).filter_storage.filters(),
            r is Ok ==> final(self).filter_storage.filters() == with_filter(
                old(self).filter_storage.filters(),
                *epoch_id,
                old(self).epoch_capacity,
            ) || (final(self).filter_storage.filters() == old(self).filter_storage.filters()
                && !old(self).filter_storage.filters().contains_key(*epoch_id)),
            old(self).filter_storage.is_infallible() ==> r is Ok
                && final(self).filter_storage.is_infallible()
                && final(self).filter_storage.filters() == with_filter(
                old(self).filter_storage.filters(),
                *epoch_id,
                old(self).epoch_capacity,
            ),
            final(self).event_storage == old(self).event_storage,
            final(self).epoch_capacity == old(self).epoch_capacity,
    {
        let filter_initialized = match self.filter_storage.is_initialized(epoch_id) {
            Ok(b) => b,
            Err(e) => {
                return Err(ERR::from(e));
            },
        };
        if !filter_initialized {
            let create_filter_result = self.filter_storage.new_filter(
                *epoch_id,
                self.epoch_capacity,
            );
            if create_filter_result.is_err() {
                return Ok(());
            }
        }
        Ok(())
    }

    /// Computes a report for `request`, paying for it with the budget of
    /// the requested epochs.
    ///
    /// The relevant events of each requested epoch are collected and a draft
    /// report is computed from them; it serves only to size the privacy
    /// loss. Each epoch is then charged its individual loss in request
    /// order; an epoch whose filter is out of budget is dropped. The report
    /// is computed again over the epochs that were kept. Budget spent on one
    /// epoch is never given back when another is dropped.
    ///
    /// An event-storage error is returned before any filter is touched. If
    /// charging an epoch fails in the filter storage, the null report comes
    /// back and the epochs charged before it stay charged; a failure to look
    /// a filter up is returned as an error, with the same debits kept.
    pub fn compute_report(&mut self, request: Q) -> (r: Result<Q::Report, ERR>)
        requires
            consumes_pure_dp::<FS>(),
        ensures
            ({
                let ids = request.epoch_ids_spec();
                let filters0 = old(self).filter_storage.filters();
                let stored = old(self).event_storage.epochs();
                let capacity = old(self).epoch_capacity;
                let (filters, kept) = report_budgeting(request, filters0, stored, capacity);
                let after = final(self).filter_storage.filters();
                &&& old(self).filter_storage.is_infallible() && old(
                    self,
                ).event_storage.is_infallible() ==> (r matches Ok(report) && report@
                    == request.report_spec(kept) && after == filters)
                &&& r matches Ok(report) ==> (report@ == request.report_spec(kept) && after
                    == filters) || (report@ == <Q::Report as Report>::null_spec() && exists|i: int|
                    0 <= i < ids.len() && (after == #[trigger] filters_after_epochs(
                        request,
                        filters0,
                        stored,
                        capacity,
                        i,
                    ) || after == with_filter(
                        filters_after_epochs(request, filters0, stored, capacity, i),
                        ids[i],
                        capacity,
                    )))
                &&& r is Err ==> exists|i: int|
                    0 <= i < ids.len() && after == #[trigger] filters_after_epochs(
                        request,
                        filters0,
                        stored,
                        capacity,
                        i,
                    )
            }),
            old(self).filter_storage.is_infallible() ==> final(self).filter_storage.is_infallible(),
            final(self).event_storage == old(self).event_storage,
            final(self).epoch_capacity == old(self).epoch_capacity,
    {
        let ghost stored = self.event_storage.epochs();
        let ghost filters0 = self.filter_storage.filters();
        let ghost capacity = self.epoch_capacity;
        let ghost infallible = self.filter_storage.is_infallible()
            && self.event_storage.is_infallible();
        // Collect the relevant events of each epoch; an epoch that never
        // received an event gets no entry.
        let mut relevant_events_per_epoch: HashMap<usize, Vec<Q::Event>> = HashMap::new();
        let relevant_event_selector = request.get_relevant_event_selector();
        let epoch_ids = request.get_epoch_ids();
        let mut i: usize = 0;
        proof {
            assert(epoch_ids@.take(0) =~= Seq::<usize>::empty());
            assert(epochs_view(relevant_events_per_epoch@) =~= Map::<
                usize,
                Seq<EventView<Q>>,
            >::empty());
            assert((|v| relevant_event_selector.spec_is_relevant(v)) =~= (|v|
                request.is_relevant_spec(v)));
        }
        while i < epoch_ids.len()
            invariant
                i <= epoch_ids@.len(),
                epoch_ids@ == request.epoch_ids_spec(),
                stored == self.event_storage.epochs(),
                filters0 == self.filter_storage.filters(),
                capacity == self.epoch_capacity,
                *self == *old(self),
                infallible == (self.filter_storage.is_infallible()
                    && self.event_storage.is_infallible()),
                (|v| relevant_event_selector.spec_is_relevant(v)) == (|v|
                    request.is_relevant_spec(v)),
                epochs_view(relevant_events_per_epoch@) == collect_relevant(
                    request,
                    stored,
                    epoch_ids@.take(i as int),
                ),
            decreases epoch_ids@.len() - i,
        {
            let epoch_id = epoch_ids[i];
            let found = self.event_storage.get_relevant_epoch_events(
                &epoch_id,
                &relevant_event_selector,
            );
            let ghost before = relevant_events_per_epoch@;
            proof {
                assert(epoch_ids@.take(i + 1).drop_last() =~= epoch_ids@.take(i as int));
            }
            match found {
                Ok(Some(epoch_relevant_events)) => {
                    let ghost evs = events_view(epoch_relevant_events@);
                    relevant_events_per_epoch.insert(epoch_id, epoch_relevant_events);
                    assert(epochs_view(relevant_events_per_epoch@) =~= epochs_view(before).insert(
                        epoch_id,
                        evs,
                    ));
                },
                Ok(None) => {},
                Err(e) => {
                    // No filter has been touched yet.
                    assert(filters_after_epochs(request, filters0, stored, capacity, 0)
                        == filters0);
                    return Err(ERR::from(e));
                },
            }
            i += 1;
        }
        assert(epoch_ids@.take(i as int) =~= epoch_ids@);
        let ghost relevant = epochs_view(relevant_events_per_epoch@);
        assert(relevant.dom() =~= relevant_events_per_epoch@.dom());
        // The draft report, used only for accounting.
        let num_epochs: usize = relevant_events_per_epoch.len();
        let unbiased_report = request.compute_report(&relevant_events_per_epoch);
        let ghost draft = unbiased_report@;
        i = 0;
        assert(epoch_ids@.take(0) =~= Seq::<usize>::empty());
        // Charge each epoch in the attribution window.
        while i < epoch_ids.len()
            invariant
                i <= epoch_ids@.len(),
                epoch_ids@ == request.epoch_ids_spec(),
                consumes_pure_dp::<FS>(),
                stored == old(self).event_storage.epochs(),
                filters0 == old(self).filter_storage.filters(),
                capacity == old(self).epoch_capacity,
                self.event_storage == old(self).event_storage,
                self.epoch_capacity == old(self).epoch_capacity,
                infallible == (old(self).filter_storage.is_infallible()
                    && old(self).event_storage.is_infallible()),
                old(self).filter_storage.is_infallible() ==> self.filter_storage.is_infallible(),
                relevant == relevant_events(request, stored),
                draft == unbiased_report@,
                draft == request.report_spec(relevant),
                num_epochs == relevant.len(),
                self.filter_storage.filters() == filters_after_epochs(
                    request,
                    filters0,
                    stored,
                    capacity,
                    i as int,
                ),
                (self.filter_storage.filters(), epochs_view(relevant_events_per_epoch@))
                    == budget_pass(
                    request,
                    filters0,
                    relevant,
                    draft,
                    num_epochs as nat,
                    capacity,
                    epoch_ids@.take(i as int),
                ),
            decreases epoch_ids@.len() - i,
        {
            let epoch_id = epoch_ids[i];
            let ghost kept = epochs_view(relevant_events_per_epoch@);
            let ghost filters_i = self.filter_storage.filters();
            proof {
                assert(epoch_ids@.take(i + 1).drop_last() =~= epoch_ids@.take(i as int));
                assert(epoch_ids@.take(i + 1).last() == epoch_id);
            }
            // The relevant events of this epoch, and what they cost.
            let epoch_relevant_events = relevant_events_per_epoch.get(&epoch_id);
            assert(found_view(epoch_relevant_events) == lookup(kept, epoch_id));
            let individual_privacy_loss = self.compute_individual_privacy_loss(
                &request,
                epoch_relevant_events,
                &unbiased_report,
                num_epochs,
            );
            match self.initialize_filter_if_necessary(&epoch_id) {
                Ok(()) => {},
                Err(e) => {
                    assert(0 <= i < epoch_ids@.len());
                    return Err(e);
                },
            }
            // Consume the budget of this epoch; drop its events if it is
            // out of budget.
            match self.filter_storage.check_and_consume(&epoch_id, &individual_privacy_loss) {
                Ok(FilterStatus::Continue) => {},
                Ok(FilterStatus::OutOfBudget) => {
                    let ghost before = relevant_events_per_epoch@;
                    relevant_events_per_epoch.remove(&epoch_id);
                    assert(epochs_view(relevant_events_per_epoch@) =~= epochs_view(before).remove(
                        epoch_id,
                    ));
                },
                Err(_) => {
                    // Anything else going wrong gives the null report.
                    assert(epoch_ids@[i as int] == epoch_id);
                    return Ok(Q::Report::null_report());
                },
            }
            i += 1;
        }
        assert(epoch_ids@.take(i as int) =~= epoch_ids@);
        // With the out-of-budget epochs dropped, the final report.
        let filtered_report = request.compute_report(&relevant_events_per_epoch);
        Ok(filtered_report)
    }

    /// Accounts for a passive privacy loss: the request's budget is debited
    /// from each of its epochs in turn. At the first epoch out of budget it
    /// stops and returns `OutOfBudget`; the epochs before it stay debited.
    /// A storage error is returned, and the epochs before it stay debited
    /// too; a filter that could not be created shows as the error of the
    /// debit that follows.
    pub fn account_for_passive_privacy_loss(
        &mut self,
        request: PassivePrivacyLossRequest<usize, PureDPBudget>,
    ) -> (r: Result<FilterStatus, ERR>)
        requires
            consumes_pure_dp::<FS>(),
        ensures
            ({
                let ids = request.epoch_ids@;
                let filters0 = old(self).filter_storage.filters();
                let capacity = old(self).epoch_capacity;
                let budget = request.privacy_budget;
                let (filters, status) = passive_pass(filters0, ids, budget, capacity);
                let after = final(self).filter_storage.filters();
                &&& old(self).filter_storage.is_infallible() ==> r is Ok
                &&& r matches Ok(s) ==> s == status && after == filters
                &&& r is Err ==> exists|i: int|
                    0 <= i < ids.len() && (after == #[trigger] debited_filters(
                        filters0,
                        ids.take(i),
                        budget,
                        capacity,
                    ) || after == with_filter(
                        debited_filters(filters0, ids.take(i), budget, capacity),
                        ids[i],
                        capacity,
                    ))
            }),
            old(self).filter_storage.is_infallible() ==> final(self).filter_storage.is_infallible(),
            final(self).event_storage == old(self).event_storage,
            final(self).epoch_capacity == old(self).epoch_capacity,
    {
        let ghost ids = request.epoch_ids@;
        let ghost budget = request.privacy_budget;
        let ghost capacity = self.epoch_capacity;
        let ghost filters0 = self.filter_storage.filters();
        let ghost outcome = passive_pass(filters0, ids, budget, capacity);
        let mut i: usize = 0;
        assert(ids.skip(0) =~= ids);
        assert(ids.take(0) =~= Seq::<usize>::empty());
        while i < request.epoch_ids.len()
            invariant
                i <= ids.len(),
                consumes_pure_dp::<FS>(),
                ids == request.epoch_ids@,
                budget == request.privacy_budget,
                capacity == old(self).epoch_capacity,
                filters0 == old(self).filter_storage.filters(),
                self.epoch_capacity == old(self).epoch_capacity,
                self.event_storage == old(self).event_storage,
                old(self).filter_storage.is_infallible() ==> self.filter_storage.is_infallible(),
                outcome == passive_pass(filters0, ids, budget, capacity),
                outcome == passive_pass(
                    self.filter_storage.filters(),
                    ids.skip(i as int),
                    budget,
                    capacity,
                ),
                self.filter_storage.filters() == debited_filters(
                    filters0,
                    ids.take(i as int),
                    budget,
                    capacity,
                ),
            decreases ids.len() - i,
        {
            let epoch_id = request.epoch_ids[i];
            proof {
                assert(ids.skip(i as int)[0] == epoch_id);
                assert(ids.skip(i as int).skip(1) =~= ids.skip(i + 1));
                assert(ids.take(i + 1).drop_last() =~= ids.take(i as int));
                assert(ids.take(i + 1).last() == epoch_id);
            }
            match self.initialize_filter_if_necessary(&epoch_id) {
                Ok(()) => {},
                Err(e) => {
                    return Err(e);
                },
            }
            // Try to consume budget from this epoch.
            let filter_status = match self.filter_storage.check_and_consume(
                &epoch_id,
                &request.privacy_budget,
            ) {
                Ok(status) => status,
                Err(e) => {
                    return Err(ERR::from(e));
                },
            };
            if filter_status == FilterStatus::OutOfBudget {
                return Ok(FilterStatus::OutOfBudget);
            }
            i += 1;
        }
        Ok(FilterStatus::Continue)
    }

    /// Pure-DP individual privacy loss of one epoch.
    fn compute_individual_privacy_loss(
        &self,
        request: &Q,
        epoch_relevant_events: Option<&Vec<Q::Event>>,
        computed_attribution: &Q::Report,
        num_epochs: usize,
    ) -> (r: PureDPBudget)
        ensures
            r == request_loss(
                *request,
                found_view(epoch_relevant_events),
                computed_attribution@,
                num_epochs as nat,
            ),
    {
        // An epoch without relevant events costs nothing.
        match epoch_relevant_events {
            None => {
                return PureDPBudget::Epsilon(0);
            },
            Some(epoch_events) => {
                if epoch_events.len() == 0 {
                    return PureDPBudget::Epsilon(0);
                }
            },
        }
        // One epoch: the sensitivity of the actual report. Several: the
        // global sensitivity.
        let individual_sensitivity = if num_epochs == 1 {
            request.get_single_epoch_individual_sensitivity(computed_attribution, NormType::L1)
        } else {
            request.get_report_global_sensitivity()
        };
        match request.get_noise_scale() {
            NoiseScale::Laplace(noise_scale) => loss_for(individual_sensitivity, noise_scale),
        }
    }
}

} // verus!
