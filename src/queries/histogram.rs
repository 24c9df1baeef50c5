use std::collections::HashMap;

use vstd::prelude::*;

use crate::events::traits::{all_epochs_empty, epochs_view, Event, RelevantEventSelector};
use crate::mechanisms::{NoiseScale, NormType};
use crate::queries::traits::{EpochReportRequest, Report, ReportRequest};

verus! {

/// Marker trait for bucket keys. Buckets are keyed by `usize`.
pub trait BucketKey {}

impl BucketKey for usize {}

/// Sum of a sequence of values.
pub open spec fn total(values: Seq<u64>) -> nat
    decreases values.len(),
{
    if values.len() == 0 {
        0
    } else {
        total(values.drop_last()) + values.last() as nat
    }
}

/// The values of a sequence of (key, value) pairs.
pub open spec fn values_of(pairs: Seq<(usize, u64)>) -> Seq<u64> {
    pairs.map_values(|p: (usize, u64)| p.1)
}

/// Sum of the squares of a sequence of values.
pub open spec fn total_squares(values: Seq<u64>) -> nat
    decreases values.len(),
{
    if values.len() == 0 {
        0
    } else {
        total_squares(values.drop_last()) + (values.last() as nat) * (values.last() as nat)
    }
}

/// Whether `r` is the integer square root of `n`.
pub open spec fn is_isqrt(n: nat, r: nat) -> bool {
    r * r <= n && n < (r + 1) * (r + 1)
}

/// Integer square root: the largest `r` with `r * r <= n`.
pub open spec fn isqrt(n: nat) -> nat {
    choose|r: nat| #[trigger] is_isqrt(n, r)
}

/// How many leading values fit under `cap` when added up in order:
/// attribution stops at the first value that would exceed it.
pub open spec fn attributed_count(values: Seq<u64>, cap: nat) -> nat
    decreases values.len(),
{
    if values.len() == 0 {
        0
    } else if values[0] > cap {
        0
    } else {
        1 + attributed_count(values.skip(1), (cap - values[0]) as nat)
    }
}

/// Index of the first bin with `key`, or the number of bins if none has it.
pub open spec fn bin_index(bins: Seq<(usize, u64)>, key: usize) -> nat
    decreases bins.len(),
{
    if bins.len() == 0 {
        0
    } else if bins[0].0 == key {
        0
    } else {
        1 + bin_index(bins.skip(1), key)
    }
}

/// The bins after adding `value` to the bin of `key` (a new bin at the end
/// if there is none).
pub open spec fn add_to_bin(bins: Seq<(usize, u64)>, key: usize, value: u64) -> Seq<(usize, u64)> {
    let j = bin_index(bins, key) as int;
    if j < bins.len() {
        bins.update(j, (key, (bins[j].1 + value) as u64))
    } else {
        bins.push((key, value))
    }
}

/// The histogram of a sequence of (bucket key, value) pairs, bins in order
/// of first appearance.
pub open spec fn histogram_of(pairs: Seq<(usize, u64)>) -> Seq<(usize, u64)>
    decreases pairs.len(),
{
    if pairs.len() == 0 {
        Seq::empty()
    } else {
        add_to_bin(histogram_of(pairs.drop_last()), pairs.last().0, pairs.last().1)
    }
}

/// The histogram of the pairs attributed under the cap.
pub open spec fn capped_histogram(pairs: Seq<(usize, u64)>, cap: nat) -> Seq<(usize, u64)> {
    histogram_of(pairs.take(attributed_count(values_of(pairs), cap) as int))
}

/// A histogram: a value per bucket key.
#[derive(Debug)]
pub struct HistogramReport {
    bin_values: Vec<(usize, u64)>,
}

impl View for HistogramReport {
    /// The bins, in order of first attribution.
    type V = Seq<(usize, u64)>;

    closed spec fn view(&self) -> Seq<(usize, u64)> {
        self.bin_values@
    }
}

impl HistogramReport {
    /// The values of the bins add up to a `u64`.
    #[verifier::type_invariant]
    closed spec fn inv(self) -> bool {
        total(values_of(self.bin_values@)) <= u64::MAX
    }

    /// The value of the bin of `key`, if there is one.
    pub fn get(&self, key: &usize) -> (r: Option<u64>)
        ensures
            bin_index(self@, *key) < self@.len() ==> r == Some(self@[bin_index(self@, *key) as int].1),
            bin_index(self@, *key) >= self@.len() ==> r is None,
    {
        let i = find_bin(&self.bin_values, *key);
        if i < self.bin_values.len() {
            Some(self.bin_values[i].1)
        } else {
            None
        }
    }

    /// Whether some bin has `key`.
    pub fn contains_key(&self, key: &usize) -> (r: bool)
        ensures
            r == (bin_index(self@, *key) < self@.len()),
    {
        find_bin(&self.bin_values, *key) < self.bin_values.len()
    }

    /// The bins, each a bucket key and its value, in order of first
    /// attribution.
    pub fn bins(&self) -> (r: Vec<(usize, u64)>)
        ensures
            r@ == self@,
    {
        let mut bins: Vec<(usize, u64)> = Vec::new();
        let mut i: usize = 0;
        while i < self.bin_values.len()
            invariant
                i <= self.bin_values@.len(),
                bins@ == self.bin_values@.take(i as int),
            decreases self.bin_values@.len() - i,
        {
            bins.push(self.bin_values[i]);
            assert(self.bin_values@.take(i + 1) =~= self.bin_values@.take(i as int).push(
                self.bin_values@[i as int],
            ));
            i += 1;
        }
        assert(self.bin_values@.take(i as int) =~= self.bin_values@);
        bins
    }

    /// The number of bins.
    pub fn len(&self) -> (r: usize)
        ensures
            r == self@.len(),
    {
        self.bin_values.len()
    }
}

/// The default histogram has no bins: the null report.
impl Default for HistogramReport {
    fn default() -> (r: Self)
        ensures
            r@ == Seq::<(usize, u64)>::empty(),
    {
        HistogramReport::null_report()
    }
}

impl Report for HistogramReport {
    /// No bins.
    open spec fn null_spec() -> Seq<(usize, u64)> {
        Seq::empty()
    }

    fn null_report() -> (r: Self) {
        let r = HistogramReport { bin_values: Vec::new() };
        assert(r@ =~= Seq::<(usize, u64)>::empty());
        r
    }
}

/// `bin_index` is the first index whose key matches.
proof fn lemma_bin_index(bins: Seq<(usize, u64)>, key: usize, i: int)
    requires
        0 <= i <= bins.len(),
        forall|j: int| 0 <= j < i ==> bins[j].0 != key,
        i == bins.len() || bins[i].0 == key,
    ensures
        bin_index(bins, key) == i,
    decreases bins.len(),
{
    if bins.len() > 0 && i > 0 {
        lemma_bin_index(bins.skip(1), key, i - 1);
    }
}

/// Position of the first bin with `key`, or the number of bins.
fn find_bin(bins: &Vec<(usize, u64)>, key: usize) -> (r: usize)
    ensures
        r == bin_index(bins@, key),
{
    let mut i: usize = 0;
    while i < bins.len()
        invariant
            i <= bins@.len(),
            forall|j: int| 0 <= j < i ==> bins@[j].0 != key,
        decreases bins@.len() - i,
    {
        if bins[i].0 == key {
            proof {
                lemma_bin_index(bins@, key, i as int);
            }
            return i;
        }
        i += 1;
    }
    proof {
        lemma_bin_index(bins@, key, i as int);
    }
    i
}

/// A value of a sequence is at most its total.
proof fn lemma_value_le_total(values: Seq<u64>, j: int)
    requires
        0 <= j < values.len(),
    ensures
        values[j] <= total(values),
    decreases values.len(),
{
    if j < values.len() - 1 {
        lemma_value_le_total(values.drop_last(), j);
    }
}

/// Changing one value changes the total by the difference.
proof fn lemma_total_update(values: Seq<u64>, j: int, v: u64)
    requires
        0 <= j < values.len(),
    ensures
        total(values.update(j, v)) + values[j] == total(values) + v,
    decreases values.len(),
{
    let u = values.update(j, v);
    if j < values.len() - 1 {
        assert(u.drop_last() =~= values.drop_last().update(j, v));
        lemma_total_update(values.drop_last(), j, v);
    } else {
        assert(u.drop_last() =~= values.drop_last());
    }
}

/// Adding to a bin adds to the total of the bins, when that total fits.
proof fn lemma_add_to_bin_total(bins: Seq<(usize, u64)>, key: usize, value: u64)
    requires
        total(values_of(bins)) + value <= u64::MAX,
    ensures
        total(values_of(add_to_bin(bins, key, value))) == total(values_of(bins)) + value,
{
    let j = bin_index(bins, key) as int;
    let vals = values_of(bins);
    if j < bins.len() {
        lemma_value_le_total(vals, j);
        assert(values_of(add_to_bin(bins, key, value)) =~= vals.update(
            j,
            (bins[j].1 + value) as u64,
        ));
        lemma_total_update(vals, j, (bins[j].1 + value) as u64);
    } else {
        assert(values_of(add_to_bin(bins, key, value)) =~= vals.push(value));
        assert(vals.push(value).drop_last() =~= vals);
    }
}

/// The bins of a histogram add up to the total of its pairs, when that
/// total fits.
pub proof fn lemma_histogram_total(pairs: Seq<(usize, u64)>)
    requires
        total(values_of(pairs)) <= u64::MAX,
    ensures
        total(values_of(histogram_of(pairs))) == total(values_of(pairs)),
    decreases pairs.len(),
{
    if pairs.len() > 0 {
        assert(values_of(pairs).drop_last() =~= values_of(pairs.drop_last()));
        lemma_histogram_total(pairs.drop_last());
        lemma_add_to_bin_total(histogram_of(pairs.drop_last()), pairs.last().0, pairs.last().1);
    }
}

/// Attribution of a prefix under a cap: `attributed_count` unfolds one
/// value at a time.
proof fn lemma_attributed_count_step(values: Seq<u64>, i: int, cap: nat)
    requires
        0 <= i < values.len(),
        values[i] <= cap,
    ensures
        attributed_count(values.skip(i), cap) == 1 + attributed_count(
            values.skip(i + 1),
            (cap - values[i]) as nat,
        ),
{
    assert(values.skip(i).skip(1) =~= values.skip(i + 1));
}

/// The total of a prefix one longer.
proof fn lemma_total_take(values: Seq<u64>, i: int)
    requires
        0 <= i < values.len(),
    ensures
        total(values.take(i + 1)) == total(values.take(i)) + values[i],
{
    assert(values.take(i + 1).drop_last() =~= values.take(i));
}

/// The total splits into the first value and the total of the rest.
proof fn lemma_total_first(values: Seq<u64>)
    requires
        values.len() > 0,
    ensures
        total(values) == values[0] + total(values.skip(1)),
    decreases values.len(),
{
    if values.len() > 1 {
        lemma_total_first(values.drop_last());
        assert(values.drop_last().skip(1) =~= values.skip(1).drop_last());
        assert(values.skip(1).last() == values.last());
        assert(total(values.skip(1)) == total(values.skip(1).drop_last()) + values.last());
    } else {
        assert(values.skip(1).len() == 0);
        assert(values.drop_last().len() == 0);
        assert(total(values) == total(values.drop_last()) + values.last());
    }
}

/// The values attributed under the cap fit under it, and the next value
/// (if any) would exceed it.
proof fn lemma_attributed_count(values: Seq<u64>, cap: nat)
    ensures
        attributed_count(values, cap) <= values.len(),
        total(values.take(attributed_count(values, cap) as int)) <= cap,
        attributed_count(values, cap) < values.len() ==> total(
            values.take(attributed_count(values, cap) as int + 1),
        ) > cap,
    decreases values.len(),
{
    let k = attributed_count(values, cap);
    if values.len() == 0 {
        assert(values.take(0).len() == 0);
    } else if values[0] > cap {
        assert(values.take(0).len() == 0);
        lemma_total_first(values.take(1));
    } else {
        let rest = values.skip(1);
        let c = (cap - values[0]) as nat;
        lemma_attributed_count(rest, c);
        let k1 = attributed_count(rest, c) as int;
        assert(values.take(k1 + 1).skip(1) =~= rest.take(k1));
        lemma_total_first(values.take(k1 + 1));
        if k1 < rest.len() {
            assert(values.take(k1 + 2).skip(1) =~= rest.take(k1 + 1));
            lemma_total_first(values.take(k1 + 2));
        }
    }
}

/// The L1 norm of a capped histogram: the total of all values when it
/// fits under the cap; otherwise the total of a strict prefix of them, the
/// values before the first one that would take the total over the cap.
pub proof fn lemma_capped_histogram_norm(pairs: Seq<(usize, u64)>, cap: u64)
    ensures
        total(values_of(pairs)) <= cap ==> total(values_of(capped_histogram(pairs, cap as nat)))
            == total(values_of(pairs)),
        total(values_of(pairs)) > cap ==> {
            let k = attributed_count(values_of(pairs), cap as nat) as int;
            &&& k < pairs.len()
            &&& total(values_of(capped_histogram(pairs, cap as nat))) == total(
                values_of(pairs).take(k),
            )
            &&& total(values_of(pairs).take(k + 1)) > cap
        },
{
    let values = values_of(pairs);
    let k = attributed_count(values, cap as nat) as int;
    lemma_attributed_count(values, cap as nat);
    assert(values_of(pairs.take(k)) =~= values.take(k));
    lemma_histogram_total(pairs.take(k));
    if total(values) <= cap && k < values.len() {
        lemma_total_prefix_le(values, k + 1);
    }
    if k == values.len() {
        assert(values.take(k) =~= values);
    }
}

/// A request for a histogram report. Any such request is an epoch report
/// request with histogram accounting.
pub trait HistogramRequest {
    type Event: Event;
    type RelevantEventSelector: RelevantEventSelector<Event = Self::Event>;

    /// The requested epochs, typically a range.
    spec fn epochs_ids_spec(&self) -> Seq<usize>;

    /// Whether an event is relevant to the request.
    spec fn is_relevant_spec(&self, event: <Self::Event as View>::V) -> bool;

    /// Laplace noise scale, in fixed point.
    spec fn laplace_noise_scale_spec(&self) -> u64;

    /// The largest L1 norm of a report, in fixed point.
    spec fn attributable_value_spec(&self) -> u64;

    /// Bucket of an event.
    spec fn bucket_key_spec(&self, event: <Self::Event as View>::V) -> usize;

    /// The events to attribute to, each with its value, in attribution
    /// order.
    spec fn values_spec(&self, per_epoch: Map<usize, Seq<<Self::Event as View>::V>>) -> Seq<
        (<Self::Event as View>::V, u64),
    >;

    /// Without events there is nothing to attribute.
    proof fn lemma_no_values_without_events(
        &self,
        per_epoch: Map<usize, Seq<<Self::Event as View>::V>>,
    )
        requires
            all_epochs_empty(per_epoch),
        ensures
            self.values_spec(per_epoch).len() == 0,
    ;

    /// Returns the ids of the epochs of the request.
    fn get_epochs_ids(&self) -> (r: Vec<usize>)
        ensures
            r@ == self.epochs_ids_spec(),
    ;

    /// Returns the Laplace noise scale added after summing the reports.
    fn get_laplace_noise_scale(&self) -> (r: u64)
        ensures
            r == self.laplace_noise_scale_spec(),
    ;

    /// Returns the maximum attributable value, the largest L1 norm of a
    /// report.
    fn get_attributable_value(&self) -> (r: u64)
        ensures
            r == self.attributable_value_spec(),
    ;

    /// Returns the selector of the relevant events.
    fn get_relevant_event_selector(&self) -> (r: Self::RelevantEventSelector)
        ensures
            forall|v| #[trigger] r.spec_is_relevant(v) == self.is_relevant_spec(v),
    ;

    /// Returns the histogram bucket key of an event.
    fn get_bucket_key(&self, event: &Self::Event) -> (r: usize)
        ensures
            r == self.bucket_key_spec(event@),
    ;

    /// Attributes a value to each relevant event, in attribution order.
    fn get_values<'a>(&self, relevant_events_per_epoch: &'a HashMap<usize, Vec<Self::Event>>) -> (r:
        Vec<(&'a Self::Event, u64)>)
        ensures
            r@.map_values(|p: (&'a Self::Event, u64)| (p.0@, p.1)) == self.values_spec(
                epochs_view(relevant_events_per_epoch@),
            ),
    ;
}

/// The (bucket key, value) pairs of a histogram request's values.
pub open spec fn keyed_values<H: HistogramRequest>(
    request: &H,
    values: Seq<(<H::Event as View>::V, u64)>,
) -> Seq<(usize, u64)> {
    values.map_values(|p: (<H::Event as View>::V, u64)| (request.bucket_key_spec(p.0), p.1))
}

impl<H: HistogramRequest> ReportRequest for H {
    type Report = HistogramReport;
}

impl<H: HistogramRequest> EpochReportRequest for H {
    type Event = H::Event;
    type RelevantEventSelector = H::RelevantEventSelector;

    open spec fn epoch_ids_spec(&self) -> Seq<usize> {
        self.epochs_ids_spec()
    }

    open spec fn is_relevant_spec(&self, event: <H::Event as View>::V) -> bool {
        HistogramRequest::is_relevant_spec(self, event)
    }

    /// Values are attributed in order until the next one would take the
    /// total over the attributable value.
    open spec fn report_spec(&self, per_epoch: Map<usize, Seq<<H::Event as View>::V>>) -> Seq<
        (usize, u64),
    > {
        capped_histogram(
            keyed_values(self, self.values_spec(per_epoch)),
            self.attributable_value_spec() as nat,
        )
    }

    open spec fn single_epoch_sensitivity_spec(
        &self,
        report: Seq<(usize, u64)>,
        norm_type: NormType,
    ) -> nat {
        match norm_type {
            NormType::L1 => total(values_of(report)),
            NormType::L2 => isqrt(total_squares(values_of(report))),
        }
    }

    /// Twice the attributable value: with two or more bins, one event can
    /// move value from one bin to another.
    open spec fn global_sensitivity_spec(&self) -> nat {
        2 * (self.attributable_value_spec() as nat)
    }

    open spec fn noise_scale_spec(&self) -> NoiseScale {
        NoiseScale::Laplace(self.laplace_noise_scale_spec())
    }

    proof fn lemma_report_without_events_is_null(
        &self,
        per_epoch: Map<usize, Seq<<H::Event as View>::V>>,
    ) {
        self.lemma_no_values_without_events(per_epoch);
        let pairs = keyed_values(self, self.values_spec(per_epoch));
        let cap = self.attributable_value_spec() as nat;
        assert(pairs.take(attributed_count(values_of(pairs), cap) as int).len() == 0);
        assert(capped_histogram(pairs, cap) =~= Seq::<(usize, u64)>::empty());
    }

    fn get_epoch_ids(&self) -> (r: Vec<usize>) {
        self.get_epochs_ids()
    }

    fn get_relevant_event_selector(&self) -> (r: H::RelevantEventSelector) {
        HistogramRequest::get_relevant_event_selector(self)
    }

    fn compute_report(&self, relevant_events_per_epoch: &HashMap<usize, Vec<H::Event>>) -> (r:
        HistogramReport) {
        let cap = self.get_attributable_value();
        let event_values = self.get_values(relevant_events_per_epoch);
        let ghost pairs = keyed_values(self, self.values_spec(epochs_view(relevant_events_per_epoch@)));
        let ghost values = values_of(pairs);
        proof {
            assert(values.len() == event_values@.len());
            assert forall|j: int| 0 <= j < event_values@.len() implies #[trigger] pairs[j] == (
                self.bucket_key_spec(event_values@[j].0@),
                event_values@[j].1,
            ) by {
                let viewed = event_values@.map_values(|p: (&H::Event, u64)| (p.0@, p.1));
                assert(viewed[j] == (event_values@[j].0@, event_values@[j].1));
            }
            assert(pairs.take(0) =~= Seq::<(usize, u64)>::empty());
            assert(values.skip(0) =~= values);
            assert(values.take(0) =~= Seq::<u64>::empty());
        }
        let mut bin_values: Vec<(usize, u64)> = Vec::new();
        let mut total_value: u64 = 0;
        let mut i: usize = 0;
        // The order matters: values attributed last may be dropped by the
        // cap.
        while i < event_values.len()
            invariant
                i <= event_values@.len(),
                values.len() == event_values@.len(),
                pairs.len() == event_values@.len(),
                values == values_of(pairs),
                pairs == keyed_values(
                    self,
                    self.values_spec(epochs_view(relevant_events_per_epoch@)),
                ),
                cap == self.attributable_value_spec(),
                forall|j: int| 0 <= j < event_values@.len() ==> #[trigger] pairs[j] == (
                    self.bucket_key_spec(event_values@[j].0@),
                    event_values@[j].1,
                ),
                total_value <= cap,
                total_value == total(values.take(i as int)),
                bin_values@ == histogram_of(pairs.take(i as int)),
                total(values_of(bin_values@)) == total_value,
                attributed_count(values, cap as nat) == i + attributed_count(
                    values.skip(i as int),
                    (cap - total_value) as nat,
                ),
            decreases event_values@.len() - i,
        {
            let value = event_values[i].1;
            assert(values[i as int] == value);
            if value > cap - total_value {
                // Partial attribution, within the cap.
                assert(values.skip(i as int)[0] == value);
                return HistogramReport { bin_values };
            }
            let key = self.get_bucket_key(event_values[i].0);
            proof {
                lemma_attributed_count_step(values, i as int, (cap - total_value) as nat);
                lemma_total_take(values, i as int);
                lemma_add_to_bin_total(bin_values@, key, value);
                assert(pairs.take(i + 1).drop_last() =~= pairs.take(i as int));
                assert(pairs.take(i + 1).last() == (key, value));
            }
            let j = find_bin(&bin_values, key);
            if j < bin_values.len() {
                proof {
                    lemma_value_le_total(values_of(bin_values@), j as int);
                }
                let updated = bin_values[j].1 + value;
                bin_values.set(j, (key, updated));
            } else {
                bin_values.push((key, value));
            }
            total_value = total_value + value;
            i += 1;
        }
        proof {
            assert(values.skip(i as int).len() == 0);
            assert(pairs.take(i as int) =~= pairs);
        }
        HistogramReport { bin_values }
    }

    fn get_single_epoch_individual_sensitivity(&self, report: &HistogramReport, norm_type: NormType) -> (r: u128) {
        match norm_type {
            NormType::L1 => report.l1_norm() as u128,
            NormType::L2 => report.l2_norm(),
        }
    }

    fn get_report_global_sensitivity(&self) -> (r: u128) {
        2 * (self.get_attributable_value() as u128)
    }

    fn get_noise_scale(&self) -> (r: NoiseScale) {
        NoiseScale::Laplace(self.get_laplace_noise_scale())
    }
}

impl HistogramReport {
    /// Sum of the bin values.
    pub fn l1_norm(&self) -> (r: u64)
        ensures
            r == total(values_of(self@)),
    {
        proof {
            use_type_invariant(self);
        }
        let ghost values = values_of(self@);
        let mut sum: u64 = 0;
        let mut i: usize = 0;
        while i < self.bin_values.len()
            invariant
                i <= values.len(),
                values == values_of(self.bin_values@),
                total(values) <= u64::MAX,
                sum == total(values.take(i as int)),
            decreases values.len() - i,
        {
            proof {
                lemma_total_take(values, i as int);
                lemma_total_prefix_le(values, i + 1);
            }
            sum = sum + self.bin_values[i].1;
            i += 1;
        }
        assert(values.take(i as int) =~= values);
        sum
    }

    /// Square root (rounded down) of the sum of the squared bin values.
    pub fn l2_norm(&self) -> (r: u128)
        ensures
            r == isqrt(total_squares(values_of(self@))),
    {
        proof {
            use_type_invariant(self);
        }
        let ghost values = values_of(self@);
        proof {
            lemma_total_squares_le(values);
            assert(total(values) * total(values) <= u64::MAX * u64::MAX) by (nonlinear_arith)
                requires total(values) <= u64::MAX;
        }
        let mut sum: u128 = 0;
        let mut i: usize = 0;
        while i < self.bin_values.len()
            invariant
                i <= values.len(),
                values == values_of(self.bin_values@),
                total_squares(values) <= u64::MAX * u64::MAX,
                sum == total_squares(values.take(i as int)),
            decreases values.len() - i,
        {
            let v = self.bin_values[i].1 as u128;
            proof {
                assert(values.take(i + 1).drop_last() =~= values.take(i as int));
                lemma_total_squares_prefix_le(values, i + 1);
            }
            sum = sum + v * v;
            i += 1;
        }
        assert(values.take(i as int) =~= values);
        integer_sqrt(sum)
    }
}

/// The total of a prefix is at most the total.
proof fn lemma_total_prefix_le(values: Seq<u64>, i: int)
    requires
        0 <= i <= values.len(),
    ensures
        total(values.take(i)) <= total(values),
    decreases values.len(),
{
    if i < values.len() {
        assert(values.drop_last().take(i) =~= values.take(i));
        lemma_total_prefix_le(values.drop_last(), i);
    } else {
        assert(values.take(i) =~= values);
    }
}

/// The total of the squares of a prefix is at most the total of the
/// squares.
proof fn lemma_total_squares_prefix_le(values: Seq<u64>, i: int)
    requires
        0 <= i <= values.len(),
    ensures
        total_squares(values.take(i)) <= total_squares(values),
    decreases values.len(),
{
    if i < values.len() {
        assert(values.drop_last().take(i) =~= values.take(i));
        lemma_total_squares_prefix_le(values.drop_last(), i);
    } else {
        assert(values.take(i) =~= values);
    }
}

/// The sum of squares is at most the square of the sum.
proof fn lemma_total_squares_le(values: Seq<u64>)
    ensures
        total_squares(values) <= total(values) * total(values),
    decreases values.len(),
{
    if values.len() > 0 {
        lemma_total_squares_le(values.drop_last());
        let s = total(values.drop_last());
        let v = values.last() as nat;
        let q = total_squares(values.drop_last());
        assert(q + v * v <= (s + v) * (s + v)) by (nonlinear_arith)
            requires q <= s * s;
    }
}

/// The integer square root of `n`.
fn integer_sqrt(n: u128) -> (r: u128)
    ensures
        r == isqrt(n as nat),
{
    // Binary search for the largest r with r * r <= n, in [lo, hi).
    let mut lo: u128 = 0;
    let mut hi: u128 = 0x1_0000_0000_0000_0000;
    assert(hi * hi > u128::MAX);
    while hi - lo > 1
        invariant
            lo < hi <= 0x1_0000_0000_0000_0000,
            lo * lo <= n,
            n < hi * hi,
        decreases hi - lo,
    {
        let mid = lo + (hi - lo) / 2;
        assert(mid < 0x1_0000_0000_0000_0000);
        assert(mid * mid <= u128::MAX) by (nonlinear_arith)
            requires mid < 0x1_0000_0000_0000_0000;
        if mid * mid <= n {
            lo = mid;
        } else {
            hi = mid;
        }
    }
    proof {
        assert(hi == lo + 1);
        lemma_isqrt_unique(n as nat, lo as nat);
    }
    lo
}

/// Any `r` with `r * r <= n < (r + 1) * (r + 1)` is the integer square root.
proof fn lemma_isqrt_unique(n: nat, r: nat)
    requires
        r * r <= n < (r + 1) * (r + 1),
    ensures
        isqrt(n) == r,
{
    assert(is_isqrt(n, r));
    let s = isqrt(n);
    assert(is_isqrt(n, s));
    if s < r {
        assert((s + 1) * (s + 1) <= r * r) by (nonlinear_arith)
            requires s < r;
    } else if s > r {
        assert((r + 1) * (r + 1) <= s * s) by (nonlinear_arith)
            requires s > r;
    }
}

} // verus!
