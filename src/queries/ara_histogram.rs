use std::collections::HashMap;

use vstd::prelude::*;

use crate::events::ara_event::{unique_source_keys, AraEvent};
use crate::events::traits::{all_epochs_empty, epochs_view, events_view, RelevantEventSelector};
use crate::queries::histogram::HistogramRequest;
use crate::queries::traits::{epoch_range_desc, epoch_range_rev};

verus! {

broadcast use vstd::std_specs::hash::group_hash_axioms;

/// Selects events with attribution-reporting filters. Events carry no
/// filter data yet, so every event is relevant.
#[derive(Debug, Clone)]
pub struct AraRelevantEventSelector {
    pub filters: Vec<(String, Vec<String>)>,
}

impl RelevantEventSelector for AraRelevantEventSelector {
    type Event = AraEvent;

    open spec fn spec_is_relevant(&self, event: (usize, usize, Seq<(Seq<char>, usize)>)) -> bool {
        true
    }

    fn is_relevant_event(&self, event: &AraEvent) -> (r: bool) {
        true
    }
}

/// A histogram request in the style of attribution reporting; it stands for
/// a trigger. Each event goes to a single bucket: the source keypiece of the
/// event under `source_key`, or-ed with the trigger keypiece.
#[derive(Debug)]
pub struct AraHistogramRequest {
    pub start_epoch: usize,
    pub end_epoch: usize,
    /// Value given to each relevant event, in fixed point.
    pub per_event_attributable_value: u64,
    /// The largest L1 norm of a report, in fixed point.
    pub attributable_value: u64,
    /// Laplace noise scale, in fixed point.
    pub noise_scale: u64,
    pub source_key: String,
    pub trigger_keypiece: usize,
    pub filters: AraRelevantEventSelector,
}

/// The keypiece of the first source entry with `key`; 0 if there is none.
pub open spec fn source_keypiece(sources: Seq<(Seq<char>, usize)>, key: Seq<char>) -> usize
    decreases sources.len(),
{
    if sources.len() == 0 {
        0
    } else if sources[0].0 == key {
        sources[0].1
    } else {
        source_keypiece(sources.skip(1), key)
    }
}

/// With unique source keys, the keypiece of a key is the one of its entry.
pub proof fn lemma_source_keypiece_of_entry(sources: Seq<(Seq<char>, usize)>, j: int)
    requires
        unique_source_keys(sources),
        0 <= j < sources.len(),
    ensures
        source_keypiece(sources, sources[j].0) == sources[j].1,
    decreases j,
{
    if j > 0 {
        let rest = sources.skip(1);
        assert(unique_source_keys(rest)) by {
            assert forall|a: int, b: int| 0 <= a < b < rest.len() implies rest[a].0 != rest[b].0 by {
                assert(rest[a] == sources[a + 1] && rest[b] == sources[b + 1]);
            }
        }
        assert(rest[j - 1] == sources[j]);
        lemma_source_keypiece_of_entry(rest, j - 1);
    }
}

/// The events of the epochs `epoch_ids` that `per_epoch` holds, epoch after
/// epoch, each epoch's events in order.
pub open spec fn events_in_order<V>(epoch_ids: Seq<usize>, per_epoch: Map<usize, Seq<V>>) -> Seq<V>
    decreases epoch_ids.len(),
{
    if epoch_ids.len() == 0 {
        Seq::empty()
    } else {
        let before = events_in_order(epoch_ids.drop_last(), per_epoch);
        let id = epoch_ids.last();
        if per_epoch.contains_key(id) {
            before + per_epoch[id]
        } else {
            before
        }
    }
}

/// Each event paired with the same value.
pub open spec fn with_value<V>(events: Seq<V>, value: u64) -> Seq<(V, u64)> {
    events.map_values(|e: V| (e, value))
}

/// Whether `s` is strictly increasing.
pub open spec fn is_ascending(s: Seq<usize>) -> bool {
    forall|i: int, j: int| 0 <= i < j < s.len() ==> s[i] < s[j]
}

/// Whether `s` lists the elements of `keys` in increasing order.
pub open spec fn lists_ascending(s: Seq<usize>, keys: Set<usize>) -> bool {
    &&& is_ascending(s)
    &&& forall|x: usize| #[trigger] s.contains(x) <==> keys.contains(x)
}

/// The elements of `keys` in increasing order.
pub open spec fn ascending_keys(keys: Set<usize>) -> Seq<usize> {
    choose|s: Seq<usize>| lists_ascending(s, keys)
}

/// The order in which epochs are attributed: the requested epochs, in
/// request order, then every other epoch of `per_epoch` by increasing id.
pub open spec fn attribution_epochs<V>(requested: Seq<usize>, per_epoch: Map<usize, Seq<V>>) -> Seq<
    usize,
> {
    requested + ascending_keys(per_epoch.dom().filter(|e: usize| !requested.contains(e)))
}

/// Two increasing listings of the same elements are equal.
proof fn lemma_ascending_unique(s1: Seq<usize>, s2: Seq<usize>)
    requires
        is_ascending(s1),
        is_ascending(s2),
        forall|x: usize| #[trigger] s1.contains(x) <==> s2.contains(x),
    ensures
        s1 == s2,
    decreases s1.len(),
{
    if s1.len() == 0 || s2.len() == 0 {
        if s1.len() > 0 {
            assert(s1.contains(s1[0]));
            assert(s2.contains(s1[0]));
        }
        if s2.len() > 0 {
            assert(s2.contains(s2[0]));
            assert(s1.contains(s2[0]));
        }
        assert(s1 =~= s2);
    } else {
        assert(s2.contains(s2[0]));
        assert(s1.contains(s2[0]));
        assert(s1.contains(s1[0]));
        assert(s2.contains(s1[0]));
        let i = choose|i: int| 0 <= i < s1.len() && s1[i] == s2[0];
        let j = choose|j: int| 0 <= j < s2.len() && s2[j] == s1[0];
        assert(s1[0] == s2[0]);
        let t1 = s1.skip(1);
        let t2 = s2.skip(1);
        assert forall|x: usize| #[trigger] t1.contains(x) <==> t2.contains(x) by {
            if t1.contains(x) {
                let a = choose|a: int| 0 <= a < t1.len() && t1[a] == x;
                assert(s1[a + 1] == x);
                assert(s1.contains(x));
                assert(s2.contains(x));
                let b = choose|b: int| 0 <= b < s2.len() && s2[b] == x;
                assert(b != 0);
                assert(t2[b - 1] == x);
            }
            if t2.contains(x) {
                let a = choose|a: int| 0 <= a < t2.len() && t2[a] == x;
                assert(s2[a + 1] == x);
                assert(s2.contains(x));
                assert(s1.contains(x));
                let b = choose|b: int| 0 <= b < s1.len() && s1[b] == x;
                assert(b != 0);
                assert(t1[b - 1] == x);
            }
        }
        lemma_ascending_unique(t1, t2);
        assert(s1.len() == s2.len());
        assert forall|k: int| 0 <= k < s1.len() implies s1[k] == s2[k] by {
            if k > 0 {
                assert(s1[k] == t1[k - 1]);
                assert(s2[k] == t2[k - 1]);
            }
        }
        assert(s1 =~= s2);
    }
}

/// The requested range holds exactly the epochs between its bounds.
proof fn lemma_range_contains(start: usize, end: usize, e: usize)
    ensures
        epoch_range_desc(start, end).contains(e) <==> (start <= e && e <= end),
{
    let r = epoch_range_desc(start, end);
    if start <= e && e <= end {
        assert(r[end - e] == e);
    }
    if r.contains(e) {
        let i = choose|i: int| 0 <= i < r.len() && r[i] == e;
    }
}

/// Inserts `k` into an increasing sequence, keeping it increasing.
fn insert_ascending(keys: &mut Vec<usize>, k: usize)
    requires
        is_ascending(old(keys)@),
    ensures
        is_ascending(final(keys)@),
        forall|x: usize| #[trigger] final(keys)@.contains(x) <==> (old(keys)@.contains(x) || x == k),
{
    let mut p: usize = 0;
    while p < keys.len() && keys[p] < k
        invariant
            p <= keys@.len(),
            keys@ == old(keys)@,
            is_ascending(keys@),
            forall|j: int| 0 <= j < p ==> keys@[j] < k,
        decreases keys@.len() - p,
    {
        p += 1;
    }
    if p < keys.len() && keys[p] == k {
        assert(keys@.contains(keys@[p as int]));
        return;
    }
    let ghost before = keys@;
    keys.insert(p, k);
    proof {
        assert(keys@ =~= before.insert(p as int, k));
        assert forall|x: usize| #[trigger] keys@.contains(x) <==> (before.contains(x) || x == k) by {
            if before.contains(x) {
                let a = choose|a: int| 0 <= a < before.len() && before[a] == x;
                if a < p {
                    assert(keys@[a] == x);
                } else {
                    assert(keys@[a + 1] == x);
                }
            }
            if x == k {
                assert(keys@[p as int] == x);
            }
            if keys@.contains(x) && x != k {
                let a = choose|a: int| 0 <= a < keys@.len() && keys@[a] == x;
                if a < p {
                    assert(before[a] == x);
                } else {
                    assert(before[a - 1] == x);
                }
            }
        }
    }
}

/// The epochs of `per_epoch` outside `[start, end]`, by increasing id.
fn epochs_outside<V>(per_epoch: &HashMap<usize, V>, start: usize, end: usize) -> (r: Vec<usize>)
    ensures
        lists_ascending(r@, per_epoch@.dom().filter(|e: usize| !(start <= e && e <= end))),
{
    let ghost outside = per_epoch@.dom().filter(|e: usize| !(start <= e && e <= end));
    let mut keys: Vec<usize> = Vec::new();
    for k in it: per_epoch.keys()
        invariant
            it.seq().unref().to_set() == per_epoch@.dom(),
            outside == per_epoch@.dom().filter(|e: usize| !(start <= e && e <= end)),
            is_ascending(keys@),
            forall|x: usize| #[trigger] keys@.contains(x) <==> (it.seq().take(
                it.index() as int,
            ).unref().contains(x) && !(start <= x && x <= end)),
            it.index() == it.seq().len() ==> lists_ascending(keys@, outside),
    {
        let ghost before = keys@;
        if !(start <= *k && *k <= end) {
            insert_ascending(&mut keys, *k);
        }
        proof {
            let seen = it.seq().take(it.index() as int).unref();
            let now = it.seq().take(it.index() + 1).unref();
            assert(now =~= seen.push(*k));
            assert forall|x: usize| #[trigger] now.contains(x) <==> (seen.contains(x) || x == *k) by {
                if seen.contains(x) {
                    let a = choose|a: int| 0 <= a < seen.len() && seen[a] == x;
                    assert(now[a] == x);
                }
                if x == *k {
                    assert(now[seen.len() as int] == x);
                }
                if now.contains(x) && x != *k {
                    let a = choose|a: int| 0 <= a < now.len() && now[a] == x;
                    assert(seen[a] == x);
                }
            }
            assert(it.index() + 1 == it.seq().len() ==> now =~= it.seq().unref());
            assert(forall|x: usize| #[trigger]
                it.seq().unref().contains(x) <==> it.seq().unref().to_set().contains(x));
        }
    }
    keys
}

proof fn lemma_no_events_in_order<V>(epoch_ids: Seq<usize>, per_epoch: Map<usize, Seq<V>>)
    requires
        all_epochs_empty(per_epoch),
    ensures
        events_in_order(epoch_ids, per_epoch).len() == 0,
    decreases epoch_ids.len(),
{
    if epoch_ids.len() > 0 {
        lemma_no_events_in_order(epoch_ids.drop_last(), per_epoch);
    }
}

impl HistogramRequest for AraHistogramRequest {
    type Event = AraEvent;
    type RelevantEventSelector = AraRelevantEventSelector;

    /// Most recent epoch first.
    open spec fn epochs_ids_spec(&self) -> Seq<usize> {
        epoch_range_desc(self.start_epoch, self.end_epoch)
    }

    open spec fn is_relevant_spec(&self, event: (usize, usize, Seq<(Seq<char>, usize)>)) -> bool {
        true
    }

    open spec fn laplace_noise_scale_spec(&self) -> u64 {
        self.noise_scale
    }

    open spec fn attributable_value_spec(&self) -> u64 {
        self.attributable_value
    }

    /// An event without `source_key` still counts, with source keypiece 0.
    open spec fn bucket_key_spec(&self, event: (usize, usize, Seq<(Seq<char>, usize)>)) -> usize {
        source_keypiece(event.2, self.source_key@) | self.trigger_keypiece
    }

    /// Every event of every epoch gets the per-event value; the cap is
    /// applied when the report is computed. Events come epoch by epoch: the
    /// requested epochs first, most recent first, then the other epochs of
    /// the map by increasing id.
    open spec fn values_spec(&self, per_epoch: Map<usize, Seq<(usize, usize, Seq<(Seq<char>, usize)>)>>) -> Seq<
        ((usize, usize, Seq<(Seq<char>, usize)>), u64),
    > {
        with_value(
            events_in_order(attribution_epochs(self.epochs_ids_spec(), per_epoch), per_epoch),
            self.per_event_attributable_value,
        )
    }

    proof fn lemma_no_values_without_events(
        &self,
        per_epoch: Map<usize, Seq<(usize, usize, Seq<(Seq<char>, usize)>)>>,
    ) {
        lemma_no_events_in_order(attribution_epochs(self.epochs_ids_spec(), per_epoch), per_epoch);
    }

    fn get_epochs_ids(&self) -> (r: Vec<usize>) {
        epoch_range_rev(self.start_epoch, self.end_epoch)
    }

    fn get_laplace_noise_scale(&self) -> (r: u64) {
        self.noise_scale
    }

    fn get_attributable_value(&self) -> (r: u64) {
        self.attributable_value
    }

    fn get_relevant_event_selector(&self) -> (r: AraRelevantEventSelector) {
        self.filters.clone()
    }

    fn get_bucket_key(&self, event: &AraEvent) -> (r: usize) {
        let ghost sources = event@.2;
        let mut keypiece: usize = 0;
        let mut i: usize = 0;
        assert(sources.skip(0) =~= sources);
        while i < event.aggregatable_sources.len()
            invariant_except_break
                i <= sources.len(),
                sources == event@.2,
                keypiece == 0,
                source_keypiece(sources, self.source_key@) == source_keypiece(
                    sources.skip(i as int),
                    self.source_key@,
                ),
            ensures
                keypiece == source_keypiece(sources, self.source_key@),
            decreases sources.len() - i,
        {
            assert(sources.skip(i as int)[0] == sources[i as int]);
            assert(sources.skip(i as int).skip(1) =~= sources.skip(i + 1));
            if event.aggregatable_sources[i].0 == self.source_key {
                keypiece = event.aggregatable_sources[i].1;
                break;
            }
            i += 1;
        }
        keypiece | self.trigger_keypiece
    }

    fn get_values<'a>(&self, relevant_events_per_epoch: &'a HashMap<usize, Vec<AraEvent>>) -> (r:
        Vec<(&'a AraEvent, u64)>) {
        let ghost per_epoch = epochs_view(relevant_events_per_epoch@);
        let value = self.per_event_attributable_value;
        let mut epoch_ids = self.get_epochs_ids();
        let others = epochs_outside(relevant_events_per_epoch, self.start_epoch, self.end_epoch);
        proof {
            let requested = self.epochs_ids_spec();
            let keys = per_epoch.dom().filter(|e: usize| !requested.contains(e));
            assert(per_epoch.dom() =~= relevant_events_per_epoch@.dom());
            assert forall|x: usize| #[trigger] others@.contains(x) <==> keys.contains(x) by {
                lemma_range_contains(self.start_epoch, self.end_epoch, x);
            }
            assert(lists_ascending(others@, keys));
            lemma_ascending_unique(others@, ascending_keys(keys));
        }
        let mut j: usize = 0;
        let ghost requested = epoch_ids@;
        while j < others.len()
            invariant
                j <= others@.len(),
                epoch_ids@ == requested + others@.take(j as int),
            decreases others@.len() - j,
        {
            epoch_ids.push(others[j]);
            assert(others@.take(j + 1) =~= others@.take(j as int).push(others@[j as int]));
            assert(requested + others@.take(j + 1) =~= (requested + others@.take(j as int)).push(
                others@[j as int],
            ));
            j += 1;
        }
        assert(others@.take(j as int) =~= others@);
        let mut event_values: Vec<(&'a AraEvent, u64)> = Vec::new();
        let mut i: usize = 0;
        assert(epoch_ids@.take(0) =~= Seq::<usize>::empty());
        assert(event_values@.map_values(|p: (&'a AraEvent, u64)| (p.0@, p.1)) =~= with_value(
            events_in_order(epoch_ids@.take(0), per_epoch),
            value,
        ));
        while i < epoch_ids.len()
            invariant
                i <= epoch_ids@.len(),
                epoch_ids@ == attribution_epochs(self.epochs_ids_spec(), per_epoch),
                per_epoch == epochs_view(relevant_events_per_epoch@),
                value == self.per_event_attributable_value,
                event_values@.map_values(|p: (&'a AraEvent, u64)| (p.0@, p.1)) == with_value(
                    events_in_order(epoch_ids@.take(i as int), per_epoch),
                    value,
                ),
            decreases epoch_ids@.len() - i,
        {
            let ghost before = events_in_order(epoch_ids@.take(i as int), per_epoch);
            assert(epoch_ids@.take(i + 1).drop_last() =~= epoch_ids@.take(i as int));
            match relevant_events_per_epoch.get(&epoch_ids[i]) {
                Some(events) => {
                    let mut j: usize = 0;
                    assert(events_view(events@).take(0) =~= Seq::<(usize, usize, Seq<(Seq<char>, usize)>)>::empty());
                    assert(before + events_view(events@).take(0) =~= before);
                    while j < events.len()
                        invariant
                            j <= events@.len(),
                            value == self.per_event_attributable_value,
                            event_values@.map_values(|p: (&'a AraEvent, u64)| (p.0@, p.1)) == with_value(
                                before + events_view(events@).take(j as int),
                                value,
                            ),
                        decreases events@.len() - j,
                    {
                        let ghost pre = event_values@;
                        event_values.push((&events[j], value));
                        proof {
                            let evs = events_view(events@);
                            assert(evs.take(j + 1) =~= evs.take(j as int).push(events@[j as int]@));
                            assert(before + evs.take(j + 1) =~= (before + evs.take(j as int)).push(
                                events@[j as int]@,
                            ));
                            assert(event_values@.map_values(|p: (&'a AraEvent, u64)| (p.0@, p.1))
                                =~= pre.map_values(|p: (&'a AraEvent, u64)| (p.0@, p.1)).push(
                                (events@[j as int]@, value),
                            ));
                            assert(with_value(before + evs.take(j + 1), value) =~= with_value(
                                before + evs.take(j as int),
                                value,
                            ).push((events@[j as int]@, value)));
                        }
                        j += 1;
                    }
                    assert(events_view(events@).take(j as int) =~= events_view(events@));
                },
                None => {},
            }
            i += 1;
        }
        assert(epoch_ids@.take(i as int) =~= epoch_ids@);
        event_values
    }
}

} // verus!
