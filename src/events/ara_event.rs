use vstd::prelude::*;

use crate::events::traits::Event;

verus! {

/// A source event of the attribution-reporting kind.
///
/// `aggregatable_sources` maps source keys to source keypieces. A key is
/// meant to occur once (see [`unique_source_keys`]); a lookup takes its
/// first occurrence.
#[derive(Debug, Clone)]
pub struct AraEvent {
    pub id: usize,
    pub epoch_number: usize,
    pub aggregatable_sources: Vec<(String, usize)>,
}

/// The view of a source entry: the key's characters and the keypiece.
pub open spec fn source_view(entry: (String, usize)) -> (Seq<char>, usize) {
    (entry.0@, entry.1)
}

/// Whether no source key occurs twice among `sources`.
pub open spec fn unique_source_keys(sources: Seq<(Seq<char>, usize)>) -> bool {
    forall|i: int, j: int| 0 <= i < j < sources.len() ==> sources[i].0 != sources[j].0
}

impl AraEvent {
    /// Whether no source key of the event occurs twice.
    pub open spec fn has_unique_source_keys(&self) -> bool {
        unique_source_keys(self@.2)
    }
}

impl View for AraEvent {
    /// Id, epoch and sources.
    type V = (usize, usize, Seq<(Seq<char>, usize)>);

    open spec fn view(&self) -> (usize, usize, Seq<(Seq<char>, usize)>) {
        (self.id, self.epoch_number, self.aggregatable_sources@.map_values(|e| source_view(e)))
    }
}

impl Event for AraEvent {
    open spec fn epoch_of(v: (usize, usize, Seq<(Seq<char>, usize)>)) -> usize {
        v.1
    }

    fn get_epoch_id(&self) -> (r: usize) {
        self.epoch_number
    }

    fn clone_event(&self) -> (r: Self) {
        let mut sources: Vec<(String, usize)> = Vec::new();
        let mut i: usize = 0;
        while i < self.aggregatable_sources.len()
            invariant
                i <= self.aggregatable_sources@.len(),
                sources@.map_values(|e| source_view(e)) =~= self.aggregatable_sources@.take(
                    i as int,
                ).map_values(|e| source_view(e)),
            decreases self.aggregatable_sources@.len() - i,
        {
            let ghost pre = sources@;
            let key = self.aggregatable_sources[i].0.clone();
            sources.push((key, self.aggregatable_sources[i].1));
            proof {
                let all = self.aggregatable_sources@;
                assert(all.take(i + 1) =~= all.take(i as int).push(all[i as int]));
                assert(sources@ =~= pre.push((key, all[i as int].1)));
                assert(source_view((key, all[i as int].1)) == source_view(all[i as int]));
                assert(sources@.map_values(|e| source_view(e)) =~= pre.map_values(
                    |e| source_view(e),
                ).push(source_view(all[i as int])));
                assert(all.take(i + 1).map_values(|e| source_view(e)) =~= all.take(
                    i as int,
                ).map_values(|e| source_view(e)).push(source_view(all[i as int])));
            }
            i += 1;
        }
        proof {
            assert(self.aggregatable_sources@.take(i as int) =~= self.aggregatable_sources@);
        }
        AraEvent { id: self.id, epoch_number: self.epoch_number, aggregatable_sources: sources }
    }
}

} // verus!
