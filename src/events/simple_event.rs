use vstd::prelude::*;

use crate::events::traits::Event;

verus! {

/// A barebones event: an id, an epoch and a key.
#[derive(Debug, Clone, Copy, PartialEq, Eq, Structural)]
pub struct SimpleEvent {
    pub id: usize,
    pub epoch_number: usize,
    pub event_key: usize,
}

impl View for SimpleEvent {
    type V = SimpleEvent;

    open spec fn view(&self) -> SimpleEvent {
        *self
    }
}

impl Event for SimpleEvent {
    open spec fn epoch_of(v: SimpleEvent) -> usize {
        v.epoch_number
    }

    fn get_epoch_id(&self) -> (r: usize) {
        self.epoch_number
    }

    fn clone_event(&self) -> (r: Self) {
        *self
    }
}

} // verus!
