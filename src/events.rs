pub mod ara_event;
pub mod hashmap_event_storage;
pub mod simple_event;
pub mod traits;
