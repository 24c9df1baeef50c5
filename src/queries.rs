pub mod ara_histogram;
pub mod histogram;
pub mod simple_last_touch_histogram;
pub mod traits;
