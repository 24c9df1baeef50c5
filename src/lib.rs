//! Privacy-budget accounting for epoch-based differential privacy.
//!
//! Events are stored per epoch; report requests read the relevant events of
//! a range of epochs and pay for what they learn with privacy budget taken
//! from one filter per epoch. Epochs whose filter cannot pay are left out of
//! the report.
//!
//! Every real-valued quantity (privacy losses, attributable values, noise
//! scales) is a fixed-point number: see [`mechanisms::UNIT`].
pub mod budget;
pub mod error;
pub mod events;
pub mod mechanisms;
pub mod pds;
pub mod queries;
