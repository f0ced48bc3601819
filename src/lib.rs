//! A fixed-capacity entity-component store with per-entity presence masks,
//! and a fixed-tick simulation driver with interpolated presentation.

pub mod component;
pub mod simul;
pub mod store;
