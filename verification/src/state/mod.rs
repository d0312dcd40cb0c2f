pub mod threshold;
pub mod update;
pub mod cleanup;
pub mod store;
pub mod round_trip;
