//! The statements that the store answers, one module per table.
pub mod location;
pub mod reading;
pub mod station;
