//! The use cases that callers reach the repository through.
pub mod reading_service;
pub mod station_service;
