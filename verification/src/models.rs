//! The entities held by the repository.
pub mod location;
pub mod reading;
pub mod station;
