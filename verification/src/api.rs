//! Requests and responses exchanged with the service layer.
pub mod reading;
pub mod station;
