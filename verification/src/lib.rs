//! A telemetry repository for environmental sensor stations.
//!
//! Stations register under a caller-chosen token, may be linked to a
//! location, and report timestamped readings. The repository keeps the three
//! tables consistent with each other and answers time-windowed and aggregate
//! queries over them. Every function is verified against a mathematical
//! model of the tables, [`repository::tables::Tables`].
//!
//! Timestamps are milliseconds since the Unix epoch. Metrics are fixed-point
//! numbers in thousandths of their unit, coordinates in millionths of a
//! degree.
pub mod api;
pub mod clock;
pub mod error;
pub mod guarantees;
pub mod models;
pub mod repository;
pub mod services;
