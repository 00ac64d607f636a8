//! The store and the operations on it.
pub mod db;
pub mod journal;
pub mod queries;
pub mod query;
pub mod tables;
