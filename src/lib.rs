//! Validation of asset field annotations, and the coordinator that drives a
//! loading state until every registered collection has loaded.

pub mod field;
pub mod loading;
