//! A least-cost routing engine over a static directed graph, with a typed
//! state model, unit conversion, cost aggregation and a label-setting search.
//!
//! Physical quantities are fixed-point integers: a value `v` of some unit
//! stands for `v / 1_000_000` of that unit.
pub mod units;
pub mod state_model;
pub mod cost;
pub mod graph;
pub mod traversal;
pub mod search;
pub mod input_field;
