//! Traffic filtering.

pub mod flow_drop;
