//! Memory.

pub mod accounting;
