//! One generator per language family.

pub mod cpp;
