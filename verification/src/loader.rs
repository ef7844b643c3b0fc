//! Readers, one for each container format.

pub mod gif;
