//! Passes that improve functions.
pub mod escapes;
pub mod meaning;
pub mod partition;
pub mod pass;
pub mod scan;
pub mod sroa;
