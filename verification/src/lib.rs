//! Compares two Terraform state snapshots.
pub mod diff;
pub mod flatten;
pub mod json;
pub mod laws;
pub mod map;
pub mod report;
pub mod sensitive;
pub mod state;
pub mod text;
pub mod value;
