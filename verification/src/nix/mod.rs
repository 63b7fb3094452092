pub mod diff;
pub mod generation;
