//! Adapter operations for pull-based sequences of optional values
//! (`Option`) and outcome values (`Result`): unwrapping, counting,
//! searching, and filtering, each with a verified contract.

pub mod optioniter;
pub mod resultiter;

pub use optioniter::OptionIter;
pub use resultiter::ResultIter;
