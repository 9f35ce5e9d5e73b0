//! Command resolution: token budgets, Git change selection, configuration
//! profiles and source requests.
pub mod budget;
pub mod diff;
pub mod source;
pub mod profiles;
