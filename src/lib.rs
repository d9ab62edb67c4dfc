//! Election integrity engine: phase clock, eligibility gate, signed candidate
//! tokens, nomination workflow, vote casting with tallies, and bulk election
//! provisioning.

pub mod error;
pub mod admins;
pub mod election;
pub mod eligibility;
pub mod token;
pub mod store;
pub mod guarantees;
pub mod cache;
pub mod order;
pub mod results;
pub mod overrides;
pub mod curriculum;
pub mod identity;
