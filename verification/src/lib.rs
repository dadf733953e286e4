//! Verified model of an account-deletion cascade.
//!
//! Deleting an account removes, in a fixed order: every issue inside each
//! organization the user owns, those organizations themselves, the user's
//! entry in every remaining organization's member list, and finally the
//! user record. The storage operations are modelled on an in-memory store,
//! and the decision sequence is exposed as a step machine that a driver can
//! run against a real database.

pub mod cascade;
pub mod guarantees;
pub mod machine;
pub mod seq_facts;
pub mod store;
