//! A note store keyed by human-chosen slugs, with expiry, version history
//! and threading. All rules are verified against a mathematical model of the
//! store held in [`model`].

pub mod clock;
pub mod models;
pub mod model;
pub mod store;
pub mod laws;
pub mod outcome;
