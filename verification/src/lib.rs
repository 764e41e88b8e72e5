//! Subscription-notification bot core: catalog data model, subscription
//! store, per-subscription reconciliation decisions, and command handling.

pub mod catalog;
pub mod commands;
pub mod laws;
pub mod reconcile;
pub mod store;
