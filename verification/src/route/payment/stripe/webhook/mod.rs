//! Stripe webhook: authentication, event structures and the reactions to events.
pub mod auth;
pub mod data_structure;
pub mod main;
pub mod subscription_update;
