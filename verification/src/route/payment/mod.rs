//! Payment routes.
pub mod index;
pub mod stripe;
