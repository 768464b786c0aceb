//! Administration routes.

pub mod newsletter;
pub mod signin;

