//! Account routes.
pub mod signin;
pub mod signup;
