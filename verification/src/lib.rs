pub mod pattern;
pub mod entries;
pub mod text;
pub mod validator;
pub mod util;
pub mod route;
pub mod tokens;
pub mod web;
