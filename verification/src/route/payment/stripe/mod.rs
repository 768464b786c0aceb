//! Stripe payments.
use vstd::prelude::*;

pub mod checkout;
pub mod customer;
pub mod deserialize_stripe_res;
pub mod status;
pub mod webhook;

verus! {

/// The identifier of a checkout session.
pub type SessionID = String;

pub const API_URL: &'static str = "https://api.stripe.com/v1";

} // verus!
