//! Stripe checkout sessions.
use vstd::prelude::*;

use crate::route::{url_on, url_spec};

verus! {

/// The price the customer wants to subscribe to.
pub struct CreateCheckoutRequest {
    pub price_id: String,
}

/// A created checkout session: its id and the page to send the customer to.
pub struct StripeResponse {
    pub id: String,
    pub url: String,
}

/// Where Stripe sends the customer after paying, on a site served at `base`.
pub fn success_url(base: &str) -> (r: String)
    ensures
        r@ == url_spec(base@, "/payment/success"@),
{
    url_on(base, "/payment/success")
}

/// Where Stripe sends the customer after cancelling, on a site served at `base`.
pub fn cancel_url(base: &str) -> (r: String)
    ensures
        r@ == url_spec(base@, "/payment/cancel"@),
{
    url_on(base, "/payment/cancel")
}

} // verus!
