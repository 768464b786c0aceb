//! Errors that the Stripe API reports.
use vstd::prelude::*;

use crate::text::owned;

verus! {

/// An error object returned by the Stripe API.
#[derive(Debug, Clone)]
pub struct StripeAPIError {
    pub error_type: String,
    pub code: String,
    pub decline_code: Option<String>,
    pub message: String,
    pub param: String,
}

pub open spec fn stripe_error_text(e: StripeAPIError) -> Seq<char> {
    "Got code "@ + e.code@ + " for error type "@ + e.error_type@ + " with message: "@ + e.message@
}

impl StripeAPIError {
    /// The error's description (its `Display`).
    pub fn describe(&self) -> (r: String)
        ensures
            r@ == stripe_error_text(*self),
    {
        let mut out = owned("Got code ");
        out.append(self.code.as_str());
        out.append(" for error type ");
        out.append(self.error_type.as_str());
        out.append(" with message: ");
        out.append(self.message.as_str());
        out
    }
}

} // verus!
