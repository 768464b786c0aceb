//! Sending the newsletter.
use vstd::prelude::*;

verus! {

/// A submitted newsletter.
pub struct NewsletterRequest {
    pub message: String,
}

} // verus!
