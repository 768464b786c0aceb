//! Stripe customers: what a deletion request's reply means.
use vstd::prelude::*;

use super::deserialize_stripe_res::StripeAPIError;
use crate::text::str_eq;

verus! {

/// Stripe's reply to a request that deletes a customer.
pub enum DeletionReply {
    /// A success status, with the `deleted` flag of the deleted-customer object.
    Succeeded { deleted: bool },
    /// A failure status, with the error object Stripe sent.
    Failed { error: StripeAPIError },
}

/// How a customer deletion ends.
#[derive(Debug, PartialEq, Eq, Structural)]
pub enum DeletionOutcome {
    /// Stripe deleted the customer.
    Deleted,
    /// There was no such customer: nothing to do, which is no error.
    NothingToDelete,
    /// Stripe refused; the error is Stripe's message.
    Refused,
    /// Stripe answered but did not delete the customer.
    NotDeleted,
}

/// The error code Stripe gives for a customer that does not exist.
pub const RESOURCE_MISSING: &'static str = "resource_missing";

/// The message of a deletion that Stripe answered without deleting.
pub const DELETION_FAILED: &'static str = "Failed to delete Stripe user";

pub open spec fn deletion_outcome_spec(reply: DeletionReply) -> DeletionOutcome {
    match reply {
        DeletionReply::Succeeded { deleted } => if deleted {
            DeletionOutcome::Deleted
        } else {
            DeletionOutcome::NotDeleted
        },
        DeletionReply::Failed { error } => if error.code@ == RESOURCE_MISSING@ {
            DeletionOutcome::NothingToDelete
        } else {
            DeletionOutcome::Refused
        },
    }
}

/// Reads Stripe's reply to a customer deletion: a deleted customer, or a missing
/// one, ends well; any other failure or an undeleted customer is an error.
pub fn deletion_outcome(reply: &DeletionReply) -> (r: DeletionOutcome)
    ensures
        r == deletion_outcome_spec(*reply),
{
    match reply {
        DeletionReply::Succeeded { deleted } => {
            if *deleted {
                DeletionOutcome::Deleted
            } else {
                DeletionOutcome::NotDeleted
            }
        },
        DeletionReply::Failed { error } => {
            if str_eq(error.code.as_str(), RESOURCE_MISSING) {
                DeletionOutcome::NothingToDelete
            } else {
                DeletionOutcome::Refused
            }
        },
    }
}

impl DeletionOutcome {
    /// Whether the deletion counts as done (`Ok`).
    pub fn is_ok(&self) -> (r: bool)
        ensures
            r == (*self is Deleted || *self is NothingToDelete),
    {
        match self {
            DeletionOutcome::Deleted | DeletionOutcome::NothingToDelete => true,
            _ => false,
        }
    }
}

} // verus!
