//! What the webhook does with an event.
use vstd::prelude::*;

use super::auth::{authenticate, authentication};
use super::data_structure::Event;
use super::subscription_update::{change_for, subscription_changed, SubscriptionChange};
use crate::route::{outcome, EndpointProcessingError, Failure};
use crate::text::owned;

verus! {

pub const NON_LIVEMODE_EXPECTED: &'static str =
    "Got request that is in livemode, but this backend build is debug so this is very bad please don't do that thx.";

pub const LIVEMODE_EXPECTED: &'static str =
    "Production backend does not expect Stripe events that are not in livemode";

/// What an authenticated event leads to: an error, nothing (an event of an unknown
/// type), or a change of the stored subscription.
pub open spec fn event_outcome(is_debugging_backend: bool, event: Event) -> Result<
    Option<SubscriptionChange>,
    Failure,
> {
    if is_debugging_backend == event.livemode {
        if is_debugging_backend {
            Err(Failure::Processing(NON_LIVEMODE_EXPECTED@))
        } else {
            Err(Failure::Processing(LIVEMODE_EXPECTED@))
        }
    } else if event.event_type is None {
        Ok(None)
    } else {
        Ok(Some(change_for(event.data.object)))
    }
}

/// Reacts to an authenticated event: a debug build only takes test events and a
/// production build only live ones; events of every known type change the stored
/// subscription as their object says.
pub fn process_event(is_debugging_backend: bool, event: &Event) -> (r: Result<
    Option<SubscriptionChange>,
    EndpointProcessingError,
>)
    ensures
        outcome(r) == event_outcome(is_debugging_backend, *event),
{
    if is_debugging_backend == event.livemode {
        if is_debugging_backend {
            return Err(EndpointProcessingError::Processing(owned(NON_LIVEMODE_EXPECTED)));
        } else {
            return Err(EndpointProcessingError::Processing(owned(LIVEMODE_EXPECTED)));
        }
    }
    match event.event_type {
        None => Ok(None),
        Some(_) => Ok(Some(subscription_changed(&event.data.object))),
    }
}

/// The whole decision for one webhook call: authenticate it, then react to its event.
pub fn process_webhook(
    signature_header: Option<&str>,
    body: &str,
    secret: &[u8],
    is_debugging_backend: bool,
    event: &Event,
) -> (r: Result<Option<SubscriptionChange>, EndpointProcessingError>)
    ensures
        ({
            let auth = authentication(
                match signature_header {
                    Some(h) => Some(h@),
                    None => None,
                },
                body@,
                secret@,
            );
            match auth {
                Err(e) => outcome(r) == Err::<Option<SubscriptionChange>, Failure>(e),
                Ok(_) => outcome(r) == event_outcome(is_debugging_backend, *event),
            }
        }),
        // no unauthenticated call changes a subscription
        r is Ok ==> authentication(
            match signature_header {
                Some(h) => Some(h@),
                None => None,
            },
            body@,
            secret@,
        ) is Ok,
{
    match authenticate(signature_header, body, secret) {
        Err(e) => Err(e),
        Ok(()) => process_event(is_debugging_backend, event),
    }
}

/// The HTTP status a webhook call is answered with.
pub open spec fn answer_status(r: Result<(), Failure>) -> u16 {
    match r {
        Ok(_) => 200,
        Err(Failure::Unauthorized) => 401,
        Err(Failure::RequestUnparsable) | Err(Failure::RequestNonsensical) => 400,
        Err(Failure::Processing(_)) => 500,
    }
}

/// The HTTP status the webhook answers with: success, an unauthenticated call,
/// an unreadable or unexpected request, or a failure while processing it.
pub fn webhook_status(r: &Result<(), EndpointProcessingError>) -> (s: u16)
    ensures
        s == answer_status(outcome(*r)),
{
    match r {
        Ok(_) => 200,
        Err(EndpointProcessingError::Unauthorized) => 401,
        Err(EndpointProcessingError::RequestUnparsable) => 400,
        Err(EndpointProcessingError::RequestNonsensical) => 400,
        Err(EndpointProcessingError::Processing(_)) => 500,
    }
}


/// Which events lead where: an event whose livemode is the build's own (a live
/// event reaching a debug build, or a test event reaching a production build) is
/// refused as a processing error; any other event of a known type is turned into
/// the change its object asks for, in debug and production builds alike, and an
/// event of an unknown type changes nothing. In particular a live subscription
/// event reaching a production build records an active or trialing subscription
/// with its current period.
pub proof fn lemma_event_routing(is_debugging_backend: bool, event: Event)
    ensures
        is_debugging_backend == event.livemode ==> event_outcome(is_debugging_backend, event) is Err
            && event_outcome(is_debugging_backend, event)->Err_0 is Processing,
        is_debugging_backend != event.livemode && event.event_type is None ==> event_outcome(
            is_debugging_backend,
            event,
        ) == Ok::<Option<SubscriptionChange>, Failure>(None),
        is_debugging_backend != event.livemode && event.event_type is Some ==> event_outcome(
            is_debugging_backend,
            event,
        ) == Ok::<Option<SubscriptionChange>, Failure>(Some(change_for(event.data.object))),
        !is_debugging_backend && event.livemode && event.event_type is Some
            && event.data.object is Subscription && (event.data.object->Subscription_0.status is Active
            || event.data.object->Subscription_0.status is Trialing) ==> event_outcome(
            is_debugging_backend,
            event,
        ) == Ok::<Option<SubscriptionChange>, Failure>(
            Some(
                SubscriptionChange::Record {
                    customer: event.data.object->Subscription_0.customer,
                    start: event.data.object->Subscription_0.current_period_start,
                    end: event.data.object->Subscription_0.current_period_end,
                },
            ),
        ),
{
}

} // verus!
