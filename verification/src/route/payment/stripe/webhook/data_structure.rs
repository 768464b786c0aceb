//! The parts of a Stripe event that the webhook reads.
use vstd::prelude::*;

verus! {

/// A customer's identifier at Stripe.
pub type StripeID = String;

#[derive(Copy, Clone, Debug, PartialEq, Eq, Hash)]
pub enum EventType {
    CustomerSubscriptionCreated,
    CustomerSubscriptionDeleted,
    CustomerSubscriptionTrialWillEnd,
    CustomerSubscriptionUpdated,
}

#[derive(Copy, Clone, Debug)]
pub enum SubscriptionStatus {
    NotStarted,
    Active,
    Completed,
    Released,
    Canceled,
    Trialing,
}

#[derive(Copy, Clone, Debug)]
pub struct SubscriptionPhase {
    pub end_date: i64,
    pub start_date: i64,
}

#[derive(Debug)]
pub struct ScheduleObject {
    pub id: String,
    pub current_phase: Option<SubscriptionPhase>,
    pub customer: StripeID,
    pub status: SubscriptionStatus,
}

#[derive(Debug)]
pub struct SubscriptionObject {
    pub id: String,
    pub customer: StripeID,
    pub status: SubscriptionStatus,
    pub current_period_start: i64,
    pub current_period_end: i64,
}

#[derive(Debug)]
pub enum EventObject {
    Schedule(ScheduleObject),
    Subscription(SubscriptionObject),
}

#[derive(Debug)]
pub struct EventData {
    pub object: EventObject,
}

#[derive(Debug)]
pub struct Event {
    pub event_type: Option<EventType>,
    pub data: EventData,
    pub livemode: bool,
}

} // verus!
