//! How a subscription event changes the stored subscription.
use vstd::prelude::*;

use super::data_structure::{EventObject, ScheduleObject, SubscriptionObject, SubscriptionStatus};
use crate::entries::{
    entries_view, entry_named, get_entry, insert_entry, lemma_entry_named_with_entry_other,
    lemma_entry_named_with_entry_same, lemma_without_entry, remove_entry, with_entry, without_entry,
};
use crate::route::{outcome, EndpointProcessingError, Failure};
use crate::text::owned;

verus! {

/// What to do to the stored subscription of a customer.
#[derive(Debug)]
pub enum SubscriptionChange {
    /// Record a subscription running from `start` to `end` (seconds since the epoch).
    Record { customer: String, start: i64, end: i64 },
    /// Remove the subscription; failing to do so is an error.
    Remove { customer: String },
    /// Remove the subscription if there is one; failing to do so is no error.
    RemoveIfPresent { customer: String },
    /// The event makes no sense: an active schedule without a current phase.
    Reject,
}

/// The change a schedule event asks for.
pub open spec fn schedule_change(s: ScheduleObject) -> SubscriptionChange {
    if (s.status is Active || s.status is Trialing) && s.current_phase is Some {
        SubscriptionChange::Record {
            customer: s.customer,
            start: s.current_phase->0.start_date,
            end: s.current_phase->0.end_date,
        }
    } else {
        match s.status {
        SubscriptionStatus::Active => SubscriptionChange::Reject,
        SubscriptionStatus::Canceled | SubscriptionStatus::Completed | SubscriptionStatus::Released
        | SubscriptionStatus::Trialing => SubscriptionChange::Remove { customer: s.customer },
        SubscriptionStatus::NotStarted => SubscriptionChange::RemoveIfPresent { customer: s.customer },
        }
    }
}

/// The change a subscription event asks for.
pub open spec fn subscription_object_change(s: SubscriptionObject) -> SubscriptionChange {
    match s.status {
        SubscriptionStatus::Active | SubscriptionStatus::Trialing => SubscriptionChange::Record {
            customer: s.customer,
            start: s.current_period_start,
            end: s.current_period_end,
        },
        SubscriptionStatus::Canceled | SubscriptionStatus::Completed
        | SubscriptionStatus::Released => SubscriptionChange::Remove { customer: s.customer },
        SubscriptionStatus::NotStarted => SubscriptionChange::RemoveIfPresent {
            customer: s.customer,
        },
    }
}

pub open spec fn change_for(input: EventObject) -> SubscriptionChange {
    match input {
        EventObject::Schedule(s) => schedule_change(s),
        EventObject::Subscription(s) => subscription_object_change(s),
    }
}

/// On subscription change, either by ScheduleObject or SubscriptionObject, the change
/// to apply to the stored subscription.
pub fn subscription_changed(input: &EventObject) -> (r: SubscriptionChange)
    ensures
        r == change_for(*input),
{
    match input {
        EventObject::Schedule(sche) => subscription_changed_sche(sche),
        EventObject::Subscription(sub) => subscription_changed_sub(sub),
    }
}

fn subscription_changed_sche(schedule: &ScheduleObject) -> (r: SubscriptionChange)
    ensures
        r == schedule_change(*schedule),
{
    let running = match schedule.status {
        SubscriptionStatus::Active | SubscriptionStatus::Trialing => true,
        _ => false,
    };
    if running && schedule.current_phase.is_some() {
        let phase = schedule.current_phase.unwrap();
        return SubscriptionChange::Record {
            customer: schedule.customer.clone(),
            start: phase.start_date,
            end: phase.end_date,
        };
    }
    match schedule.status {
        SubscriptionStatus::Active => SubscriptionChange::Reject,
        SubscriptionStatus::Canceled | SubscriptionStatus::Completed | SubscriptionStatus::Released
        | SubscriptionStatus::Trialing => SubscriptionChange::Remove {
            customer: schedule.customer.clone(),
        },
        SubscriptionStatus::NotStarted => SubscriptionChange::RemoveIfPresent {
            customer: schedule.customer.clone(),
        },
    }
}

fn subscription_changed_sub(subscription: &SubscriptionObject) -> (r: SubscriptionChange)
    ensures
        r == subscription_object_change(*subscription),
{
    let customer = subscription.customer.clone();
    let start = subscription.current_period_start;
    let end = subscription.current_period_end;
    match subscription.status {
        SubscriptionStatus::Active | SubscriptionStatus::Trialing => SubscriptionChange::Record {
            customer,
            start,
            end,
        },
        SubscriptionStatus::Canceled | SubscriptionStatus::Completed
        | SubscriptionStatus::Released => SubscriptionChange::Remove { customer },
        SubscriptionStatus::NotStarted => SubscriptionChange::RemoveIfPresent { customer },
    }
}

/// The endpoint's outcome once the store has carried out `change`; `stored` is what
/// the store reported (`Err` with its message when it failed). A rejected event
/// involves no store call.
pub open spec fn change_outcome(change: SubscriptionChange, stored: Result<(), Seq<char>>) -> Result<
    (),
    Failure,
> {
    match change {
        SubscriptionChange::Reject => Err(Failure::RequestNonsensical),
        SubscriptionChange::RemoveIfPresent { .. } => Ok(()),
        _ => match stored {
            Ok(_) => Ok(()),
            Err(m) => Err(Failure::Processing(m)),
        },
    }
}

pub open spec fn store_view(stored: Result<(), String>) -> Result<(), Seq<char>> {
    match stored {
        Ok(_) => Ok(()),
        Err(m) => Err(m@),
    }
}

/// The endpoint's outcome once the store has carried out `change`.
pub fn apply_outcome(change: &SubscriptionChange, stored: Result<(), String>) -> (r: Result<
    (),
    EndpointProcessingError,
>)
    ensures
        outcome(r) == change_outcome(*change, store_view(stored)),
{
    match change {
        SubscriptionChange::Reject => Err(EndpointProcessingError::RequestNonsensical),
        SubscriptionChange::RemoveIfPresent { .. } => Ok(()),
        _ => match stored {
            Ok(_) => Ok(()),
            Err(m) => Err(EndpointProcessingError::Processing(m)),
        },
    }
}


/// The stored subscriptions, by customer: the period of each, as (start, end).
pub type Subscriptions = Seq<(Seq<char>, (i64, i64))>;

/// What carrying out `change` leaves in the store.
pub open spec fn store_effect(change: SubscriptionChange, db: Subscriptions) -> Subscriptions {
    match change {
        SubscriptionChange::Record { customer, start, end } => with_entry(db, customer@, (start, end)),
        SubscriptionChange::Remove { customer } => without_entry(db, customer@),
        SubscriptionChange::RemoveIfPresent { customer } => without_entry(db, customer@),
        SubscriptionChange::Reject => db,
    }
}

/// What the store reports for `change`: removing a subscription that is not there
/// fails with a message naming the customer.
pub open spec fn store_report(change: SubscriptionChange, db: Subscriptions) -> Result<(), Seq<char>> {
    match change {
        SubscriptionChange::Remove { customer } | SubscriptionChange::RemoveIfPresent { customer } =>
            if entry_named(db, customer@) is Some {
            Ok(())
        } else {
            Err("no subscription for "@ + customer@)
        },
        _ => Ok(()),
    }
}

/// Subscriptions kept in memory, by customer.
pub struct SubscriptionStore {
    rows: Vec<(String, (i64, i64))>,
}

impl View for SubscriptionStore {
    type V = Subscriptions;

    closed spec fn view(&self) -> Subscriptions {
        entries_view(self.rows@)
    }
}

impl SubscriptionStore {
    /// A store without subscriptions.
    pub fn new() -> (r: Self)
        ensures
            r@ == Seq::<(Seq<char>, (i64, i64))>::empty(),
    {
        let r = SubscriptionStore { rows: Vec::new() };
        assert(r@ =~= Seq::<(Seq<char>, (i64, i64))>::empty());
        r
    }

    /// The period of the customer's subscription, if it has one.
    pub fn get(&self, customer: &str) -> (r: Option<(i64, i64)>)
        ensures
            r == entry_named(self@, customer@),
    {
        match get_entry(&self.rows, customer) {
            Some(p) => Some(*p),
            None => None,
        }
    }

    /// Carries out `change` and reports as `store_report` says.
    pub fn carry_out(&mut self, change: &SubscriptionChange) -> (r: Result<(), String>)
        ensures
            final(self)@ == store_effect(*change, old(self)@),
            store_view(r) == store_report(*change, old(self)@),
    {
        match change {
            SubscriptionChange::Record { customer, start, end } => {
                insert_entry(&mut self.rows, customer.clone(), (*start, *end));
                Ok(())
            },
            SubscriptionChange::Remove { customer } | SubscriptionChange::RemoveIfPresent {
                customer,
            } => {
                if remove_entry(&mut self.rows, customer.as_str()) {
                    Ok(())
                } else {
                    let mut m = owned("no subscription for ");
                    m.append(customer.as_str());
                    Err(m)
                }
            },
            SubscriptionChange::Reject => Ok(()),
        }
    }
}

/// A subscription event changes only its own customer's row: recording sets that
/// customer's period to the (start, end) the event gives, removing leaves the
/// customer with none, and a rejected event changes nothing.
pub proof fn lemma_store_effect(change: SubscriptionChange, db: Subscriptions, other: Seq<char>)
    ensures
        match change {
            SubscriptionChange::Record { customer, start, end } => {
                &&& entry_named(store_effect(change, db), customer@) == Some((start, end))
                &&& other != customer@ ==> entry_named(store_effect(change, db), other)
                    == entry_named(db, other)
            },
            SubscriptionChange::Remove { customer } | SubscriptionChange::RemoveIfPresent {
                customer,
            } => {
                &&& entry_named(store_effect(change, db), customer@) is None
                &&& other != customer@ ==> entry_named(store_effect(change, db), other)
                    == entry_named(db, other)
            },
            SubscriptionChange::Reject => store_effect(change, db) == db,
        },
{
    match change {
        SubscriptionChange::Record { customer, start, end } => {
            lemma_entry_named_with_entry_same(db, customer@, (start, end));
            if other != customer@ {
                lemma_entry_named_with_entry_other(db, customer@, (start, end), other);
            }
        },
        SubscriptionChange::Remove { customer } | SubscriptionChange::RemoveIfPresent {
            customer,
        } => {
            lemma_without_entry(db, customer@, other);
        },
        SubscriptionChange::Reject => {},
    }
}

/// The endpoint answers an event by the store's report: a recorded subscription
/// succeeds; removing one succeeds exactly when there was one, except where its
/// absence is allowed; a rejected event is refused as nonsensical.
pub proof fn lemma_event_answer(change: SubscriptionChange, db: Subscriptions)
    ensures
        change_outcome(change, store_report(change, db)) == match change {
            SubscriptionChange::Record { .. } => Ok::<(), Failure>(()),
            SubscriptionChange::Remove { customer } => if entry_named(db, customer@) is Some {
                Ok(())
            } else {
                Err(Failure::Processing("no subscription for "@ + customer@))
            },
            SubscriptionChange::RemoveIfPresent { .. } => Ok(()),
            SubscriptionChange::Reject => Err(Failure::RequestNonsensical),
        },
{
}


/// What a subscription change does to the store, seen from one customer: the
/// customer's row afterwards, and whether other customers' rows stay as they were.
pub open spec fn others_unchanged(db: Subscriptions, after: Subscriptions, customer: Seq<char>, other: Seq<char>) -> bool {
    other != customer ==> entry_named(after, other) == entry_named(db, other)
}

/// A schedule event against the store: a running schedule with a current phase
/// records that phase's (start, end) and succeeds; an active one without a phase
/// is refused and changes nothing; a trialing, canceled, completed or released one
/// removes the customer's subscription and succeeds exactly when there was one; a
/// schedule not yet started removes it and succeeds either way. Other customers'
/// rows never change.
pub proof fn lemma_schedule_event(s: ScheduleObject, db: Subscriptions, other: Seq<char>)
    ensures
        ({
            let c = change_for(EventObject::Schedule(s));
            let after = store_effect(c, db);
            let answer = change_outcome(c, store_report(c, db));
            let who = s.customer@;
            if (s.status is Active || s.status is Trialing) && s.current_phase is Some {
                &&& entry_named(after, who) == Some(
                    (s.current_phase->0.start_date, s.current_phase->0.end_date),
                )
                &&& answer == Ok::<(), Failure>(())
                &&& others_unchanged(db, after, who, other)
            } else if s.status is Active {
                &&& after == db
                &&& answer == Err::<(), Failure>(Failure::RequestNonsensical)
            } else if s.status is NotStarted {
                &&& entry_named(after, who) is None
                &&& answer == Ok::<(), Failure>(())
                &&& others_unchanged(db, after, who, other)
            } else {
                &&& entry_named(after, who) is None
                &&& (answer is Ok <==> entry_named(db, who) is Some)
                &&& (answer is Err ==> answer == Err::<(), Failure>(
                    Failure::Processing("no subscription for "@ + who),
                ))
                &&& others_unchanged(db, after, who, other)
            }
        }),
{
    let c = change_for(EventObject::Schedule(s));
    lemma_store_effect(c, db, other);
    lemma_event_answer(c, db);
}

/// A subscription event against the store: an active or trialing subscription
/// records its current period (start, end) and succeeds; a canceled, completed or
/// released one removes the customer's subscription and succeeds exactly when there
/// was one; one not yet started removes it and succeeds either way. Other
/// customers' rows never change.
pub proof fn lemma_subscription_event(s: SubscriptionObject, db: Subscriptions, other: Seq<char>)
    ensures
        ({
            let c = change_for(EventObject::Subscription(s));
            let after = store_effect(c, db);
            let answer = change_outcome(c, store_report(c, db));
            let who = s.customer@;
            &&& others_unchanged(db, after, who, other)
            &&& if s.status is Active || s.status is Trialing {
                &&& entry_named(after, who) == Some((s.current_period_start, s.current_period_end))
                &&& answer == Ok::<(), Failure>(())
            } else if s.status is NotStarted {
                &&& entry_named(after, who) is None
                &&& answer == Ok::<(), Failure>(())
            } else {
                &&& entry_named(after, who) is None
                &&& (answer is Ok <==> entry_named(db, who) is Some)
                &&& (answer is Err ==> answer == Err::<(), Failure>(
                    Failure::Processing("no subscription for "@ + who),
                ))
            }
        }),
{
    let c = change_for(EventObject::Subscription(s));
    lemma_store_effect(c, db, other);
    lemma_event_answer(c, db);
}

} // verus!
