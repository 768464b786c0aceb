//! Whether a customer's subscription at Stripe is current.
use vstd::prelude::*;

verus! {

/// The period of a subscription, as Stripe reports it (seconds since the epoch).
#[derive(Clone, Copy, Debug)]
pub struct SubscriptionStatus {
    pub current_period_end: i64,
    pub current_period_start: i64,
    pub start_date: i64,
}

/// The subscription has started and its current period covers `now`.
pub open spec fn is_current(s: SubscriptionStatus, now: i64) -> bool {
    s.current_period_start <= now && s.start_date <= now && s.current_period_end > now
}

/// The first current subscription among `data`.
pub open spec fn first_current(data: Seq<SubscriptionStatus>, now: i64) -> Option<SubscriptionStatus>
    decreases data.len(),
{
    if data.len() == 0 {
        None
    } else if is_current(data[0], now) {
        Some(data[0])
    } else {
        first_current(data.drop_first(), now)
    }
}

/// The first subscription starting before now, and ending after now.
pub fn find_current_subscription(data: &Vec<SubscriptionStatus>, now: i64) -> (r: Option<SubscriptionStatus>)
    ensures
        r == first_current(data@, now),
        r matches Some(s) ==> is_current(s, now) && data@.contains(s),
        r is None ==> forall|i: int| 0 <= i < data@.len() ==> !is_current(#[trigger] data@[i], now),
{
    let n = data.len();
    let mut i: usize = 0;
    assert(data@.skip(0) =~= data@);
    while i < n
        invariant
            i <= n == data.len(),
            first_current(data@, now) == first_current(data@.skip(i as int), now),
            forall|k: int| 0 <= k < i ==> !is_current(#[trigger] data@[k], now),
        decreases n - i,
    {
        let s = data[i];
        assert(data@.skip(i as int)[0] == s);
        if s.current_period_start <= now && s.start_date <= now && s.current_period_end > now {
            return Some(s);
        }
        assert(data@.skip(i as int).drop_first() =~= data@.skip(i + 1));
        i += 1;
    }
    None
}

} // verus!
