//! The payment page: which price a signup tier pays.
use vstd::prelude::*;

use crate::route::user::signup::index::tier_names;
use crate::text::{owned, str_eq};

verus! {

/// The query of the payment page.
pub struct RegistrationQuery {
    pub token: Option<String>,
}

/// The Stripe price of each signup tier.
pub open spec fn tier_price(tier: Seq<char>) -> Option<Seq<char>> {
    if tier == "student"@ || tier == "private"@ || tier == "business"@ {
        Some("price_1IC9WtLKbmf1O8QW4FgBWQS6"@)
    } else {
        None
    }
}

/// The Stripe price of `tier`; `None` for a tier that does not exist.
pub fn price_for_tier(tier: &str) -> (r: Option<String>)
    ensures
        match r {
            Some(p) => tier_price(tier@) == Some(p@),
            None => tier_price(tier@) is None,
        },
{
    if str_eq(tier, "student") {
        Some(owned("price_1IC9WtLKbmf1O8QW4FgBWQS6"))
    } else if str_eq(tier, "private") {
        Some(owned("price_1IC9WtLKbmf1O8QW4FgBWQS6"))
    } else if str_eq(tier, "business") {
        Some(owned("price_1IC9WtLKbmf1O8QW4FgBWQS6"))
    } else {
        None
    }
}


/// Every signup tier (student, private, business) has a price, the same one for
/// all; a name that is not a signup tier has none.
pub proof fn lemma_every_tier_priced(tier: Seq<char>)
    ensures
        tier_names().contains(tier) ==> tier_price(tier) == Some(
            "price_1IC9WtLKbmf1O8QW4FgBWQS6"@,
        ),
        !tier_names().contains(tier) ==> tier_price(tier) is None,
{
    if tier_names().contains(tier) {
        let k = choose|k: int| 0 <= k < tier_names().len() && tier_names()[k] == tier;
        assert(k == 0 || k == 1 || k == 2);
    } else {
        assert(tier_names()[0] == "student"@);
        assert(tier_names()[1] == "private"@);
        assert(tier_names()[2] == "business"@);
    }
}

} // verus!
