//! The correction API.
use vstd::prelude::*;

use crate::text::{is_blank, owned, trim};

verus! {

/// The answer to a correction request that needs no model: an empty list of
/// corrections for a body that is blank; `None` when the model must be asked.
pub fn blank_correction(body: &str) -> (r: Option<String>)
    ensures
        match r {
            Some(reply) => trim(body@).len() == 0 && reply@ == "[]"@,
            None => trim(body@).len() != 0,
        },
{
    if is_blank(body) {
        Some(owned("[]"))
    } else {
        None
    }
}

} // verus!
