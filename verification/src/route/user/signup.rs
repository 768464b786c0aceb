//! The plain signup form.
use vstd::prelude::*;

pub mod index;

verus! {

pub struct UserCreationRequest {
    pub email: String,
    pub password: String,
}

} // verus!
