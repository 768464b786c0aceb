//! Administrator sign-in; the decision is
//! [`crate::route::user::signin::admin_signin`].
use vstd::prelude::*;

verus! {

/// A submitted administrator sign-in form.
pub struct SignInRequest {
    pub username: String,
    pub password: String,
}

} // verus!
