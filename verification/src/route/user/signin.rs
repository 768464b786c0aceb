//! Signing in with an e-mail address and a password.
use vstd::prelude::*;

use crate::route::{outcome, EndpointProcessingError, EndpointProcessingResult, Failure};
use crate::text::owned;

verus! {

/// A submitted sign-in form.
pub struct SignInRequest {
    pub email: String,
    pub password: String,
}

/// What `bcrypt::verify(password, hash)` answers: `Some(matches)`, or `None` when
/// bcrypt refuses: the hash cannot be read (its format, cost or base64) or the
/// password holds a NUL character.
pub uninterp spec fn bcrypt_verify(password: Seq<char>, hash: Seq<char>) -> Option<bool>;

/// Calls `bcrypt::verify`. Trusted: the answer is the one named `bcrypt_verify`
/// (it depends on the password and the stored hash alone; the hash carries its salt
/// and cost), and a password holding a NUL character is refused; bcrypt itself is
/// not written out.
#[verifier::external_body]
pub fn password_matches(password: &str, hash: &str) -> (r: Option<bool>)
    ensures
        r == bcrypt_verify(password@, hash@),
        (exists|i: int| 0 <= i < password@.len() && password@[i] == '\0') ==> r is None,
{
    bcrypt::verify(password, hash).ok()
}

/// What a stored account offers for signing in.
pub struct StoredCredentials {
    pub id: i64,
    /// The bcrypt hash of the password.
    pub password: String,
    pub verified: bool,
}

/// The processing error when bcrypt refuses to check the password against the hash.
pub const UNCHECKABLE_PASSWORD: &'static str = "password cannot be checked against the stored hash";

/// The outcome of signing in as `account` (`None` when no account has the address)
/// with `password`; on success, the account's id.
pub open spec fn signin_outcome(account: Option<StoredCredentials>, password: Seq<char>, need_verified: bool) -> Result<i64, Failure> {
    match account {
        None => Err(Failure::Unauthorized),
        Some(a) => if need_verified && !a.verified {
            Err(Failure::Unauthorized)
        } else {
            match bcrypt_verify(password, a.password@) {
                Some(true) => Ok(a.id),
                Some(false) => Err(Failure::Unauthorized),
                None => Err(Failure::Processing(UNCHECKABLE_PASSWORD@)),
            }
        },
    }
}

fn check_password(account: &StoredCredentials, password: &str) -> (r: EndpointProcessingResult<i64>)
    ensures
        outcome(r) == signin_outcome(Some(*account), password@, false),
{
    match password_matches(password, account.password.as_str()) {
        Some(true) => Ok(account.id),
        Some(false) => Err(EndpointProcessingError::Unauthorized),
        None => Err(EndpointProcessingError::Processing(owned(UNCHECKABLE_PASSWORD))),
    }
}

/// Signs a user in: the account must exist, be verified, and the password must
/// match its hash. The session is created by the caller for the returned id.
pub fn signin(account: Option<&StoredCredentials>, password: &str) -> (r: EndpointProcessingResult<i64>)
    ensures
        outcome(r) == signin_outcome(
            match account {
                Some(a) => Some(*a),
                None => None,
            },
            password@,
            true,
        ),
{
    match account {
        Some(a) => {
            if !a.verified {
                Err(EndpointProcessingError::Unauthorized)
            } else {
                check_password(a, password)
            }
        },
        None => Err(EndpointProcessingError::Unauthorized),
    }
}

/// Signs an administrator in: the account must exist and the password must match.
pub fn admin_signin(account: Option<&StoredCredentials>, password: &str) -> (r: EndpointProcessingResult<i64>)
    ensures
        outcome(r) == signin_outcome(
            match account {
                Some(a) => Some(*a),
                None => None,
            },
            password@,
            false,
        ),
{
    match account {
        Some(a) => check_password(a, password),
        None => Err(EndpointProcessingError::Unauthorized),
    }
}

} // verus!
