//! The ways in which a request fails.

use crate::report::ValidationError;
use crate::token::DecodeError;
use vstd::prelude::*;

verus! {

/// Why a request failed. `E` is the error of the account store, which is
/// handed on as it came.
#[derive(Debug, PartialEq, Eq)]
pub enum AuthError<E> {
    /// The request's fields have issues: all of them, field by field.
    Validation(ValidationError),
    /// No account has the number asked for, which is this one.
    NotFound(i32),
    /// The request came without a session token.
    NotAuthenticated,
    /// The session token was refused.
    Token(DecodeError),
    /// The account store failed.
    Store(E),
    /// A failure with no cause that could be named.
    Unexpected,
}

} // verus!
