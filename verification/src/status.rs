//! Status-code normalisation for the keychain-style backend.
//!
//! The implicit-per-item store signals failure through numeric status
//! codes rather than exceptions. Every code is folded into the uniform
//! error taxonomy at this boundary; nothing numeric crosses into the
//! service layer. The existence check deliberately treats an item that
//! exists but demands authentication the same as a readable one: both
//! answer `true`.

use vstd::prelude::*;
use crate::error::Error;

verus! {

/// The status code of a successful keychain call.
pub const STATUS_OK: i32 = 0;

/// The status code for an item that does not exist.
pub const STATUS_ITEM_NOT_FOUND: i32 = -25300;

/// The status code for an item that exists but may not be read without
/// user authentication.
pub const STATUS_INTERACTION_NOT_ALLOWED: i32 = -25308;

/// The error a keychain status code stands for, if it is a failure at
/// all: a missing item reads as `NotFound`, anything else as a key-store
/// failure.
pub open spec fn spec_status_error(status: i32) -> Option<Error> {
    if status == STATUS_OK {
        None
    } else if status == STATUS_ITEM_NOT_FOUND {
        Some(Error::NotFound)
    } else {
        Some(Error::KeyProvider)
    }
}

/// Folds a keychain status code into the uniform error channel.
pub fn status_outcome(status: i32) -> (r: Result<(), Error>)
    ensures
        r == match spec_status_error(status) {
            None => Ok::<(), Error>(()),
            Some(e) => Err::<(), Error>(e),
        },
{
    if status == STATUS_OK {
        Ok(())
    } else if status == STATUS_ITEM_NOT_FOUND {
        Err(Error::NotFound)
    } else {
        Err(Error::KeyProvider)
    }
}

/// Folds the status of an existence probe. An item that requires
/// authentication to read is reported as present, indistinguishable from
/// a readable one; only a missing item answers `false`.
pub fn contains_outcome(status: i32) -> (r: Result<bool, Error>)
    ensures
        r == if status == STATUS_OK || status == STATUS_INTERACTION_NOT_ALLOWED {
            Ok::<bool, Error>(true)
        } else if status == STATUS_ITEM_NOT_FOUND {
            Ok::<bool, Error>(false)
        } else {
            Err::<bool, Error>(Error::KeyProvider)
        },
{
    if status == STATUS_INTERACTION_NOT_ALLOWED {
        Ok(true)
    } else if status == STATUS_ITEM_NOT_FOUND {
        Ok(false)
    } else if status == STATUS_OK {
        Ok(true)
    } else {
        Err(Error::KeyProvider)
    }
}

/// Folds a deletion status: a missing item is no error, so deletion is
/// idempotent.
pub fn delete_outcome(status: i32) -> (r: Result<(), Error>)
    ensures
        r == if status == STATUS_OK || status == STATUS_ITEM_NOT_FOUND {
            Ok::<(), Error>(())
        } else {
            Err::<(), Error>(Error::KeyProvider)
        },
{
    if status == STATUS_OK || status == STATUS_ITEM_NOT_FOUND {
        Ok(())
    } else {
        Err(Error::KeyProvider)
    }
}

} // verus!
