//! Folding of call-boundary outcomes into the uniform result channel.
//!
//! A platform call comes back in one of three shapes: a value, a null
//! sentinel, or a thrown error. `ResultOption` carries that raw shape, and
//! `into_result` folds it into an ordinary `Result`, turning the null
//! sentinel into the error the caller supplies. `CResult` is the value-level
//! shape handed across a C call boundary: the payload together with an error
//! message that is empty on success.

use vstd::prelude::*;

verus! {

/// The raw outcome of a platform call: `Ok(Some(_))` is a value,
/// `Ok(None)` a null sentinel, `Err(_)` a thrown error.
pub struct ResultOption<T, E>(pub Result<Option<T>, E>);

impl<T, E> From<Result<Option<T>, E>> for ResultOption<T, E> {
    fn from(val: Result<Option<T>, E>) -> (r: ResultOption<T, E>) {
        ResultOption(val)
    }
}

impl<T, E> vstd::std_specs::convert::FromSpecImpl<Result<Option<T>, E>> for ResultOption<T, E> {
    open spec fn obeys_from_spec() -> bool {
        true
    }

    open spec fn from_spec(val: Result<Option<T>, E>) -> Self {
        ResultOption(val)
    }
}

impl<T, E> ResultOption<T, E> {
    /// Folds the raw outcome: a value stays a value, a thrown error stays an
    /// error, and the null sentinel becomes `on_null`.
    pub fn into_result(self, on_null: E) -> (r: Result<T, E>)
        ensures
            r == match self.0 {
                Ok(Some(v)) => Ok::<T, E>(v),
                Ok(None) => Err::<T, E>(on_null),
                Err(e) => Err::<T, E>(e),
            },
    {
        match self.0 {
            Ok(Some(v)) => Ok(v),
            Ok(None) => Err(on_null),
            Err(e) => Err(e),
        }
    }
}

/// The value-level shape of a result crossing a C call boundary: the payload
/// plus an error message, empty on success.
pub struct CResult<T> {
    pub value: T,
    pub error_msg: String,
}

/// Packs a `Result` into a `CResult` plus an error flag: on success the
/// payload travels with an empty message, on failure the fallback payload
/// travels with the message and the flag is raised.
pub fn cresult_of<T>(val: Result<T, String>, fallback: T) -> (r: (CResult<T>, bool))
    ensures
        match val {
            Ok(v) => r.0.value == v && r.0.error_msg@ == Seq::<char>::empty() && r.1 == false,
            Err(e) => r.0.value == fallback && r.0.error_msg == e && r.1 == true,
        },
{
    match val {
        Ok(v) => (CResult { value: v, error_msg: String::new() }, false),
        Err(e) => (CResult { value: fallback, error_msg: e }, true),
    }
}

/// The value a call boundary hands out for an optional outcome, with a flag
/// that says whether the absence must be signalled to the caller.
pub fn option_outcome<T>(val: Option<T>, fallback: T) -> (r: (T, bool))
    ensures
        match val {
            Some(v) => r.0 == v && r.1 == false,
            None => r.0 == fallback && r.1 == true,
        },
{
    match val {
        Some(v) => (v, false),
        None => (fallback, true),
    }
}

/// The value a call boundary hands out for a fallible outcome, with a flag
/// that says whether the failure must be signalled to the caller.
pub fn result_outcome<T, E>(val: Result<T, E>, fallback: T) -> (r: (T, bool))
    ensures
        match val {
            Ok(v) => r.0 == v && r.1 == false,
            Err(_) => r.0 == fallback && r.1 == true,
        },
{
    match val {
        Ok(v) => (v, false),
        Err(_) => (fallback, true),
    }
}

} // verus!
