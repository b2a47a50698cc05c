// The exported call-boundary surface: the four operations exist with the
// value-level signatures the adapters wrap, and the conversion helpers
// compose with them.

use secure_native::error::Error;
use secure_native::result::result_outcome;
use secure_native::service::{contains, delete, get, put, Platform};

fn test_put(success: Result<(), Error>, _other: u32) -> Result<(), Error> {
    success
}

fn test_get(seed: Result<String, Error>, _other: u32) -> Result<String, Error> {
    seed
}

fn test_contains(contained: Result<bool, Error>, _other: u32) -> Result<bool, Error> {
    contained
}

fn test_delete(success: Result<(), Error>, _other: u32) -> Result<(), Error> {
    success
}

#[test]
fn test_exports() {
    let mut env = Platform::new();
    let _ = test_put(put(&mut env, "svc", "acct", "value", false), 0);
    let _ = test_contains(contains(&env, "svc", "acct"), 0);
    let _ = result_outcome(test_get(get(&env, "svc", "acct"), 0), String::new());
    let _ = test_delete(delete(&mut env, "svc", "acct"), 0);
}
