//! Wall-clock time, the one reading of the environment the library makes.
use vstd::prelude::*;

verus! {

/// `SystemTime::now`, as milliseconds since the Unix epoch (0 before it).
/// Nothing is stated of the value: it depends on the machine's clock.
#[verifier::external_body]
pub fn now_ms() -> u64 {
    std::time::SystemTime::now()
        .duration_since(std::time::UNIX_EPOCH)
        .unwrap_or_default()
        .as_millis() as u64
}

/// `SystemTime::now`, as whole seconds since the Unix epoch (0 before it).
/// Nothing is stated of the value: it depends on the machine's clock.
#[verifier::external_body]
pub fn now_secs() -> u64 {
    std::time::SystemTime::now()
        .duration_since(std::time::UNIX_EPOCH)
        .unwrap_or_default()
        .as_secs()
}

} // verus!
