//! The clock and the random numbers, from `chrono` and `rand`.
use vstd::prelude::*;

verus! {

/// Calls `chrono::Utc::now().timestamp()`: the current time, in seconds since
/// the Unix epoch. Nothing is promised of the value: it depends on the clock.
#[verifier::external_body]
pub(crate) fn now_timestamp() -> (r: i64) {
    chrono::Utc::now().timestamp()
}

/// Calls `rand::Rng::gen` on `rand::thread_rng()` for a `u32`. Nothing is
/// promised of the value: it is random.
#[verifier::external_body]
pub(crate) fn random_u32() -> (r: u32) {
    rand::Rng::gen(&mut rand::thread_rng())
}

/// Calls `rand::Rng::gen` on `rand::thread_rng()` for a `u64`. Nothing is
/// promised of the value: it is random.
#[verifier::external_body]
pub(crate) fn random_u64() -> (r: u64) {
    rand::Rng::gen(&mut rand::thread_rng())
}

} // verus!
