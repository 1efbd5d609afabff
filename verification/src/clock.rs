//! The system clock.

use vstd::prelude::*;

verus! {

/// Reads `std::time::SystemTime::now` as whole seconds since the Unix epoch;
/// `None` where the clock stands before the epoch.  Nothing is promised of the
/// reading: it depends on the machine alone.
#[verifier::external_body]
fn read_system_clock() -> (reading: Option<u64>)
{
    match std::time::SystemTime::now().duration_since(std::time::UNIX_EPOCH) {
        Ok(elapsed) => Some(elapsed.as_secs()),
        Err(_) => None,
    }
}

/// Seconds since the Unix epoch.  Any moment may come back: what becomes of a
/// reading is said by `secs_of_reading`.
pub(crate) fn now_secs() -> (now: u64) {
    secs_of_reading(read_system_clock())
}

/// The moment that a reading of the clock stands for.  A clock that stands before
/// the epoch reads as the epoch itself.
fn secs_of_reading(reading: Option<u64>) -> (now: u64)
    ensures
        reading matches Some(secs) ==> now == secs,
        reading is None ==> now == 0,
{
    match reading {
        Some(secs) => secs,
        None => 0,
    }
}

} // verus!
