//! The machine's clock.

use std::time::SystemTime;
use vstd::prelude::*;

verus! {

/// A reading of the machine's clock.
#[verifier::external_type_specification]
#[verifier::external_body]
pub struct ExSystemTime(std::time::SystemTime);

/// `SystemTime::now` of std: the time of day, of which nothing is claimed.
pub assume_specification[ std::time::SystemTime::now ]() -> (t: std::time::SystemTime)
;

/// `SystemTime::duration_since` of std, from the Unix epoch on, in whole
/// milliseconds; none when the clock stands before the epoch. What it
/// returns rests on the clock, so nothing is claimed of it.
#[verifier::external_body]
fn depuis_epoque(t: SystemTime) -> (r: Option<u128>) {
    t.duration_since(std::time::UNIX_EPOCH).ok().map(|d| d.as_millis())
}

/// Milliseconds since the Unix epoch, now; none when the clock stands
/// before it. What it returns rests on the clock.
pub fn lire() -> (r: Option<u128>) {
    depuis_epoque(SystemTime::now())
}

/// The whole seconds of a reading, zero when there is none.
pub fn secondes(lecture: Option<u128>) -> (r: u64)
    ensures
        r == match lecture {
            Some(ms) => (ms / 1000) as u64,
            None => 0u64,
        },
{
    match lecture {
        Some(ms) => #[verifier::truncate]
        ((ms / 1000) as u64),
        None => 0,
    }
}

} // verus!
