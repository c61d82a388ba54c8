//! The wall clock, and how a reading of it becomes a block's timestamp.

use vstd::prelude::*;

verus! {

/// Reads the system clock with `std::time::SystemTime::now`, converts the
/// reading with chrono's `From<SystemTime> for DateTime<Utc>` and calls
/// `DateTime::timestamp_millis`: the milliseconds between the Unix epoch and
/// now, negative when the system clock stands before the epoch. Nothing is
/// claimed of the value, which changes from call to call. The conversion has
/// a failing path only for a clock outside the years chrono can represent.
#[verifier::external_body]
pub(crate) fn now_millis() -> i64 {
    chrono::DateTime::<chrono::Utc>::from(std::time::SystemTime::now()).timestamp_millis()
}

/// Turns a clock reading into a timestamp: the reading itself where it is not
/// negative; a reading before the epoch keeps its 64 bits, read as unsigned,
/// which is the reading plus 2^64.
pub fn timestamp_from_millis(millis: i64) -> (timestamp: u64)
    ensures
        millis >= 0 ==> timestamp == millis,
        millis < 0 ==> timestamp == millis + 0x1_0000_0000_0000_0000,
{
    if millis >= 0 {
        millis as u64
    } else {
        u64::MAX - ((-(millis + 1)) as u64)
    }
}

} // verus!
