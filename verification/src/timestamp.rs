//! Codec between the Palm epoch (1904-01-01T00:00:00Z) integer-seconds
//! representation and a calendar timestamp.
//!
//! A calendar timestamp is held as whole seconds relative to the Unix
//! epoch (1970-01-01T00:00:00Z), so the two representations differ by the
//! fixed number of seconds between the two epochs.

use crate::error::PDBError;
use vstd::prelude::*;

verus! {

/// Seconds from the Palm epoch (1904-01-01T00:00:00Z) to the Unix epoch
/// (1970-01-01T00:00:00Z): 24107 days of 86400 seconds each.
pub const PALM_EPOCH_OFFSET: i64 = 2082844800;

/// A calendar timestamp: whole seconds relative to the Unix epoch,
/// negative for instants before it.
#[derive(Clone, Copy, Debug, PartialEq, Eq, Structural)]
pub struct Timestamp {
    /// Seconds since the Unix epoch.
    pub seconds: i64,
}

/// True when `t` lies on or after the Palm epoch and its Palm
/// representation fits in 32 bits.
pub open spec fn palm_encodable(t: Timestamp) -> bool {
    0 <= t.seconds + PALM_EPOCH_OFFSET <= u32::MAX
}

/// The Palm representation of `t`: seconds since the Palm epoch.
pub open spec fn spec_to_palm(t: Timestamp) -> u32
    recommends
        palm_encodable(t),
{
    (t.seconds + PALM_EPOCH_OFFSET) as u32
}

/// The calendar timestamp denoted by the Palm representation `palm`.
pub open spec fn spec_from_palm(palm: u32) -> Timestamp {
    Timestamp { seconds: (palm - PALM_EPOCH_OFFSET) as i64 }
}

/// Converts seconds since the Palm epoch to a calendar timestamp.
pub fn from_palm_timestamp(palm: u32) -> (r: Timestamp)
    ensures
        r == spec_from_palm(palm),
        palm_encodable(r),
        spec_to_palm(r) == palm,
{
    Timestamp { seconds: palm as i64 - PALM_EPOCH_OFFSET }
}

/// Converts a calendar timestamp to seconds since the Palm epoch.
///
/// Fails exactly for timestamps before the Palm epoch and for those too
/// far past it to be held in 32 bits.
pub fn to_palm_timestamp(t: Timestamp) -> (r: Result<u32, PDBError>)
    ensures
        palm_encodable(t) ==> r == Ok::<u32, PDBError>(spec_to_palm(t)),
        !palm_encodable(t) ==> r == Err::<u32, PDBError>(PDBError::TimestampOutOfRange),
{
    if t.seconds < -PALM_EPOCH_OFFSET {
        Err(PDBError::TimestampOutOfRange)
    } else if t.seconds > u32::MAX as i64 - PALM_EPOCH_OFFSET {
        Err(PDBError::TimestampOutOfRange)
    } else {
        Ok((t.seconds + PALM_EPOCH_OFFSET) as u32)
    }
}

/// Converting a timestamp on or after the Palm epoch (and within 32-bit
/// reach of it) to its Palm representation and back yields the same
/// timestamp; `to_palm_timestamp` fails on every other timestamp.
pub proof fn lemma_timestamp_round_trip(t: Timestamp)
    requires
        palm_encodable(t),
    ensures
        spec_from_palm(spec_to_palm(t)) == t,
{
}

/// Relies on chrono's `Utc::now`: the current time, taken as whole seconds
/// since the Unix epoch. Nothing is promised of the value; it depends on
/// the machine's clock.
#[verifier::external_body]
pub fn now_timestamp() -> Timestamp {
    Timestamp { seconds: chrono::Utc::now().timestamp() }
}

} // verus!
