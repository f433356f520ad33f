//! Settings that the embedding application supplies.
use vstd::prelude::*;

use std::time::Duration;

verus! {

/// The duration that `Duration::from_secs(secs)` builds.
pub uninterp spec fn duration_from_secs(secs: u64) -> Duration;

/// Calls `std::time::Duration::from_secs`, which builds the duration of
/// `secs` whole seconds and never fails; the result is named by
/// `duration_from_secs`, nothing more is stated of it.
#[verifier::external_body]
fn seconds(secs: u64) -> (d: Duration)
    ensures
        d == duration_from_secs(secs),
{
    Duration::from_secs(secs)
}

/// The application's settings for a connection.
pub trait Context {
    /// Connection timeout
    ///
    /// Default is 2 seconds as redis should be pretty fast
    fn connect_timeout(&self) -> (d: Duration)
        default_ensures
            d == duration_from_secs(2),
    {
        seconds(2)
    }

    /// Maximal message from redis that we are willing to parse
    ///
    /// This is a small DoS prevention measure
    fn max_redis_message(&self) -> (n: usize)
        default_ensures
            n == 10_485_760,
    {
        10_485_760
    }
}

} // verus!
