//! The clock.

use crate::model::Timestamp;
use vstd::prelude::*;

verus! {

/// The instant at which the call is made, read through `chrono::Local::now`
/// and kept as seconds and nanoseconds since the epoch. Nothing is claimed
/// of it: it is whatever the clock says.
#[verifier::external_body]
pub(crate) fn current_time() -> (now: Timestamp) {
    let t = chrono::Local::now();
    Timestamp { seconds: t.timestamp(), nanos: t.timestamp_subsec_nanos() }
}

} // verus!
