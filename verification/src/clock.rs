//! The wall clock that stamps each recorded pull.

use vstd::prelude::*;

verus! {

/// A moment on the UTC time line: whole seconds since the Unix epoch and the
/// nanoseconds into that second.
#[derive(Debug, Clone, Copy, PartialEq, Eq, Structural)]
pub struct Timestamp {
    pub seconds: i64,
    pub nanos: u32,
}

/// The present moment, read from `chrono::Local::now`. Nothing is claimed of
/// the value: it is whatever the system clock says, and two calls may differ.
#[verifier::external_body]
pub(crate) fn now() -> Timestamp {
    let moment = chrono::Local::now();
    Timestamp { seconds: moment.timestamp(), nanos: moment.timestamp_subsec_nanos() }
}

} // verus!
