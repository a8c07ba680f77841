//! One monotonic clock per run: every process and compiler event is a
//! nanosecond offset from a single anchor, so events from different
//! subsystems stay comparable. The wall-clock time at the anchor is kept
//! for human correlation only.

use vstd::prelude::*;

verus! {

#[verifier::external_type_specification]
#[verifier::external_body]
pub struct ExInstant(std::time::Instant);

/// `Instant::now`: the current monotonic instant.
#[verifier::external_body]
fn instant_now() -> (r: std::time::Instant) {
    std::time::Instant::now()
}

/// `Instant::elapsed`, in whole nanoseconds.
#[verifier::external_body]
fn elapsed_nanos(anchor: &std::time::Instant) -> (r: u128) {
    anchor.elapsed().as_nanos()
}

/// `SystemTime::now` as nanoseconds since the Unix epoch (zero for a clock
/// set before the epoch).
#[verifier::external_body]
fn unix_time_ns() -> (r: u128) {
    std::time::SystemTime::now().duration_since(std::time::UNIX_EPOCH).unwrap_or_default().as_nanos()
}

/// A nanosecond count narrowed to `u64`, saturating at its maximum.
pub fn saturate_ns(n: u128) -> (r: u64)
    ensures
        n <= u64::MAX ==> r == n,
        n > u64::MAX ==> r == u64::MAX,
{
    if n > 0xffff_ffff_ffff_ffffu128 {
        0xffff_ffff_ffff_ffffu64
    } else {
        n as u64
    }
}

/// The clock of one run.
pub struct RunClock {
    anchor: std::time::Instant,
    anchor_unix_ns: u128,
}

impl RunClock {
    /// The recorded wall-clock time of the anchor.
    pub closed spec fn anchor_ns(&self) -> u128 {
        self.anchor_unix_ns
    }

    /// Starts a clock anchored at the current instant, recording the
    /// wall-clock time at that instant.
    pub fn start() -> (r: Self) {
        RunClock { anchor: instant_now(), anchor_unix_ns: unix_time_ns() }
    }

    /// Nanoseconds elapsed since the anchor, saturating at `u64::MAX`.
    pub fn elapsed_ns(&self) -> (r: u64) {
        saturate_ns(elapsed_nanos(&self.anchor))
    }

    /// The wall-clock time of the anchor, in nanoseconds since the Unix
    /// epoch.
    pub fn anchor_unix_ns(&self) -> (r: u128)
        ensures
            r == self.anchor_ns(),
    {
        self.anchor_unix_ns
    }
}

} // verus!
