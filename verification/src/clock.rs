//! Clock readings. The clocks themselves are std's; what is computed from a
//! reading (saturating or truncating it to `u64` nanoseconds) is verified.

use vstd::prelude::*;

verus! {

/// A point on the monotonic clock.
///
/// Trusted declaration of `std::time::Instant`, an opaque value that is only
/// carried through and handed back to [`instant_elapsed`].
#[verifier::external_type_specification]
#[verifier::external_body]
pub struct ExInstant(std::time::Instant);

/// A point on the wall clock.
///
/// Trusted declaration of `std::time::SystemTime`, an opaque value that is
/// only handed on to [`duration_since_unix_epoch`].
#[verifier::external_type_specification]
#[verifier::external_body]
pub struct ExSystemTime(std::time::SystemTime);

/// Reads the monotonic clock.
///
/// Trusted wrapper over `Instant::now`; its value depends on the time of the
/// call, so nothing is stated about it.
#[verifier::external_body]
pub(crate) fn instant_now() -> std::time::Instant {
    std::time::Instant::now()
}

/// Time elapsed since `started`.
///
/// Trusted wrapper over `Instant::elapsed`; its value depends on the time of
/// the call, so nothing is stated about it.
#[verifier::external_body]
pub(crate) fn instant_elapsed(started: &std::time::Instant) -> std::time::Duration {
    started.elapsed()
}

/// Reads the wall clock.
///
/// Trusted wrapper over `SystemTime::now`; its value depends on the time of
/// the call, so nothing is stated about it.
#[verifier::external_body]
pub(crate) fn system_time_now() -> std::time::SystemTime {
    std::time::SystemTime::now()
}

/// Time since the Unix epoch, `None` when `t` is before it.
///
/// Trusted wrapper over `SystemTime::duration_since(UNIX_EPOCH)`, its error
/// turned into `None`; the result depends on the clock reading `t`, which is
/// opaque here, so nothing is stated about it.
#[verifier::external_body]
pub(crate) fn duration_since_unix_epoch(t: std::time::SystemTime) -> Option<std::time::Duration> {
    t.duration_since(std::time::UNIX_EPOCH).ok()
}

/// Whole nanoseconds in `duration`.
///
/// Trusted wrapper over `Duration::as_nanos`; durations are opaque here, so
/// nothing is stated about the count.
#[verifier::external_body]
pub(crate) fn duration_as_nanos(duration: &std::time::Duration) -> u128 {
    duration.as_nanos()
}

/// `nanos` saturated to `u64`.
pub fn saturating_nanos(nanos: u128) -> (r: u64)
    ensures
        r == if nanos > u64::MAX { u64::MAX as u128 } else { nanos },
{
    if nanos > u64::MAX as u128 {
        u64::MAX
    } else {
        nanos as u64
    }
}

/// Whole nanoseconds in `duration`, saturated to `u64`.
pub fn duration_ns(duration: &std::time::Duration) -> u64 {
    saturating_nanos(duration_as_nanos(duration))
}

/// Nanoseconds elapsed since `started`, saturated to `u64`.
pub(crate) fn elapsed_ns(started: &std::time::Instant) -> u64 {
    let elapsed = instant_elapsed(started);
    duration_ns(&elapsed)
}

/// The wall clock as nanoseconds since the Unix epoch, truncated to `u64`;
/// zero when the clock reads before the epoch.
pub(crate) fn unix_time_nanos() -> u64 {
    match duration_since_unix_epoch(system_time_now()) {
        Some(duration) => {
            let nanos = duration_as_nanos(&duration);
            #[verifier::truncate]
            (nanos as u64)
        },
        None => 0,
    }
}

/// A duration in nanoseconds read from the monotonic clock. Only
/// [`measure_elapsed`] makes one, so every value of this type is a clock
/// measurement; its count is the elapsed time since an instant, saturated to
/// `u64`.
pub struct Measurement {
    ns: u64,
}

impl Measurement {
    /// The measured nanoseconds.
    pub closed spec fn spec_ns(&self) -> u64 {
        self.ns
    }

    /// The measured nanoseconds.
    pub fn ns(&self) -> (r: u64)
        ensures
            r == self.spec_ns(),
    {
        self.ns
    }
}

/// Measures the time elapsed since `started`.
pub fn measure_elapsed(started: &std::time::Instant) -> Measurement {
    Measurement { ns: elapsed_ns(started) }
}

} // verus!
