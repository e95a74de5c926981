use vstd::prelude::*;

verus! {

/// The system clock's reading, carried through unchanged.
#[verifier::external_type_specification]
#[verifier::external_body]
pub struct ExSystemTime(std::time::SystemTime);

/// Reads the system clock with `std::time::SystemTime::now`.
/// Trusted: nothing is stated of the reading, which depends on the time.
#[verifier::external_body]
pub(crate) fn system_time_now() -> std::time::SystemTime {
    std::time::SystemTime::now()
}

/// The span from the Unix epoch to `t`, through
/// `SystemTime::duration_since(UNIX_EPOCH)`; `None` where that call fails,
/// which it does when `t` lies before the epoch. Trusted: nothing is stated
/// of the span, since `t` is opaque here.
#[verifier::external_body]
pub(crate) fn since_unix_epoch(t: &std::time::SystemTime) -> Option<std::time::Duration> {
    t.duration_since(std::time::UNIX_EPOCH).ok()
}

/// The whole seconds of `d`, through `Duration::as_secs`. Trusted: nothing
/// is stated of the number, since `d` is opaque here.
#[verifier::external_body]
pub(crate) fn whole_seconds(d: &std::time::Duration) -> u64 {
    d.as_secs()
}

/// The current Unix time in whole seconds, `None` when the clock reads a
/// time before the epoch.
pub(crate) fn unix_time_secs() -> Option<u64> {
    let now = system_time_now();
    match since_unix_epoch(&now) {
        Some(d) => Some(whole_seconds(&d)),
        None => None,
    }
}

} // verus!
