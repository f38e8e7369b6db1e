//! The standard-library types that errors and clocks carry, and the calls
//! that read them.
use vstd::prelude::*;

verus! {

/// An I/O error from the standard library.
#[verifier::external_type_specification]
#[verifier::external_body]
pub struct ExIoError(std::io::Error);

/// The error `SystemTime::duration_since` reports for a clock set before the
/// epoch.
#[verifier::external_type_specification]
#[verifier::external_body]
pub struct ExSystemTimeError(std::time::SystemTimeError);

/// A filesystem path.
#[verifier::external_type_specification]
#[verifier::external_body]
pub struct ExPathBuf(std::path::PathBuf);

/// A reading of the monotonic clock.
#[verifier::external_type_specification]
#[verifier::external_body]
pub struct ExInstant(std::time::Instant);

/// The `Display` text of an I/O error. It comes from the operating system,
/// so nothing is said of it.
#[verifier::external_body]
pub(crate) fn io_error_text(error: &std::io::Error) -> String {
    format!("{error}")
}

/// The `Display` text of a clock error; nothing is said of it.
#[verifier::external_body]
pub(crate) fn system_time_error_text(error: &std::time::SystemTimeError) -> String {
    format!("{error}")
}

/// Milliseconds since the Unix epoch by the system clock, through
/// `SystemTime::now().duration_since(UNIX_EPOCH)` and `as_millis`. The clock
/// is read, so nothing is said of the value.
#[verifier::external_body]
pub(crate) fn unix_epoch_millis() -> Result<u128, std::time::SystemTimeError> {
    match std::time::SystemTime::now().duration_since(std::time::UNIX_EPOCH) {
        Ok(elapsed) => Ok(elapsed.as_millis()),
        Err(error) => Err(error),
    }
}

/// `Instant::now`: a reading of the monotonic clock.
#[verifier::external_body]
pub(crate) fn instant_now() -> std::time::Instant {
    std::time::Instant::now()
}

/// `Instant::elapsed` in nanoseconds (`as_nanos`): the time since `start`,
/// read from the clock, so nothing is said of the value.
#[verifier::external_body]
pub(crate) fn nanos_since(start: &std::time::Instant) -> u128 {
    start.elapsed().as_nanos()
}

/// `Clone` of a clock reading. `Instant` is `Copy`, so its clone is the same
/// reading.
pub assume_specification[<std::time::Instant as Clone>::clone](instant: &std::time::Instant) -> (r:
    std::time::Instant)
    ensures
        r == *instant,
;

/// `Clone` of a path: std documents it as a copy of the path, the same
/// sequence of bytes.
pub assume_specification[<std::path::PathBuf as Clone>::clone](path: &std::path::PathBuf) -> (r:
    std::path::PathBuf)
    ensures
        r == *path,
;

} // verus!
