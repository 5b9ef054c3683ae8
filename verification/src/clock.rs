//! Reading the system clocks. The values depend on the time at which they
//! are read, so nothing is stated of them; the library only carries them
//! along or records them.
use vstd::prelude::*;

verus! {

/// `std::time::Instant`, a point of the monotonic clock.
#[verifier::external_type_specification]
#[verifier::external_body]
pub struct ExInstant(std::time::Instant);

/// `std::time::SystemTime`, a point of the wall clock.
#[verifier::external_type_specification]
#[verifier::external_body]
pub struct ExSystemTime(std::time::SystemTime);

/// `std::time::SystemTimeError`, the error of a wall-clock difference that
/// would be negative.
#[verifier::external_type_specification]
#[verifier::external_body]
pub struct ExSystemTimeError(std::time::SystemTimeError);

/// `Instant::now()`.
#[verifier::external_body]
pub(crate) fn instant_now() -> (r: std::time::Instant) {
    std::time::Instant::now()
}

/// `Instant::elapsed`: the time since `t`.
#[verifier::external_body]
fn instant_elapsed(t: &std::time::Instant) -> (r: std::time::Duration) {
    t.elapsed()
}

/// `Duration::as_millis`: whole milliseconds of `d`.
#[verifier::external_body]
fn duration_millis(d: &std::time::Duration) -> (r: u128) {
    d.as_millis()
}

/// `Duration::as_secs`: whole seconds of `d`.
#[verifier::external_body]
fn duration_secs(d: &std::time::Duration) -> (r: u64) {
    d.as_secs()
}

/// `SystemTime::now()`.
#[verifier::external_body]
fn system_now() -> (r: std::time::SystemTime) {
    std::time::SystemTime::now()
}

/// `SystemTime::duration_since(UNIX_EPOCH)`: an error when `t` lies before
/// the epoch.
#[verifier::external_body]
fn since_unix_epoch(t: &std::time::SystemTime) -> (r: Result<std::time::Duration, std::time::SystemTimeError>) {
    t.duration_since(std::time::UNIX_EPOCH)
}

/// Whole milliseconds elapsed since `t`, cut to 64 bits.
pub(crate) fn elapsed_ms(t: &std::time::Instant) -> (r: u64) {
    let d = instant_elapsed(t);
    let ms = duration_millis(&d);
    ms as u64
}

/// The wall-clock time in whole seconds since the Unix epoch; 0 for a clock
/// set before the epoch.
pub(crate) fn unix_timestamp_secs() -> (r: u64) {
    let now = system_now();
    match since_unix_epoch(&now) {
        Ok(d) => duration_secs(&d),
        Err(_) => 0,
    }
}

} // verus!
