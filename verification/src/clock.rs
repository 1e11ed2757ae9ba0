//! The wall clock, read through `std::time`.
use vstd::prelude::*;
use std::time::{Duration, SystemTime};

verus! {

/// `std::time::SystemTime`, carried through opaquely.
#[verifier::external_type_specification]
#[verifier::external_body]
pub struct ExSystemTime(SystemTime);

/// The time elapsed from the Unix epoch to `t`, as
/// `SystemTime::duration_since(UNIX_EPOCH)` gives it (`None` for a time before
/// the epoch).
pub uninterp spec fn elapsed_since_epoch(t: SystemTime) -> Option<Duration>;

/// The whole milliseconds in `d`, as `Duration::as_millis` gives them.
pub uninterp spec fn whole_millis(d: Duration) -> u128;

/// Milliseconds since the epoch that the clock reading `t` stands for: the
/// whole milliseconds elapsed since the epoch, 0 before it.
pub open spec fn reading_millis(t: SystemTime) -> u128 {
    match elapsed_since_epoch(t) {
        Some(d) => whole_millis(d),
        None => 0,
    }
}

/// Reads the system clock.
///
/// Trusted: wraps `SystemTime::now`. Nothing is promised of the result: it is
/// the machine's current time.
#[verifier::external_body]
fn system_time_now() -> SystemTime {
    SystemTime::now()
}

/// The time elapsed from the Unix epoch to `t`, or `None` when `t` lies before
/// the epoch.
///
/// Trusted: wraps `SystemTime::duration_since(UNIX_EPOCH)`, turning its error
/// (a time before the epoch) into `None`. The result is a function of `t`
/// alone, named `elapsed_since_epoch`.
#[verifier::external_body]
fn since_unix_epoch(t: &SystemTime) -> (r: Option<Duration>)
    ensures
        r == elapsed_since_epoch(*t),
{
    t.duration_since(std::time::UNIX_EPOCH).ok()
}

/// Whole milliseconds of a duration.
///
/// Trusted: wraps `Duration::as_millis` ("the total number of whole
/// milliseconds contained by this Duration"); `Duration` is opaque here, so the
/// number is named `whole_millis`.
#[verifier::external_body]
fn duration_millis(d: &Duration) -> (r: u128)
    ensures
        r == whole_millis(*d),
{
    d.as_millis()
}

/// Milliseconds since the Unix epoch on the system clock, 0 when the clock
/// reads a time before the epoch. Which time the clock reads is not stated.
pub fn now_unix_millis() -> (ms: u128)
    ensures
        exists|t: SystemTime| ms == reading_millis(t),
{
    let now = system_time_now();
    let ms = match since_unix_epoch(&now) {
        Some(d) => duration_millis(&d),
        None => 0,
    };
    assert(ms == reading_millis(now));
    ms
}

} // verus!
