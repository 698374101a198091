//! The wall clock.
use vstd::prelude::*;

verus! {

/// A point in time of the system's clock: `std::time::SystemTime`.
#[verifier::external_type_specification]
#[verifier::external_body]
pub struct ExSystemTime(std::time::SystemTime);

/// What `SystemTime::duration_since` returns of an earlier point:
/// `std::time::SystemTimeError`.
#[verifier::external_type_specification]
#[verifier::external_body]
pub struct ExSystemTimeError(std::time::SystemTimeError);

/// `std::time::SystemTime::now`: the time that the system's clock shows. Nothing is
/// promised of it; the clock can even go back between two calls.
pub assume_specification[ std::time::SystemTime::now ]() -> (t: std::time::SystemTime)
;

/// How long after the Unix epoch a point is; nothing for a point before it.
pub uninterp spec fn after_epoch(t: std::time::SystemTime) -> Option<std::time::Duration>;

/// `std::time::SystemTime::duration_since`, from the Unix epoch: how long after it the
/// point is, or an error where the point is before it.
#[verifier::external_body]
fn since_epoch(t: std::time::SystemTime) -> (r: Result<
    std::time::Duration,
    std::time::SystemTimeError,
>)
    ensures
        match r {
            Ok(d) => after_epoch(t) == Some(d),
            Err(_) => after_epoch(t) is None,
        },
{
    t.duration_since(std::time::UNIX_EPOCH)
}

/// The whole seconds of a span.
pub uninterp spec fn seconds_in(d: std::time::Duration) -> u64;

/// `std::time::Duration::as_secs`: the whole seconds of a span. How many they are is not
/// said here.
#[verifier::external_body]
fn whole_seconds(d: std::time::Duration) -> (n: u64)
    ensures
        n == seconds_in(d),
{
    d.as_secs()
}

/// The seconds of a clock that may stand before the epoch: it then counts as the epoch.
pub fn seconds_or_zero(elapsed: Option<u64>) -> (n: u64)
    ensures
        n == match elapsed {
            Some(s) => s,
            None => 0,
        },
{
    match elapsed {
        Some(s) => s,
        None => 0,
    }
}

/// The seconds that a point in time is after the epoch; a point before it counts as it.
pub open spec fn seconds_at(t: std::time::SystemTime) -> u64 {
    match after_epoch(t) {
        Some(d) => seconds_in(d),
        None => 0,
    }
}

/// The seconds since the Unix epoch, of a time that the clock showed. Which time that was
/// is the clock's to say.
pub fn now_secs() -> (n: u64)
    ensures
        exists|t: std::time::SystemTime| n == #[trigger] seconds_at(t),
{
    let t: std::time::SystemTime = std::time::SystemTime::now();
    let n: u64 = match since_epoch(t) {
        Ok(d) => seconds_or_zero(Some(whole_seconds(d))),
        Err(_) => seconds_or_zero(None),
    };
    assert(n == seconds_at(t));
    n
}

/// A point after the epoch counts its whole seconds; one before it counts none.
pub proof fn law_a_time_counts_from_the_epoch(t: std::time::SystemTime)
    ensures
        after_epoch(t) matches Some(d) ==> seconds_at(t) == seconds_in(d),
        after_epoch(t) is None ==> seconds_at(t) == 0,
{
}

} // verus!
