//! Wall-clock time stamps.
use vstd::prelude::*;
use std::time::SystemTime;

verus! {

/// Declares `std::time::SystemTime` as an opaque value.
#[verifier::external_type_specification]
#[verifier::external_body]
pub struct ExSystemTime(SystemTime);

/// `SystemTime::now`: the current wall-clock time.  Nothing is promised of
/// the value: it depends on the machine's clock.
#[verifier::external_body]
fn system_time_now() -> SystemTime {
    SystemTime::now()
}

/// `SystemTime::duration_since(UNIX_EPOCH)`, read in whole milliseconds
/// (`Duration::as_millis`); `None` when `t` lies before the epoch.  Nothing
/// more is stated: `t` is opaque here.
#[verifier::external_body]
fn millis_since_unix_epoch(t: &SystemTime) -> Option<u128> {
    match t.duration_since(std::time::UNIX_EPOCH) {
        Ok(d) => Some(d.as_millis()),
        Err(_) => None,
    }
}

/// Milliseconds since the Unix epoch as a `u64`: saturated at `u64::MAX`,
/// and zero when the clock reads before the epoch.
pub fn epoch_millis(since_epoch_millis: Option<u128>) -> (r: u64)
    ensures
        r == (match since_epoch_millis {
            Some(ms) => if ms > u64::MAX {
                u64::MAX as int
            } else {
                ms as int
            },
            None => 0,
        }),
{
    match since_epoch_millis {
        Some(ms) => {
            if ms > 0xffff_ffff_ffff_ffffu128 {
                u64::MAX
            } else {
                ms as u64
            }
        },
        None => 0,
    }
}

/// The current time in milliseconds since the Unix epoch, as
/// `epoch_millis` renders the clock's reading.
pub fn current_epoch_millis() -> u64 {
    let now = system_time_now();
    epoch_millis(millis_since_unix_epoch(&now))
}

} // verus!
