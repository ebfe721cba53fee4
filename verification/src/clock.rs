//! Wall-clock readings in milliseconds since the Unix epoch.

use std::time::{Duration, SystemTime, UNIX_EPOCH};
use vstd::prelude::*;

verus! {

/// `std::time::SystemTime`, an opaque point in time.
#[verifier::external_type_specification]
#[verifier::external_body]
pub struct ExSystemTime(SystemTime);

/// `SystemTime::now`: the current system time. Nothing is claimed of it.
#[verifier::external_body]
fn system_now() -> (now: SystemTime) {
    SystemTime::now()
}

/// `SystemTime::duration_since` with the Unix epoch as the earlier point:
/// the time elapsed since the epoch, or `None` when `moment` lies before it.
#[verifier::external_body]
fn since_epoch(moment: &SystemTime) -> (elapsed: Option<Duration>) {
    moment.duration_since(UNIX_EPOCH).ok()
}

/// `Duration::as_millis`: the whole milliseconds in `span`.
#[verifier::external_body]
fn whole_millis(span: &Duration) -> (millis: u128) {
    span.as_millis()
}

/// Milliseconds since the Unix epoch, reduced to the width of `usize`.
/// A clock set before the epoch reads as the epoch itself.
pub(crate) fn current_millis() -> (millis: usize) {
    let now = system_now();
    let elapsed = match since_epoch(&now) {
        Some(span) => Some(whole_millis(&span)),
        None => None,
    };
    millis_reading(elapsed)
}

/// The reading that a clock gives which stands `elapsed` milliseconds after
/// the epoch, or before the epoch when `elapsed` is `None`: the milliseconds
/// themselves where a `usize` holds them, else their remainder at the width
/// of `usize`, and zero for a clock before the epoch.
pub open spec fn reading_of(elapsed: Option<u128>) -> int {
    match elapsed {
        Some(wide) => if wide <= usize::MAX {
            wide as int
        } else {
            (wide as int) % (usize::MAX + 1)
        },
        None => 0,
    }
}

/// The reading of a clock from the milliseconds it stands after the epoch.
pub fn millis_reading(elapsed: Option<u128>) -> (millis: usize)
    ensures
        millis == reading_of(elapsed),
{
    match elapsed {
        Some(wide) => {
            let width: u128 = usize::MAX as u128 + 1;
            proof {
                if wide <= usize::MAX {
                    vstd::arithmetic::div_mod::lemma_small_mod(wide as nat, width as nat);
                }
            }
            (wide % width) as usize
        },
        None => 0,
    }
}

} // verus!
