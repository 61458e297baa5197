//! Points in time, as nanoseconds since the start of 1970 in UTC; those before
//! are negative.
use vstd::prelude::*;

verus! {

/// Nanoseconds in a second.
pub const SECOND: i128 = 1_000_000_000;

/// The earliest point in time, which a signed 64-bit count of seconds bounds.
pub const EARLIEST: i128 = -9_223_372_036_854_775_808_000_000_000;

/// Reads the system clock with `std::time::SystemTime::now`: whether the start
/// of 1970 has passed, and how many seconds and further nanoseconds lie
/// between. Nothing is claimed of what the clock shows but that the further
/// nanoseconds are less than a second.
#[verifier::external_body]
fn system_clock() -> (t: (bool, u64, u32))
    ensures
        t.2 < 1_000_000_000,
{
    match std::time::SystemTime::now().duration_since(std::time::UNIX_EPOCH) {
        Ok(d) => (true, d.as_secs(), d.subsec_nanos()),
        Err(e) => (false, e.duration().as_secs(), e.duration().subsec_nanos()),
    }
}

/// The point in time that lies `secs` seconds and `nanos` nanoseconds after the
/// start of 1970, or before it.
pub fn instant_of(after: bool, secs: u64, nanos: u32) -> (t: i128)
    ensures
        t == (if after {
            secs * SECOND + nanos
        } else {
            -(secs * SECOND + nanos)
        }),
{
    assert(secs * SECOND + nanos <= 0xffff_ffff_ffff_ffff * 1_000_000_000 + 0xffff_ffff);
    let distance: i128 = (secs as i128) * SECOND + (nanos as i128);
    if after {
        distance
    } else {
        -distance
    }
}

/// The current time. It lies within a 64-bit count of seconds around the start
/// of 1970; more cannot be said of a clock.
pub fn now() -> (t: i128)
    ensures
        -(0x1_0000_0000_0000_0000 * SECOND) < t < 0x1_0000_0000_0000_0000 * SECOND,
{
    let (after, secs, nanos) = system_clock();
    instant_of(after, secs, nanos)
}

/// The point in time `window_secs` seconds before `now`, or the start of 1970
/// if there is none.
pub open spec fn cutoff_at(now: int, window_secs: nat) -> int {
    let t = now - window_secs * SECOND;
    if t < EARLIEST {
        0
    } else {
        t
    }
}

/// The point in time `window_secs` seconds before `now`, or the start of 1970
/// if there is none.
pub fn cutoff_before(now: i128, window_secs: u64) -> (t: i128)
    ensures
        t == cutoff_at(now as int, window_secs as nat),
{
    let window: i128 = (window_secs as i128) * SECOND;
    match now.checked_sub(window) {
        Some(t) => if t < EARLIEST {
            0
        } else {
            t
        },
        None => 0,
    }
}

/// The point in time `window_secs` seconds ago.
pub fn cutoff(window_secs: u64) -> (t: i128)
    ensures
        exists|now: int| t == #[trigger] cutoff_at(now, window_secs as nat),
{
    let time = now();
    cutoff_before(time, window_secs)
}

} // verus!
