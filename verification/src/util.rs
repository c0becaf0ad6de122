//! The wall clock in microseconds.
use vstd::prelude::*;

verus! {

/// The number of nanoseconds in a second.
pub const NSEC_PER_SEC: i32 = 1_000_000_000;

/// The microseconds that `sec` seconds and `nsec` nanoseconds make, with the
/// nanoseconds cut down to whole microseconds towards zero.
pub open spec fn microseconds_exact(sec: i64, nsec: i32) -> int {
    sec * 1_000_000 + if nsec >= 0 {
        nsec / 1_000
    } else {
        -((-nsec) / 1_000)
    }
}

/// `microseconds_exact`, kept within the range of `i64`: a time too far from
/// the epoch to be counted in an `i64` is given as the nearest end of the
/// range.
pub open spec fn microseconds_of(sec: i64, nsec: i32) -> int {
    let exact = microseconds_exact(sec, nsec);
    if exact > i64::MAX {
        i64::MAX as int
    } else if exact < i64::MIN {
        i64::MIN as int
    } else {
        exact
    }
}

/// The time of `sec` seconds and `nsec` nanoseconds, in microseconds.
pub fn timespec_microseconds(sec: i64, nsec: i32) -> (us: i64)
    ensures
        us == microseconds_of(sec, nsec),
{
    let nanos: i64 = nsec as i64;
    let sub: i64 = if nanos >= 0 {
        nanos / 1_000
    } else {
        -((-nanos) / 1_000)
    };
    let exact: i128 = (sec as i128) * 1_000_000 + (sub as i128);
    if exact > i64::MAX as i128 {
        i64::MAX
    } else if exact < i64::MIN as i128 {
        i64::MIN
    } else {
        exact as i64
    }
}

/// Reads the wall clock with `time::get_time` and returns its seconds and
/// nanoseconds since the epoch. `get_time` builds its result with
/// `Timespec::new`, which lets no nanosecond count through that is negative
/// or a full second: that is all that is claimed here.
#[verifier::external_body]
fn wall_clock() -> (now: (i64, i32))
    ensures
        0 <= now.1 < NSEC_PER_SEC,
{
    let timespec = time::get_time();
    (timespec.sec, timespec.nsec)
}

/// The wall clock's time in microseconds since the epoch. Two calls may
/// differ, and the clock may be set back between them: all that is known of
/// the result is that it is the microseconds of some time.
pub fn get_cur_microseconds_time() -> (us: i64)
    ensures
        exists|sec: i64, nsec: i32|
            0 <= nsec < NSEC_PER_SEC && us == #[trigger] microseconds_of(sec, nsec),
{
    let (sec, nsec) = wall_clock();
    timespec_microseconds(sec, nsec)
}

} // verus!
