use vstd::prelude::*;

verus! {

/// Whether `chrono::DateTime::<Utc>::from_timestamp(secs, 0)` returns a date:
/// whether the day `secs` falls in lies between -262143-01-01 and
/// +262142-12-31, the range of chrono's calendar.
pub open spec fn representable_secs(secs: i64) -> bool {
    -8_334_601_228_800 <= secs <= 8_210_266_876_799
}

/// What a reading of the system clock can be: whole seconds since the Unix
/// epoch, not before it and within chrono's calendar, and the nanoseconds
/// past that second.
pub open spec fn clock_reading(secs: i64, nanos: u32) -> bool {
    &&& secs >= 0
    &&& nanos < 1_000_000_000
    &&& representable_secs(secs)
}

/// Reads the system clock: `chrono::Utc::now()`, as its whole seconds since
/// the Unix epoch (`timestamp`) and the nanoseconds past that second
/// (`timestamp_subsec_nanos`). Beyond its being a date chrono represents,
/// not before the epoch (chrono panics on a clock set before it) and with
/// fewer than 10^9 nanoseconds, the value is the time at the call and
/// nothing more is promised.
#[verifier::external_body]
pub(crate) fn unix_now() -> (t: (i64, u32))
    ensures
        clock_reading(t.0, t.1),
{
    let now = chrono::Utc::now();
    (now.timestamp(), now.timestamp_subsec_nanos())
}

/// An instant as nanoseconds since the Unix epoch.
pub open spec fn instant(secs: i64, nanos: u32) -> int {
    secs * 1_000_000_000 + nanos
}

/// The instant `secs` seconds and `nanos` nanoseconds after the Unix epoch,
/// in nanoseconds.
pub fn instant_of(secs: i64, nanos: u32) -> (t: i128)
    ensures
        t == instant(secs, nanos),
{
    secs as i128 * 1_000_000_000 + nanos as i128
}

/// Calls `chrono::DateTime::from_timestamp(secs, 0)` and reports whether it
/// gave a date: whether `secs` lies in the range `representable_secs` states.
#[verifier::external_body]
pub(crate) fn secs_representable(secs: i64) -> (ok: bool)
    ensures
        ok == representable_secs(secs),
{
    chrono::DateTime::from_timestamp(secs, 0).is_some()
}

} // verus!
