//! Wall-clock readings and durations.
use std::time::Duration;
use std::time::SystemTime;
use std::time::SystemTimeError;
use vstd::prelude::*;

verus! {

/// `std::time::SystemTime`, an opaque reading of the wall clock.
#[verifier::external_type_specification]
#[verifier::external_body]
pub struct ExSystemTime(SystemTime);

/// `std::time::SystemTimeError`, what `duration_since` gives for a later argument.
#[verifier::external_type_specification]
#[verifier::external_body]
pub struct ExSystemTimeError(SystemTimeError);

/// The length of a duration in nanoseconds, as `Duration::as_nanos` returns it.
pub uninterp spec fn duration_nanos(d: Duration) -> nat;

/// How many nanoseconds after the Unix epoch a clock reading lies, as
/// `SystemTime::duration_since` tells it; `None` for a reading before the epoch.
pub uninterp spec fn nanos_since_epoch(t: SystemTime) -> Option<nat>;

/// `Duration::as_nanos`: the total number of nanoseconds in the duration.
pub assume_specification[ Duration::as_nanos ](d: &Duration) -> (r: u128)
    ensures
        r == duration_nanos(*d),
;

/// `Duration::as_millis`: the total number of whole milliseconds in the duration.
pub assume_specification[ Duration::as_millis ](d: &Duration) -> (r: u128)
    ensures
        r == duration_nanos(*d) / 1_000_000,
;

/// `Duration::as_secs`: the number of whole seconds in the duration.
pub assume_specification[ Duration::as_secs ](d: &Duration) -> (r: u64)
    ensures
        r == duration_nanos(*d) / 1_000_000_000,
;

/// `Duration::from_millis`: the duration of that many milliseconds.
pub assume_specification[ Duration::from_millis ](millis: u64) -> (r: Duration)
    ensures
        duration_nanos(r) == millis * 1_000_000,
;

/// `Duration::new`: the duration of that many seconds and additional nanoseconds, which stay
/// below one second here, so that nothing carries over.
pub assume_specification[ Duration::new ](secs: u64, nanos: u32) -> (r: Duration)
    requires
        nanos < 1_000_000_000,
    ensures
        duration_nanos(r) == secs * 1_000_000_000 + nanos,
;

/// `SystemTime::now`: a reading of the wall clock, of which nothing is claimed.
pub assume_specification[ SystemTime::now ]() -> SystemTime
;

/// `SystemTime::duration_since`, called with `UNIX_EPOCH`: the time from the epoch to `t`, or an
/// error where the epoch is later than `t`.
#[verifier::external_body]
fn since_epoch(t: &SystemTime) -> (r: Result<Duration, SystemTimeError>)
    ensures
        match r {
            Ok(d) => nanos_since_epoch(*t) == Some(duration_nanos(d)),
            Err(_) => nanos_since_epoch(*t) is None,
        },
{
    t.duration_since(std::time::UNIX_EPOCH)
}

/// The milliseconds from the epoch to a reading `nanos` after it (0 before it), reduced to
/// 64 bits.
pub open spec fn epoch_millis(nanos: Option<nat>) -> u64 {
    match nanos {
        Some(n) => (n / 1_000_000) as u64,
        None => 0,
    }
}

/// The nanoseconds from the epoch to a reading `nanos` after it (0 before it).
pub open spec fn epoch_nanos(nanos: Option<nat>) -> nat {
    match nanos {
        Some(n) => n,
        None => 0,
    }
}

/// The milliseconds from the Unix epoch to `t`, or 0 where `t` lies before the epoch.
pub fn millis_at(t: &SystemTime) -> (r: u64)
    ensures
        r == epoch_millis(nanos_since_epoch(*t)),
{
    match since_epoch(t) {
        Ok(d) => {
            let millis: u128 = d.as_millis();
            #[verifier::truncate]
            (millis as u64)
        },
        Err(_) => 0,
    }
}

/// The nanoseconds from the Unix epoch to `t`, or 0 where `t` lies before the epoch.
pub fn nanos_at(t: &SystemTime) -> (r: u128)
    ensures
        r == epoch_nanos(nanos_since_epoch(*t)),
{
    match since_epoch(t) {
        Ok(d) => d.as_nanos(),
        Err(_) => 0,
    }
}

/// Whether `t` is what the wall clock may answer.
pub open spec fn clock_reads(t: SystemTime) -> bool {
    call_ensures(SystemTime::now, (), t)
}

/// Whether `millis` is a reading of the wall clock in milliseconds since the epoch.
pub open spec fn clock_millis(millis: u64) -> bool {
    exists|t: SystemTime| #[trigger]
        clock_reads(t) && millis == epoch_millis(nanos_since_epoch(t))
}

/// Whether `nanos` is a reading of the wall clock in nanoseconds since the epoch.
pub open spec fn clock_nanos(nanos: u128) -> bool {
    exists|t: SystemTime| #[trigger] clock_reads(t) && nanos == epoch_nanos(nanos_since_epoch(t))
}

/// The current time in milliseconds since the Unix epoch.
pub fn now_millis() -> (r: u64)
    ensures
        clock_millis(r),
{
    let t = SystemTime::now();
    assert(clock_reads(t));
    millis_at(&t)
}

/// The current time in nanoseconds since the Unix epoch.
pub fn now_nanos() -> (r: u128)
    ensures
        clock_nanos(r),
{
    let t = SystemTime::now();
    assert(clock_reads(t));
    nanos_at(&t)
}

/// Splits `timeout` evenly among `parts`, dropping what is left below a nanosecond.
pub fn divide_timeout(timeout: Duration, parts: u32) -> (r: Duration)
    requires
        parts != 0,
    ensures
        duration_nanos(r) == duration_nanos(timeout) / (parts as nat),
{
    let nanos: u128 = timeout.as_nanos();
    let whole_secs: u64 = timeout.as_secs();
    let share: u128 = nanos / (parts as u128);
    let secs: u128 = share / 1_000_000_000;
    let rest: u128 = share % 1_000_000_000;
    assert(share <= nanos) by (nonlinear_arith)
        requires
            share == nanos / (parts as u128),
            parts != 0,
    ;
    assert(secs <= whole_secs);
    Duration::new(secs as u64, rest as u32)
}

/// A reading of the wall clock is told in whole milliseconds since the epoch, of which the lowest
/// 64 bits are kept, and in nanoseconds since the epoch; one before the epoch counts as the epoch.
pub proof fn law_readings_are_told_truly(t: SystemTime, millis: u64, nanos: u128)
    requires
        call_ensures(millis_at, (&t,), millis),
        call_ensures(nanos_at, (&t,), nanos),
    ensures
        nanos_since_epoch(t) is None ==> millis == 0 && nanos == 0,
        nanos_since_epoch(t) matches Some(since) ==> nanos == since,
        nanos_since_epoch(t) matches Some(since) ==> millis == (since / 1_000_000)
            % 0x1_0000_0000_0000_0000,
{
    let whole: u128 = (nanos / 1_000_000) as u128;
    assert(whole as u64 == whole % 0x1_0000_0000_0000_0000) by (bit_vector);
}

/// The current time, in milliseconds or in nanoseconds, is that of some reading of the wall
/// clock.
pub proof fn law_current_time_is_read_off_the_clock(millis: u64, nanos: u128)
    requires
        call_ensures(now_millis, (), millis),
        call_ensures(now_nanos, (), nanos),
    ensures
        clock_millis(millis),
        clock_nanos(nanos),
{
}

/// What counts as a reading of the wall clock is what the wall clock answered, in whole
/// milliseconds since the epoch, as long as these fit into 64 bits, or in nanoseconds; an answer
/// before the epoch counts as the epoch.
pub proof fn law_clock_readings_are_the_clocks_answers(millis: u64, nanos: u128)
    requires
        clock_millis(millis),
        clock_nanos(nanos),
    ensures
        exists|t: SystemTime| #[trigger]
            call_ensures(SystemTime::now, (), t) && (nanos_since_epoch(t) matches Some(since)
                ==> since < 1_000_000 * (u64::MAX + 1) ==> 1_000_000 * millis <= since < 1_000_000
                * (millis + 1)) && (nanos_since_epoch(t) is None ==> millis == 0),
        exists|t: SystemTime| #[trigger]
            call_ensures(SystemTime::now, (), t) && (nanos_since_epoch(t) matches Some(since)
                ==> nanos == since) && (nanos_since_epoch(t) is None ==> nanos == 0),
{
    let t = choose|t: SystemTime| #[trigger]
        clock_reads(t) && millis == epoch_millis(nanos_since_epoch(t));
    assert(call_ensures(SystemTime::now, (), t));
    let u = choose|t: SystemTime| #[trigger]
        clock_reads(t) && nanos == epoch_nanos(nanos_since_epoch(t));
    assert(call_ensures(SystemTime::now, (), u));
}

/// The share of a timeout is the largest time in whole nanoseconds that, taken as many times as
/// there are parts, does not exceed the timeout.
pub proof fn law_share_is_the_largest_that_fits(timeout: Duration, parts: u32, r: Duration)
    requires
        parts != 0,
        call_ensures(divide_timeout, (timeout, parts), r),
    ensures
        parts * duration_nanos(r) <= duration_nanos(timeout) < parts * (duration_nanos(r) + 1),
{
    let whole = duration_nanos(timeout);
    let count = parts as nat;
    assert(count * (whole / count) <= whole < count * (whole / count + 1)) by (nonlinear_arith)
        requires
            count > 0,
    ;
}

} // verus!
