//! The system clock.

use crate::error::IaGetError;
use vstd::prelude::*;

verus! {

/// The nanoseconds of a second.
pub const NANOS_PER_SEC: u128 = 1_000_000_000;

/// A clock that stands before the Unix epoch.
#[derive(Debug)]
pub struct BeforeEpoch {
    /// By how many nanoseconds.
    pub by_nanos: u128,
    /// What the system says of it.
    pub message: String,
}

/// Whether a span in nanoseconds is one that the system counts: its whole
/// seconds fit 64 bits.
pub open spec fn is_span(nanos: u128) -> bool {
    nanos / NANOS_PER_SEC <= u64::MAX
}

/// Whether a time in nanoseconds since the Unix epoch is one that the clock
/// can show: a span from the epoch, in either direction.
pub open spec fn is_reading(nanos: int) -> bool {
    exists|span: u128| #[trigger] is_span(span) && (nanos == span || nanos == -span)
}

/// Whether what the clock said is something that it can say.
pub open spec fn is_time(time: Result<u128, BeforeEpoch>) -> bool {
    match time {
        Ok(since) => is_span(since),
        Err(before) => is_span(before.by_nanos),
    }
}

/// The nanoseconds since the Unix epoch of what the clock said: below zero
/// where it stands before the epoch.
pub open spec fn nanos_of(time: Result<u128, BeforeEpoch>) -> int {
    match time {
        Ok(since) => since as int,
        Err(before) => -before.by_nanos,
    }
}

/// The current time in nanoseconds since the Unix epoch
/// (`std::time::SystemTime::now` and `duration_since`), or how far before it
/// the clock stands, and what the system says of that. All that is claimed
/// of the time is that its whole seconds, which `std::time::Duration` counts
/// in 64 bits, fit them.
#[verifier::external_body]
fn unix_time() -> (r: Result<u128, BeforeEpoch>)
    ensures
        is_time(r),
{
    match std::time::SystemTime::now().duration_since(std::time::UNIX_EPOCH) {
        Ok(since) => Ok(since.as_nanos()),
        Err(e) => Err(BeforeEpoch { by_nanos: e.duration().as_nanos(), message: e.to_string() }),
    }
}

/// The nanoseconds since the Unix epoch of what the clock said.
pub fn nanos_at(time: &Result<u128, BeforeEpoch>) -> (r: i128)
    requires
        is_time(*time),
    ensures
        r == nanos_of(*time),
        is_reading(r as int),
{
    match time {
        Ok(since) => *since as i128,
        Err(before) => -(before.by_nanos as i128),
    }
}

/// The current time in nanoseconds since the Unix epoch, below zero where
/// the clock stands before it.
pub fn now_nanos() -> (r: i128)
    ensures
        is_reading(r as int),
{
    nanos_at(&unix_time())
}

/// A time in nanoseconds in whole seconds: what does not fit 64 bits is the
/// largest that does.
pub fn whole_secs(nanos: u128) -> (r: u64)
    ensures
        nanos / NANOS_PER_SEC <= u64::MAX ==> r == nanos / NANOS_PER_SEC,
        nanos / NANOS_PER_SEC > u64::MAX ==> r == u64::MAX,
{
    let secs: u128 = nanos / NANOS_PER_SEC;
    if secs > u64::MAX as u128 {
        u64::MAX
    } else {
        secs as u64
    }
}

/// The Unix seconds of what the clock said: the whole seconds of a time in
/// nanoseconds, or the error for a clock before the epoch, with what the
/// system says of it.
pub fn secs_at(time: Result<u128, BeforeEpoch>) -> (r: Result<u64, IaGetError>)
    ensures
        match time {
            Ok(nanos) => r matches Ok(secs) && (is_span(nanos) ==> secs == nanos / NANOS_PER_SEC)
                && (!is_span(nanos) ==> secs == u64::MAX),
            Err(before) => r matches Err(e) && (e matches IaGetError::SystemTime(text) && text@
                == before.message@),
        },
{
    match time {
        Ok(nanos) => Ok(whole_secs(nanos)),
        Err(before) => Err(IaGetError::SystemTime(before.message)),
    }
}

/// The current time in Unix seconds. A clock before the epoch is an error.
pub fn now_secs() -> (r: Result<u64, IaGetError>)
    ensures
        r matches Err(e) ==> e is SystemTime,
{
    secs_at(unix_time())
}

/// The clock counts from the Unix epoch, forth and back; a billion
/// nanoseconds are a second, and a span is one whose seconds fit 64 bits.
pub proof fn times_count_from_the_epoch(nanos: u128, secs: nat, before: BeforeEpoch)
    ensures
        nanos_of(Ok(nanos)) == nanos,
        nanos_of(Err(before)) == -(before.by_nanos as int),
        nanos_of(Err(before)) <= 0,
        is_span(nanos) <==> nanos < 0x1_0000_0000_0000_0000 * 1_000_000_000,
        secs * 1_000_000_000 <= nanos < (secs + 1) * 1_000_000_000 ==> nanos / NANOS_PER_SEC
            == secs,
{
}

} // verus!
