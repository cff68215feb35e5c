//! Moments and spans of time. Both are counted in nanoseconds, moments from
//! some moment in the past.

use vstd::prelude::*;

verus! {

/// A number of milliseconds, as a span of time.
pub open spec fn span_of_millis(ms: u64) -> u128 {
    (ms * 1_000_000) as u128
}

/// A number of milliseconds, as a span of time.
#[verifier::when_used_as_spec(span_of_millis)]
pub fn millis(ms: u64) -> (span: u128)
    ensures
        span == span_of_millis(ms),
        span == ms * 1_000_000,
{
    ms as u128 * 1_000_000
}

/// The moment a while after another, or the last moment there is.
pub open spec fn after(now: u128, wait: u128) -> u128 {
    if now + wait <= u128::MAX {
        (now + wait) as u128
    } else {
        u128::MAX
    }
}

/// The moment a while after another.
pub fn later(now: u128, wait: u128) -> (at: u128)
    ensures
        at == after(now, wait),
{
    now.saturating_add(wait)
}

/// The time from one moment to a later one, nothing where it is not later.
pub open spec fn since(earlier: u128, now: u128) -> u128 {
    if now > earlier {
        (now - earlier) as u128
    } else {
        0
    }
}

/// The time from one moment to a later one.
pub fn elapsed(earlier: u128, now: u128) -> (span: u128)
    ensures
        span == since(earlier, now),
{
    now.saturating_sub(earlier)
}

/// The shorter one of two spans of time.
pub open spec fn shorter_of(a: u128, b: u128) -> u128 {
    if a <= b {
        a
    } else {
        b
    }
}

/// The shorter one of two spans of time.
pub fn shorter(a: u128, b: u128) -> (span: u128)
    ensures
        span == shorter_of(a, b),
{
    if a <= b {
        a
    } else {
        b
    }
}

/// A moment a while after another is that while away from it, as long as there
/// are moments; a while has a million nanoseconds for each of its milliseconds.
pub proof fn waiting_takes_its_time(now: u128, wait: u128, ms: u64, a: u128, b: u128)
    ensures
        now + wait <= u128::MAX ==> since(now, after(now, wait)) == wait,
        after(now, wait) >= now,
        since(after(now, wait), now) == 0,
        now + wait > u128::MAX ==> after(now, wait) == u128::MAX,
        span_of_millis(ms) == ms * 1_000_000,
        shorter_of(a, b) <= a,
        shorter_of(a, b) <= b,
        shorter_of(a, b) == a || shorter_of(a, b) == b,
{
}

} // verus!
