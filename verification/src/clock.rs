//! Time: the standard library's clock, and durations as numbers of nanoseconds.
use std::time::{Duration, Instant};
use vstd::prelude::*;

verus! {

/// `std::time::Instant`, a moment of the monotonic clock.
#[verifier::external_type_specification]
#[verifier::external_body]
pub struct ExInstant(Instant);

/// The number of nanoseconds that a duration lasts.
pub uninterp spec fn nanos_of(d: Duration) -> nat;

/// `Instant::now` returns the present moment; nothing is claimed of it.
pub assume_specification[ Instant::now ]() -> (r: Instant);

/// `Instant::elapsed` returns the time that has passed since a moment; nothing is
/// claimed of how much that is.
pub assume_specification[ Instant::elapsed ](i: &Instant) -> (r: Duration);

/// `Duration::as_nanos` returns the number of nanoseconds that a duration lasts.
pub assume_specification[ Duration::as_nanos ](d: &Duration) -> (r: u128)
    ensures
        r == nanos_of(*d),
;

/// `Duration::new` makes the duration of some whole seconds and some nanoseconds
/// less than a second.
pub assume_specification[ Duration::new ](secs: u64, nanos: u32) -> (r: Duration)
    requires
        nanos < 1_000_000_000,
    ensures
        nanos_of(r) == secs * 1_000_000_000 + nanos,
;

/// The longest time that is ever waited, in nanoseconds: as many seconds as a `u64`
/// can count.
pub const LONGEST_NANOS: u128 = 18_446_744_073_709_551_615_000_000_000;

/// `n` nanoseconds, but no more than the longest time that is ever waited.
pub open spec fn capped(n: nat) -> nat {
    if n <= LONGEST_NANOS {
        n
    } else {
        LONGEST_NANOS as nat
    }
}

/// The duration of `n` nanoseconds, but no more than the longest that is ever waited.
pub fn duration_of(n: u128) -> (r: Duration)
    ensures
        nanos_of(r) == capped(n as nat),
{
    let n: u128 = if n <= LONGEST_NANOS { n } else { LONGEST_NANOS };
    let secs: u64 = (n / 1_000_000_000) as u64;
    let nanos: u32 = (n % 1_000_000_000) as u32;
    Duration::new(secs, nanos)
}

/// A number of nanoseconds that a duration can hold is that duration; a larger one is the
/// longest that is ever waited.
pub proof fn law_duration_lasts_as_long_as_it_is_told(n: u128, r: Duration)
    requires
        call_ensures(duration_of, (n,), r),
    ensures
        n <= 18_446_744_073_709_551_615 * 1_000_000_000 ==> nanos_of(r) == n,
        n > 18_446_744_073_709_551_615 * 1_000_000_000 ==> nanos_of(r)
            == 18_446_744_073_709_551_615 * 1_000_000_000,
{
}

} // verus!
