use vstd::prelude::*;

use crate::elapsed::{Elapsed, NANOS_PER_SEC};

verus! {

/// The rate estimate for `bytes` moved over `d`: the bytes per whole second
/// (none where `d` is under a second), plus the sub-second part of `d`
/// counted in whole seconds.
pub open spec fn rate_of(bytes: nat, d: Elapsed) -> nat {
    (if d.secs > 0 {
        bytes / (d.secs as nat)
    } else {
        0
    }) + (d.nanos / NANOS_PER_SEC) as nat
}

/// The bytes per second that `bytes` moved over `d` amount to, as the
/// integer that is then scaled for display.
pub fn bytes_per_second(bytes: u64, d: &Elapsed) -> (r: u64)
    requires
        d.wf(),
    ensures
        r == rate_of(bytes as nat, *d),
{
    let whole = if d.secs > 0 {
        bytes / d.secs
    } else {
        0
    };
    whole + (d.nanos / NANOS_PER_SEC) as u64
}

/// Nothing moved is a rate of nothing, over any span.
pub proof fn zero_bytes_zero_rate(d: Elapsed)
    requires
        d.wf(),
    ensures
        rate_of(0, d) == 0,
{
}

/// Over a span under one second only the sub-second term counts, and it
/// is zero: no division takes place.
pub proof fn sub_second_rate_is_zero(bytes: nat, d: Elapsed)
    requires
        d.wf(),
        d.secs == 0,
    ensures
        rate_of(bytes, d) == (d.nanos / NANOS_PER_SEC) as nat,
        rate_of(bytes, d) == 0,
{
}

} // verus!
