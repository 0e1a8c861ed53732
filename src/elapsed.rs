use vstd::prelude::*;

use crate::text::{
    decimal, digits_value, is_digit, lemma_decimal_reads_back, lemma_three_digits_read_back,
    push_decimal, push_three_digits, three_digits,
};

verus! {

/// Nanoseconds in one millisecond.
pub const NANOS_PER_MILLI: u32 = 1_000_000;

/// Nanoseconds in one second.
pub const NANOS_PER_SEC: u32 = 1_000_000_000;

/// A span of time: whole seconds and the nanoseconds beyond them.
#[derive(Clone, Copy, Debug, PartialEq, Eq)]
pub struct Elapsed {
    pub secs: u64,
    pub nanos: u32,
}

impl Elapsed {
    /// The sub-second part is below one second.
    pub open spec fn wf(&self) -> bool {
        self.nanos < NANOS_PER_SEC
    }

    /// The span in milliseconds, truncated.
    pub open spec fn total_millis(&self) -> int {
        self.secs * 1000 + (self.nanos / NANOS_PER_MILLI) as int
    }

    pub fn new(secs: u64, nanos: u32) -> (r: Elapsed)
        requires
            nanos < NANOS_PER_SEC,
        ensures
            r.wf(),
            r.secs == secs,
            r.nanos == nanos,
    {
        Elapsed { secs, nanos }
    }

    /// The span of `millis` milliseconds.
    pub fn from_millis(millis: u64) -> (r: Elapsed)
        ensures
            r.wf(),
            r.secs == millis / 1000,
            r.nanos == (millis % 1000) * NANOS_PER_MILLI as int,
            r.total_millis() == millis,
    {
        let sub = (millis % 1000) as u32;
        Elapsed { secs: millis / 1000, nanos: sub * NANOS_PER_MILLI }
    }
}

/// The text for a span: whole seconds, a dot, the milliseconds beyond them
/// as three digits (truncated, not rounded), and the unit.
pub open spec fn duration_text(d: Elapsed) -> Seq<char> {
    decimal(d.secs as nat) + seq!['.'] + three_digits((d.nanos / NANOS_PER_MILLI) as nat)
        + seq![' ', 's']
}

/// Renders `duration` as seconds with millisecond precision, such as `1.500 s`.
pub fn fmt_duration_as_secs(duration: &Elapsed) -> (r: String)
    requires
        duration.wf(),
    ensures
        r@ == duration_text(*duration),
{
    let mut out = String::new();
    push_decimal(&mut out, duration.secs);
    proof {
        reveal_strlit(".");
        reveal_strlit(" s");
    }
    out.append(".");
    push_three_digits(&mut out, duration.nanos / NANOS_PER_MILLI);
    out.append(" s");
    assert(out@ =~= duration_text(*duration));
    out
}

/// The text of a span reads back as the span: the digits before the dot
/// are its whole seconds, the three digits after it its whole milliseconds
/// beyond them (truncated), and the text ends in the unit.
pub proof fn duration_text_reads_back(d: Elapsed)
    requires
        d.wf(),
    ensures
        ({
            let t = duration_text(d);
            let dot = decimal(d.secs as nat).len() as int;
            &&& 0 < dot
            &&& t.len() == dot + 6
            &&& t[dot] == '.'
            &&& forall|i: int| 0 <= i < dot ==> is_digit(#[trigger] t[i])
            &&& forall|i: int| dot < i < dot + 4 ==> is_digit(#[trigger] t[i])
            &&& digits_value(t.subrange(0, dot)) == d.secs
            &&& digits_value(t.subrange(dot + 1, dot + 4)) == d.total_millis() % 1000
            &&& t.subrange(dot + 4, dot + 6) == seq![' ', 's']
        }),
{
    let t = duration_text(d);
    let head = decimal(d.secs as nat);
    let millis = (d.nanos / NANOS_PER_MILLI) as nat;
    let dot = head.len() as int;
    lemma_decimal_reads_back(d.secs as nat);
    lemma_three_digits_read_back(millis);
    assert(t.subrange(0, dot) =~= head);
    assert(t.subrange(dot + 1, dot + 4) =~= three_digits(millis));
    assert(t.subrange(dot + 4, dot + 6) =~= seq![' ', 's']);
    assert forall|i: int| dot < i < dot + 4 implies is_digit(#[trigger] t[i]) by {
        assert(t[i] == three_digits(millis)[i - dot - 1]);
    }
    assert forall|i: int| 0 <= i < dot implies is_digit(#[trigger] t[i]) by {
        assert(t[i] == head[i]);
    }
    assert(d.total_millis() % 1000 == millis) by (nonlinear_arith)
        requires
            d.total_millis() == d.secs * 1000 + millis,
            millis < 1000,
    ;
}

} // verus!
