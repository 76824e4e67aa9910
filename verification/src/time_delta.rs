//! Spans of time in whole milliseconds, and their subtitle timecode.

use vstd::prelude::*;
use crate::text::{
    decimal, digit_char, lemma_three_digits, lemma_two_digits, pad_left, push_padded,
    signed_decimal, trunc_div, trunc_rem,
};

verus! {

/// A span of time in milliseconds.  It may be negative.
#[derive(Clone, Copy, Debug, PartialEq, Eq, Structural)]
pub struct TimeDelta {
    /// The length of the span.
    pub millis: i64,
}

impl View for TimeDelta {
    type V = int;

    /// The span as a number of milliseconds.
    open spec fn view(&self) -> int {
        self.millis as int
    }
}

/// The greatest number of whole seconds that a `TimeDelta` can hold.
pub const MAX_SECONDS: i64 = 9_223_372_036_854_775;

impl Default for TimeDelta {
    /// The empty span.
    fn default() -> (zero: TimeDelta)
        ensures
            zero@ == 0,
    {
        TimeDelta { millis: 0 }
    }
}

impl TimeDelta {
    /// The span of `millis` milliseconds.
    pub fn milliseconds(millis: i64) -> (span: TimeDelta)
        ensures
            span@ == millis,
    {
        TimeDelta { millis }
    }

    /// The span of `seconds` seconds, if it can be held.
    pub fn try_seconds(seconds: i64) -> (span: Option<TimeDelta>)
        ensures
            span is Some <==> -MAX_SECONDS <= seconds <= MAX_SECONDS,
            span matches Some(d) ==> d@ == seconds * 1000,
    {
        if -MAX_SECONDS <= seconds && seconds <= MAX_SECONDS {
            Some(TimeDelta { millis: seconds * 1000 })
        } else {
            None
        }
    }

    /// The sum of two spans, if it can be held.
    pub fn checked_add(&self, rhs: &TimeDelta) -> (sum: Option<TimeDelta>)
        ensures
            sum is Some <==> i64::MIN <= self@ + rhs@ <= i64::MAX,
            sum matches Some(d) ==> d@ == self@ + rhs@,
    {
        match self.millis.checked_add(rhs.millis) {
            Some(millis) => Some(TimeDelta { millis }),
            None => None,
        }
    }

    /// The span in milliseconds.
    pub fn num_milliseconds(&self) -> (n: i64)
        ensures
            n == self@,
    {
        self.millis
    }

    /// The whole seconds of the span, rounded toward zero.
    pub fn num_seconds(&self) -> (n: i64)
        ensures
            n == trunc_div(self@, 1000),
    {
        self.millis / 1000
    }

    /// The whole minutes of the span, rounded toward zero.
    pub fn num_minutes(&self) -> (n: i64)
        ensures
            n == trunc_div(self@, 60_000),
    {
        self.millis / 60_000
    }

    /// The whole hours of the span, rounded toward zero.
    pub fn num_hours(&self) -> (n: i64)
        ensures
            n == trunc_div(self@, 3_600_000),
    {
        self.millis / 3_600_000
    }
}

/// The timecode of a span of `millis` milliseconds: hours, minutes and
/// seconds in two places each, a comma, and the milliseconds in three.  The
/// hours run on past 24; minutes and seconds stay below 60, milliseconds
/// below 1000.
pub open spec fn srt_time(millis: int) -> Seq<char> {
    pad_left(signed_decimal(trunc_div(millis, 3_600_000)), 2) + seq![':'] + pad_left(
        signed_decimal(trunc_rem(trunc_div(millis, 60_000), 60)),
        2,
    ) + seq![':'] + pad_left(signed_decimal(trunc_rem(trunc_div(millis, 1000), 60)), 2) + seq![
        ',',
    ] + pad_left(signed_decimal(trunc_rem(millis, 1000)), 3)
}

/// The timecode of `delta`, as subtitle files write it: `HH:MM:SS,mmm`.
pub fn delta_srt_format(delta: &TimeDelta) -> (code: String)
    ensures
        code@ == srt_time(delta@),
{
    let hours = delta.num_hours();
    let minutes = delta.num_minutes() % 60;
    let seconds = delta.num_seconds() % 60;
    let millis = delta.num_milliseconds() % 1000;
    proof {
        reveal_strlit(":");
        reveal_strlit(",");
    }
    let mut code = String::new();
    push_padded(&mut code, hours, 2);
    code.append(":");
    push_padded(&mut code, minutes, 2);
    code.append(":");
    push_padded(&mut code, seconds, 2);
    code.append(",");
    push_padded(&mut code, millis, 3);
    assert(code@ =~= srt_time(delta@));
    code
}

/// The timecode shows the hours, minutes, seconds and milliseconds that a
/// span is made of: for a span of `h` hours, `m` minutes below 60, `s`
/// seconds below 60 and `ms` milliseconds below 1000, the timecode is `h` in
/// at least two places, however large, then the two digits of `m`, the two
/// digits of `s` and the three digits of `ms`.
pub proof fn lemma_srt_time_components(h: nat, m: nat, s: nat, ms: nat)
    requires
        m < 60,
        s < 60,
        ms < 1000,
    ensures
        srt_time(((h as int * 60 + m) * 60 + s) * 1000 + ms) == pad_left(decimal(h), 2) + seq![
            ':',
            digit_char(m as int / 10),
            digit_char(m as int % 10),
            ':',
            digit_char(s as int / 10),
            digit_char(s as int % 10),
            ',',
            digit_char(ms as int / 100),
            digit_char(ms as int / 10 % 10),
            digit_char(ms as int % 10),
        ],
{
    let total: int = ((h as int * 60 + m) * 60 + s) * 1000 + ms;
    assert(total == h * 3_600_000 + m * 60_000 + s * 1000 + ms) by (nonlinear_arith)
        requires
            total == ((h as int * 60 + m) * 60 + s) * 1000 + ms,
    ;
    assert(trunc_div(total, 3_600_000) == h);
    assert(trunc_div(total, 60_000) == h * 60 + m);
    assert(trunc_div(total, 1000) == (h * 60 + m) * 60 + s);
    assert(trunc_rem(trunc_div(total, 60_000), 60) == m);
    assert(trunc_rem(trunc_div(total, 1000), 60) == s);
    assert(trunc_rem(total, 1000) == ms);
    lemma_two_digits(m);
    lemma_two_digits(s);
    lemma_three_digits(ms);
    assert(srt_time(total) =~= pad_left(decimal(h), 2) + seq![
        ':',
        digit_char(m as int / 10),
        digit_char(m as int % 10),
        ':',
        digit_char(s as int / 10),
        digit_char(s as int % 10),
        ',',
        digit_char(ms as int / 100),
        digit_char(ms as int / 10 % 10),
        digit_char(ms as int % 10),
    ]);
}

} // verus!
