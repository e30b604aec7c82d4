//! Instants written in RFC 3339, and the whole seconds and minutes between
//! two of them, counted as chrono counts a signed duration.
use vstd::prelude::*;

verus! {

/// The instant that RFC 3339 text denotes, as chrono reads it: seconds since
/// the Unix epoch and the nanoseconds past that second; `None` when chrono
/// refuses the text.
pub uninterp spec fn spec_rfc3339_instant(text: Seq<char>) -> Option<(i64, u32)>;

/// chrono's `DateTime::parse_from_rfc3339`, read back as `timestamp()` and
/// `timestamp_subsec_nanos()`. The result is named: it depends on the text
/// alone (the offset written in the text is applied; no time zone of the
/// machine is consulted).
#[verifier::external_body]
pub(crate) fn parse_rfc3339(text: &str) -> (r: Option<(i64, u32)>)
    ensures
        r == spec_rfc3339_instant(text@),
{
    chrono::DateTime::parse_from_rfc3339(text).ok().map(|t| (t.timestamp(), t.timestamp_subsec_nanos()))
}

/// Nanoseconds from `then` to `now`.
pub open spec fn nanos_between(then: (i64, u32), now: (i64, u32)) -> int {
    (now.0 - then.0) * 1_000_000_000 + (now.1 - then.1)
}

/// `a / b` rounded toward zero, for a positive `b`.
pub open spec fn div_toward_zero(a: int, b: int) -> int {
    if a >= 0 {
        a / b
    } else {
        -((-a) / b)
    }
}

/// Whole seconds from `then` to `now`, rounded toward zero.
pub open spec fn seconds_between(then: (i64, u32), now: (i64, u32)) -> int {
    div_toward_zero(nanos_between(then, now), 1_000_000_000)
}

/// Whole minutes from `then` to `now`, rounded toward zero.
pub open spec fn minutes_between(then: (i64, u32), now: (i64, u32)) -> int {
    div_toward_zero(seconds_between(then, now), 60)
}

/// Whole seconds from `then` to `now`, rounded toward zero.
pub fn whole_seconds_between(then: (i64, u32), now: (i64, u32)) -> (r: i128)
    ensures
        r == seconds_between(then, now),
        -0x2_0000_0000_0000_0000 < r < 0x2_0000_0000_0000_0000,
{
    let d: i128 = now.0 as i128 - then.0 as i128;
    assert(-0x4000_0000_0000_0000_0000_0000 < d * 1_000_000_000 < 0x4000_0000_0000_0000_0000_0000) by (nonlinear_arith)
        requires
            -0x1_0000_0000_0000_0000 <= d <= 0x1_0000_0000_0000_0000,
    ;
    let t: i128 = d * 1_000_000_000 + (now.1 as i128 - then.1 as i128);
    let r: i128 = if t >= 0 {
        t / 1_000_000_000
    } else {
        -((-t) / 1_000_000_000)
    };
    assert(-0x2_0000_0000_0000_0000 < r < 0x2_0000_0000_0000_0000) by (nonlinear_arith)
        requires
            -0x1_0000_0000_0000_0000 <= d <= 0x1_0000_0000_0000_0000,
            t == d * 1_000_000_000 + (now.1 as i128 - then.1 as i128),
            -0x1_0000_0000 <= now.1 as i128 - then.1 as i128 <= 0x1_0000_0000,
            t >= 0 ==> r == t / 1_000_000_000,
            t < 0 ==> r == -((-t) / 1_000_000_000),
    ;
    r
}

/// Whole minutes since `last`, an RFC 3339 instant, at `now`; `None` when
/// there is no such instant, or `last` is no RFC 3339 text.
pub fn minutes_since(last: Option<&str>, now: (i64, u32)) -> (r: Option<i64>)
    ensures
        r == match last {
            Some(s) => match spec_rfc3339_instant(s@) {
                Some(t) => Some(minutes_between(t, now) as i64),
                None => None::<i64>,
            },
            None => None::<i64>,
        },
        r matches Some(m) ==> m as int == minutes_between(spec_rfc3339_instant(last->0@)->0, now),
{
    match last {
        Some(s) => match parse_rfc3339(s) {
            Some(t) => {
                let secs = whole_seconds_between(t, now);
                let m: i128 = if secs >= 0 {
                    secs / 60
                } else {
                    -((-secs) / 60)
                };
                assert(-0x2_0000_0000_0000_0000int / 60 <= m <= 0x2_0000_0000_0000_0000int / 60);
                Some(m as i64)
            },
            None => None,
        },
        None => None,
    }
}

} // verus!
