//! Human-readable renderings of elapsed times and durations.
use vstd::prelude::*;

use crate::datetime::now_ms;
use crate::text::{decimal, push_char, push_str, push_zero_padded, zero_padded};

verus! {

/// `delta_ms / 1000` rounded toward zero, as Rust's integer division does.
pub open spec fn whole_seconds(delta_ms: int) -> int {
    if delta_ms >= 0 {
        delta_ms / 1000
    } else {
        -((-delta_ms) / 1000)
    }
}

/// How long ago something happened, given the milliseconds elapsed since:
/// `future` when it lies a second or more ahead, otherwise whole seconds,
/// minutes, hours or days followed by `ago` (`42s ago`, `3m ago`, `5h ago`,
/// `2d ago`).
pub open spec fn elapsed_text(delta_ms: int) -> Seq<char> {
    let secs = whole_seconds(delta_ms);
    if secs < 0 {
        "future"@
    } else if secs < 60 {
        decimal(secs as nat) + "s ago"@
    } else if secs < 3600 {
        decimal((secs / 60) as nat) + "m ago"@
    } else if secs < 86400 {
        decimal((secs / 3600) as nat) + "h ago"@
    } else {
        decimal((secs / 86400) as nat) + "d ago"@
    }
}

/// `elapsed_text` of the time from `ms` to `now` (epoch milliseconds).
pub open spec fn elapsed_between(now: int, ms: int) -> Seq<char> {
    elapsed_text(now - ms)
}

/// What the text says in terms of the elapsed milliseconds themselves:
/// under a minute it counts whole seconds, under an hour whole minutes,
/// under a day whole hours, beyond that whole days; a second or more in the
/// future reads `future`.
pub proof fn law_elapsed_units(delta_ms: int)
    ensures
        delta_ms <= -1000 ==> elapsed_text(delta_ms) == "future"@,
        0 <= delta_ms < 60_000 ==> elapsed_text(delta_ms) == decimal((delta_ms / 1000) as nat)
            + "s ago"@,
        60_000 <= delta_ms < 3_600_000 ==> elapsed_text(delta_ms) == decimal(
            (delta_ms / 60_000) as nat,
        ) + "m ago"@,
        3_600_000 <= delta_ms < 86_400_000 ==> elapsed_text(delta_ms) == decimal(
            (delta_ms / 3_600_000) as nat,
        ) + "h ago"@,
        86_400_000 <= delta_ms ==> elapsed_text(delta_ms) == decimal(
            (delta_ms / 86_400_000) as nat,
        ) + "d ago"@,
{
    if delta_ms >= 0 {
        vstd::arithmetic::div_mod::lemma_div_denominator(delta_ms, 1000, 60);
        vstd::arithmetic::div_mod::lemma_div_denominator(delta_ms, 1000, 3600);
        vstd::arithmetic::div_mod::lemma_div_denominator(delta_ms, 1000, 86400);
    }
}

/// How long before `now_ms` the instant `ms` lies (both epoch
/// milliseconds), as `elapsed_text` renders it.
pub fn format_elapsed_since(now_ms: i64, ms: i64) -> (s: String)
    ensures
        s@ == elapsed_text(now_ms - ms),
{
    let delta: i128 = now_ms as i128 - ms as i128;
    let secs: i128 = delta / 1000;
    assert(secs == whole_seconds(delta as int));
    let mut s = String::new();
    if secs < 0 {
        push_str(&mut s, "future");
    } else if secs < 60 {
        push_zero_padded(&mut s, secs as u64, 0);
        push_str(&mut s, "s ago");
    } else if secs < 3600 {
        push_zero_padded(&mut s, (secs / 60) as u64, 0);
        push_str(&mut s, "m ago");
    } else if secs < 86400 {
        push_zero_padded(&mut s, (secs / 3600) as u64, 0);
        push_str(&mut s, "h ago");
    } else {
        push_zero_padded(&mut s, (secs / 86400) as u64, 0);
        push_str(&mut s, "d ago");
    }
    s
}

/// How long ago the epoch-millisecond instant `ms` was, measured against
/// the system clock: the text for the time between `ms` and a reading that
/// `now_ms` gives (a reading in epoch milliseconds, used as it is).
pub fn format_elapsed_ms(ms: i64) -> (s: String)
    ensures
        exists|now: int| 0 <= now <= i64::MAX && s@ == #[trigger] elapsed_between(now, ms as int),
        exists|now: i64| #[trigger] call_ensures(now_ms, (), now) && s@ == elapsed_between(
            now as int,
            ms as int,
        ),
{
    let now = now_ms();
    let s = format_elapsed_since(now, ms);
    assert(s@ == elapsed_between(now as int, ms as int));
    s
}

/// A duration of `secs` seconds as `HH:MM:SS`, or `DD:HH:MM:SS` when it
/// spans at least a day; every field is zero-padded to two digits and the
/// day count may be longer.
pub open spec fn duration_text(secs: nat) -> Seq<char> {
    let s = secs % 60;
    let m = (secs / 60) % 60;
    let h = (secs / 3600) % 24;
    let days = secs / 86400;
    let hms = zero_padded(h, 2) + seq![':'] + zero_padded(m, 2) + seq![':'] + zero_padded(s, 2);
    if days > 0 {
        zero_padded(days, 2) + seq![':'] + hms
    } else {
        hms
    }
}

/// Formats a duration given in whole seconds (see `duration_text`).
pub fn format_duration(secs: u64) -> (r: String)
    ensures
        r@ == duration_text(secs as nat),
{
    let s = secs % 60;
    let m = (secs / 60) % 60;
    let h = (secs / 3600) % 24;
    let days = secs / 86400;
    let mut r = String::new();
    if days > 0 {
        push_zero_padded(&mut r, days, 2);
        push_char(&mut r, ':');
    }
    push_zero_padded(&mut r, h, 2);
    push_char(&mut r, ':');
    push_zero_padded(&mut r, m, 2);
    push_char(&mut r, ':');
    push_zero_padded(&mut r, s, 2);
    r
}

} // verus!
