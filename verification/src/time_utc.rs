//! UTC timestamps: combining a reported wall-clock time of day with the
//! current UTC date, stepping back one day when the reported time has not
//! yet occurred today, and rendering the fixed machine-readable format.

use vstd::prelude::*;

use chrono::Datelike;
use chrono::Timelike;

use crate::common::FetchError;
use crate::text::{dec_padded, render_padded};

verus! {

/// A UTC calendar date and minute-resolution time of day.
#[derive(Debug, Clone, Copy, PartialEq, Eq, Structural)]
pub struct UtcStamp {
    pub year: i32,
    pub month: u8,
    pub day: u8,
    pub hour: u8,
    pub minute: u8,
}

/// The field ranges every operation below preserves. The day is only
/// required to fit the longest month, which is all the current-time
/// source guarantees.
pub open spec fn stamp_wf(t: UtcStamp) -> bool {
    &&& 0 <= t.year <= 9999
    &&& 1 <= t.month <= 12
    &&& 1 <= t.day <= 31
    &&& t.hour <= 23
    &&& t.minute <= 59
}

pub open spec fn is_leap(y: int) -> bool {
    y % 4 == 0 && (y % 100 != 0 || y % 400 == 0)
}

/// Days in month `m` of year `y`.
pub open spec fn days_in_month(y: int, m: int) -> int {
    if m == 2 {
        if is_leap(y) {
            29
        } else {
            28
        }
    } else if m == 4 || m == 6 || m == 9 || m == 11 {
        30
    } else {
        31
    }
}

fn days_in_month_exec(y: i32, m: u8) -> (r: u8)
    requires
        0 <= y,
        1 <= m <= 12,
    ensures
        r == days_in_month(y as int, m as int),
        28 <= r <= 31,
{
    if m == 2 {
        if (y % 4 == 0) && (y % 100 != 0 || y % 400 == 0) {
            29
        } else {
            28
        }
    } else if m == 4 || m == 6 || m == 9 || m == 11 {
        30
    } else {
        31
    }
}

/// The calendar day before `t`'s date, keeping `t`'s time of day.
pub open spec fn prev_day(t: UtcStamp) -> UtcStamp {
    if t.day > 1 {
        UtcStamp { day: (t.day - 1) as u8, ..t }
    } else if t.month > 1 {
        UtcStamp {
            month: (t.month - 1) as u8,
            day: days_in_month(t.year as int, t.month - 1) as u8,
            ..t
        }
    } else {
        UtcStamp { year: (t.year - 1) as i32, month: 12u8, day: 31u8, ..t }
    }
}

/// The stamp a reported time of day resolves to against `now`: today,
/// unless the reported time has not yet occurred today, in which case
/// yesterday.
pub open spec fn resolved(now: UtcStamp, hour: u8, minute: u8) -> UtcStamp {
    if hour * 60 + minute > now.hour * 60 + now.minute {
        UtcStamp { hour, minute, ..prev_day(now) }
    } else {
        UtcStamp { hour, minute, ..now }
    }
}

/// Resolve a reported time of day against the current UTC instant `now`:
/// the reading is stamped today, unless that would lie in the future, in
/// which case it belongs to yesterday.
pub fn resolve_time_of_day(now: &UtcStamp, hour: u8, minute: u8) -> (r: UtcStamp)
    requires
        stamp_wf(*now),
        now.year >= 1,
        hour <= 23,
        minute <= 59,
    ensures
        r == resolved(*now, hour, minute),
        stamp_wf(r),
{
    let reported: u32 = (hour as u32) * 60 + (minute as u32);
    let current: u32 = (now.hour as u32) * 60 + (now.minute as u32);
    if reported > current {
        let base =
            if now.day > 1 {
            UtcStamp { day: now.day - 1, ..*now }
        } else if now.month > 1 {
            let d = days_in_month_exec(now.year, now.month - 1);
            UtcStamp { month: now.month - 1, day: d, ..*now }
        } else {
            UtcStamp { year: now.year - 1, month: 12, day: 31, ..*now }
        };
        UtcStamp { hour, minute, ..base }
    } else {
        UtcStamp { hour, minute, ..*now }
    }
}

/// The fixed machine-readable rendering `YYYY-MM-DDTHH:MMZ`.
pub open spec fn iso_minute(t: UtcStamp) -> Seq<u8> {
    dec_padded(t.year as nat, 4) + seq![45u8] + dec_padded(t.month as nat, 2) + seq![45u8]
        + dec_padded(t.day as nat, 2) + seq![84u8] + dec_padded(t.hour as nat, 2) + seq![58u8]
        + dec_padded(t.minute as nat, 2) + seq![90u8]
}

/// Render a stamp in the fixed `YYYY-MM-DDTHH:MMZ` format.
pub fn format_iso_minute(t: &UtcStamp) -> (r: Vec<u8>)
    requires
        stamp_wf(*t),
    ensures
        r@ == iso_minute(*t),
{
    let mut r = render_padded(t.year as u64, 4);
    r.push(45);
    let mut part = render_padded(t.month as u64, 2);
    r.append(&mut part);
    r.push(45);
    let mut part = render_padded(t.day as u64, 2);
    r.append(&mut part);
    r.push(84);
    let mut part = render_padded(t.hour as u64, 2);
    r.append(&mut part);
    r.push(58);
    let mut part = render_padded(t.minute as u64, 2);
    r.append(&mut part);
    r.push(90);
    proof {
        assert(r@ =~= iso_minute(*t));
    }
    r
}

/// Relies on chrono::Utc::now and the Datelike/Timelike accessors: month,
/// day, hour and minute lie in their documented ranges; nothing is assumed
/// of the clock's value itself.
#[verifier::external_body]
fn utc_now_parts() -> (r: (i32, u8, u8, u8, u8))
    ensures
        1 <= r.1 <= 12,
        1 <= r.2 <= 31,
        r.3 <= 23,
        r.4 <= 59,
{
    let now = chrono::Utc::now();
    (now.year(), now.month() as u8, now.day() as u8, now.hour() as u8, now.minute() as u8)
}

/// The current UTC instant as a stamp; fails only when the clock's year
/// falls outside the representable range.
pub fn current_utc() -> (r: Result<UtcStamp, FetchError>)
    ensures
        r matches Ok(t) ==> stamp_wf(t) && t.year >= 1,
        r matches Err(e) ==> e == FetchError::BadClock,
{
    let (y, mo, d, h, mi) = utc_now_parts();
    if 1 <= y && y <= 9999 {
        Ok(UtcStamp { year: y, month: mo, day: d, hour: h, minute: mi })
    } else {
        Err(FetchError::BadClock)
    }
}

} // verus!
