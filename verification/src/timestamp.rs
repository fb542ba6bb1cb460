//! The parsed date-time of a log entry, held as plain calendar fields with
//! a validity invariant, ordered chronologically through an injective
//! encoding into milliseconds since the start of year 0.

use vstd::prelude::*;

use crate::chars::{digit_val, is_digit, is_ws};
use crate::order::{int_cmp, lex2, u32_cmp, Cmp};

verus! {

/// A naive (zone-free) date-time with millisecond precision.
#[derive(Clone, Copy, PartialEq, Eq, Structural, Debug)]
pub struct Timestamp {
    pub year: u32,
    pub month: u32,
    pub day: u32,
    pub hour: u32,
    pub minute: u32,
    pub second: u32,
    pub millis: u32,
}

pub open spec fn is_leap(y: int) -> bool {
    y % 4 == 0 && (y % 100 != 0 || y % 400 == 0)
}

pub open spec fn days_in_month(y: int, m: int) -> int {
    if m == 2 {
        if is_leap(y) {
            29
        } else {
            28
        }
    } else if m == 4 || m == 6 || m == 9 || m == 11 {
        30
    } else {
        31
    }
}

/// A valid calendar date-time: the timestamps the format can denote.
pub open spec fn ts_wf(t: Timestamp) -> bool {
    t.year <= 9999 && 1 <= t.month <= 12 && 1 <= t.day <= days_in_month(
        t.year as int,
        t.month as int,
    ) && t.hour <= 23 && t.minute <= 59 && t.second <= 59 && t.millis <= 999
}

/// Leap years before year `y` (year 0 counts as a leap year).
pub open spec fn leaps_before(y: int) -> int {
    (y + 3) / 4 - (y + 99) / 100 + (y + 399) / 400
}

/// Days in the months before month `m` of year `y`.
pub open spec fn month_offset(y: int, m: int) -> int {
    let base: int = if m == 1 {
        0
    } else if m == 2 {
        31
    } else if m == 3 {
        59
    } else if m == 4 {
        90
    } else if m == 5 {
        120
    } else if m == 6 {
        151
    } else if m == 7 {
        181
    } else if m == 8 {
        212
    } else if m == 9 {
        243
    } else if m == 10 {
        273
    } else if m == 11 {
        304
    } else {
        334
    };
    let leap_shift: int = if m > 2 && is_leap(y) {
        1
    } else {
        0
    };
    base + leap_shift
}

/// Days since the start of year 0.
pub open spec fn epoch_days(t: Timestamp) -> int {
    365 * t.year + leaps_before(t.year as int) + month_offset(t.year as int, t.month as int)
        + t.day - 1
}

/// Milliseconds since the start of year 0: an injective, chronological
/// encoding of valid timestamps.
pub open spec fn epoch_millis(t: Timestamp) -> int {
    (((epoch_days(t) * 24 + t.hour) * 60 + t.minute) * 60 + t.second) * 1000 + t.millis
}

pub fn epoch_millis_exec(t: &Timestamp) -> (r: u64)
    requires
        ts_wf(*t),
    ensures
        r as int == epoch_millis(*t),
{
    let y = t.year as u64;
    let q4 = (y + 3) / 4;
    let q100 = (y + 99) / 100;
    let q400 = (y + 399) / 400;
    let leaps = q4 - q100 + q400;
    let mo = month_offset_exec(t.year, t.month);
    let days = 365 * y + leaps + mo + (t.day as u64) - 1;
    (((days * 24 + t.hour as u64) * 60 + t.minute as u64) * 60 + t.second as u64) * 1000
        + t.millis as u64
}

fn month_offset_exec(year: u32, month: u32) -> (r: u64)
    requires
        1 <= month <= 12,
    ensures
        r as int == month_offset(year as int, month as int),
{
    let base: u64 = if month == 1 {
        0
    } else if month == 2 {
        31
    } else if month == 3 {
        59
    } else if month == 4 {
        90
    } else if month == 5 {
        120
    } else if month == 6 {
        151
    } else if month == 7 {
        181
    } else if month == 8 {
        212
    } else if month == 9 {
        243
    } else if month == 10 {
        273
    } else if month == 11 {
        304
    } else {
        334
    };
    let y = year as u64;
    if month > 2 && (y % 4 == 0 && (y % 100 != 0 || y % 400 == 0)) {
        base + 1
    } else {
        base
    }
}

/// What parsing the captured timestamp text with the fixed format
/// `%Y-%m-%d %H:%M:%S%.3f` yields: the shape must be exact (a real dot
/// before the milliseconds) and the fields must form a valid date-time.
pub open spec fn ts_parse(raw: Seq<char>) -> Option<Timestamp> {
    if raw.len() == 23 && is_digit(raw[0]) && is_digit(raw[1]) && is_digit(raw[2]) && is_digit(
        raw[3],
    ) && raw[4] == '-' && is_digit(raw[5]) && is_digit(raw[6]) && raw[7] == '-' && is_digit(raw[8])
        && is_digit(raw[9]) && is_ws(raw[10]) && is_digit(raw[11]) && is_digit(raw[12]) && raw[13]
        == ':' && is_digit(raw[14]) && is_digit(raw[15]) && raw[16] == ':' && is_digit(raw[17])
        && is_digit(raw[18]) && raw[19] == '.' && is_digit(raw[20]) && is_digit(raw[21])
        && is_digit(raw[22]) {
        let t = Timestamp {
            year: (1000 * digit_val(raw[0]) + 100 * digit_val(raw[1]) + 10 * digit_val(raw[2])
                + digit_val(raw[3])) as u32,
            month: (10 * digit_val(raw[5]) + digit_val(raw[6])) as u32,
            day: (10 * digit_val(raw[8]) + digit_val(raw[9])) as u32,
            hour: (10 * digit_val(raw[11]) + digit_val(raw[12])) as u32,
            minute: (10 * digit_val(raw[14]) + digit_val(raw[15])) as u32,
            second: (10 * digit_val(raw[17]) + digit_val(raw[18])) as u32,
            millis: (100 * digit_val(raw[20]) + 10 * digit_val(raw[21]) + digit_val(
                raw[22],
            )) as u32,
        };
        if ts_wf(t) {
            Some(t)
        } else {
            None
        }
    } else {
        None
    }
}

fn digit_at(v: &Vec<char>, i: usize) -> (r: Option<u32>)
    requires
        i < v@.len(),
    ensures
        r matches Some(d) ==> is_digit(v@[i as int]) && d == digit_val(v@[i as int]) && d <= 9,
        r is None ==> !is_digit(v@[i as int]),
{
    let u = v[i] as u32;
    if 48 <= u && u <= 57 {
        Some(u - 48)
    } else {
        None
    }
}

/// Parse the captured timestamp text, as the fixed format does. `None` is
/// the explicitly reported outcome for text whose shape or calendar fields
/// the format refuses.
pub fn parse_timestamp(raw: &str) -> (r: Option<Timestamp>)
    ensures
        r == ts_parse(raw@),
        r matches Some(t) ==> ts_wf(t),
{
    let v = crate::order::chars_of(raw);
    if v.len() != 23 {
        return None;
    }
    if !(v[4] == '-' && v[7] == '-' && v[13] == ':' && v[16] == ':' && v[19] == '.') {
        return None;
    }
    if !crate::chars::is_ws_exec(v[10]) {
        return None;
    }
    let d0 = match digit_at(&v, 0) {
        Some(d) => d,
        None => { return None },
    };
    let d1 = match digit_at(&v, 1) {
        Some(d) => d,
        None => { return None },
    };
    let d2 = match digit_at(&v, 2) {
        Some(d) => d,
        None => { return None },
    };
    let d3 = match digit_at(&v, 3) {
        Some(d) => d,
        None => { return None },
    };
    let d5 = match digit_at(&v, 5) {
        Some(d) => d,
        None => { return None },
    };
    let d6 = match digit_at(&v, 6) {
        Some(d) => d,
        None => { return None },
    };
    let d8 = match digit_at(&v, 8) {
        Some(d) => d,
        None => { return None },
    };
    let d9 = match digit_at(&v, 9) {
        Some(d) => d,
        None => { return None },
    };
    let d11 = match digit_at(&v, 11) {
        Some(d) => d,
        None => { return None },
    };
    let d12 = match digit_at(&v, 12) {
        Some(d) => d,
        None => { return None },
    };
    let d14 = match digit_at(&v, 14) {
        Some(d) => d,
        None => { return None },
    };
    let d15 = match digit_at(&v, 15) {
        Some(d) => d,
        None => { return None },
    };
    let d17 = match digit_at(&v, 17) {
        Some(d) => d,
        None => { return None },
    };
    let d18 = match digit_at(&v, 18) {
        Some(d) => d,
        None => { return None },
    };
    let d20 = match digit_at(&v, 20) {
        Some(d) => d,
        None => { return None },
    };
    let d21 = match digit_at(&v, 21) {
        Some(d) => d,
        None => { return None },
    };
    let d22 = match digit_at(&v, 22) {
        Some(d) => d,
        None => { return None },
    };
    let t = Timestamp {
        year: 1000 * d0 + 100 * d1 + 10 * d2 + d3,
        month: 10 * d5 + d6,
        day: 10 * d8 + d9,
        hour: 10 * d11 + d12,
        minute: 10 * d14 + d15,
        second: 10 * d17 + d18,
        millis: 100 * d20 + 10 * d21 + d22,
    };
    let month_days: u32 = if t.month == 2 {
        if t.year % 4 == 0 && (t.year % 100 != 0 || t.year % 400 == 0) {
            29
        } else {
            28
        }
    } else if t.month == 4 || t.month == 6 || t.month == 9 || t.month == 11 {
        30
    } else {
        31
    };
    if 1 <= t.month && t.month <= 12 && 1 <= t.day && t.day <= month_days && t.hour <= 23
        && t.minute <= 59 && t.second <= 59 {
        Some(t)
    } else {
        None
    }
}

/// Timestamps ordered chronologically (by the millisecond encoding), with
/// the calendar fields as a formal tiebreak so that equality under the
/// order is equality of the fields.
pub open spec fn ts_cmp(a: Timestamp, b: Timestamp) -> Cmp {
    lex2(
        int_cmp(epoch_millis(a), epoch_millis(b)),
        lex2(
            u32_cmp(a.year, b.year),
            lex2(
                u32_cmp(a.month, b.month),
                lex2(
                    u32_cmp(a.day, b.day),
                    lex2(
                        u32_cmp(a.hour, b.hour),
                        lex2(
                            u32_cmp(a.minute, b.minute),
                            lex2(u32_cmp(a.second, b.second), u32_cmp(a.millis, b.millis)),
                        ),
                    ),
                ),
            ),
        ),
    )
}

pub fn ts_compare(a: &Timestamp, b: &Timestamp) -> (r: Cmp)
    requires
        ts_wf(*a),
        ts_wf(*b),
    ensures
        r == ts_cmp(*a, *b),
{
    let ea = epoch_millis_exec(a);
    let eb = epoch_millis_exec(b);
    if ea < eb {
        Cmp::Lt
    } else if ea > eb {
        Cmp::Gt
    } else {
        let r = crate::order::u32_compare(a.year, b.year);
        if !matches!(r, Cmp::Eq) {
            return r;
        }
        let r = crate::order::u32_compare(a.month, b.month);
        if !matches!(r, Cmp::Eq) {
            return r;
        }
        let r = crate::order::u32_compare(a.day, b.day);
        if !matches!(r, Cmp::Eq) {
            return r;
        }
        let r = crate::order::u32_compare(a.hour, b.hour);
        if !matches!(r, Cmp::Eq) {
            return r;
        }
        let r = crate::order::u32_compare(a.minute, b.minute);
        if !matches!(r, Cmp::Eq) {
            return r;
        }
        let r = crate::order::u32_compare(a.second, b.second);
        if !matches!(r, Cmp::Eq) {
            return r;
        }
        crate::order::u32_compare(a.millis, b.millis)
    }
}

pub proof fn lemma_ts_cmp_eq(a: Timestamp, b: Timestamp)
    ensures
        (ts_cmp(a, b) == Cmp::Eq) <==> (a == b),
{
}

pub proof fn lemma_ts_cmp_flip(a: Timestamp, b: Timestamp)
    ensures
        ts_cmp(b, a) == crate::order::flip(ts_cmp(a, b)),
{
}

pub proof fn lemma_ts_cmp_trans(a: Timestamp, b: Timestamp, c: Timestamp)
    requires
        ts_cmp(a, b) == Cmp::Lt,
        ts_cmp(b, c) == Cmp::Lt,
    ensures
        ts_cmp(a, c) == Cmp::Lt,
{
}

/// The chronological reading of the order: no later than means an encoding
/// no larger.
pub proof fn lemma_ts_cmp_chronological(a: Timestamp, b: Timestamp)
    ensures
        ts_cmp(a, b) != Cmp::Gt ==> epoch_millis(a) <= epoch_millis(b),
        ts_cmp(a, b) == Cmp::Lt ==> epoch_millis(a) <= epoch_millis(b),
{
}

} // verus!
