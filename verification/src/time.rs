//! Server-assigned wall-clock timestamps, with their text form.
//!
//! A timestamp is held as plain calendar fields together with the local
//! offset, so that every rule about rendering, reading and comparing
//! timestamps is stated and checked over plain values.  Only obtaining the
//! current moment goes through the clock.

use crate::digits::{
    all_digits, digits_val, fixed_digits, lemma_digits_val_bound, lemma_fixed_digits_shape,
    lemma_fixed_digits_unique, lemma_fixed_digits_val, lemma_pow10_pos, pow10, push_fixed_u64,
    read_fixed_u64,
};
use chrono::{Datelike, Offset, Timelike};
use vstd::prelude::*;

verus! {

/// A wall-clock moment: calendar date, time of day with nanoseconds, and the
/// local offset from UTC in minutes.
#[derive(Clone, Copy, PartialEq, Eq, Structural, Debug)]
pub struct Timestamp {
    pub year: u16,
    pub month: u8,
    pub day: u8,
    pub hour: u8,
    pub minute: u8,
    pub second: u8,
    pub nanosecond: u32,
    pub offset_minutes: i16,
}

/// Raw calendar fields as the clock reports them, before range adjustment.
struct RawNow {
    year: i32,
    month: u32,
    day: u32,
    hour: u32,
    minute: u32,
    second: u32,
    nanosecond: u32,
    offset_seconds: i32,
}

/// Relies on `chrono::Local::now` and chrono's `Datelike`, `Timelike` and
/// `FixedOffset` accessors: the calendar fields of the current local time.
/// The documented ranges are: month 1..=12, day 1..=31, hour 0..=23, minute
/// 0..=59, second 0..=59, nanosecond below two billion (values of one
/// billion and above mark a leap second), and a fixed offset strictly
/// between minus and plus one day.  Nothing is promised of the year or of
/// which moment comes back.
#[verifier::external_body]
fn now_parts() -> (r: RawNow)
    ensures
        1 <= r.month <= 12,
        1 <= r.day <= 31,
        r.hour <= 23,
        r.minute <= 59,
        r.second <= 59,
        r.nanosecond < 2_000_000_000,
        -86_400 < r.offset_seconds < 86_400,
{
    let t = chrono::Local::now();
    RawNow {
        year: t.year(),
        month: t.month(),
        day: t.day(),
        hour: t.hour(),
        minute: t.minute(),
        second: t.second(),
        nanosecond: t.nanosecond(),
        offset_seconds: t.offset().fix().local_minus_utc(),
    }
}

impl Timestamp {
    /// Every field within the ranges that the text form can carry.
    pub open spec fn well_formed(self) -> bool {
        &&& self.year <= 9999
        &&& 1 <= self.month <= 12
        &&& 1 <= self.day <= 31
        &&& self.hour <= 23
        &&& self.minute <= 59
        &&& self.second <= 59
        &&& self.nanosecond < 1_000_000_000
        &&& -1440 < self.offset_minutes < 1440
    }

    /// The current local time.  Years outside the four-digit range are
    /// pinned to that range, and a leap-second nanosecond count is folded
    /// back below one billion, so the result always renders.
    pub fn now() -> (r: Timestamp)
        ensures
            r.well_formed(),
    {
        let raw = now_parts();
        let year: u16 = if raw.year < 0 {
            0
        } else if raw.year > 9999 {
            9999
        } else {
            raw.year as u16
        };
        let nanosecond: u32 = if raw.nanosecond >= 1_000_000_000 {
            raw.nanosecond - 1_000_000_000
        } else {
            raw.nanosecond
        };
        let negative = raw.offset_seconds < 0;
        let abs_seconds: u32 = if negative {
            (-raw.offset_seconds) as u32
        } else {
            raw.offset_seconds as u32
        };
        let abs_minutes = abs_seconds / 60;
        let offset_minutes: i16 = if negative {
            -(abs_minutes as i16)
        } else {
            abs_minutes as i16
        };
        Timestamp {
            year,
            month: raw.month as u8,
            day: raw.day as u8,
            hour: raw.hour as u8,
            minute: raw.minute as u8,
            second: raw.second as u8,
            nanosecond,
            offset_minutes,
        }
    }


    /// Build a timestamp from raw clock fields, as an outer layer reads
    /// them back from a stored dump: a leap-second nanosecond count is
    /// folded below one billion, and fields outside the ranges the text
    /// form can carry are refused.
    pub fn new_checked(
        year: i32,
        month: u32,
        day: u32,
        hour: u32,
        minute: u32,
        second: u32,
        nanosecond: u32,
        offset_seconds: i32,
    ) -> (r: Option<Timestamp>)
        ensures
            match r {
                Some(t) => t.well_formed() && t.year == year && t.month == month && t.day == day
                    && t.hour == hour && t.minute == minute && t.second == second && t.nanosecond
                    == (if nanosecond >= 1_000_000_000 {
                    (nanosecond - 1_000_000_000) as int
                } else {
                    nanosecond as int
                }) && (offset_seconds >= 0 ==> t.offset_minutes == offset_seconds / 60) && (
                offset_seconds < 0 ==> t.offset_minutes == -((-offset_seconds) / 60)),
                None => !(0 <= year <= 9999 && 1 <= month <= 12 && 1 <= day <= 31 && hour <= 23
                    && minute <= 59 && second <= 59 && nanosecond < 2_000_000_000 && -86_400
                    < offset_seconds < 86_400),
            },
    {
        if !(0 <= year && year <= 9999 && 1 <= month && month <= 12 && 1 <= day && day <= 31
            && hour <= 23 && minute <= 59 && second <= 59 && nanosecond < 2_000_000_000
            && -86_400 < offset_seconds && offset_seconds < 86_400) {
            return None;
        }
        let nanosecond: u32 = if nanosecond >= 1_000_000_000 {
            nanosecond - 1_000_000_000
        } else {
            nanosecond
        };
        let negative = offset_seconds < 0;
        let abs_seconds: u32 = if negative {
            (-offset_seconds) as u32
        } else {
            offset_seconds as u32
        };
        let abs_minutes = abs_seconds / 60;
        let offset_minutes: i16 = if negative {
            -(abs_minutes as i16)
        } else {
            abs_minutes as i16
        };
        Some(
            Timestamp {
                year: year as u16,
                month: month as u8,
                day: day as u8,
                hour: hour as u8,
                minute: minute as u8,
                second: second as u8,
                nanosecond,
                offset_minutes,
            },
        )
    }

    /// Field-by-field order on the calendar fields, oldest first; the
    /// offset takes no part, so the order is meaningful between timestamps
    /// of one offset.
    pub open spec fn spec_le(self, other: Timestamp) -> bool {
        let a = (self.year, self.month, self.day, self.hour, self.minute, self.second,
        self.nanosecond);
        let b = (other.year, other.month, other.day, other.hour, other.minute, other.second,
        other.nanosecond);
        spec_tuple_le(a, b)
    }

    /// Whether `self` is no later than `other`, going by the calendar
    /// fields alone.
    pub fn le(&self, other: &Timestamp) -> (r: bool)
        ensures
            r == self.spec_le(*other),
    {
        if self.year != other.year {
            self.year < other.year
        } else if self.month != other.month {
            self.month < other.month
        } else if self.day != other.day {
            self.day < other.day
        } else if self.hour != other.hour {
            self.hour < other.hour
        } else if self.minute != other.minute {
            self.minute < other.minute
        } else if self.second != other.second {
            self.second < other.second
        } else {
            self.nanosecond <= other.nanosecond
        }
    }
}

/// Lexicographic order on the calendar fields.
pub open spec fn spec_tuple_le(
    a: (u16, u8, u8, u8, u8, u8, u32),
    b: (u16, u8, u8, u8, u8, u8, u32),
) -> bool {
    if a.0 != b.0 {
        a.0 < b.0
    } else if a.1 != b.1 {
        a.1 < b.1
    } else if a.2 != b.2 {
        a.2 < b.2
    } else if a.3 != b.3 {
        a.3 < b.3
    } else if a.4 != b.4 {
        a.4 < b.4
    } else if a.5 != b.5 {
        a.5 < b.5
    } else {
        a.6 <= b.6
    }
}

/// The magnitude of the offset, in minutes.
pub open spec fn spec_abs_offset(t: Timestamp) -> nat {
    if t.offset_minutes < 0 {
        (-t.offset_minutes) as nat
    } else {
        t.offset_minutes as nat
    }
}

/// The text form of a timestamp: date, time with nine fractional digits,
/// and the signed offset, all fixed width.
pub open spec fn spec_rfc3339(t: Timestamp) -> Seq<char> {
    fixed_digits(t.year as nat, 4) + seq!['-'] + fixed_digits(t.month as nat, 2) + seq!['-']
        + fixed_digits(t.day as nat, 2) + seq!['T'] + fixed_digits(t.hour as nat, 2) + seq![':']
        + fixed_digits(t.minute as nat, 2) + seq![':'] + fixed_digits(t.second as nat, 2)
        + seq!['.'] + fixed_digits(t.nanosecond as nat, 9) + seq![
        if t.offset_minutes < 0 {
            '-'
        } else {
            '+'
        },
    ] + fixed_digits(spec_abs_offset(t) / 60, 2) + seq![':'] + fixed_digits(
        spec_abs_offset(t) % 60,
        2,
    )
}

/// The width of the text form.
pub proof fn lemma_rfc3339_len(t: Timestamp)
    ensures
        spec_rfc3339(t).len() == 35,
{
    lemma_fixed_digits_shape(t.year as nat, 4);
    lemma_fixed_digits_shape(t.month as nat, 2);
    lemma_fixed_digits_shape(t.day as nat, 2);
    lemma_fixed_digits_shape(t.hour as nat, 2);
    lemma_fixed_digits_shape(t.minute as nat, 2);
    lemma_fixed_digits_shape(t.second as nat, 2);
    lemma_fixed_digits_shape(t.nanosecond as nat, 9);
    lemma_fixed_digits_shape(spec_abs_offset(t) / 60, 2);
    lemma_fixed_digits_shape(spec_abs_offset(t) % 60, 2);
}

/// Append the text form of `t` to `out`.
#[verifier::rlimit(60)]
pub fn push_rfc3339(out: &mut Vec<char>, t: &Timestamp)
    requires
        t.well_formed(),
    ensures
        final(out)@ == old(out)@ + spec_rfc3339(*t),
{
    proof {
        reveal_with_fuel(pow10, 11);
    }
    push_fixed_u64(out, t.year as u64, 4);
    out.push('-');
    push_fixed_u64(out, t.month as u64, 2);
    out.push('-');
    push_fixed_u64(out, t.day as u64, 2);
    out.push('T');
    push_fixed_u64(out, t.hour as u64, 2);
    out.push(':');
    push_fixed_u64(out, t.minute as u64, 2);
    out.push(':');
    push_fixed_u64(out, t.second as u64, 2);
    out.push('.');
    push_fixed_u64(out, t.nanosecond as u64, 9);
    let negative = t.offset_minutes < 0;
    out.push(if negative { '-' } else { '+' });
    let abs_minutes: u16 = if negative {
        (-t.offset_minutes) as u16
    } else {
        t.offset_minutes as u16
    };
    assert(abs_minutes == spec_abs_offset(*t));
    push_fixed_u64(out, (abs_minutes / 60) as u64, 2);
    out.push(':');
    push_fixed_u64(out, (abs_minutes % 60) as u64, 2);
    assert(final(out)@ =~= old(out)@ + spec_rfc3339(*t));
}

/// Read a timestamp out of exactly the 35 characters `w`: the inverse of
/// the text form, accepting only what `spec_rfc3339` writes.
pub open spec fn parse_rfc3339(w: Seq<char>) -> Option<Timestamp> {
    let year = digits_val(w.subrange(0, 4));
    let month = digits_val(w.subrange(5, 7));
    let day = digits_val(w.subrange(8, 10));
    let hour = digits_val(w.subrange(11, 13));
    let minute = digits_val(w.subrange(14, 16));
    let second = digits_val(w.subrange(17, 19));
    let nano = digits_val(w.subrange(20, 29));
    let oh = digits_val(w.subrange(30, 32));
    let om = digits_val(w.subrange(33, 35));
    if w.len() == 35 && all_digits(w.subrange(0, 4)) && w[4] == '-' && all_digits(
        w.subrange(5, 7),
    ) && w[7] == '-' && all_digits(w.subrange(8, 10)) && w[10] == 'T' && all_digits(
        w.subrange(11, 13),
    ) && w[13] == ':' && all_digits(w.subrange(14, 16)) && w[16] == ':' && all_digits(
        w.subrange(17, 19),
    ) && w[19] == '.' && all_digits(w.subrange(20, 29)) && (w[29] == '+' || w[29] == '-')
        && all_digits(w.subrange(30, 32)) && w[32] == ':' && all_digits(w.subrange(33, 35)) && 1
        <= month <= 12 && 1 <= day <= 31 && hour <= 23 && minute <= 59 && second <= 59 && oh <= 23
        && om <= 59 && (w[29] == '+' || oh * 60 + om > 0) {
        Some(
            Timestamp {
                year: year as u16,
                month: month as u8,
                day: day as u8,
                hour: hour as u8,
                minute: minute as u8,
                second: second as u8,
                nanosecond: nano as u32,
                offset_minutes: if w[29] == '-' {
                    (-(oh * 60 + om)) as i16
                } else {
                    (oh * 60 + om) as i16
                },
            },
        )
    } else {
        None
    }
}

/// Reading the text form of a well-formed timestamp gives it back.
pub proof fn lemma_rfc3339_round_trip(t: Timestamp)
    requires
        t.well_formed(),
    ensures
        parse_rfc3339(spec_rfc3339(t)) == Some(t),
{
    let w = spec_rfc3339(t);
    lemma_rfc3339_len(t);
    reveal_with_fuel(pow10, 11);
    lemma_fixed_digits_shape(t.year as nat, 4);
    lemma_fixed_digits_shape(t.month as nat, 2);
    lemma_fixed_digits_shape(t.day as nat, 2);
    lemma_fixed_digits_shape(t.hour as nat, 2);
    lemma_fixed_digits_shape(t.minute as nat, 2);
    lemma_fixed_digits_shape(t.second as nat, 2);
    lemma_fixed_digits_shape(t.nanosecond as nat, 9);
    let oh = spec_abs_offset(t) / 60;
    let om = spec_abs_offset(t) % 60;
    lemma_fixed_digits_shape(oh, 2);
    lemma_fixed_digits_shape(om, 2);
    assert(w.subrange(0, 4) =~= fixed_digits(t.year as nat, 4));
    assert(w.subrange(5, 7) =~= fixed_digits(t.month as nat, 2));
    assert(w.subrange(8, 10) =~= fixed_digits(t.day as nat, 2));
    assert(w.subrange(11, 13) =~= fixed_digits(t.hour as nat, 2));
    assert(w.subrange(14, 16) =~= fixed_digits(t.minute as nat, 2));
    assert(w.subrange(17, 19) =~= fixed_digits(t.second as nat, 2));
    assert(w.subrange(20, 29) =~= fixed_digits(t.nanosecond as nat, 9));
    assert(w.subrange(30, 32) =~= fixed_digits(oh, 2));
    assert(w.subrange(33, 35) =~= fixed_digits(om, 2));
    lemma_fixed_digits_val(t.year as nat, 4);
    lemma_fixed_digits_val(t.month as nat, 2);
    lemma_fixed_digits_val(t.day as nat, 2);
    lemma_fixed_digits_val(t.hour as nat, 2);
    lemma_fixed_digits_val(t.minute as nat, 2);
    lemma_fixed_digits_val(t.second as nat, 2);
    lemma_fixed_digits_val(t.nanosecond as nat, 9);
    lemma_fixed_digits_val(oh, 2);
    lemma_fixed_digits_val(om, 2);
    assert(oh * 60 + om == spec_abs_offset(t));
    assert(parse_rfc3339(w) == Some(t));
}

/// Only the text form of `t` reads as `t`: reading is injective on the
/// accepted texts.
pub proof fn lemma_rfc3339_canonical(w: Seq<char>, t: Timestamp)
    requires
        parse_rfc3339(w) == Some(t),
    ensures
        w == spec_rfc3339(t),
        t.well_formed(),
{
    reveal_with_fuel(pow10, 11);
    let year = digits_val(w.subrange(0, 4));
    let month = digits_val(w.subrange(5, 7));
    let day = digits_val(w.subrange(8, 10));
    let hour = digits_val(w.subrange(11, 13));
    let minute = digits_val(w.subrange(14, 16));
    let second = digits_val(w.subrange(17, 19));
    let nano = digits_val(w.subrange(20, 29));
    let oh = digits_val(w.subrange(30, 32));
    let om = digits_val(w.subrange(33, 35));
    lemma_digits_val_bound(w.subrange(0, 4));
    lemma_digits_val_bound(w.subrange(5, 7));
    lemma_digits_val_bound(w.subrange(8, 10));
    lemma_digits_val_bound(w.subrange(11, 13));
    lemma_digits_val_bound(w.subrange(14, 16));
    lemma_digits_val_bound(w.subrange(17, 19));
    lemma_digits_val_bound(w.subrange(20, 29));
    lemma_digits_val_bound(w.subrange(30, 32));
    lemma_digits_val_bound(w.subrange(33, 35));
    assert(t.year == year && t.month == month && t.day == day && t.hour == hour && t.minute
        == minute && t.second == second && t.nanosecond == nano);
    assert(t.well_formed());
    assert(spec_abs_offset(t) == oh * 60 + om);
    assert(spec_abs_offset(t) / 60 == oh && spec_abs_offset(t) % 60 == om) by {
        vstd::arithmetic::div_mod::lemma_fundamental_div_mod_converse_div(
            (oh * 60 + om) as int,
            60,
            oh,
            om,
        );
        vstd::arithmetic::div_mod::lemma_fundamental_div_mod_converse_mod(
            (oh * 60 + om) as int,
            60,
            oh,
            om,
        );
    }
    lemma_fixed_digits_unique(w.subrange(0, 4), year as nat);
    lemma_fixed_digits_unique(w.subrange(5, 7), month as nat);
    lemma_fixed_digits_unique(w.subrange(8, 10), day as nat);
    lemma_fixed_digits_unique(w.subrange(11, 13), hour as nat);
    lemma_fixed_digits_unique(w.subrange(14, 16), minute as nat);
    lemma_fixed_digits_unique(w.subrange(17, 19), second as nat);
    lemma_fixed_digits_unique(w.subrange(20, 29), nano as nat);
    lemma_fixed_digits_unique(w.subrange(30, 32), oh as nat);
    lemma_fixed_digits_unique(w.subrange(33, 35), om as nat);
    assert(w =~= spec_rfc3339(t));
}

/// Read the 35-character text form of a timestamp starting at `start`.
pub fn read_rfc3339(s: &Vec<char>, start: usize) -> (r: Option<Timestamp>)
    ensures
        start + 35 <= s@.len() ==> r == parse_rfc3339(s@.subrange(start as int, start + 35)),
        start + 35 > s@.len() ==> r is None,
{
    if start > s.len() || s.len() - start < 35 {
        return None;
    }
    let ghost w = s@.subrange(start as int, start + 35);
    let year = read_fixed_u64(s, start, 4);
    let month = read_fixed_u64(s, start + 5, 2);
    let day = read_fixed_u64(s, start + 8, 2);
    let hour = read_fixed_u64(s, start + 11, 2);
    let minute = read_fixed_u64(s, start + 14, 2);
    let second = read_fixed_u64(s, start + 17, 2);
    let nano = read_fixed_u64(s, start + 20, 9);
    let oh = read_fixed_u64(s, start + 30, 2);
    let om = read_fixed_u64(s, start + 33, 2);
    proof {
        assert(w.subrange(0, 4) =~= s@.subrange(start as int, start + 4));
        assert(w.subrange(5, 7) =~= s@.subrange(start + 5, start + 7));
        assert(w.subrange(8, 10) =~= s@.subrange(start + 8, start + 10));
        assert(w.subrange(11, 13) =~= s@.subrange(start + 11, start + 13));
        assert(w.subrange(14, 16) =~= s@.subrange(start + 14, start + 16));
        assert(w.subrange(17, 19) =~= s@.subrange(start + 17, start + 19));
        assert(w.subrange(20, 29) =~= s@.subrange(start + 20, start + 29));
        assert(w.subrange(30, 32) =~= s@.subrange(start + 30, start + 32));
        assert(w.subrange(33, 35) =~= s@.subrange(start + 33, start + 35));
    }
    let (year, month, day, hour, minute, second, nano, oh, om) = match (
        year,
        month,
        day,
        hour,
        minute,
        second,
        nano,
        oh,
        om,
    ) {
        (
            Some(a),
            Some(b),
            Some(c),
            Some(d),
            Some(e),
            Some(f),
            Some(g),
            Some(h),
            Some(i),
        ) => (a, b, c, d, e, f, g, h, i),
        _ => {
            return None;
        },
    };
    let sign = s[start + 29];
    if !(s[start + 4] == '-' && s[start + 7] == '-' && s[start + 10] == 'T' && s[start + 13] == ':'
        && s[start + 16] == ':' && s[start + 19] == '.' && (sign == '+' || sign == '-') && s[start
        + 32] == ':') {
        return None;
    }
    if !(1 <= month && month <= 12 && 1 <= day && day <= 31 && hour <= 23 && minute <= 59 && second
        <= 59 && oh <= 23 && om <= 59) {
        return None;
    }
    let abs_minutes = oh * 60 + om;
    if sign == '-' && abs_minutes == 0 {
        return None;
    }
    proof {
        lemma_digits_val_bound(w.subrange(0, 4));
        reveal_with_fuel(pow10, 11);
    }
    Some(
        Timestamp {
            year: year as u16,
            month: month as u8,
            day: day as u8,
            hour: hour as u8,
            minute: minute as u8,
            second: second as u8,
            nanosecond: nano as u32,
            offset_minutes: if sign == '-' {
                -(abs_minutes as i16)
            } else {
                abs_minutes as i16
            },
        },
    )
}

} // verus!
