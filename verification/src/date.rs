use vstd::prelude::*;
use crate::strings::{padded_digits, push_padded_digits};
use chrono::Datelike;
use chrono::Timelike;

verus! {

/// A calendar date, held as plain one-based calendar fields.
#[derive(Clone, Copy, PartialEq, Eq, Structural, Debug)]
pub struct Date {
    pub year: u32,
    pub month: u32,
    pub day: u32,
}

impl Date {
    /// The range the four-digit statement timestamps can carry.
    pub open spec fn wf(self) -> bool {
        &&& self.year <= 9999
        &&& 1 <= self.month <= 12
        &&& 1 <= self.day <= 31
    }

    /// Builds a date; rejects exactly the field values the library does not
    /// admit.
    pub fn new(year: u32, month: u32, day: u32) -> (r: Option<Date>)
        ensures
            r == (if year <= 9999 && 1 <= month <= 12 && 1 <= day <= 31 {
                Some(Date { year, month, day })
            } else {
                None::<Date>
            }),
            r matches Some(d) ==> d.wf(),
    {
        if year <= 9999 && 1 <= month && month <= 12 && 1 <= day && day <= 31 {
            Some(Date { year, month, day })
        } else {
            None
        }
    }
}

/// Strict calendar order: by year, then month, then day.
pub open spec fn date_lt(a: Date, b: Date) -> bool {
    ||| a.year < b.year
    ||| (a.year == b.year && a.month < b.month)
    ||| (a.year == b.year && a.month == b.month && a.day < b.day)
}

/// Whether `a` falls strictly before `b`.
pub fn date_lt_exec(a: &Date, b: &Date) -> (r: bool)
    ensures
        r == date_lt(*a, *b),
{
    a.year < b.year || (a.year == b.year && (a.month < b.month || (a.month == b.month && a.day
        < b.day)))
}

/// An instant in UTC, held as plain clock fields.
#[derive(Clone, Copy, PartialEq, Eq, Structural, Debug)]
pub struct Timestamp {
    pub date: Date,
    pub hour: u32,
    pub minute: u32,
    pub second: u32,
    pub millisecond: u32,
}

impl Timestamp {
    pub open spec fn wf(self) -> bool {
        &&& self.date.wf()
        &&& self.hour <= 23
        &&& self.minute <= 59
        &&& self.second <= 59
        &&& self.millisecond <= 999
    }
}

/// The eight digits `YYYYMMDD` of a date.
pub open spec fn date_digits(d: Date) -> Seq<char> {
    padded_digits(d.year as nat, 4) + padded_digits(d.month as nat, 2) + padded_digits(
        d.day as nat,
        2,
    )
}

/// The statement timestamp of a bare date: that day at midnight UTC,
/// `YYYYMMDD000000.000[+0000:UTC]`.
pub open spec fn date_stamp_text(d: Date) -> Seq<char> {
    date_digits(d) + "000000.000[+0000:UTC]"@
}

/// The statement timestamp of an instant:
/// `YYYYMMDDHHMMSS.mmm[+0000:UTC]`.
pub open spec fn time_stamp_text(t: Timestamp) -> Seq<char> {
    date_digits(t.date) + padded_digits(t.hour as nat, 2) + padded_digits(t.minute as nat, 2)
        + padded_digits(t.second as nat, 2) + seq!['.'] + padded_digits(t.millisecond as nat, 3)
        + "[+0000:UTC]"@
}

fn push_date_digits(out: &mut String, d: &Date)
    ensures
        final(out)@ == old(out)@ + date_digits(*d),
{
    push_padded_digits(out, d.year as u128, 4);
    push_padded_digits(out, d.month as u128, 2);
    push_padded_digits(out, d.day as u128, 2);
    assert(final(out)@ =~= old(out)@ + date_digits(*d));
}

/// Render a date as its midnight-UTC statement timestamp.
pub fn format_date_stamp(d: &Date) -> (r: String)
    ensures
        r@ == date_stamp_text(*d),
{
    let mut out = String::new();
    push_date_digits(&mut out, d);
    out.append("000000.000[+0000:UTC]");
    proof {
        assert(out@ =~= date_stamp_text(*d));
    }
    out
}

/// Render an instant as a statement timestamp.
pub fn format_time_stamp(t: &Timestamp) -> (r: String)
    ensures
        r@ == time_stamp_text(*t),
{
    let mut out = String::new();
    push_date_digits(&mut out, &t.date);
    push_padded_digits(&mut out, t.hour as u128, 2);
    push_padded_digits(&mut out, t.minute as u128, 2);
    push_padded_digits(&mut out, t.second as u128, 2);
    out.push('.');
    push_padded_digits(&mut out, t.millisecond as u128, 3);
    out.append("[+0000:UTC]");
    proof {
        assert(out@ =~= time_stamp_text(*t));
    }
    out
}

/// Relies on chrono's `Utc::now` together with the `Datelike` and `Timelike`
/// accessors: `month` and `day` are one-based calendar fields in their
/// calendar ranges, `hour`, `minute` and `second` are in their clock ranges,
/// and the millisecond count stays below 2000 (chrono represents a leap
/// second as a count of 1000 or more). Nothing is promised of the year or of
/// which instant comes back.
#[verifier::external_body]
fn clock_now() -> (r: (i64, u32, u32, u32, u32, u32, u32))
    ensures
        1 <= r.1 <= 12,
        1 <= r.2 <= 31,
        r.3 <= 23,
        r.4 <= 59,
        r.5 <= 59,
        r.6 <= 1999,
{
    let now: chrono::DateTime<chrono::Utc> = chrono::Utc::now();
    (
        now.year() as i64,
        now.month(),
        now.day(),
        now.hour(),
        now.minute(),
        now.second(),
        now.timestamp_subsec_millis(),
    )
}

/// Brings raw clock fields into the representable range: a year outside
/// 0..=9999 clamps to that range's nearer end, a leap-second millisecond
/// count folds into the last ordinary millisecond, and every other field
/// passes through unchanged.
pub fn clamp_clock(y: i64, month: u32, day: u32, hour: u32, minute: u32, second: u32, ms: u32) -> (r:
    Timestamp)
    requires
        1 <= month <= 12,
        1 <= day <= 31,
        hour <= 23,
        minute <= 59,
        second <= 59,
        ms <= 1999,
    ensures
        r.date.year as int == (if y < 0 {
            0int
        } else if y > 9999 {
            9999int
        } else {
            y as int
        }),
        r.date.month == month,
        r.date.day == day,
        r.hour == hour,
        r.minute == minute,
        r.second == second,
        r.millisecond as int == (if ms > 999 {
            999int
        } else {
            ms as int
        }),
        r.wf(),
{
    let year: u32 = if y < 0 {
        0
    } else if y > 9999 {
        9999
    } else {
        y as u32
    };
    let millisecond: u32 = if ms > 999 {
        999
    } else {
        ms
    };
    Timestamp { date: Date { year, month, day }, hour, minute, second, millisecond }
}

/// The current wall-clock instant in UTC, brought into the representable
/// range by `clamp_clock`.
pub fn now_timestamp() -> (r: Timestamp)
    ensures
        r.wf(),
{
    let (y, month, day, hour, minute, second, ms) = clock_now();
    clamp_clock(y, month, day, hour, minute, second, ms)
}

} // verus!
