//! The daily error log: its file name, the date in Asia/Shanghai time as `YYYYMMDD`, and
//! its lines, each stamped with the time of Asia/Shanghai.
use vstd::prelude::*;
use chrono::{Datelike, FixedOffset, Timelike, Utc};
use crate::text::{decimal, push_decimal, push_char};

verus! {

/// The offset of Asia/Shanghai time from UTC, in seconds.
pub const SHANGHAI_OFFSET_SECONDS: i32 = 28800;

/// `n` written with at least four digits, zero-padded.
pub open spec fn four_digits(n: nat) -> Seq<char> {
    if n < 10 {
        "000"@ + decimal(n)
    } else if n < 100 {
        "00"@ + decimal(n)
    } else if n < 1000 {
        "0"@ + decimal(n)
    } else {
        decimal(n)
    }
}

/// A year as chrono's `%Y` writes it: four zero-padded digits for years 0 to 9999, and
/// otherwise a sign and at least four digits.
pub open spec fn year_text(y: int) -> Seq<char> {
    if 0 <= y && y <= 9999 {
        four_digits(y as nat)
    } else if y > 9999 {
        "+"@ + four_digits(y as nat)
    } else {
        "-"@ + four_digits((-y) as nat)
    }
}

/// A month or day as two zero-padded digits.
pub open spec fn two_digit_text(n: nat) -> Seq<char> {
    if n < 10 { "0"@ + decimal(n) } else { decimal(n) }
}

/// A date as the log file name stem `%Y%m%d`.
pub open spec fn date_stem(year: int, month: nat, day: nat) -> Seq<char> {
    year_text(year) + two_digit_text(month) + two_digit_text(day)
}

fn push_four_digits(out: &mut String, n: u64)
    ensures
        final(out)@ == old(out)@ + four_digits(n as nat),
{
    if n < 10 {
        out.append("000");
    } else if n < 100 {
        out.append("00");
    } else if n < 1000 {
        out.append("0");
    }
    let ghost mid = out@;
    push_decimal(out, n);
    proof {
        reveal_strlit("000");
        reveal_strlit("00");
        reveal_strlit("0");
    }
}

/// A date as the log file name stem `%Y%m%d`.
pub fn date_file_stem(year: i32, month: u32, day: u32) -> (r: String)
    requires
        1 <= month <= 12,
        1 <= day <= 31,
    ensures
        r@ == date_stem(year as int, month as nat, day as nat),
{
    let mut s = String::new();
    push_year(&mut s, year);
    push_two_digits(&mut s, month as u64);
    push_two_digits(&mut s, day as u64);
    s
}

/// The time in Asia/Shanghai: year, month, day, hour, minute, second and nanosecond.
///
/// Trusted: calls `FixedOffset::east_opt` (with an offset it accepts), `Utc::now`,
/// `with_timezone`, `Datelike::{year, month, day}` and `Timelike::{hour, minute, second,
/// nanosecond}`; the time depends on the clock, so only chrono's documented ranges are
/// stated (a nanosecond from one billion on marks a leap second).
#[verifier::external_body]
fn shanghai_clock() -> (r: (i32, u32, u32, u32, u32, u32, u32))
    ensures
        1 <= r.1 <= 12,
        1 <= r.2 <= 31,
        r.3 < 24,
        r.4 < 60,
        r.5 < 60,
        r.6 < 2_000_000_000,
{
    let offset = FixedOffset::east_opt(SHANGHAI_OFFSET_SECONDS).unwrap();
    let now = Utc::now().with_timezone(&offset);
    (now.year(), now.month(), now.day(), now.hour(), now.minute(), now.second(), now.nanosecond())
}

/// Today's log file name stem in Asia/Shanghai time.
pub fn current_date() -> (r: String)
    ensures
        exists|y: i32, m: u32, d: u32| 1 <= m <= 12 && 1 <= d <= 31 && r@ == #[trigger] date_stem(y as int, m as nat, d as nat),
{
    let (y, m, d, _h, _mi, _s, _n) = shanghai_clock();
    date_file_stem(y, m, d)
}

/// Three zero-padded digits.
pub open spec fn three_digit_text(n: nat) -> Seq<char> {
    if n < 10 { "00"@ + decimal(n) } else if n < 100 { "0"@ + decimal(n) } else { decimal(n) }
}

/// A time as chrono writes `%Y-%m-%d %H:%M:%S%.3f`: the second counts a leap second as 60,
/// and the milliseconds are those of the nanosecond within its second.
pub open spec fn time_stamp(year: int, month: nat, day: nat, hour: nat, minute: nat, second: nat, nano: nat) -> Seq<char> {
    year_text(year) + "-"@ + two_digit_text(month) + "-"@ + two_digit_text(day) + " "@
        + two_digit_text(hour) + ":"@ + two_digit_text(minute) + ":"@
        + two_digit_text(second + nano / 1_000_000_000) + "."@ + three_digit_text(nano / 1_000_000 % 1000)
}

/// A line of the error log: the time stamp, `[ERROR]` and the message.
pub open spec fn error_line_text(stamp: Seq<char>, message: Seq<char>) -> Seq<char> {
    stamp + " [ERROR] "@ + message
}

fn push_two_digits(out: &mut String, n: u64)
    requires
        n < 100,
    ensures
        final(out)@ == old(out)@ + two_digit_text(n as nat),
{
    if n < 10 {
        push_char(out, '0');
    }
    let ghost mid = out@;
    push_decimal(out, n);
    proof { reveal_strlit("0"); }
}

fn push_three_digits(out: &mut String, n: u64)
    requires
        n < 1000,
    ensures
        final(out)@ == old(out)@ + three_digit_text(n as nat),
{
    if n < 10 {
        out.append("00");
    } else if n < 100 {
        push_char(out, '0');
    }
    push_decimal(out, n);
    proof {
        reveal_strlit("00");
        reveal_strlit("0");
    }
}

fn push_year(out: &mut String, year: i32)
    ensures
        final(out)@ == old(out)@ + year_text(year as int),
{
    if 0 <= year && year <= 9999 {
        push_four_digits(out, year as u64);
    } else if year > 9999 {
        push_char(out, '+');
        push_four_digits(out, year as u64);
    } else {
        push_char(out, '-');
        let magnitude: u64 = (0i64 - (year as i64)) as u64;
        push_four_digits(out, magnitude);
    }
    proof {
        reveal_strlit("+");
        reveal_strlit("-");
    }
}

/// The time stamp of a log line, `%Y-%m-%d %H:%M:%S%.3f`.
pub fn format_time_stamp(year: i32, month: u32, day: u32, hour: u32, minute: u32, second: u32, nano: u32) -> (r: String)
    requires
        1 <= month <= 12,
        1 <= day <= 31,
        hour < 24,
        minute < 60,
        second < 60,
        nano < 2_000_000_000,
    ensures
        r@ == time_stamp(year as int, month as nat, day as nat, hour as nat, minute as nat, second as nat, nano as nat),
{
    let mut s = String::new();
    push_year(&mut s, year);
    s.append("-");
    push_two_digits(&mut s, month as u64);
    s.append("-");
    push_two_digits(&mut s, day as u64);
    s.append(" ");
    push_two_digits(&mut s, hour as u64);
    s.append(":");
    push_two_digits(&mut s, minute as u64);
    s.append(":");
    push_two_digits(&mut s, (second + nano / 1_000_000_000) as u64);
    s.append(".");
    push_three_digits(&mut s, (nano / 1_000_000 % 1000) as u64);
    proof {
        reveal_strlit("-");
        reveal_strlit(" ");
        reveal_strlit(":");
        reveal_strlit(".");
    }
    s
}

/// A line of the error log for `message`, stamped with the time it is given.
pub fn error_line(stamp: &str, message: &str) -> (r: String)
    ensures
        r@ == error_line_text(stamp@, message@),
{
    let mut s = stamp.to_string();
    s.append(" [ERROR] ");
    s.append(message);
    s
}

/// Reads the clock once and gives the file name stem of that day and the stamped line
/// of `message`, so that a line always goes to the file of its own day.
pub fn dated_error_line(message: &str) -> (r: (String, String))
    ensures
        exists|y: i32, m: u32, d: u32, h: u32, mi: u32, s: u32, n: u32|
            1 <= m <= 12 && 1 <= d <= 31 && h < 24 && mi < 60 && s < 60 && n < 2_000_000_000
            && r.0@ == date_stem(y as int, m as nat, d as nat)
            && r.1@ == error_line_text(#[trigger] time_stamp(y as int, m as nat, d as nat, h as nat, mi as nat, s as nat, n as nat), message@),
{
    let (y, m, d, h, mi, s, n) = shanghai_clock();
    let stem = date_file_stem(y, m, d);
    let stamp = format_time_stamp(y, m, d, h, mi, s, n);
    (stem, error_line(stamp.as_str(), message))
}

} // verus!
