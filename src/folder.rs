//! Naming a post's output folder after the UTC date on which it was
//! published.
use vstd::prelude::*;
use crate::text::{decimal, decimal_string};

verus! {

/// Whole seconds in `millis` milliseconds, rounded toward zero.
pub open spec fn seconds_of(millis: int) -> int {
    if millis >= 0 {
        millis / 1000
    } else {
        -((-millis) / 1000)
    }
}

/// The proleptic Gregorian date `(year, month, day)` of the day numbered
/// `days` from 1970-01-01, counted in 400-year eras that begin on March 1.
pub open spec fn civil_from_days(days: int) -> (int, int, int) {
    let z = days + 719468;
    let era = z / 146097;
    let doe = z - era * 146097;
    let yoe = (doe - doe / 1460 + doe / 36524 - doe / 146096) / 365;
    let doy = doe - (365 * yoe + yoe / 4 - yoe / 100);
    let mp = (5 * doy + 2) / 153;
    let d = doy - (153 * mp + 2) / 5 + 1;
    let m = if mp < 10 { mp + 3 } else { mp - 9 };
    let y = yoe + era * 400;
    (if m <= 2 { y + 1 } else { y }, m, d)
}

/// The UTC calendar date of an instant given in seconds since the Unix
/// epoch: the date of the day it falls in, days being counted down for
/// instants before the epoch.
pub open spec fn utc_date_of(secs: int) -> (int, int, int) {
    civil_from_days(secs / 86400)
}

/// The first second of the earliest date a UTC date-time holds,
/// -262143-01-01.
pub const MIN_UTC_SECONDS: i64 = -8334601228800;

/// The last second of the latest date a UTC date-time holds, 262142-12-31.
pub const MAX_UTC_SECONDS: i64 = 8210266876799;

/// Instants, in seconds since the Unix epoch, that have a UTC date.
pub open spec fn utc_in_range(secs: int) -> bool {
    MIN_UTC_SECONDS <= secs <= MAX_UTC_SECONDS
}

/// Relies on chrono::DateTime::from_timestamp, read through chrono::Datelike's
/// year, month and day: the UTC date of the instant, in the proleptic
/// Gregorian calendar that `civil_from_days` states. With no nanoseconds it
/// fails only when the day lies outside the years -262143 to 262142, that is
/// outside `DateTime::<Utc>::MIN_UTC` to `MAX_UTC`.
#[verifier::external_body]
fn utc_date(secs: i64) -> (r: Option<(i32, u32, u32)>)
    ensures
        r is Some <==> utc_in_range(secs as int),
        r matches Some((y, m, d)) ==> (y as int, m as int, d as int) == utc_date_of(secs as int)
            && 1 <= m <= 12 && 1 <= d <= 31,
{
    match chrono::DateTime::from_timestamp(secs, 0) {
        Some(t) => Some(
            (chrono::Datelike::year(&t), chrono::Datelike::month(&t), chrono::Datelike::day(&t)),
        ),
        None => None,
    }
}

/// `decimal(n)` with zeros in front up to `width` characters.
pub open spec fn padded(n: nat, width: nat) -> Seq<char> {
    let digits = decimal(n);
    if digits.len() < width {
        Seq::new((width - digits.len()) as nat, |i: int| '0') + digits
    } else {
        digits
    }
}

/// A year as a date stamp writes it: four digits, with a sign in front
/// when it lies outside 0 to 9999.
pub open spec fn year_text(year: int) -> Seq<char> {
    if year < 0 {
        "-"@ + padded((-year) as nat, 4)
    } else if year > 9999 {
        "+"@ + padded(year as nat, 4)
    } else {
        padded(year as nat, 4)
    }
}

/// The folder name of a post published on the given date:
/// `post-YYYY-MM-DD`.
pub open spec fn folder_name_of(year: int, month: int, day: int) -> Seq<char> {
    "post-"@ + year_text(year) + "-"@ + padded(month as nat, 2) + "-"@ + padded(day as nat, 2)
}

fn zeros(k: usize) -> (r: String)
    ensures
        r@ == Seq::new(k as nat, |i: int| '0'),
{
    let mut s = String::new();
    let mut i: usize = 0;
    while i < k
        invariant
            i <= k,
            s@ == Seq::new(i as nat, |j: int| '0'),
        decreases k - i,
    {
        proof {
            reveal_strlit("0");
        }
        s.append("0");
        i = i + 1;
        assert(s@ =~= Seq::new(i as nat, |j: int| '0'));
    }
    s
}

/// `n` in decimal, with zeros in front up to `width` characters.
pub fn padded_decimal(n: usize, width: usize) -> (r: String)
    ensures
        r@ == padded(n as nat, width as nat),
{
    let digits = decimal_string(n);
    let len = digits.as_str().unicode_len();
    if len < width {
        let mut s = zeros(width - len);
        s.append(digits.as_str());
        s
    } else {
        digits
    }
}

/// Whole seconds in a timestamp of milliseconds since the Unix epoch,
/// rounded toward zero.
pub fn publish_seconds(millis: i64) -> (r: i64)
    ensures
        r == seconds_of(millis as int),
{
    if millis >= 0 {
        millis / 1000
    } else {
        let magnitude: u64 = ((-(millis + 1)) as u64) + 1;
        let whole: u64 = magnitude / 1000;
        -(whole as i64)
    }
}

/// The folder name of a post published on the given date.
pub fn folder_name(year: i32, month: u32, day: u32) -> (r: String)
    ensures
        r@ == folder_name_of(year as int, month as int, day as int),
{
    let mut s = String::from_str("post-");
    if year < 0 {
        s.append("-");
        let y = padded_decimal((-(year as i64)) as usize, 4);
        s.append(y.as_str());
    } else if year > 9999 {
        s.append("+");
        let y = padded_decimal(year as usize, 4);
        s.append(y.as_str());
    } else {
        let y = padded_decimal(year as usize, 4);
        s.append(y.as_str());
    }
    s.append("-");
    let m = padded_decimal(month as usize, 2);
    s.append(m.as_str());
    s.append("-");
    let d = padded_decimal(day as usize, 2);
    s.append(d.as_str());
    s
}

/// The output folder name of a post published at `millis` milliseconds
/// since the Unix epoch; nothing when the date lies outside the calendar's
/// range.
pub fn get_content_folder(millis: i64) -> (r: Option<String>)
    ensures
        r is Some <==> utc_in_range(seconds_of(millis as int)),
        r matches Some(name) ==> name@ == folder_name_of(
            utc_date_of(seconds_of(millis as int)).0,
            utc_date_of(seconds_of(millis as int)).1,
            utc_date_of(seconds_of(millis as int)).2,
        ),
{
    let secs = publish_seconds(millis);
    match utc_date(secs) {
        Some((year, month, day)) => Some(folder_name(year, month, day)),
        None => None,
    }
}

} // verus!
