//! Calendar timestamps as plain fields, and their fixed 14-digit
//! `YYYYMMDDHHMMSS` form used in collision-avoidance file names.
use vstd::prelude::*;
use chrono::Datelike;
use chrono::Timelike;

verus! {

/// A calendar date and time in UTC, split into its fields.
pub struct Timestamp {
    pub year: i32,
    pub month: u32,
    pub day: u32,
    pub hour: u32,
    pub minute: u32,
    pub second: u32,
}

impl Timestamp {
    /// Field ranges of a calendar date-time whose year has at most four
    /// digits.
    pub open spec fn wf(self) -> bool {
        &&& 0 <= self.year <= 9999
        &&& 1 <= self.month <= 12
        &&& 1 <= self.day <= 31
        &&& self.hour <= 23
        &&& self.minute <= 59
        &&& self.second <= 59
    }
}

/// The decimal digit character for `d`.
pub open spec fn digit_char(d: int) -> char {
    if d == 0 {
        '0'
    } else if d == 1 {
        '1'
    } else if d == 2 {
        '2'
    } else if d == 3 {
        '3'
    } else if d == 4 {
        '4'
    } else if d == 5 {
        '5'
    } else if d == 6 {
        '6'
    } else if d == 7 {
        '7'
    } else if d == 8 {
        '8'
    } else {
        '9'
    }
}

/// A digit character is one of `'0'..='9'`.
pub open spec fn is_digit_char(c: char) -> bool {
    '0' as u32 <= c as u32 <= '9' as u32
}

/// `n` as two decimal digits, zero-padded (for `n < 100`).
pub open spec fn two_digits(n: int) -> Seq<char> {
    seq![digit_char(n / 10), digit_char(n % 10)]
}

/// `n` as four decimal digits, zero-padded (for `n < 10000`).
pub open spec fn four_digits(n: int) -> Seq<char> {
    seq![
        digit_char(n / 1000),
        digit_char((n / 100) % 10),
        digit_char((n / 10) % 10),
        digit_char(n % 10),
    ]
}

/// The 14-digit `YYYYMMDDHHMMSS` form of a timestamp.
pub open spec fn timestamp_digits(ts: Timestamp) -> Seq<char> {
    four_digits(ts.year as int) + two_digits(ts.month as int) + two_digits(ts.day as int)
        + two_digits(ts.hour as int) + two_digits(ts.minute as int) + two_digits(ts.second as int)
}

/// The 14-digit form really is 14 digit characters.
pub proof fn lemma_timestamp_digits_shape(ts: Timestamp)
    requires
        ts.wf(),
    ensures
        timestamp_digits(ts).len() == 14,
        forall|i: int| 0 <= i < 14 ==> is_digit_char(#[trigger] timestamp_digits(ts)[i]),
{
}

/// The one-character string for a decimal digit.
fn digit_str(d: u32) -> (r: &'static str)
    requires
        d < 10,
    ensures
        r@ == seq![digit_char(d as int)],
{
    let s: &'static str = match d {
        0 => "0",
        1 => "1",
        2 => "2",
        3 => "3",
        4 => "4",
        5 => "5",
        6 => "6",
        7 => "7",
        8 => "8",
        _ => "9",
    };
    proof {
        reveal_strlit("0");
        reveal_strlit("1");
        reveal_strlit("2");
        reveal_strlit("3");
        reveal_strlit("4");
        reveal_strlit("5");
        reveal_strlit("6");
        reveal_strlit("7");
        reveal_strlit("8");
        reveal_strlit("9");
        assert(s@ =~= seq![digit_char(d as int)]);
    }
    s
}

/// Format a timestamp as its 14-digit `YYYYMMDDHHMMSS` string.
pub fn format_timestamp(ts: &Timestamp) -> (r: String)
    requires
        ts.wf(),
    ensures
        r@ == timestamp_digits(*ts),
        r@.len() == 14,
{
    let y: u32 = ts.year as u32;
    let mut out = String::new();
    out.append(digit_str(y / 1000));
    out.append(digit_str((y / 100) % 10));
    out.append(digit_str((y / 10) % 10));
    out.append(digit_str(y % 10));
    out.append(digit_str(ts.month / 10));
    out.append(digit_str(ts.month % 10));
    out.append(digit_str(ts.day / 10));
    out.append(digit_str(ts.day % 10));
    out.append(digit_str(ts.hour / 10));
    out.append(digit_str(ts.hour % 10));
    out.append(digit_str(ts.minute / 10));
    out.append(digit_str(ts.minute % 10));
    out.append(digit_str(ts.second / 10));
    out.append(digit_str(ts.second % 10));
    proof {
        assert(out@ =~= timestamp_digits(*ts));
    }
    out
}

/// Relies on `std::time::SystemTime::now` and on chrono's
/// `DateTime::from_timestamp` with its `Datelike` / `Timelike`
/// accessors: the current UTC time split into calendar fields, or
/// `None` when the system clock reads before the Unix epoch or beyond
/// chrono's representable range - so the read is total and cannot
/// panic. Chrono documents month in 1..=12, day in 1..=31, hour in
/// 0..=23, and minute and second in 0..=59; nothing is promised of the
/// year, which depends on the machine's clock.
#[verifier::external_body]
pub(crate) fn now_utc_parts() -> (r: Option<Timestamp>)
    ensures
        r matches Some(ts) ==> 1 <= ts.month <= 12 && 1 <= ts.day <= 31 && ts.hour <= 23
            && ts.minute <= 59 && ts.second <= 59,
{
    let since_epoch =
        std::time::SystemTime::now().duration_since(std::time::UNIX_EPOCH).ok()?;
    let secs = i64::try_from(since_epoch.as_secs()).ok()?;
    let now = chrono::DateTime::<chrono::Utc>::from_timestamp(secs, since_epoch.subsec_nanos())?;
    let (year, month, day) = (now.year(), now.month(), now.day());
    let (hour, minute, second) = (now.hour(), now.minute(), now.second());
    Some(Timestamp { year, month, day, hour, minute, second })
}

} // verus!
