//! The name of a day's rclone log file, `rclone-YYYYMMDD.log`.
use vstd::prelude::*;
use crate::text::{decimal, zero_padded, push_char, push_padded};

verus! {

/// A day of the proleptic Gregorian calendar.
#[derive(Debug, Clone, Copy, PartialEq, Eq)]
pub struct CalendarDate {
    pub year: i32,
    pub month: u32,
    pub day: u32,
}

/// The year as `%Y` writes it: four digits at least, zero-padded, with a sign in front
/// only outside 0 to 9999.
pub open spec fn year_text(year: int) -> Seq<char> {
    if 0 <= year <= 9999 {
        zero_padded(decimal(year as nat), 4)
    } else if year < 0 {
        seq!['-'] + zero_padded(decimal((-year) as nat), 4)
    } else {
        seq!['+'] + zero_padded(decimal(year as nat), 4)
    }
}

/// The date as `%Y%m%d` writes it.
pub open spec fn date_stamp(d: CalendarDate) -> Seq<char> {
    year_text(d.year as int) + zero_padded(decimal(d.month as nat), 2) + zero_padded(decimal(d.day as nat), 2)
}

/// The name of the rclone log file of day `d`.
pub open spec fn log_file_name_spec(d: CalendarDate) -> Seq<char> {
    "rclone-"@ + date_stamp(d) + ".log"@
}

/// The date written as `%Y%m%d`.
pub fn date_stamp_text(d: CalendarDate) -> (r: String)
    ensures
        r@ == date_stamp(d),
{
    let mut r = String::new();
    if 0 <= d.year && d.year <= 9999 {
        push_padded(&mut r, d.year as u64, 4);
    } else if d.year < 0 {
        push_char(&mut r, '-');
        let magnitude: u64 = (0i64 - d.year as i64) as u64;
        push_padded(&mut r, magnitude, 4);
    } else {
        push_char(&mut r, '+');
        push_padded(&mut r, d.year as u64, 4);
    }
    push_padded(&mut r, d.month as u64, 2);
    push_padded(&mut r, d.day as u64, 2);
    assert(r@ =~= date_stamp(d));
    r
}

/// The name of the rclone log file of day `d`.
pub fn log_file_name_for(d: CalendarDate) -> (r: String)
    ensures
        r@ == log_file_name_spec(d),
{
    let mut r = String::from_str("rclone-");
    let stamp = date_stamp_text(d);
    r.append(stamp.as_str());
    r.append(".log");
    assert(r@ =~= log_file_name_spec(d));
    r
}

} // verus!
