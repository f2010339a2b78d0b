use vstd::prelude::*;

verus! {

/// Largest absolute day number a well-formed `Date` may carry. The calendar
/// library that produces day numbers covers roughly the years -262143 to
/// 262142, i.e. values well under 100 million days away from the common era;
/// keeping an explicit bound lets every piece of date arithmetic in the
/// crate stay comfortably within `i64`.
pub const MAX_DAY_NUMBER: i64 = 100_000_000;

/// A calendar date, held as the signed number of days since the start of the
/// common era (day number 1 is 0001-01-01). Dates are compared and
/// subtracted as plain integers; conversion from a year/month/day triple is
/// delegated to the calendar library behind `Date::from_ymd`.
#[derive(Clone, Copy, PartialEq, Eq, Structural, Debug)]
pub struct Date {
    pub days: i64,
}

/// The day number the calendar library computes for a valid year/month/day
/// triple; a pure function of the triple.
pub uninterp spec fn day_number_of_ymd(year: int, month: int, day: int) -> int;

impl Date {
    /// A date the rest of the crate can do arithmetic on without overflow.
    pub open spec fn wf(self) -> bool {
        -MAX_DAY_NUMBER <= self.days <= MAX_DAY_NUMBER
    }

    /// Relies on `chrono::NaiveDate::from_ymd_opt` to validate the calendar
    /// triple (`None` exactly on out-of-range or non-existent dates) and on
    /// `chrono::Datelike::num_days_from_ce` for the day number; chrono's
    /// dates span roughly the years ±262,143, so the resulting day number
    /// lies far below `MAX_DAY_NUMBER`.
    #[verifier::external_body]
    pub fn from_ymd(year: i32, month: u32, day: u32) -> (r: Option<Date>)
        ensures
            r matches Some(d) ==> d.days == day_number_of_ymd(
                year as int,
                month as int,
                day as int,
            ) && d.wf(),
    {
        match chrono::NaiveDate::from_ymd_opt(year, month, day) {
            Some(nd) => Some(Date { days: chrono::Datelike::num_days_from_ce(&nd) as i64 }),
            None => None,
        }
    }
}

/// A moment in time, held as microseconds since the Unix epoch. Creation
/// timestamps are recorded on every entity but carry no logic.
#[derive(Clone, Copy, PartialEq, Eq, Structural, Debug)]
pub struct Timestamp {
    pub micros: i64,
}

/// Relies on `chrono::Utc::now` and `DateTime::timestamp_micros` for the
/// current wall-clock time; nothing is assumed about the value.
#[verifier::external_body]
pub(crate) fn now_timestamp() -> (r: Timestamp) {
    Timestamp { micros: chrono::Utc::now().timestamp_micros() }
}

} // verus!
