use vstd::prelude::*;

verus! {

/// A (day, month) pair that is not on the calendar table.
#[derive(Clone, Copy, Debug, PartialEq, Eq, Structural)]
pub struct InvalidDate {
    pub day: u8,
    pub month: u8,
}

/// Days in each month, with February always allowed 29 days: there is no
/// year to decide leap years by.
pub open spec fn days_in_month(month: int) -> int {
    if month == 2 {
        29
    } else if month == 4 || month == 6 || month == 9 || month == 11 {
        30
    } else if 1 <= month <= 12 {
        31
    } else {
        0
    }
}

/// A day/month pair is a valid birthday when the month is 1 to 12 and the
/// day lies between 1 and the number of days of that month.
pub open spec fn valid_date(day: int, month: int) -> bool {
    1 <= month <= 12 && 1 <= day <= days_in_month(month)
}

/// Checks a (day, month) pair against the calendar table.
pub fn validate_date_for_birthday(day: u8, month: u8) -> (r: Result<(), InvalidDate>)
    ensures
        r is Ok <==> valid_date(day as int, month as int),
        r is Err ==> r == Err::<(), InvalidDate>(InvalidDate { day, month }),
{
    let long_month = month == 1 || month == 3 || month == 5 || month == 7 || month == 8
        || month == 10 || month == 12;
    let short_month = month == 4 || month == 6 || month == 9 || month == 11;
    if long_month && day > 0 && day <= 31 {
        Ok(())
    } else if short_month && day > 0 && day <= 30 {
        Ok(())
    } else if month == 2 && day > 0 && day <= 29 {
        Ok(())
    } else {
        Err(InvalidDate { day, month })
    }
}

} // verus!
