use vstd::prelude::*;

verus! {

/// A time of day, as hours, minutes, seconds and nanoseconds.
#[derive(Clone, Copy, Debug, PartialEq, Eq, Structural)]
pub struct TimeOfDay {
    pub hour: i8,
    pub minute: i8,
    pub second: i8,
    pub nanosecond: i32,
}

impl TimeOfDay {
    pub open spec fn wf(self) -> bool {
        &&& 0 <= self.hour < 24
        &&& 0 <= self.minute < 60
        &&& 0 <= self.second < 60
        &&& 0 <= self.nanosecond < 1_000_000_000
    }
}

/// A wall-clock date and time with no time zone attached, between the
/// years -9999 and 9999.
#[derive(Clone, Copy, Debug, PartialEq, Eq, Structural)]
pub struct Stamp {
    pub year: i16,
    pub month: i8,
    pub day: i8,
    pub hour: i8,
    pub minute: i8,
    pub second: i8,
    pub nanosecond: i32,
}

pub open spec fn is_leap_year(y: int) -> bool {
    (y % 4 == 0 && y % 100 != 0) || y % 400 == 0
}

pub open spec fn days_in_month(y: int, m: int) -> int {
    if m == 2 {
        if is_leap_year(y) { 29 } else { 28 }
    } else if m == 4 || m == 6 || m == 9 || m == 11 {
        30
    } else {
        31
    }
}

fn month_length(y: i16, m: i8) -> (r: i8)
    requires
        -9999 <= y <= 9999,
        1 <= m <= 12,
    ensures
        r == days_in_month(y as int, m as int),
{
    if m == 2 {
        // shifting by a multiple of 400 keeps the rule and makes the year positive
        let p: i32 = y as i32 + 10000;
        assert(p % 4 == (y as int) % 4 && p % 100 == (y as int) % 100 && p % 400 == (y as int) % 400);
        if (p % 4 == 0 && p % 100 != 0) || p % 400 == 0 {
            29
        } else {
            28
        }
    } else if m == 4 || m == 6 || m == 9 || m == 11 {
        30
    } else {
        31
    }
}

impl Stamp {
    pub open spec fn wf(self) -> bool {
        &&& -9999 <= self.year <= 9999
        &&& 1 <= self.month <= 12
        &&& 1 <= self.day <= days_in_month(self.year as int, self.month as int)
        &&& self.time_of_day().wf()
    }

    pub open spec fn time_of_day(self) -> TimeOfDay {
        TimeOfDay {
            hour: self.hour,
            minute: self.minute,
            second: self.second,
            nanosecond: self.nanosecond,
        }
    }

    /// The same date at another time of day.
    pub open spec fn at_spec(self, t: TimeOfDay) -> Stamp {
        Stamp { hour: t.hour, minute: t.minute, second: t.second, nanosecond: t.nanosecond, ..self }
    }

    /// Chronological order: `self` is not later than `o`.
    pub open spec fn not_after(self, o: Stamp) -> bool {
        if self.year != o.year {
            self.year < o.year
        } else if self.month != o.month {
            self.month < o.month
        } else if self.day != o.day {
            self.day < o.day
        } else if self.hour != o.hour {
            self.hour < o.hour
        } else if self.minute != o.minute {
            self.minute < o.minute
        } else if self.second != o.second {
            self.second < o.second
        } else {
            self.nanosecond <= o.nanosecond
        }
    }

    /// The same wall-clock time one day earlier, which is 24 hours earlier on
    /// a clock without a time zone; `None` before the first representable day.
    pub open spec fn day_before_spec(self) -> Option<Stamp> {
        if self.day > 1 {
            Some(Stamp { day: (self.day - 1) as i8, ..self })
        } else if self.month > 1 {
            Some(Stamp {
                month: (self.month - 1) as i8,
                day: days_in_month(self.year as int, self.month - 1) as i8,
                ..self
            })
        } else if self.year > -9999 {
            Some(Stamp { year: (self.year - 1) as i16, month: 12, day: 31, ..self })
        } else {
            None
        }
    }

    /// The same wall-clock time one day later; `None` after the last
    /// representable day.
    pub open spec fn day_after_spec(self) -> Option<Stamp> {
        if self.day < days_in_month(self.year as int, self.month as int) {
            Some(Stamp { day: (self.day + 1) as i8, ..self })
        } else if self.month < 12 {
            Some(Stamp { month: (self.month + 1) as i8, day: 1, ..self })
        } else if self.year < 9999 {
            Some(Stamp { year: (self.year + 1) as i16, month: 1, day: 1, ..self })
        } else {
            None
        }
    }

    /// The start of the minute after the one that `self` lies in.
    pub open spec fn next_minute_spec(self) -> Option<Stamp> {
        let start = Stamp { second: 0, nanosecond: 0, ..self };
        if self.minute < 59 {
            Some(Stamp { minute: (self.minute + 1) as i8, ..start })
        } else if self.hour < 23 {
            Some(Stamp { hour: (self.hour + 1) as i8, minute: 0, ..start })
        } else {
            match start.day_after_spec() {
                Some(d) => Some(Stamp { hour: 0, minute: 0, ..d }),
                None => None,
            }
        }
    }

    /// The nearest whole minute, half a minute rounding up; `None` where
    /// that passes the last representable minute.
    pub open spec fn round_minute_spec(self) -> Option<Stamp> {
        if self.second < 30 {
            Some(Stamp { second: 0, nanosecond: 0, ..self })
        } else {
            self.next_minute_spec()
        }
    }

    pub fn at(&self, t: TimeOfDay) -> (r: Stamp)
        ensures
            r == self.at_spec(t),
            self.wf() && t.wf() ==> r.wf(),
    {
        Stamp { hour: t.hour, minute: t.minute, second: t.second, nanosecond: t.nanosecond, ..*self }
    }

    pub fn is_not_after(&self, o: &Stamp) -> (r: bool)
        ensures
            r == self.not_after(*o),
    {
        if self.year != o.year {
            self.year < o.year
        } else if self.month != o.month {
            self.month < o.month
        } else if self.day != o.day {
            self.day < o.day
        } else if self.hour != o.hour {
            self.hour < o.hour
        } else if self.minute != o.minute {
            self.minute < o.minute
        } else if self.second != o.second {
            self.second < o.second
        } else {
            self.nanosecond <= o.nanosecond
        }
    }

    pub fn day_before(&self) -> (r: Option<Stamp>)
        requires
            self.wf(),
        ensures
            r == self.day_before_spec(),
            r matches Some(p) ==> p.wf() && p.not_after(*self) && p != *self,
    {
        if self.day > 1 {
            Some(Stamp { day: self.day - 1, ..*self })
        } else if self.month > 1 {
            let m = self.month - 1;
            Some(Stamp { month: m, day: month_length(self.year, m), ..*self })
        } else if self.year > -9999 {
            Some(Stamp { year: self.year - 1, month: 12, day: 31, ..*self })
        } else {
            None
        }
    }
}

} // verus!
