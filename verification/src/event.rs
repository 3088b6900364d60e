use vstd::prelude::*;

verus! {

/// A named event on a calendar date.
#[derive(Debug)]
pub struct Event {
    pub name: String,
    pub month: u8,
    pub day: u8,
    pub year: u32,
}

/// Whether two events fall on the same date.
pub open spec fn same_date(a: &Event, b: &Event) -> bool {
    a.month == b.month && a.day == b.day && a.year == b.year
}

/// Falling on the same date is symmetric, and every event conflicts with itself.
pub proof fn same_date_symmetric(a: &Event, b: &Event)
    ensures
        same_date(a, b) == same_date(b, a),
        same_date(a, a),
{
}

/// Events conflict exactly when they share month, day and year: events in
/// different months, on different days or in different years never conflict.
pub proof fn conflict_needs_same_month_day_year(a: &Event, b: &Event)
    ensures
        a.month != b.month ==> !same_date(a, b),
        a.day != b.day ==> !same_date(a, b),
        a.year != b.year ==> !same_date(a, b),
        a.month == b.month && a.day == b.day && a.year == b.year ==> same_date(a, b),
{
}

/// Moving an event one day later ends its conflict with an event on its old
/// date, and keeps its month and year.
pub proof fn moved_event_leaves_old_date(before: &Event, after: &Event, other: &Event)
    requires
        after.day == before.day + 1,
        after.month == before.month,
        after.year == before.year,
        same_date(before, other),
    ensures
        !same_date(after, other),
{
}

impl Event {
    /// An event with the given name and date.
    pub fn new(name: String, month: u8, day: u8, year: u32) -> (e: Event)
        ensures
            e.name == name,
            e.month == month,
            e.day == day,
            e.year == year,
    {
        Event { name, month, day, year }
    }

    /// Whether the two events fall on the same date.
    pub fn has_conflict(&self, event: &Event) -> (r: bool)
        ensures
            r == same_date(self, event),
    {
        self.month == event.month && self.day == event.day && self.year == event.year
    }

    /// Moves the event one day later; the date must not be the last day of
    /// its month.
    pub fn update_event(&mut self)
        requires
            old(self).day < u8::MAX,
        ensures
            final(self).day == old(self).day + 1,
            final(self).month == old(self).month,
            final(self).year == old(self).year,
            final(self).name == old(self).name,
    {
        self.day = self.day + 1;
    }
}

} // verus!
