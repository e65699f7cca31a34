//! ISO week windows: the Monday–Sunday span and ISO (year, week) pair of the
//! week containing a reference date, and of the week after it.

use crate::date::{
    day_number_limit, days_before_year_num, from_day_number, iso_week_of, iso_year_of,
    lemma_days_before_year_bounds, lemma_week_start_idempotent, lemma_week_start_shift,
    week_start_of, Date,
};
use vstd::arithmetic::div_mod::lemma_mod_bound;
use vstd::prelude::*;

verus! {

/// One calendar week under the ISO 8601 numbering, with its date span.
#[derive(Clone, Copy, PartialEq, Eq, Structural, Debug)]
pub struct IsoWeekWindow {
    pub year: u32,
    pub week: u32,
    pub start: Date,
    pub end: Date,
}

impl IsoWeekWindow {
    pub open spec fn wf(self) -> bool {
        &&& self.start.wf()
        &&& self.end.wf()
        &&& self.start.spec_day_number() % 7 == 0
        &&& self.end.spec_day_number() == self.start.spec_day_number() + 6
        &&& self.year == iso_year_of(self.start.spec_day_number())
        &&& self.week == iso_week_of(self.start.spec_day_number())
        &&& 1 <= self.year <= 9999
        &&& 1 <= self.week <= 53
    }

    pub open spec fn spec_contains(self, d: Date) -> bool {
        self.start.spec_day_number() <= d.spec_day_number() <= self.end.spec_day_number()
    }
}

/// The ISO week window containing `d`: its start is always a Monday, its end
/// the Sunday six days later, and `d` lies between the two.
pub fn week_window_of(d: &Date) -> (w: IsoWeekWindow)
    requires
        d.wf(),
        d.spec_day_number() + 6 < day_number_limit(),
    ensures
        w.wf(),
        w.start.spec_day_number() == week_start_of(d.spec_day_number()),
        w.spec_contains(*d),
        w.year == iso_year_of(d.spec_day_number()),
        w.week == iso_week_of(d.spec_day_number()),
{
    let n: u32 = d.day_number();
    proof {
        lemma_mod_bound(n as int, 7);
        lemma_week_start_idempotent(n as int);
        lemma_days_before_year_bounds(10000);
    }
    let ws: u32 = n - n % 7;
    let start: Date = from_day_number(ws);
    let end: Date = from_day_number(ws + 6);
    let (year, week): (u32, u32) = start.iso_year_week();
    IsoWeekWindow { year, week, start, end }
}

/// The window of the reference date itself — "this week".
pub fn get_current_iso_week(today: &Date) -> (w: IsoWeekWindow)
    requires
        today.wf(),
        today.spec_day_number() + 6 < day_number_limit(),
    ensures
        w.wf(),
        w.start.spec_day_number() == week_start_of(today.spec_day_number()),
        w.spec_contains(*today),
        w.year == iso_year_of(today.spec_day_number()),
        w.week == iso_week_of(today.spec_day_number()),
{
    week_window_of(today)
}

/// The window of the date seven days ahead — "next week".  Its start is
/// exactly seven days past the current window's start, so the two windows
/// never overlap.
pub fn get_next_iso_week(today: &Date) -> (w: IsoWeekWindow)
    requires
        today.wf(),
        today.spec_day_number() + 13 < day_number_limit(),
    ensures
        w.wf(),
        w.start.spec_day_number() == week_start_of(today.spec_day_number()) + 7,
        w.start.spec_day_number() <= today.spec_day_number() + 7 <= w.end.spec_day_number(),
        w.year == iso_year_of(today.spec_day_number() + 7),
        w.week == iso_week_of(today.spec_day_number() + 7),
{
    let next: Date = today.add_days(7);
    let w: IsoWeekWindow = week_window_of(&next);
    proof {
        lemma_week_start_shift(today.spec_day_number());
    }
    w
}

/// Whether the windows of `d` and of the week after fit in the representable
/// date range; the surrounding application tests this before asking for them.
pub fn window_computable(d: &Date) -> (b: bool)
    requires
        d.wf(),
    ensures
        b == (d.spec_day_number() + 13 < day_number_limit()),
{
    proof {
        lemma_days_before_year_bounds(10000);
    }
    let limit: u32 = days_before_year_num(10000);
    let n: u32 = d.day_number();
    n + 13 < limit
}

} // verus!
