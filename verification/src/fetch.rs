//! The computed half of the schedule fetch: the upstream listing URL
//! and the period filter stamps that scope one request to a week window.
//! The HTTP call itself is the surrounding application's concern.

use crate::date::Date;
use crate::text::{
    dec_digits, dec_four_digits, dec_two_digits, push_four_digits, push_two_digits, push_u64,
};
use vstd::prelude::*;
use vstd::string::StringExecFns;

verus! {

/// `{year:04}-{month:02}-{day:02}`: the ISO rendering of a date.
pub open spec fn date_text(d: Date) -> Seq<char> {
    dec_four_digits(d.year as int) + "-"@ + dec_two_digits(d.month as int) + "-"@
        + dec_two_digits(d.day as int)
}

pub fn format_date(d: &Date) -> (s: String)
    ensures
        s@ == date_text(*d),
{
    let mut s: String = String::new();
    push_four_digits(&mut s, d.year as u64);
    s.append("-");
    push_two_digits(&mut s, d.month as u64);
    s.append("-");
    push_two_digits(&mut s, d.day as u64);
    proof {
        assert(s@ =~= date_text(*d));
    }
    s
}

/// The upstream listing URL for one tenant and business unit.
pub open spec fn schedule_url_text(subdomain: Seq<char>, business_unit: int) -> Seq<char> {
    "https://"@ + subdomain + ".brpsystems.com/brponline/api/ver3/businessunits/"@ + dec_digits(
        business_unit,
    ) + "/groupactivities"@
}

pub fn schedule_url(subdomain: &str, business_unit: u32) -> (s: String)
    ensures
        s@ == schedule_url_text(subdomain@, business_unit as int),
{
    let mut s: String = String::new();
    s.append("https://");
    s.append(subdomain);
    s.append(".brpsystems.com/brponline/api/ver3/businessunits/");
    push_u64(&mut s, business_unit as u64);
    s.append("/groupactivities");
    proof {
        assert(s@ =~= schedule_url_text(subdomain@, business_unit as int));
    }
    s
}

/// `{date}T00:00:00.000Z`: the period filter's start, the window's first day
/// at midnight UTC.
pub open spec fn period_start_text(d: Date) -> Seq<char> {
    date_text(d) + "T00:00:00.000Z"@
}

/// `{date}T23:59:59.999Z`: the period filter's end, inclusive of the window's
/// whole last day.
pub open spec fn period_end_text(d: Date) -> Seq<char> {
    date_text(d) + "T23:59:59.999Z"@
}

pub fn period_start_param(d: &Date) -> (s: String)
    ensures
        s@ == period_start_text(*d),
{
    let mut s: String = format_date(d);
    s.append("T00:00:00.000Z");
    s
}

pub fn period_end_param(d: &Date) -> (s: String)
    ensures
        s@ == period_end_text(*d),
{
    let mut s: String = format_date(d);
    s.append("T23:59:59.999Z");
    s
}

} // verus!
