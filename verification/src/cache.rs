//! The cache writer's computed half: the two key families, the fixed
//! time-to-live, and the full write plan of one window — the week snapshot
//! entry followed by one entry per class.  The store call itself is the
//! surrounding application's concern.

use crate::schedule::{
    class_eq, filter_schedule, filter_spec, FilteredClass, OpaqueValue, RawRecord, ScheduleError,
};
use crate::text::{dec_digits, dec_int, dec_two_digits, push_i64, push_two_digits, push_u64};
use crate::window::IsoWeekWindow;
use vstd::prelude::*;
use vstd::string::StringExecFns;

verus! {

/// Every cache entry lives exactly seven days.
pub const CACHE_TTL_SECONDS: u64 = 604800;

/// Week snapshot key: `schedule:{subdomain}:{businessUnit}:{isoYear}-W{isoWeek:02}`.
pub open spec fn week_key_text(
    subdomain: Seq<char>,
    business_unit: int,
    year: int,
    week: int,
) -> Seq<char> {
    "schedule:"@ + subdomain + ":"@ + dec_digits(business_unit) + ":"@ + dec_digits(year) + "-W"@
        + dec_two_digits(week)
}

/// Per-class key: `class:{subdomain}:{businessUnit}:{classId}`.
pub open spec fn class_key_text(subdomain: Seq<char>, business_unit: int, class_id: int) -> Seq<
    char,
> {
    "class:"@ + subdomain + ":"@ + dec_digits(business_unit) + ":"@ + dec_int(class_id)
}

/// `{isoYear}-W{isoWeek:02}`: the label a window is keyed and reported by.
pub fn format_iso_week(year: u32, week: u32) -> (s: String)
    ensures
        s@ == dec_digits(year as int) + "-W"@ + dec_two_digits(week as int),
{
    let mut s: String = String::new();
    push_u64(&mut s, year as u64);
    s.append("-W");
    push_two_digits(&mut s, week as u64);
    proof {
        assert(s@ =~= dec_digits(year as int) + "-W"@ + dec_two_digits(week as int));
    }
    s
}

pub fn week_key(subdomain: &str, business_unit: u32, year: u32, week: u32) -> (s: String)
    ensures
        s@ == week_key_text(subdomain@, business_unit as int, year as int, week as int),
{
    let mut s: String = String::new();
    s.append("schedule:");
    s.append(subdomain);
    s.append(":");
    push_u64(&mut s, business_unit as u64);
    s.append(":");
    push_u64(&mut s, year as u64);
    s.append("-W");
    push_two_digits(&mut s, week as u64);
    proof {
        assert(s@ =~= week_key_text(subdomain@, business_unit as int, year as int, week as int));
    }
    s
}

pub fn class_key(subdomain: &str, business_unit: u32, class_id: i64) -> (s: String)
    ensures
        s@ == class_key_text(subdomain@, business_unit as int, class_id as int),
{
    let mut s: String = String::new();
    s.append("class:");
    s.append(subdomain);
    s.append(":");
    push_u64(&mut s, business_unit as u64);
    s.append(":");
    push_i64(&mut s, class_id);
    proof {
        assert(s@ =~= class_key_text(subdomain@, business_unit as int, class_id as int));
    }
    s
}

/// The serialized shape a cache entry's value takes.
#[derive(PartialEq, Eq, Debug)]
pub enum CacheValue {
    /// The whole ordered class list of one week.
    WeekSnapshot(Vec<FilteredClass>),
    /// One class on its own.
    SingleClass(FilteredClass),
}

/// A (key, value, TTL) triple to be written to the store.
#[derive(PartialEq, Eq, Debug)]
pub struct CacheEntry {
    pub key: String,
    pub value: CacheValue,
    pub ttl_seconds: u64,
}

fn copy_opaque(v: &OpaqueValue) -> (r: OpaqueValue)
    ensures
        r == *v,
{
    OpaqueValue { text: v.text.clone() }
}

fn copy_opaque_vec(v: &Vec<OpaqueValue>) -> (r: Vec<OpaqueValue>)
    ensures
        r@ == v@,
{
    let mut r: Vec<OpaqueValue> = Vec::new();
    let mut i: usize = 0;
    while i < v.len()
        invariant
            0 <= i <= v.len(),
            r@.len() == i,
            forall|j: int| 0 <= j < i ==> r@[j] == v@[j],
        decreases v.len() - i,
    {
        r.push(copy_opaque(&v[i]));
        i = i + 1;
    }
    proof {
        assert(r@ =~= v@);
    }
    r
}

fn copy_option_string(v: &Option<String>) -> (r: Option<String>)
    ensures
        r == *v,
{
    match v {
        Some(s) => Some(s.clone()),
        None => None,
    }
}

/// A field-for-field copy of a class; the week snapshot and the per-class
/// entry each need their own.
fn copy_class(c: &FilteredClass) -> (r: FilteredClass)
    ensures
        class_eq(r, *c),
{
    FilteredClass {
        id: c.id,
        name: c.name.clone(),
        bookable_earliest: c.bookable_earliest.clone(),
        bookable_latest: c.bookable_latest.clone(),
        duration: copy_opaque(&c.duration),
        group_activity_product: copy_opaque(&c.group_activity_product),
        business_unit: copy_opaque(&c.business_unit),
        locations: copy_opaque_vec(&c.locations),
        instructors: copy_opaque_vec(&c.instructors),
        external_message: copy_option_string(&c.external_message),
        cancelled: c.cancelled,
        slots: copy_opaque(&c.slots),
    }
}

/// The week store's computed part: the snapshot entry of one window.
pub fn week_entry(
    subdomain: &str,
    business_unit: u32,
    year: u32,
    week: u32,
    classes: Vec<FilteredClass>,
) -> (e: CacheEntry)
    ensures
        e.key@ == week_key_text(subdomain@, business_unit as int, year as int, week as int),
        e.value == CacheValue::WeekSnapshot(classes),
        e.ttl_seconds == CACHE_TTL_SECONDS,
{
    CacheEntry {
        key: week_key(subdomain, business_unit, year, week),
        value: CacheValue::WeekSnapshot(classes),
        ttl_seconds: CACHE_TTL_SECONDS,
    }
}

/// The class store's computed part: the entry of one class.
pub fn class_entry(subdomain: &str, business_unit: u32, class: FilteredClass) -> (e: CacheEntry)
    ensures
        e.key@ == class_key_text(subdomain@, business_unit as int, class.id as int),
        e.value == CacheValue::SingleClass(class),
        e.ttl_seconds == CACHE_TTL_SECONDS,
{
    let key: String = class_key(subdomain, business_unit, class.id);
    CacheEntry { key, value: CacheValue::SingleClass(class), ttl_seconds: CACHE_TTL_SECONDS }
}

/// What the write plan of one window must look like: the week snapshot entry
/// first, then one entry per filtered class, in order, every entry carrying
/// the fixed seven-day time-to-live.
pub open spec fn plan_matches(
    subdomain: Seq<char>,
    business_unit: int,
    window: IsoWeekWindow,
    classes: Seq<FilteredClass>,
    entries: Seq<CacheEntry>,
) -> bool {
    &&& entries.len() == classes.len() + 1
    &&& entries[0].key@ == week_key_text(
        subdomain,
        business_unit,
        window.year as int,
        window.week as int,
    )
    &&& entries[0].value is WeekSnapshot
    &&& entries[0].value->WeekSnapshot_0@ == classes
    &&& forall|k: int|
        0 <= k < classes.len() ==> {
            let e = #[trigger] entries[k + 1];
            &&& e.key@ == class_key_text(subdomain, business_unit, classes[k].id as int)
            &&& e.value is SingleClass
            &&& class_eq(e.value->SingleClass_0, classes[k])
        }
    &&& forall|k: int|
        0 <= k < entries.len() ==> (#[trigger] entries[k]).ttl_seconds == CACHE_TTL_SECONDS
}

/// One window's pipeline after its fetch: a failed fetch aborts the window
/// with no write planned; a successful one has its records filtered and
/// every cache write laid out.
pub fn plan_window_writes(
    subdomain: &str,
    business_unit: u32,
    window: &IsoWeekWindow,
    fetch: Result<Vec<RawRecord>, ScheduleError>,
) -> (r: Result<Vec<CacheEntry>, ScheduleError>)
    ensures
        fetch is Err ==> r == Result::<Vec<CacheEntry>, ScheduleError>::Err(fetch->Err_0),
        fetch is Ok ==> r is Ok && plan_matches(
            subdomain@,
            business_unit as int,
            *window,
            filter_spec(fetch->Ok_0@),
            r->Ok_0@,
        ),
{
    match fetch {
        Result::Err(e) => Result::Err(e),
        Result::Ok(records) => {
            let classes: Vec<FilteredClass> = filter_schedule(records);
            let mut class_entries: Vec<CacheEntry> = Vec::new();
            let mut i: usize = 0;
            while i < classes.len()
                invariant
                    0 <= i <= classes.len(),
                    class_entries@.len() == i,
                    forall|k: int|
                        0 <= k < i ==> {
                            let e = #[trigger] class_entries@[k];
                            &&& e.key@ == class_key_text(
                                subdomain@,
                                business_unit as int,
                                classes@[k].id as int,
                            )
                            &&& e.value is SingleClass
                            &&& class_eq(e.value->SingleClass_0, classes@[k])
                            &&& e.ttl_seconds == CACHE_TTL_SECONDS
                        },
                decreases classes.len() - i,
            {
                let c: FilteredClass = copy_class(&classes[i]);
                let e: CacheEntry = class_entry(subdomain, business_unit, c);
                class_entries.push(e);
                i = i + 1;
            }
            let week: CacheEntry = week_entry(
                subdomain,
                business_unit,
                window.year,
                window.week,
                classes,
            );
            let mut entries: Vec<CacheEntry> = Vec::new();
            entries.push(week);
            let mut rest: Vec<CacheEntry> = class_entries;
            entries.append(&mut rest);
            Result::Ok(entries)
        },
    }
}

} // verus!
