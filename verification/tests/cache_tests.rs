use rezervo_cache::cache::{
    class_entry, class_key, format_iso_week, plan_window_writes, week_entry, week_key,
    CacheValue, CACHE_TTL_SECONDS,
};
use rezervo_cache::date::{from_ymd, Date};
use rezervo_cache::fetch::{period_end_param, period_start_param, schedule_url};
use rezervo_cache::schedule::{FilteredClass, OpaqueValue, RawRecord, ScheduleError};
use rezervo_cache::window::{get_current_iso_week, get_next_iso_week, week_window_of};

fn date(y: u32, m: u32, d: u32) -> Date {
    from_ymd(y, m, d).expect("valid date")
}

fn opaque(s: &str) -> OpaqueValue {
    OpaqueValue { text: s.to_string() }
}

fn class(id: i64, name: &str) -> FilteredClass {
    FilteredClass {
        id,
        name: name.to_string(),
        bookable_earliest: "2024-01-01T08:00:00.000Z".to_string(),
        bookable_latest: "2024-01-08T08:00:00.000Z".to_string(),
        duration: opaque("{\"start\":\"2024-01-08T09:00\",\"end\":\"2024-01-08T10:00\"}"),
        group_activity_product: opaque("{\"id\":101}"),
        business_unit: opaque("{\"id\":42}"),
        locations: vec![opaque("{\"id\":7}")],
        instructors: vec![],
        external_message: Some("bring a towel".to_string()),
        cancelled: false,
        slots: opaque("{\"total\":20}"),
    }
}

fn complete_record(id: i64, name: &str) -> RawRecord {
    RawRecord {
        id: Some(id),
        has_bookable_earliest: true,
        has_bookable_latest: true,
        class: Some(class(id, name)),
    }
}

fn partial_record(id: i64, has_earliest: bool, has_latest: bool) -> RawRecord {
    RawRecord {
        id: Some(id),
        has_bookable_earliest: has_earliest,
        has_bookable_latest: has_latest,
        class: None,
    }
}

#[test]
fn week_key_shape() {
    assert_eq!(week_key("sats", 42, 2024, 1), "schedule:sats:42:2024-W01");
    assert_eq!(week_key("gym", 7, 2020, 53), "schedule:gym:7:2020-W53");
}

#[test]
fn class_key_shape() {
    assert_eq!(class_key("sats", 42, 5), "class:sats:42:5");
    assert_eq!(class_key("sats", 42, 123456789012), "class:sats:42:123456789012");
    assert_eq!(class_key("sats", 42, -5), "class:sats:42:-5");
}

#[test]
fn iso_week_label_is_zero_padded() {
    assert_eq!(format_iso_week(2024, 1), "2024-W01");
    assert_eq!(format_iso_week(2024, 40), "2024-W40");
    assert_eq!(format_iso_week(500, 9), "500-W09");
}

#[test]
fn upstream_url_shape() {
    assert_eq!(
        schedule_url("sats", 1),
        "https://sats.brpsystems.com/brponline/api/ver3/businessunits/1/groupactivities"
    );
}

#[test]
fn period_params_cover_the_whole_window() {
    let w = week_window_of(&date(2024, 1, 3));
    assert_eq!(period_start_param(&w.start), "2024-01-01T00:00:00.000Z");
    assert_eq!(period_end_param(&w.end), "2024-01-07T23:59:59.999Z");
    // Years below 1000 keep four digits, as the upstream expects.
    assert_eq!(period_start_param(&date(987, 6, 5)), "0987-06-05T00:00:00.000Z");
}

#[test]
fn entries_always_carry_the_seven_day_ttl() {
    assert_eq!(CACHE_TTL_SECONDS, 604800);
    let w = week_entry("sats", 42, 2024, 1, vec![class(5, "Yoga")]);
    assert_eq!(w.ttl_seconds, 604800);
    let c = class_entry("sats", 42, class(5, "Yoga"));
    assert_eq!(c.ttl_seconds, 604800);
}

#[test]
fn scenario_plans_one_snapshot_and_two_class_writes() {
    // Window Monday 2024-01-01 .. Sunday 2024-01-07; upstream ids [5, 5, 7, 9].
    let window = get_current_iso_week(&date(2024, 1, 1));
    let records = vec![
        complete_record(5, "Yoga"),
        partial_record(5, true, false),
        partial_record(7, false, true),
        complete_record(9, "Spin"),
    ];
    let entries = plan_window_writes("sats", 42, &window, Ok(records)).expect("planned");
    assert_eq!(entries.len(), 3);
    assert_eq!(entries[0].key, "schedule:sats:42:2024-W01");
    match &entries[0].value {
        CacheValue::WeekSnapshot(classes) => {
            let ids: Vec<i64> = classes.iter().map(|c| c.id).collect();
            assert_eq!(ids, vec![5, 9]);
        },
        other => panic!("expected a week snapshot, got {:?}", other),
    }
    assert_eq!(entries[1].key, "class:sats:42:5");
    assert_eq!(entries[2].key, "class:sats:42:9");
    match &entries[1].value {
        CacheValue::SingleClass(c) => assert_eq!((c.id, c.name.as_str()), (5, "Yoga")),
        other => panic!("expected a single class, got {:?}", other),
    }
    match &entries[2].value {
        CacheValue::SingleClass(c) => assert_eq!((c.id, c.name.as_str()), (9, "Spin")),
        other => panic!("expected a single class, got {:?}", other),
    }
    for e in &entries {
        assert_eq!(e.ttl_seconds, 604800);
    }
}

#[test]
fn failed_fetch_aborts_the_window_with_no_writes() {
    let today = date(2024, 1, 3);
    let current = get_current_iso_week(&today);
    let next = get_next_iso_week(&today);
    // The current window's successful processing is unaffected...
    let current_entries =
        plan_window_writes("sats", 42, &current, Ok(vec![complete_record(5, "Yoga")]))
            .expect("planned");
    assert_eq!(current_entries.len(), 2);
    // ...while the next window's failed fetch plans nothing and surfaces the
    // fatal error.
    let planned = plan_window_writes("sats", 42, &next, Err(ScheduleError::FetchFailed));
    assert_eq!(planned, Err(ScheduleError::FetchFailed));
}

#[test]
fn empty_window_still_plans_its_snapshot() {
    let window = get_current_iso_week(&date(2024, 1, 1));
    let entries = plan_window_writes("sats", 42, &window, Ok(vec![])).expect("planned");
    assert_eq!(entries.len(), 1);
    assert_eq!(entries[0].key, "schedule:sats:42:2024-W01");
    match &entries[0].value {
        CacheValue::WeekSnapshot(classes) => assert!(classes.is_empty()),
        other => panic!("expected a week snapshot, got {:?}", other),
    }
}
