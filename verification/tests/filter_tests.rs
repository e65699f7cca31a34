use rezervo_cache::schedule::{filter_schedule, FilteredClass, OpaqueValue, RawRecord};

fn opaque(s: &str) -> OpaqueValue {
    OpaqueValue { text: s.to_string() }
}

fn class(id: i64, name: &str) -> FilteredClass {
    FilteredClass {
        id,
        name: name.to_string(),
        bookable_earliest: "2024-01-01T08:00:00.000Z".to_string(),
        bookable_latest: "2024-01-08T08:00:00.000Z".to_string(),
        duration: opaque("{\"start\":\"2024-01-08T09:00\",\"end\":\"2024-01-08T10:00\"}"),
        group_activity_product: opaque("{\"id\":101}"),
        business_unit: opaque("{\"id\":42}"),
        locations: vec![opaque("{\"id\":7}")],
        instructors: vec![opaque("{\"id\":3}")],
        external_message: None,
        cancelled: false,
        slots: opaque("{\"total\":20,\"left\":5}"),
    }
}

fn complete_record(id: i64, name: &str) -> RawRecord {
    RawRecord {
        id: Some(id),
        has_bookable_earliest: true,
        has_bookable_latest: true,
        class: Some(class(id, name)),
    }
}

/// A record whose booking-bound fields are partly absent; such a record does
/// not decode into the class shape either.
fn partial_record(id: i64, has_earliest: bool, has_latest: bool) -> RawRecord {
    RawRecord {
        id: Some(id),
        has_bookable_earliest: has_earliest,
        has_bookable_latest: has_latest,
        class: None,
    }
}

/// Upstream ids [5, 5, 7, 9], where 5's first occurrence is complete, 5's
/// second lacks bookableLatest, 7 lacks bookableEarliest and 9 is complete.
fn scenario_records() -> Vec<RawRecord> {
    vec![
        complete_record(5, "Yoga"),
        partial_record(5, true, false),
        partial_record(7, false, true),
        complete_record(9, "Spin"),
    ]
}

#[test]
fn scenario_keeps_five_and_nine_in_order() {
    let out = filter_schedule(scenario_records());
    assert_eq!(out.len(), 2);
    assert_eq!(out[0].id, 5);
    assert_eq!(out[0].name, "Yoga");
    assert_eq!(out[1].id, 9);
    assert_eq!(out[1].name, "Spin");
}

#[test]
fn missing_either_bound_is_excluded() {
    let only_earliest = filter_schedule(vec![partial_record(1, true, false)]);
    assert!(only_earliest.is_empty());
    let only_latest = filter_schedule(vec![partial_record(2, false, true)]);
    assert!(only_latest.is_empty());
    let neither = filter_schedule(vec![partial_record(3, false, false)]);
    assert!(neither.is_empty());
}

#[test]
fn record_without_integer_id_is_dropped() {
    let out = filter_schedule(vec![
        RawRecord {
            id: None,
            has_bookable_earliest: true,
            has_bookable_latest: true,
            class: None,
        },
        complete_record(4, "Pump"),
    ]);
    assert_eq!(out.len(), 1);
    assert_eq!(out[0].id, 4);
}

#[test]
fn undecodable_record_is_skipped_not_fatal() {
    // Both bounds present, but the record does not decode into the class
    // shape; the batch continues.
    let undecodable = RawRecord {
        id: Some(11),
        has_bookable_earliest: true,
        has_bookable_latest: true,
        class: None,
    };
    let out = filter_schedule(vec![undecodable, complete_record(12, "Core")]);
    assert_eq!(out.len(), 1);
    assert_eq!(out[0].id, 12);
}

#[test]
fn repeated_id_yields_exactly_one_class() {
    let records = vec![
        complete_record(5, "first"),
        complete_record(5, "second"),
        complete_record(5, "third"),
        complete_record(5, "fourth"),
    ];
    let out = filter_schedule(records);
    assert_eq!(out.len(), 1);
    assert_eq!(out[0].id, 5);
    assert_eq!(out[0].name, "first");
}

#[test]
fn first_occurrence_marks_the_id_seen_even_if_not_bookable() {
    // The first record with id 5 lacks a bound; the later complete one is a
    // duplicate by identifier and is dropped.
    let out = filter_schedule(vec![partial_record(5, true, false), complete_record(5, "late")]);
    assert!(out.is_empty());
}

#[test]
fn filtering_twice_changes_nothing() {
    let once = filter_schedule(scenario_records());
    let again = filter_schedule(
        once.iter()
            .map(|c| RawRecord {
                id: Some(c.id),
                has_bookable_earliest: true,
                has_bookable_latest: true,
                class: Some(c.clone()),
            })
            .collect(),
    );
    assert_eq!(once, again);
}

#[test]
fn order_of_first_occurrence_is_preserved() {
    let out = filter_schedule(vec![
        complete_record(9, "c"),
        complete_record(2, "a"),
        complete_record(9, "dup"),
        complete_record(5, "b"),
    ]);
    let ids: Vec<i64> = out.iter().map(|c| c.id).collect();
    assert_eq!(ids, vec![9, 2, 5]);
}
