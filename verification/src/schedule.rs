//! Candidate records and the dedupe/filter step.
//!
//! The upstream listing returns a JSON array of loosely shaped records.  The
//! surrounding application reads each into a [`RawRecord`]: the fields the
//! filter inspects (the integer identifier and the presence of the two
//! booking bounds) as plain values, and the record decoded into the class
//! shape when that decoding succeeds.  The filter itself — keep the first
//! occurrence of each identifier, keep only records with both booking bounds
//! that decode, preserve order — is verified here.

use vstd::prelude::*;

verus! {

/// A structured value that this system passes through unmodified: its
/// serialized text, never interpreted here.
#[derive(Clone, PartialEq, Eq, Debug)]
pub struct OpaqueValue {
    pub text: String,
}

/// A booking-eligible activity occurrence.
#[derive(Clone, PartialEq, Eq, Debug)]
pub struct FilteredClass {
    pub id: i64,
    pub name: String,
    pub bookable_earliest: String,
    pub bookable_latest: String,
    pub duration: OpaqueValue,
    pub group_activity_product: OpaqueValue,
    pub business_unit: OpaqueValue,
    pub locations: Vec<OpaqueValue>,
    pub instructors: Vec<OpaqueValue>,
    pub external_message: Option<String>,
    pub cancelled: bool,
    pub slots: OpaqueValue,
}

/// Field-by-field equality of two classes, comparing the list fields by
/// their contents.
pub open spec fn class_eq(a: FilteredClass, b: FilteredClass) -> bool {
    &&& a.id == b.id
    &&& a.name == b.name
    &&& a.bookable_earliest == b.bookable_earliest
    &&& a.bookable_latest == b.bookable_latest
    &&& a.duration == b.duration
    &&& a.group_activity_product == b.group_activity_product
    &&& a.business_unit == b.business_unit
    &&& a.locations@ == b.locations@
    &&& a.instructors@ == b.instructors@
    &&& a.external_message == b.external_message
    &&& a.cancelled == b.cancelled
    &&& a.slots == b.slots
}

/// What the filter reads of one raw candidate record.
#[derive(Clone, PartialEq, Eq, Debug)]
pub struct RawRecord {
    /// The record's "id" field, when it holds a valid integer.
    pub id: Option<i64>,
    /// Whether a "bookableEarliest" field is present at all.
    pub has_bookable_earliest: bool,
    /// Whether a "bookableLatest" field is present at all.
    pub has_bookable_latest: bool,
    /// The record decoded into the class shape, when decoding succeeds.
    pub class: Option<FilteredClass>,
}

impl RawRecord {
    /// A decoded class carries the identifier the filter read from the record.
    pub open spec fn wf(self) -> bool {
        self.class is Some ==> self.id is Some && self.class->0.id == self.id->0
    }

    /// Accepted when the identifier is present and fresh, both booking
    /// bounds are present, and the record decodes.
    pub open spec fn spec_accepted(self, seen: Set<i64>) -> bool {
        &&& self.id is Some
        &&& !seen.contains(self.id->0)
        &&& self.has_bookable_earliest
        &&& self.has_bookable_latest
        &&& self.class is Some
    }

    /// The seen set after this record: any record with a valid identifier
    /// marks it seen, whether or not the record is accepted.
    pub open spec fn mark_seen(self, seen: Set<i64>) -> Set<i64> {
        if self.id is Some {
            seen.insert(self.id->0)
        } else {
            seen
        }
    }
}

/// The classes the filter emits from `records`, having already seen the
/// identifiers in `seen`, in order of first occurrence.
pub open spec fn filter_from(records: Seq<RawRecord>, seen: Set<i64>) -> Seq<FilteredClass>
    decreases records.len(),
{
    if records.len() == 0 {
        Seq::empty()
    } else {
        let r = records[0];
        let rest = filter_from(records.drop_first(), r.mark_seen(seen));
        if r.spec_accepted(seen) {
            seq![r.class->0] + rest
        } else {
            rest
        }
    }
}

/// The filtered, deduplicated classes of one window's raw records.
pub open spec fn filter_spec(records: Seq<RawRecord>) -> Seq<FilteredClass> {
    filter_from(records, Set::empty())
}

fn seen_contains(seen_ids: &Vec<i64>, id: i64) -> (b: bool)
    ensures
        b == seen_ids@.contains(id),
{
    let mut i: usize = 0;
    while i < seen_ids.len()
        invariant
            0 <= i <= seen_ids.len(),
            forall|j: int| 0 <= j < i ==> seen_ids@[j] != id,
        decreases seen_ids.len() - i,
    {
        if seen_ids[i] == id {
            assert(seen_ids@.contains(id));
            return true;
        }
        i = i + 1;
    }
    false
}

/// Reduce one window's candidate records to the bookable classes,
/// unique by identifier, in order of first occurrence.
pub fn filter_schedule(records: Vec<RawRecord>) -> (out: Vec<FilteredClass>)
    ensures
        out@ == filter_spec(records@),
{
    let ghost orig: Seq<RawRecord> = records@;
    let mut rest: Vec<RawRecord> = records;
    let mut out: Vec<FilteredClass> = Vec::new();
    let mut seen_ids: Vec<i64> = Vec::new();
    let ghost mut seen: Set<i64> = Set::empty();
    proof {
        assert(out@ + filter_from(rest@, seen) =~= filter_spec(orig));
    }
    while rest.len() > 0
        invariant
            forall|id: i64| seen.contains(id) <==> seen_ids@.contains(id),
            filter_spec(orig) == out@ + filter_from(rest@, seen),
        decreases rest.len(),
    {
        let ghost pre_rest = rest@;
        let ghost pre_seen = seen;
        let ghost pre_out = out@;
        let r: RawRecord = rest.remove(0);
        proof {
            assert(rest@ =~= pre_rest.drop_first());
            seen = r.mark_seen(pre_seen);
        }
        let mut fresh: bool = false;
        match &r.id {
            Some(id) => {
                if !seen_contains(&seen_ids, *id) {
                    let ghost pre_ids: Seq<i64> = seen_ids@;
                    seen_ids.push(*id);
                    fresh = true;
                    proof {
                        assert forall|x: i64| seen.contains(x) implies seen_ids@.contains(x) by {
                            if x == *id {
                                assert(seen_ids@[pre_ids.len() as int] == x);
                            } else {
                                assert(pre_ids.contains(x));
                                let j: int = choose|j: int|
                                    0 <= j < pre_ids.len() && pre_ids[j] == x;
                                assert(seen_ids@[j] == x);
                            }
                        }
                        assert forall|x: i64| seen_ids@.contains(x) implies seen.contains(x) by {
                            let j: int = choose|j: int|
                                0 <= j < seen_ids@.len() && seen_ids@[j] == x;
                            if j < pre_ids.len() {
                                assert(pre_ids[j] == x);
                                assert(pre_ids.contains(x));
                            }
                        }
                    }
                }
            },
            None => {},
        }
        proof {
            assert(forall|id: i64| seen.contains(id) <==> seen_ids@.contains(id));
        }
        if fresh && r.has_bookable_earliest && r.has_bookable_latest {
            match r.class {
                Some(c) => {
                    proof {
                        assert(r.spec_accepted(pre_seen));
                    }
                    out.push(c);
                },
                None => {},
            }
        }
        proof {
            if r.spec_accepted(pre_seen) {
                assert(out@ =~= pre_out + seq![r.class->0]);
                assert(pre_out + (seq![r.class->0] + filter_from(rest@, seen)) =~= out@
                    + filter_from(rest@, seen));
            } else {
                assert(out@ == pre_out);
            }
        }
    }
    proof {
        assert(filter_from(rest@, seen) =~= Seq::<FilteredClass>::empty());
        assert(out@ + filter_from(rest@, seen) =~= out@);
    }
    out
}

/// Law: every class the filter emits has an identifier outside `seen`, and no
/// two emitted classes share an identifier.
pub proof fn lemma_filter_ids_fresh(records: Seq<RawRecord>, seen: Set<i64>)
    requires
        forall|i: int| 0 <= i < records.len() ==> (#[trigger] records[i]).wf(),
    ensures
        forall|k: int|
            0 <= k < filter_from(records, seen).len() ==> !seen.contains(
                (#[trigger] filter_from(records, seen)[k]).id,
            ),
        forall|k1: int, k2: int|
            0 <= k1 < k2 < filter_from(records, seen).len() ==> (#[trigger] filter_from(
                records,
                seen,
            )[k1]).id != (#[trigger] filter_from(records, seen)[k2]).id,
    decreases records.len(),
{
    if records.len() > 0 {
        let r = records[0];
        let rest = records.drop_first();
        assert(forall|i: int| 0 <= i < rest.len() ==> (#[trigger] rest[i]).wf()) by {
            assert(forall|i: int|
                0 <= i < rest.len() ==> rest[i] == records[i + 1] && (#[trigger] records[i
                    + 1]).wf());
        };
        lemma_filter_ids_fresh(rest, r.mark_seen(seen));
        let out = filter_from(records, seen);
        let out_rest = filter_from(rest, r.mark_seen(seen));
        if r.spec_accepted(seen) {
            assert(out == seq![r.class->0] + out_rest);
            assert(out[0].id == r.id->0);
            assert(forall|k: int| 1 <= k < out.len() ==> out[k] == out_rest[k - 1]);
            assert(forall|k: int|
                1 <= k < out.len() ==> !r.mark_seen(seen).contains((#[trigger] out[k]).id));
        } else {
            assert(out == out_rest);
        }
    }
}

/// Law: the filtered output never repeats an identifier.
pub proof fn lemma_filter_unique_ids(records: Seq<RawRecord>)
    requires
        forall|i: int| 0 <= i < records.len() ==> (#[trigger] records[i]).wf(),
    ensures
        forall|k1: int, k2: int|
            0 <= k1 < k2 < filter_spec(records).len() ==> (#[trigger] filter_spec(
                records,
            )[k1]).id != (#[trigger] filter_spec(records)[k2]).id,
{
    lemma_filter_ids_fresh(records, Set::empty());
}

proof fn lemma_filter_from_first_occurrence(
    records: Seq<RawRecord>,
    seen: Set<i64>,
    i: int,
    id: i64,
)
    requires
        0 <= i < records.len(),
        records[i].id == Some(id),
        forall|j: int| 0 <= j < i ==> (#[trigger] records[j]).id != Some(id),
        !seen.contains(id),
        records[i].has_bookable_earliest,
        records[i].has_bookable_latest,
        records[i].class is Some,
        records[i].wf(),
    ensures
        exists|k: int|
            0 <= k < filter_from(records, seen).len() && (#[trigger] filter_from(
                records,
                seen,
            )[k]).id == id,
    decreases records.len(),
{
    let out = filter_from(records, seen);
    let r = records[0];
    let rest = records.drop_first();
    let seen2 = r.mark_seen(seen);
    if i == 0 {
        assert(r.spec_accepted(seen));
        assert(filter_from(records, seen)[0].id == id);
    } else {
        assert(rest[i - 1] == records[i]);
        assert(!seen2.contains(id));
        assert(forall|j: int| 0 <= j < i - 1 ==> (#[trigger] rest[j]).id != Some(id)) by {
            assert(forall|j: int|
                0 <= j < i - 1 ==> rest[j] == records[j + 1] && (#[trigger] records[j + 1]).id
                    != Some(id));
        };
        lemma_filter_from_first_occurrence(rest, seen2, i - 1, id);
        let out_rest = filter_from(rest, seen2);
        let k0 = choose|k: int|
            0 <= k < out_rest.len() && (#[trigger] out_rest[k]).id == id;
        if r.spec_accepted(seen) {
            assert(filter_from(records, seen)[k0 + 1].id == id);
        } else {
            assert(filter_from(records, seen)[k0].id == id);
        }
    }
}

/// Law: a list that repeats an identifier still yields exactly one class for
/// it.  When the first record carrying the identifier is complete — both
/// booking bounds present and decodable — some output class carries that
/// identifier, and by `lemma_filter_unique_ids` never more than one.
pub proof fn lemma_filter_keeps_first_complete(records: Seq<RawRecord>, i: int, id: i64)
    requires
        0 <= i < records.len(),
        records[i].id == Some(id),
        forall|j: int| 0 <= j < i ==> (#[trigger] records[j]).id != Some(id),
        records[i].has_bookable_earliest,
        records[i].has_bookable_latest,
        records[i].class is Some,
        records[i].wf(),
    ensures
        exists|k: int|
            0 <= k < filter_spec(records).len() && (#[trigger] filter_spec(records)[k]).id == id,
{
    lemma_filter_from_first_occurrence(records, Set::empty(), i, id);
    let k0 = choose|k: int|
        0 <= k < filter_from(records, Set::empty()).len() && (#[trigger] filter_from(
            records,
            Set::empty(),
        )[k]).id == id;
    assert(filter_spec(records)[k0].id == id);
}

/// The raw record a class of the filter's own output reads back as: the same
/// identifier, both booking bounds present, and the class itself as decode.
pub open spec fn record_of_class(c: FilteredClass) -> RawRecord {
    RawRecord {
        id: Some(c.id),
        has_bookable_earliest: true,
        has_bookable_latest: true,
        class: Some(c),
    }
}

proof fn lemma_filter_accepts_fresh(cs: Seq<FilteredClass>, seen: Set<i64>)
    requires
        forall|k1: int, k2: int|
            0 <= k1 < k2 < cs.len() ==> (#[trigger] cs[k1]).id != (#[trigger] cs[k2]).id,
        forall|k: int| 0 <= k < cs.len() ==> !seen.contains((#[trigger] cs[k]).id),
    ensures
        filter_from(cs.map_values(|c: FilteredClass| record_of_class(c)), seen) == cs,
    decreases cs.len(),
{
    let rs = cs.map_values(|c: FilteredClass| record_of_class(c));
    if cs.len() == 0 {
        assert(filter_from(rs, seen) =~= cs);
    } else {
        let r = rs[0];
        assert(r == record_of_class(cs[0]));
        assert(r.spec_accepted(seen));
        let cs_rest = cs.drop_first();
        let seen2 = r.mark_seen(seen);
        assert(forall|k: int|
            0 <= k < cs_rest.len() ==> cs_rest[k] == cs[k + 1] && (#[trigger] cs_rest[k]).id
                != cs[0].id && !seen.contains(cs_rest[k].id));
        assert(forall|k: int| 0 <= k < cs_rest.len() ==> !seen2.contains((#[trigger] cs_rest[k]).id));
        assert(forall|k1: int, k2: int|
            0 <= k1 < k2 < cs_rest.len() ==> (#[trigger] cs_rest[k1]).id != (#[trigger] cs_rest[k2]).id);
        lemma_filter_accepts_fresh(cs_rest, seen2);
        assert(rs.drop_first() =~= cs_rest.map_values(|c: FilteredClass| record_of_class(c)));
        assert(filter_from(rs, seen) == seq![cs[0]] + filter_from(rs.drop_first(), seen2));
        assert(seq![cs[0]] + cs_rest =~= cs);
    }
}

/// Law: deduplication is idempotent.  Reading the filter's own output back as
/// raw records and filtering again changes nothing.
pub proof fn lemma_filter_idempotent(records: Seq<RawRecord>)
    requires
        forall|i: int| 0 <= i < records.len() ==> (#[trigger] records[i]).wf(),
    ensures
        filter_spec(filter_spec(records).map_values(|c: FilteredClass| record_of_class(c)))
            == filter_spec(records),
{
    lemma_filter_ids_fresh(records, Set::empty());
    lemma_filter_accepts_fresh(filter_spec(records), Set::empty());
}

/// Law: a class never reaches the filtered output unless its record had both
/// booking bounds present.
pub proof fn lemma_filtered_bookable(records: Seq<RawRecord>, seen: Set<i64>, k: int)
    requires
        0 <= k < filter_from(records, seen).len(),
    ensures
        exists|i: int|
            0 <= i < records.len() && (#[trigger] records[i]).has_bookable_earliest
                && records[i].has_bookable_latest && records[i].class == Some(
                filter_from(records, seen)[k],
            ),
    decreases records.len(),
{
    let out = filter_from(records, seen);
    let r = records[0];
    let rest = records.drop_first();
    let out_rest = filter_from(rest, r.mark_seen(seen));
    if r.spec_accepted(seen) && k == 0 {
        assert(records[0].has_bookable_earliest && records[0].has_bookable_latest
            && records[0].class == Some(out[0]));
    } else {
        let krest: int = if r.spec_accepted(seen) {
            k - 1
        } else {
            k
        };
        lemma_filtered_bookable(rest, r.mark_seen(seen), krest);
        let i0 = choose|i: int|
            0 <= i < rest.len() && (#[trigger] rest[i]).has_bookable_earliest
                && rest[i].has_bookable_latest && rest[i].class == Some(out_rest[krest]);
        assert(records[i0 + 1].has_bookable_earliest && records[i0 + 1].has_bookable_latest
            && records[i0 + 1].class == Some(out[k]));
    }
}

/// The error taxonomy, as an explicit discriminated type.
#[derive(Clone, Copy, PartialEq, Eq, Structural, Debug)]
pub enum ScheduleError {
    /// A window's upstream fetch failed — network, status or parse; fatal.
    FetchFailed,
    /// A single record failed structured decoding — dropped, not fatal.
    DecodeFailed,
    /// A cache write failed — reported, the run continues.
    CacheWriteFailed,
}

} // verus!

