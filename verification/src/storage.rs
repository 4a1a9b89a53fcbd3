//! The contract between the query pipeline and a record store.
//!
//! A store is modelled by the set of its zones and the list of the records
//! that were added to it, in the order in which they came. Every question
//! that the pipeline asks of a store is a function of that model. Names are
//! keys in lower case: the model is always asked with the lower-case form of
//! a name.

use crate::cache::all_lower;
use crate::cache::all_qualified;
use crate::cache::distinct_names;
use crate::cache::name_in;
use crate::cache::names_view;
use crate::name::lower_labels;
use crate::name::DomainName;
use crate::record::records_view;
use crate::record::RecordType;
use crate::record::RecordView;
use crate::record::StorageRecord;
use vstd::prelude::*;

verus! {

/// Why a call into the storage failed.
#[derive(Debug, Clone, Copy, PartialEq, Eq, Structural)]
pub enum StorageError {
    /// The store could not be reached or refused the call.
    Backend,
    /// The store holds a value that cannot be read as records.
    Encoding,
}

/// One record of a store, with the zone and the name it was added under,
/// both in lower case.
pub struct StoredView {
    pub zone: Seq<Seq<u8>>,
    pub name: Seq<Seq<u8>>,
    pub record: RecordView,
}

/// The mathematical value of a store.
pub struct StoreView {
    /// The labels of the zones, in lower case.
    pub zones: Set<Seq<Seq<u8>>>,
    /// The records, in the order in which they were added.
    pub log: Seq<StoredView>,
}

/// Whether the store holds any record at `name` in `zone`.
pub open spec fn name_exists(log: Seq<StoredView>, zone: Seq<Seq<u8>>, name: Seq<Seq<u8>>) -> bool {
    exists|i: int| 0 <= i < log.len() && (#[trigger] log[i]).zone == zone && log[i].name == name
}

/// The records at `name` in `zone`, in the order in which they were added.
pub open spec fn records_at(log: Seq<StoredView>, zone: Seq<Seq<u8>>, name: Seq<Seq<u8>>) -> Seq<RecordView>
    decreases log.len(),
{
    if log.len() == 0 {
        Seq::empty()
    } else {
        let rest = records_at(log.drop_last(), zone, name);
        if log.last().zone == zone && log.last().name == name {
            rest.push(log.last().record)
        } else {
            rest
        }
    }
}

/// Those of `records` that are of type `rtype`, in their order.
pub open spec fn of_type(records: Seq<RecordView>, rtype: RecordType) -> Seq<RecordView>
    decreases records.len(),
{
    if records.len() == 0 {
        Seq::empty()
    } else {
        let rest = of_type(records.drop_last(), rtype);
        if records.last().rr_type == rtype {
            rest.push(records.last())
        } else {
            rest
        }
    }
}

/// What a lookup gives:
///
/// | the store holds | the lookup gives |
/// |---|---|
/// | no record at the name | `None` |
/// | records at the name, none of the type | `Some` of nothing |
/// | records of the type at the name | `Some` of those records |
pub open spec fn spec_lookup(
    store: StoreView,
    zone: Seq<Seq<u8>>,
    name: Seq<Seq<u8>>,
    rtype: RecordType,
) -> Option<Seq<RecordView>> {
    if name_exists(store.log, zone, name) {
        Some(of_type(records_at(store.log, zone, name), rtype))
    } else {
        None
    }
}

/// The store after a zone was added.
pub open spec fn spec_add_zone(store: StoreView, zone: Seq<Seq<u8>>) -> StoreView {
    StoreView { zones: store.zones.insert(zone), log: store.log }
}

/// The store after a record was added at `name` in `zone`.
pub open spec fn spec_add_record(
    store: StoreView,
    zone: Seq<Seq<u8>>,
    name: Seq<Seq<u8>>,
    record: RecordView,
) -> StoreView {
    StoreView { zones: store.zones, log: store.log.push(StoredView { zone, name, record }) }
}

/// The names in `zone` that the store holds records at: each once, in the
/// order in which they first occur.
pub open spec fn domains_of(log: Seq<StoredView>, zone: Seq<Seq<u8>>) -> Seq<Seq<Seq<u8>>>
    decreases log.len(),
{
    if log.len() == 0 {
        Seq::empty()
    } else {
        let rest = domains_of(log.drop_last(), zone);
        if log.last().zone == zone && !rest.contains(log.last().name) {
            rest.push(log.last().name)
        } else {
            rest
        }
    }
}

/// The value of what a lookup returned.
pub open spec fn found_view(found: Option<Vec<StorageRecord>>) -> Option<Seq<RecordView>> {
    match found {
        Some(records) => Some(records_view(records)),
        None => None,
    }
}

/// A record store.
///
/// Every method may fail where the store is outside the process. What it
/// returns when it does not fail is a function of the model.
pub trait Storage {
    /// The model of the store.
    spec fn model(&self) -> StoreView;

    /// Whether the store never fails, as one does that lives in the
    /// process.
    spec fn reliable(&self) -> bool;

    /// The zones that the server is to answer for, each of them once, in
    /// lower case and fully qualified.
    fn zones(&self) -> (out: Result<Vec<DomainName>, StorageError>)
        ensures
            self.reliable() ==> out is Ok,
            out matches Ok(zones) ==> distinct_names(names_view(zones)) && all_lower(names_view(zones))
                && all_qualified(names_view(zones)),
            out matches Ok(zones) ==> forall|labels: Seq<Seq<u8>>|
                name_in(names_view(zones), labels) <==> self.model().zones.contains(labels),
    ;

    /// The records of type `rtype` at `name` in `zone`: `None` where the
    /// name does not exist at all, an empty vector where it exists and has
    /// no record of the type.
    fn lookup_records(&self, name: &DomainName, zone: &DomainName, rtype: RecordType) -> (out: Result<
        Option<Vec<StorageRecord>>,
        StorageError,
    >)
        ensures
            self.reliable() ==> out is Ok,
            out matches Ok(found) ==> found_view(found) == spec_lookup(
                self.model(),
                lower_labels(zone@.labels),
                lower_labels(name@.labels),
                rtype,
            ),
    ;

    /// Marks `zone` as a zone of the server. Its SOA and NS records are to
    /// be added after it.
    fn add_zone(&mut self, zone: &DomainName) -> (out: Result<(), StorageError>)
        ensures
            old(self).reliable() ==> out is Ok,
            final(self).reliable() == old(self).reliable(),
            out is Ok ==> final(self).model() == spec_add_zone(old(self).model(), lower_labels(zone@.labels)),
            out is Err ==> final(self).model() == old(self).model(),
    ;

    /// Adds a record at `name` in `zone`.
    fn add_record(&mut self, zone: &DomainName, name: &DomainName, record: StorageRecord) -> (out: Result<
        (),
        StorageError,
    >)
        ensures
            old(self).reliable() ==> out is Ok,
            final(self).reliable() == old(self).reliable(),
            out is Ok ==> final(self).model() == spec_add_record(
                old(self).model(),
                lower_labels(zone@.labels),
                lower_labels(name@.labels),
                record@,
            ),
            out is Err ==> final(self).model() == old(self).model(),
    ;

    /// All records at `name` in `zone`, of whatever type.
    fn list_records(&self, zone: &DomainName, name: &DomainName) -> (out: Result<
        Vec<StorageRecord>,
        StorageError,
    >)
        ensures
            self.reliable() ==> out is Ok,
            out matches Ok(records) ==> records_view(records).to_multiset() == records_at(
                self.model().log,
                lower_labels(zone@.labels),
                lower_labels(name@.labels),
            ).to_multiset(),
    ;

    /// The names in `zone` that records are held at, each of them once, in
    /// lower case and fully qualified.
    fn list_domains(&self, zone: &DomainName) -> (out: Result<Vec<DomainName>, StorageError>)
        ensures
            self.reliable() ==> out is Ok,
            out matches Ok(names) ==> distinct_names(names_view(names)) && all_lower(names_view(names))
                && all_qualified(names_view(names)),
            out matches Ok(names) ==> forall|labels: Seq<Seq<u8>>|
                name_in(names_view(names), labels) <==> domains_of(
                    self.model().log,
                    lower_labels(zone@.labels),
                ).contains(labels),
    ;
}

/// Every record that a lookup gives is of the type that was asked for.
pub proof fn lemma_of_type(records: Seq<RecordView>, rtype: RecordType)
    ensures
        forall|i: int|
            0 <= i < of_type(records, rtype).len() ==> (#[trigger] of_type(records, rtype)[i]).rr_type
                == rtype,
        forall|i: int|
            0 <= i < records.len() && (#[trigger] records[i]).rr_type == rtype ==> of_type(
                records,
                rtype,
            ).contains(records[i]),
        of_type(records, rtype).len() <= records.len(),
    decreases records.len(),
{
    if records.len() > 0 {
        let front = records.drop_last();
        lemma_of_type(front, rtype);
        let kept = of_type(records, rtype);
        let rest = of_type(front, rtype);
        assert forall|i: int| 0 <= i < records.len() && (#[trigger] records[i]).rr_type == rtype implies kept.contains(
            records[i],
        ) by {
            if i < front.len() {
                assert(front[i] == records[i]);
                assert(rest.contains(front[i]));
                let k = choose|k: int| 0 <= k < rest.len() && rest[k] == front[i];
                assert(kept[k] == rest[k]);
            } else {
                assert(kept[rest.len() as int] == records[i]);
            }
        }
    }
}

/// A name exists in the store exactly where records are held at it.
pub proof fn lemma_records_at(log: Seq<StoredView>, zone: Seq<Seq<u8>>, name: Seq<Seq<u8>>)
    ensures
        name_exists(log, zone, name) <==> records_at(log, zone, name).len() > 0,
        records_at(log, zone, name).len() <= log.len(),
    decreases log.len(),
{
    if log.len() > 0 {
        let front = log.drop_last();
        lemma_records_at(front, zone, name);
        if name_exists(log, zone, name) {
            let i = choose|i: int| 0 <= i < log.len() && (#[trigger] log[i]).zone == zone && log[i].name == name;
            if i < front.len() {
                assert(front[i] == log[i]);
                assert(name_exists(front, zone, name));
            }
        }
        if name_exists(front, zone, name) {
            let i = choose|i: int|
                0 <= i < front.len() && (#[trigger] front[i]).zone == zone && front[i].name == name;
            assert(log[i] == front[i]);
        }
        if log.last().zone == zone && log.last().name == name {
            assert(log[log.len() - 1].zone == zone);
        }
    }
}

/// A zone that was added is a zone of the store.
pub proof fn lemma_add_zone_then_zones(store: StoreView, zone: Seq<Seq<u8>>)
    ensures
        spec_add_zone(store, zone).zones.contains(zone),
        forall|other: Seq<Seq<u8>>| store.zones.contains(other) ==> spec_add_zone(store, zone).zones.contains(other),
        spec_add_zone(store, zone).log == store.log,
{
}

/// A record that was added is found by the lookup of its name and type:
/// the lookup gives `Some` list, and the record is the last of it.
pub proof fn lemma_add_record_then_lookup(
    store: StoreView,
    zone: Seq<Seq<u8>>,
    name: Seq<Seq<u8>>,
    record: RecordView,
)
    ensures
        spec_lookup(spec_add_record(store, zone, name, record), zone, name, record.rr_type) matches Some(found)
            && found.len() > 0 && found.last() == record && found.contains(record),
        spec_lookup(spec_add_record(store, zone, name, record), zone, name, record.rr_type) matches Some(found)
            && found.drop_last() == of_type(records_at(store.log, zone, name), record.rr_type),
{
    let after = spec_add_record(store, zone, name, record);
    let entry = StoredView { zone, name, record };
    assert(after.log.drop_last() =~= store.log);
    assert(after.log.last() == entry);
    assert(after.log[after.log.len() - 1].zone == zone);
    let at = records_at(after.log, zone, name);
    assert(at == records_at(store.log, zone, name).push(record));
    assert(at.drop_last() =~= records_at(store.log, zone, name));
    let found = of_type(at, record.rr_type);
    assert(found == of_type(records_at(store.log, zone, name), record.rr_type).push(record));
    assert(found[found.len() - 1] == record);
    assert(found.drop_last() =~= of_type(records_at(store.log, zone, name), record.rr_type));
}

/// Adding a record at one name leaves the lookups of every other name as
/// they were.
pub proof fn lemma_add_record_elsewhere(
    store: StoreView,
    zone: Seq<Seq<u8>>,
    name: Seq<Seq<u8>>,
    record: RecordView,
    other_zone: Seq<Seq<u8>>,
    other_name: Seq<Seq<u8>>,
    rtype: RecordType,
)
    requires
        other_zone != zone || other_name != name,
    ensures
        spec_lookup(spec_add_record(store, zone, name, record), other_zone, other_name, rtype) == spec_lookup(
            store,
            other_zone,
            other_name,
            rtype,
        ),
{
    let after = spec_add_record(store, zone, name, record);
    assert(after.log.drop_last() =~= store.log);
    lemma_records_at(store.log, other_zone, other_name);
    lemma_records_at(after.log, other_zone, other_name);
}

} // verus!
