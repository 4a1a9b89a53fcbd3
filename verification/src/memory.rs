//! A record store that lives in memory.

use crate::cache::all_lower;
use crate::cache::all_qualified;
use crate::cache::distinct_names;
use crate::cache::name_in;
use crate::cache::names_view;
use crate::name::is_lower;
use crate::name::lower_labels;
use crate::name::DomainName;
use crate::record::records_view;
use crate::record::RecordType;
use crate::record::RecordView;
use crate::record::StorageRecord;
use crate::storage::domains_of;
use crate::storage::name_exists;
use crate::storage::of_type;
use crate::storage::records_at;
use crate::storage::Storage;
use crate::storage::StorageError;
use crate::storage::StoreView;
use crate::storage::StoredView;
use vstd::prelude::*;

verus! {

/// One record with the zone and the name it was added under.
struct Entry {
    zone: DomainName,
    name: DomainName,
    record: StorageRecord,
}

/// A record store that lives in memory. It never fails.
pub struct MemoryStorage {
    zones: Vec<DomainName>,
    entries: Vec<Entry>,
}

spec fn entry_view(entry: Entry) -> StoredView {
    StoredView { zone: entry.zone@.labels, name: entry.name@.labels, record: entry.record@ }
}

spec fn log_view(entries: Vec<Entry>) -> Seq<StoredView> {
    Seq::new(entries.len() as nat, |i: int| entry_view(entries[i]))
}

proof fn lemma_of_type_push(records: Seq<RecordView>, record: RecordView, rtype: RecordType)
    ensures
        of_type(records.push(record), rtype) == if record.rr_type == rtype {
            of_type(records, rtype).push(record)
        } else {
            of_type(records, rtype)
        },
{
    assert(records.push(record).drop_last() =~= records);
}

proof fn lemma_log_step(log: Seq<StoredView>, i: int)
    requires
        0 <= i < log.len(),
    ensures
        log.take(i + 1).drop_last() == log.take(i),
        log.take(i + 1).last() == log[i],
{
    assert(log.take(i + 1).drop_last() =~= log.take(i));
}

proof fn lemma_name_exists_step(log: Seq<StoredView>, i: int, zone: Seq<Seq<u8>>, name: Seq<Seq<u8>>)
    requires
        0 <= i < log.len(),
    ensures
        name_exists(log.take(i + 1), zone, name) <==> name_exists(log.take(i), zone, name) || (log[i].zone
            == zone && log[i].name == name),
{
    let shorter = log.take(i);
    let longer = log.take(i + 1);
    if name_exists(longer, zone, name) {
        let k = choose|k: int| 0 <= k < longer.len() && (#[trigger] longer[k]).zone == zone && longer[k].name == name;
        if k < i {
            assert(shorter[k] == longer[k]);
        }
    }
    if name_exists(shorter, zone, name) {
        let k = choose|k: int|
            0 <= k < shorter.len() && (#[trigger] shorter[k]).zone == zone && shorter[k].name == name;
        assert(longer[k] == shorter[k]);
    }
    if log[i].zone == zone && log[i].name == name {
        assert(longer[i].zone == zone);
    }
}

impl MemoryStorage {
    /// No zone is listed twice, and every name that the store keeps is in
    /// lower case and fully qualified.
    #[verifier::type_invariant]
    closed spec fn inv(&self) -> bool {
        &&& distinct_names(names_view(self.zones))
        &&& all_lower(names_view(self.zones))
        &&& all_qualified(names_view(self.zones))
        &&& forall|i: int|
            0 <= i < self.entries.len() ==> is_lower((#[trigger] self.entries[i]).name@.labels)
                && self.entries[i].name@.fqdn && is_lower(self.entries[i].zone@.labels)
    }

    /// An empty store.
    pub fn new() -> (out: MemoryStorage)
        ensures
            out.model() == (StoreView { zones: Set::empty(), log: Seq::empty() }),
    {
        let out = MemoryStorage { zones: Vec::new(), entries: Vec::new() };
        assert(out.model().zones =~= Set::<Seq<Seq<u8>>>::empty());
        assert(out.model().log =~= Seq::<StoredView>::empty());
        out
    }

    fn holds_zone(&self, zone: &DomainName) -> (found: bool)
        ensures
            found == self.model().zones.contains(zone@.labels),
    {
        let mut i: usize = 0;
        while i < self.zones.len()
            invariant
                i <= self.zones.len(),
                forall|k: int| 0 <= k < i ==> (#[trigger] names_view(self.zones)[k]).labels != zone@.labels,
            decreases self.zones.len() - i,
        {
            if self.zones[i].same_name(zone) {
                assert(names_view(self.zones)[i as int].labels == zone@.labels);
                return true;
            }
            i = i + 1;
        }
        false
    }
}

fn copy_names(names: &Vec<DomainName>) -> (out: Vec<DomainName>)
    ensures
        names_view(out) == names_view(*names),
{
    let mut out: Vec<DomainName> = Vec::new();
    let mut i: usize = 0;
    while i < names.len()
        invariant
            i <= names.len(),
            out.len() == i,
            forall|k: int| 0 <= k < i ==> (#[trigger] out[k])@ == names[k]@,
        decreases names.len() - i,
    {
        out.push(names[i].clone());
        i = i + 1;
    }
    assert(names_view(out) =~= names_view(*names));
    out
}

impl Storage for MemoryStorage {
    closed spec fn model(&self) -> StoreView {
        StoreView {
            zones: Set::new(|labels: Seq<Seq<u8>>| name_in(names_view(self.zones), labels)),
            log: log_view(self.entries),
        }
    }

    open spec fn reliable(&self) -> bool {
        true
    }

    fn zones(&self) -> (out: Result<Vec<DomainName>, StorageError>)
        ensures
            out is Ok,
    {
        proof {
            use_type_invariant(self);
        }
        Ok(copy_names(&self.zones))
    }

    fn lookup_records(&self, name: &DomainName, zone: &DomainName, rtype: RecordType) -> (out: Result<
        Option<Vec<StorageRecord>>,
        StorageError,
    >)
        ensures
            out is Ok,
    {
        let zone = zone.to_lowercase();
        let name = name.to_lowercase();
        let ghost log = log_view(self.entries);
        let mut exists = false;
        let mut found: Vec<StorageRecord> = Vec::new();
        let mut i: usize = 0;
        assert(records_view(found) =~= Seq::<RecordView>::empty());
        assert(log.take(0) =~= Seq::<StoredView>::empty());
        while i < self.entries.len()
            invariant
                i <= self.entries.len(),
                log == log_view(self.entries),
                exists == name_exists(log.take(i as int), zone@.labels, name@.labels),
                records_view(found) == of_type(records_at(log.take(i as int), zone@.labels, name@.labels), rtype),
            decreases self.entries.len() - i,
        {
            let entry = &self.entries[i];
            let ghost before = records_view(found);
            let ghost at = records_at(log.take(i as int), zone@.labels, name@.labels);
            proof {
                lemma_log_step(log, i as int);
                lemma_name_exists_step(log, i as int, zone@.labels, name@.labels);
                lemma_of_type_push(at, entry.record@, rtype);
            }
            if entry.zone.same_name(&zone) && entry.name.same_name(&name) {
                exists = true;
                if entry.record.as_record().record_type() == rtype {
                    found.push(entry.record.clone());
                    assert(records_view(found) =~= before.push(entry.record@));
                }
            }
            i = i + 1;
        }
        assert(log.take(self.entries.len() as int) =~= log);
        if exists {
            Ok(Some(found))
        } else {
            Ok(None)
        }
    }

    fn add_zone(&mut self, zone: &DomainName) -> (out: Result<(), StorageError>)
        ensures
            out is Ok,
    {
        proof {
            use_type_invariant(&*self);
        }
        let zone = zone.canonical();
        let ghost before = names_view(self.zones);
        if !self.holds_zone(&zone) {
            let ghost zone_view = zone@;
            let mut zones: Vec<DomainName> = Vec::new();
            assert(names_view(zones) =~= Seq::<crate::name::NameView>::empty());
            std::mem::swap(&mut zones, &mut self.zones);
            zones.push(zone);
            assert(names_view(zones) =~= before.push(zone_view));
            assert(distinct_names(names_view(zones))) by {
                assert forall|i: int, j: int| 0 <= i < j < names_view(zones).len() implies (#[trigger] names_view(
                    zones,
                )[i]).labels != (#[trigger] names_view(zones)[j]).labels by {
                    if j < before.len() {
                        assert(before[i].labels != before[j].labels);
                    } else {
                        assert(before[i].labels != zone_view.labels);
                    }
                }
            }
            self.zones = zones;
            assert(names_view(self.zones) =~= before.push(zone_view));
            assert forall|labels: Seq<Seq<u8>>| name_in(names_view(self.zones), labels) <==> (name_in(
                before,
                labels,
            ) || labels == zone_view.labels) by {
                let after = names_view(self.zones);
                if name_in(after, labels) {
                    let k = choose|k: int| 0 <= k < after.len() && (#[trigger] after[k]).labels == labels;
                    if k < before.len() {
                        assert(before[k] == after[k]);
                    }
                }
                if name_in(before, labels) {
                    let k = choose|k: int| 0 <= k < before.len() && (#[trigger] before[k]).labels == labels;
                    assert(after[k] == before[k]);
                }
                if labels == zone_view.labels {
                    assert(after[before.len() as int].labels == labels);
                }
            }
            assert(self.model().zones =~= old(self).model().zones.insert(zone_view.labels));
        } else {
            assert(self.model().zones =~= old(self).model().zones.insert(zone@.labels));
        }
        Ok(())
    }

    fn add_record(&mut self, zone: &DomainName, name: &DomainName, record: StorageRecord) -> (out: Result<
        (),
        StorageError,
    >)
        ensures
            out is Ok,
    {
        proof {
            use_type_invariant(&*self);
        }
        let ghost before = log_view(self.entries);
        let entry = Entry { zone: zone.canonical(), name: name.canonical(), record };
        let ghost added = entry_view(entry);
        let mut entries: Vec<Entry> = Vec::new();
        std::mem::swap(&mut entries, &mut self.entries);
        entries.push(entry);
        self.entries = entries;
        assert(log_view(self.entries) =~= before.push(added));
        Ok(())
    }

    fn list_records(&self, zone: &DomainName, name: &DomainName) -> (out: Result<
        Vec<StorageRecord>,
        StorageError,
    >)
        ensures
            out matches Ok(records) && records_view(records) == records_at(
                self.model().log,
                lower_labels(zone@.labels),
                lower_labels(name@.labels),
            ),
    {
        let zone = zone.to_lowercase();
        let name = name.to_lowercase();
        let ghost log = log_view(self.entries);
        let mut found: Vec<StorageRecord> = Vec::new();
        let mut i: usize = 0;
        assert(records_view(found) =~= Seq::<RecordView>::empty());
        assert(log.take(0) =~= Seq::<StoredView>::empty());
        while i < self.entries.len()
            invariant
                i <= self.entries.len(),
                log == log_view(self.entries),
                records_view(found) == records_at(log.take(i as int), zone@.labels, name@.labels),
            decreases self.entries.len() - i,
        {
            let entry = &self.entries[i];
            let ghost before = records_view(found);
            proof {
                lemma_log_step(log, i as int);
            }
            if entry.zone.same_name(&zone) && entry.name.same_name(&name) {
                found.push(entry.record.clone());
                assert(records_view(found) =~= before.push(entry.record@));
            }
            i = i + 1;
        }
        assert(log.take(self.entries.len() as int) =~= log);
        Ok(found)
    }

    fn list_domains(&self, zone: &DomainName) -> (out: Result<Vec<DomainName>, StorageError>)
        ensures
            out matches Ok(names) && names.len() == domains_of(
                self.model().log,
                lower_labels(zone@.labels),
            ).len() && forall|k: int|
                0 <= k < names.len() ==> (#[trigger] names[k])@.labels == domains_of(
                    self.model().log,
                    lower_labels(zone@.labels),
                )[k],
    {
        proof {
            use_type_invariant(self);
        }
        let zone = zone.to_lowercase();
        let ghost log = log_view(self.entries);
        let mut names: Vec<DomainName> = Vec::new();
        let mut i: usize = 0;
        assert(log.take(0) =~= Seq::<StoredView>::empty());
        while i < self.entries.len()
            invariant
                i <= self.entries.len(),
                log == log_view(self.entries),
                forall|k: int|
                    0 <= k < self.entries.len() ==> is_lower((#[trigger] self.entries[k]).name@.labels)
                        && self.entries[k].name@.fqdn,
                distinct_names(names_view(names)),
                all_lower(names_view(names)),
                all_qualified(names_view(names)),
                names.len() == domains_of(log.take(i as int), zone@.labels).len(),
                forall|k: int|
                    0 <= k < names.len() ==> (#[trigger] names[k])@.labels == domains_of(
                        log.take(i as int),
                        zone@.labels,
                    )[k],
            decreases self.entries.len() - i,
        {
            let entry = &self.entries[i];
            let ghost seen = domains_of(log.take(i as int), zone@.labels);
            proof {
                lemma_log_step(log, i as int);
            }
            if entry.zone.same_name(&zone) {
                let mut known = false;
                let mut k: usize = 0;
                while k < names.len()
                    invariant
                        k <= names.len(),
                        names.len() == seen.len(),
                        forall|j: int| 0 <= j < names.len() ==> (#[trigger] names[j])@.labels == seen[j],
                        known == exists|j: int| 0 <= j < k && seen[j] == entry.name@.labels,
                    decreases names.len() - k,
                {
                    if names[k].same_name(&entry.name) {
                        known = true;
                        assert(seen[k as int] == entry.name@.labels);
                    }
                    k = k + 1;
                }
                assert(known == seen.contains(entry.name@.labels));
                if !known {
                    let ghost held = names_view(names);
                    names.push(entry.name.clone());
                    assert(names_view(names) =~= held.push(entry.name@));
                }
            }
            i = i + 1;
        }
        assert(log.take(self.entries.len() as int) =~= log);
        let ghost all = domains_of(log, zone@.labels);
        assert forall|labels: Seq<Seq<u8>>| name_in(names_view(names), labels) <==> all.contains(labels) by {
            let views = names_view(names);
            if name_in(views, labels) {
                let k = choose|k: int| 0 <= k < views.len() && (#[trigger] views[k]).labels == labels;
                assert(names[k]@.labels == all[k]);
            }
            if all.contains(labels) {
                let k = choose|k: int| 0 <= k < all.len() && all[k] == labels;
                assert(views[k].labels == names[k]@.labels);
            }
        }
        Ok(names)
    }
}

} // verus!
