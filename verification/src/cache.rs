//! The authority cache: which zones the server answers for.
//!
//! A snapshot is a value that never changes once it is made. A refresh makes
//! a new snapshot from what the storage lists and says which zones came and
//! which went, so that their metrics can follow; whoever holds the current
//! snapshot replaces it as a whole.

use crate::name::is_lower;
use crate::name::is_zone_of;
use crate::name::lemma_lower_idempotent;
use crate::name::lower_labels;
use crate::name::DomainName;
use crate::name::NameView;
use vstd::prelude::*;

verus! {

/// The values of the names held in a vector, in their order.
pub open spec fn names_view(names: Vec<DomainName>) -> Seq<NameView> {
    Seq::new(names.len() as nat, |i: int| names[i]@)
}

/// A name in lower case.
pub open spec fn lower_name(name: NameView) -> NameView {
    NameView { labels: lower_labels(name.labels), fqdn: name.fqdn }
}

/// Whether a name with the given labels is among `zones`.
pub open spec fn name_in(zones: Seq<NameView>, labels: Seq<Seq<u8>>) -> bool {
    exists|i: int| 0 <= i < zones.len() && (#[trigger] zones[i]).labels == labels
}

/// No two of `zones` have the same labels.
pub open spec fn distinct_names(zones: Seq<NameView>) -> bool {
    forall|i: int, j: int|
        0 <= i < j < zones.len() ==> (#[trigger] zones[i]).labels != (#[trigger] zones[j]).labels
}

/// Every one of `zones` is in lower case.
pub open spec fn all_lower(zones: Seq<NameView>) -> bool {
    forall|i: int| 0 <= i < zones.len() ==> is_lower((#[trigger] zones[i]).labels)
}

/// Every one of `zones` is fully qualified.
pub open spec fn all_qualified(zones: Seq<NameView>) -> bool {
    forall|i: int| 0 <= i < zones.len() ==> (#[trigger] zones[i]).fqdn
}

/// The snapshot made of a list of zones: each name in lower case, each name
/// once, in the order in which the names first occur.
pub open spec fn snapshot_of(zones: Seq<NameView>) -> Seq<NameView>
    decreases zones.len(),
{
    if zones.len() == 0 {
        Seq::empty()
    } else {
        let rest = snapshot_of(zones.drop_last());
        let zone = lower_name(zones.last());
        if name_in(rest, zone.labels) {
            rest
        } else {
            rest.push(zone)
        }
    }
}

/// Those of `zones` that are not among `others`, in their order.
pub open spec fn names_without(zones: Seq<NameView>, others: Seq<NameView>) -> Seq<NameView>
    decreases zones.len(),
{
    if zones.len() == 0 {
        Seq::empty()
    } else {
        let rest = names_without(zones.drop_last(), others);
        if name_in(others, zones.last().labels) {
            rest
        } else {
            rest.push(zones.last())
        }
    }
}

/// The index of the zone that answers for `name` among the first `n` of
/// `zones`: of those that are `name` itself or an ancestor of it, the one
/// with the most labels, and of two with as many labels the first.
pub open spec fn authority_among(zones: Seq<NameView>, name: Seq<Seq<u8>>, n: int) -> Option<int>
    decreases n,
{
    if n <= 0 || n > zones.len() {
        None
    } else {
        match authority_among(zones, name, n - 1) {
            Some(best) => if is_zone_of(zones[n - 1].labels, name) && zones[best].labels.len() < zones[n
                - 1].labels.len() {
                Some(n - 1)
            } else {
                Some(best)
            },
            None => if is_zone_of(zones[n - 1].labels, name) {
                Some(n - 1)
            } else {
                None
            },
        }
    }
}

/// The zone that answers for `name`: of the `zones` that are `name` itself
/// or an ancestor of it, the one with the most labels, whatever the order
/// of the zones.
pub open spec fn spec_find_authority(zones: Seq<NameView>, name: Seq<Seq<u8>>) -> Option<NameView> {
    match authority_among(zones, name, zones.len() as int) {
        Some(i) => Some(zones[i]),
        None => None,
    }
}

/// What `authority_among` finds is a zone of the name, and no zone of the
/// name among those looked at has more labels; it finds nothing only where
/// there is none.
pub proof fn lemma_authority_among(zones: Seq<NameView>, name: Seq<Seq<u8>>, n: int)
    requires
        0 <= n <= zones.len(),
    ensures
        match authority_among(zones, name, n) {
            Some(i) => {
                &&& 0 <= i < n
                &&& is_zone_of(zones[i].labels, name)
                &&& forall|j: int|
                    0 <= j < n && is_zone_of((#[trigger] zones[j]).labels, name) ==> zones[j].labels.len()
                        <= zones[i].labels.len()
            },
            None => forall|j: int| 0 <= j < n ==> !is_zone_of((#[trigger] zones[j]).labels, name),
        },
    decreases n,
{
    if n > 0 {
        lemma_authority_among(zones, name, n - 1);
    }
}

/// A name is answered for exactly where one of the zones is the name itself
/// or an ancestor of it. The zone that answers is one of the zones, and
/// none of them that is the name or an ancestor of it has more labels: of
/// nested zones the innermost answers.
pub proof fn lemma_find_authority_iff(zones: Seq<NameView>, name: Seq<Seq<u8>>)
    ensures
        spec_find_authority(zones, name) is Some <==> exists|i: int|
            0 <= i < zones.len() && is_zone_of((#[trigger] zones[i]).labels, name),
        spec_find_authority(zones, name) matches Some(zone) ==> is_zone_of(zone.labels, name) && name_in(
            zones,
            zone.labels,
        ) && forall|i: int|
            0 <= i < zones.len() && is_zone_of((#[trigger] zones[i]).labels, name) ==> zones[i].labels.len()
                <= zone.labels.len(),
{
    lemma_authority_among(zones, name, zones.len() as int);
}

/// Two zones that are both a name or an ancestor of it, and have as many
/// labels, have the same labels.
pub proof fn lemma_same_length_same_zone(first: Seq<Seq<u8>>, second: Seq<Seq<u8>>, name: Seq<Seq<u8>>)
    requires
        is_zone_of(first, name),
        is_zone_of(second, name),
        first.len() == second.len(),
    ensures
        first == second,
{
    assert forall|k: int| 0 <= k < first.len() implies first[k] == second[k] by {
        assert(first[k] == name[name.len() - first.len() + k]);
        assert(second[k] == name[name.len() - second.len() + k]);
    }
    assert(first =~= second);
}

/// The zone that answers for a name does not depend on the order of the
/// zones: it has the labels of every zone that is the name or an ancestor
/// of it and has no fewer labels than any other such zone.
pub proof fn lemma_find_authority_longest(zones: Seq<NameView>, name: Seq<Seq<u8>>, i: int)
    requires
        0 <= i < zones.len(),
        is_zone_of(zones[i].labels, name),
        forall|j: int|
            0 <= j < zones.len() && is_zone_of((#[trigger] zones[j]).labels, name) ==> zones[j].labels.len()
                <= zones[i].labels.len(),
    ensures
        spec_find_authority(zones, name) matches Some(zone) && zone.labels == zones[i].labels,
{
    lemma_authority_among(zones, name, zones.len() as int);
    let found = authority_among(zones, name, zones.len() as int).unwrap();
    lemma_same_length_same_zone(zones[found].labels, zones[i].labels, name);
}

/// What a snapshot holds: the lower-case names of the list, each once.
pub proof fn lemma_snapshot_of(zones: Seq<NameView>)
    ensures
        distinct_names(snapshot_of(zones)),
        all_lower(snapshot_of(zones)),
        forall|labels: Seq<Seq<u8>>|
            name_in(snapshot_of(zones), labels) <==> exists|i: int|
                0 <= i < zones.len() && lower_labels((#[trigger] zones[i]).labels) == labels,
    decreases zones.len(),
{
    let snap = snapshot_of(zones);
    if zones.len() == 0 {
    } else {
        let front = zones.drop_last();
        let rest = snapshot_of(front);
        let zone = lower_name(zones.last());
        lemma_snapshot_of(front);
        lemma_lower_idempotent(zones.last().labels);
        assert forall|labels: Seq<Seq<u8>>| name_in(snap, labels) <==> exists|i: int|
            0 <= i < zones.len() && lower_labels((#[trigger] zones[i]).labels) == labels by {
            if name_in(snap, labels) {
                let k = choose|k: int| 0 <= k < snap.len() && (#[trigger] snap[k]).labels == labels;
                if k < rest.len() {
                    assert(rest[k].labels == labels);
                    assert(name_in(rest, labels));
                    let i = choose|i: int|
                        0 <= i < front.len() && lower_labels((#[trigger] front[i]).labels) == labels;
                    assert(zones[i] == front[i]);
                } else {
                    assert(lower_labels(zones[zones.len() - 1].labels) == labels);
                }
            }
            if exists|i: int| 0 <= i < zones.len() && lower_labels((#[trigger] zones[i]).labels) == labels {
                let i = choose|i: int|
                    0 <= i < zones.len() && lower_labels((#[trigger] zones[i]).labels) == labels;
                if i < front.len() {
                    assert(front[i] == zones[i]);
                    assert(name_in(rest, labels));
                    let k = choose|k: int| 0 <= k < rest.len() && (#[trigger] rest[k]).labels == labels;
                    assert(snap[k] == rest[k]);
                } else {
                    if name_in(rest, zone.labels) {
                    } else {
                        assert(snap[rest.len() as int].labels == labels);
                    }
                }
            }
        }
        if !name_in(rest, zone.labels) {
            assert forall|i: int, j: int| 0 <= i < j < snap.len() implies (#[trigger] snap[i]).labels != (
            #[trigger] snap[j]).labels by {
                if j < rest.len() {
                    assert(snap[i] == rest[i] && snap[j] == rest[j]);
                } else {
                    assert(snap[i] == rest[i]);
                }
            }
            assert forall|i: int| 0 <= i < snap.len() implies is_lower((#[trigger] snap[i]).labels) by {
                if i < rest.len() {
                    assert(snap[i] == rest[i]);
                }
            }
        }
    }
}

/// A list that is a snapshot already is its own snapshot.
pub proof fn lemma_snapshot_fixed(zones: Seq<NameView>)
    requires
        distinct_names(zones),
        all_lower(zones),
    ensures
        snapshot_of(zones) == zones,
    decreases zones.len(),
{
    if zones.len() > 0 {
        let front = zones.drop_last();
        assert forall|i: int, j: int| 0 <= i < j < front.len() implies (#[trigger] front[i]).labels != (
        #[trigger] front[j]).labels by {
            assert(front[i] == zones[i] && front[j] == zones[j]);
        }
        assert forall|i: int| 0 <= i < front.len() implies is_lower((#[trigger] front[i]).labels) by {
            assert(front[i] == zones[i]);
        }
        lemma_snapshot_fixed(front);
        let last = zones.last();
        assert(is_lower(zones[zones.len() - 1].labels));
        assert(lower_name(last) == last);
        if name_in(front, last.labels) {
            let k = choose|k: int| 0 <= k < front.len() && (#[trigger] front[k]).labels == last.labels;
            assert(front[k] == zones[k]);
            assert(zones[k].labels != zones[zones.len() - 1].labels);
        }
        assert(front.push(last) =~= zones);
    }
}

/// Taking the snapshot of a snapshot changes nothing.
pub proof fn lemma_snapshot_idempotent(zones: Seq<NameView>)
    ensures
        snapshot_of(snapshot_of(zones)) == snapshot_of(zones),
{
    lemma_snapshot_of(zones);
    lemma_snapshot_fixed(snapshot_of(zones));
}

/// What `names_without` keeps: the names of the first list that no name of
/// the second has the labels of.
pub proof fn lemma_names_without(zones: Seq<NameView>, others: Seq<NameView>)
    ensures
        forall|labels: Seq<Seq<u8>>|
            name_in(names_without(zones, others), labels) <==> name_in(zones, labels) && !name_in(
                others,
                labels,
            ),
        names_without(zones, others).len() <= zones.len(),
    decreases zones.len(),
{
    let kept = names_without(zones, others);
    if zones.len() > 0 {
        let front = zones.drop_last();
        let rest = names_without(front, others);
        lemma_names_without(front, others);
        assert forall|labels: Seq<Seq<u8>>| name_in(kept, labels) <==> name_in(zones, labels) && !name_in(
            others,
            labels,
        ) by {
            if name_in(kept, labels) {
                let k = choose|k: int| 0 <= k < kept.len() && (#[trigger] kept[k]).labels == labels;
                if k < rest.len() {
                    assert(kept[k] == rest[k]);
                    assert(name_in(rest, labels));
                    assert(name_in(front, labels) && !name_in(others, labels));
                    let i = choose|i: int| 0 <= i < front.len() && (#[trigger] front[i]).labels == labels;
                    assert(zones[i] == front[i]);
                    assert(name_in(zones, labels));
                } else {
                    assert(zones[zones.len() - 1].labels == labels);
                    assert(name_in(zones, labels));
                }
            }
            if name_in(zones, labels) && !name_in(others, labels) {
                let i = choose|i: int| 0 <= i < zones.len() && (#[trigger] zones[i]).labels == labels;
                if i < front.len() {
                    assert(front[i] == zones[i]);
                    assert(name_in(front, labels));
                    assert(name_in(rest, labels));
                    let k = choose|k: int| 0 <= k < rest.len() && (#[trigger] rest[k]).labels == labels;
                    assert(kept[k] == rest[k]);
                } else {
                    assert(kept[rest.len() as int].labels == labels);
                }
            }
        }
    }
}

/// Nothing is left of a list once its own names are taken out, nor once the
/// names of a longer list are.
pub proof fn lemma_names_without_self(zones: Seq<NameView>, others: Seq<NameView>)
    requires
        forall|i: int| 0 <= i < zones.len() ==> name_in(others, (#[trigger] zones[i]).labels),
    ensures
        names_without(zones, others) == Seq::<NameView>::empty(),
    decreases zones.len(),
{
    if zones.len() > 0 {
        let front = zones.drop_last();
        assert forall|i: int| 0 <= i < front.len() implies name_in(others, (#[trigger] front[i]).labels) by {
            assert(front[i] == zones[i]);
        }
        lemma_names_without_self(front, others);
        assert(name_in(others, zones[zones.len() - 1].labels));
    }
}

/// The mathematical value of a [`Refresh`].
pub struct RefreshView {
    pub snapshot: Seq<NameView>,
    pub added: Seq<NameView>,
    pub removed: Seq<NameView>,
}

/// What a refresh yields for a cache that holds `cache` when the storage
/// lists `zones`: the snapshot of the list, the zones of it that the cache
/// lacks, and the zones of the cache that it lacks.
pub open spec fn spec_refresh(cache: Seq<NameView>, zones: Seq<NameView>) -> RefreshView {
    let snapshot = snapshot_of(zones);
    RefreshView {
        snapshot,
        added: names_without(snapshot, cache),
        removed: names_without(cache, snapshot),
    }
}

/// The zones the server answers for, at one point in time.
pub struct AuthoritySnapshot {
    zones: Vec<DomainName>,
}

impl View for AuthoritySnapshot {
    type V = Seq<NameView>;

    closed spec fn view(&self) -> Seq<NameView> {
        names_view(self.zones)
    }
}

/// What a refresh yields: the new snapshot, the zones that are new in it,
/// and the zones that it no longer holds.
pub struct Refresh {
    pub snapshot: AuthoritySnapshot,
    pub added: Vec<DomainName>,
    pub removed: Vec<DomainName>,
}

pub(crate) fn holds(zones: &Vec<DomainName>, name: &DomainName) -> (found: bool)
    ensures
        found == name_in(names_view(*zones), name@.labels),
{
    let mut i: usize = 0;
    while i < zones.len()
        invariant
            i <= zones.len(),
            forall|k: int| 0 <= k < i ==> (#[trigger] names_view(*zones)[k]).labels != name@.labels,
        decreases zones.len() - i,
    {
        if zones[i].same_name(name) {
            assert(names_view(*zones)[i as int].labels == name@.labels);
            return true;
        }
        i = i + 1;
    }
    false
}

fn without(zones: &Vec<DomainName>, others: &Vec<DomainName>) -> (kept: Vec<DomainName>)
    ensures
        names_view(kept) == names_without(names_view(*zones), names_view(*others)),
{
    let ghost all = names_view(*zones);
    let mut kept: Vec<DomainName> = Vec::new();
    let mut i: usize = 0;
    assert(names_view(kept) =~= Seq::<NameView>::empty());
    while i < zones.len()
        invariant
            i <= zones.len(),
            all == names_view(*zones),
            names_view(kept) == names_without(all.take(i as int), names_view(*others)),
        decreases zones.len() - i,
    {
        let ghost before = names_view(kept);
        assert(all.take(i as int + 1).drop_last() =~= all.take(i as int));
        assert(all.take(i as int + 1).last() == zones[i as int]@);
        if !holds(others, &zones[i]) {
            kept.push(zones[i].clone());
            assert(names_view(kept) =~= before.push(zones[i as int]@));
        }
        i = i + 1;
    }
    assert(all.take(zones.len() as int) =~= all);
    kept
}

impl View for Refresh {
    type V = RefreshView;

    open spec fn view(&self) -> RefreshView {
        RefreshView {
            snapshot: self.snapshot@,
            added: names_view(self.added),
            removed: names_view(self.removed),
        }
    }
}

impl AuthoritySnapshot {
    /// What holds of every snapshot: its names are in lower case and no name
    /// occurs twice.
    pub open spec fn wf(&self) -> bool {
        distinct_names(self@) && all_lower(self@)
    }

    /// The snapshot of a server that has not refreshed yet: no zones.
    pub fn new() -> (out: AuthoritySnapshot)
        ensures
            out@ == Seq::<NameView>::empty(),
            out.wf(),
    {
        let out = AuthoritySnapshot { zones: Vec::new() };
        assert(out@ =~= Seq::<NameView>::empty());
        out
    }

    /// The snapshot of a list of zones.
    pub fn from_zones(zones: &Vec<DomainName>) -> (out: AuthoritySnapshot)
        ensures
            out@ == snapshot_of(names_view(*zones)),
            out.wf(),
    {
        let ghost all = names_view(*zones);
        let mut kept: Vec<DomainName> = Vec::new();
        let mut i: usize = 0;
        assert(names_view(kept) =~= Seq::<NameView>::empty());
        while i < zones.len()
            invariant
                i <= zones.len(),
                all == names_view(*zones),
                names_view(kept) == snapshot_of(all.take(i as int)),
            decreases zones.len() - i,
        {
            let ghost before = names_view(kept);
            assert(all.take(i as int + 1).drop_last() =~= all.take(i as int));
            assert(all.take(i as int + 1).last() == zones[i as int]@);
            let zone = zones[i].to_lowercase();
            if !holds(&kept, &zone) {
                let ghost zone_view = zone@;
                kept.push(zone);
                assert(names_view(kept) =~= before.push(zone_view));
            }
            i = i + 1;
        }
        assert(all.take(zones.len() as int) =~= all);
        proof {
            lemma_snapshot_of(all);
        }
        AuthoritySnapshot { zones: kept }
    }

    /// The number of zones.
    pub fn len(&self) -> (out: usize)
        ensures
            out == self@.len(),
    {
        self.zones.len()
    }

    /// The zones, in their order.
    pub fn zones(&self) -> (out: &Vec<DomainName>)
        ensures
            names_view(*out) == self@,
    {
        &self.zones
    }

    /// Whether the snapshot holds the zone with the labels of `zone`.
    pub fn contains(&self, zone: &DomainName) -> (out: bool)
        ensures
            out == name_in(self@, zone@.labels),
    {
        holds(&self.zones, zone)
    }

    /// The zone that answers for `name`, if there is one: of the zones of
    /// the snapshot that are `name` itself or an ancestor of it, the one
    /// with the most labels.
    pub fn find_authority(&self, name: &DomainName) -> (out: Option<DomainName>)
        ensures
            match spec_find_authority(self@, name@.labels) {
                Some(zone) => out matches Some(found) && found@ == zone,
                None => out is None,
            },
    {
        let mut best: Option<usize> = None;
        let mut i: usize = 0;
        while i < self.zones.len()
            invariant
                i <= self.zones.len(),
                match authority_among(self@, name@.labels, i as int) {
                    Some(k) => best == Some(k as usize) && 0 <= k < i,
                    None => best is None,
                },
            decreases self.zones.len() - i,
        {
            proof {
                lemma_authority_among(self@, name@.labels, i as int);
            }
            if self.zones[i].zone_of(name) {
                match best {
                    Some(k) => {
                        if self.zones[k].num_labels() < self.zones[i].num_labels() {
                            best = Some(i);
                        }
                    },
                    None => {
                        best = Some(i);
                    },
                }
            }
            i = i + 1;
        }
        match best {
            Some(k) => Some(self.zones[k].clone()),
            None => None,
        }
    }

    /// Makes the next snapshot from the zones that the storage lists, and
    /// says which zones are new and which are gone.
    pub fn refresh(&self, zones: &Vec<DomainName>) -> (out: Refresh)
        ensures
            out@ == spec_refresh(self@, names_view(*zones)),
            out.snapshot.wf(),
    {
        let snapshot = AuthoritySnapshot::from_zones(zones);
        let added = without(&snapshot.zones, &self.zones);
        let removed = without(&self.zones, &snapshot.zones);
        Refresh { snapshot, added, removed }
    }
}

/// A refresh is idempotent: the refresh that follows another with the same
/// list of zones yields the same snapshot and finds no zone new and none
/// gone, so that no metrics are registered or unregistered.
pub proof fn lemma_refresh_idempotent(cache: Seq<NameView>, zones: Seq<NameView>)
    ensures
        ({
            let first = spec_refresh(cache, zones);
            let second = spec_refresh(first.snapshot, zones);
            &&& second.snapshot == first.snapshot
            &&& second.added == Seq::<NameView>::empty()
            &&& second.removed == Seq::<NameView>::empty()
        }),
{
    let first = snapshot_of(zones);
    assert forall|i: int| 0 <= i < first.len() implies name_in(first, (#[trigger] first[i]).labels) by {}
    lemma_names_without_self(first, first);
}

/// After a refresh the zones whose metrics are registered are those of the
/// new snapshot, if before it they were those of the old: a name is in the
/// new snapshot exactly if it was added, or was there and was not removed.
pub proof fn lemma_refresh_tracks(old_zones: Seq<NameView>, new_zones: Seq<NameView>, labels: Seq<Seq<u8>>)
    ensures
        name_in(new_zones, labels) <==> (name_in(names_without(new_zones, old_zones), labels) || (name_in(
            old_zones,
            labels,
        ) && !name_in(names_without(old_zones, new_zones), labels))),
{
    lemma_names_without(new_zones, old_zones);
    lemma_names_without(old_zones, new_zones);
}

} // verus!
