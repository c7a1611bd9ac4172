//! The in-memory index: domain to record, held in a concurrent hash map.
//!
//! The index is modelled as a mathematical map from domain to record. Every
//! operation states how that map changes.

use vstd::prelude::*;
use dashmap::DashMap;
use crate::record::{ProxyRecord, RecordView, with_enabled};

verus! {

/// The model of the index: each domain with the record filed under it.
pub type IndexView = Map<Seq<char>, RecordView>;

/// `dashmap::DashMap`, a concurrent hash map. Nothing inside it is visible to
/// the proofs; what it holds is spoken of through `entries_of`.
#[verifier::external_type_specification]
#[verifier::external_body]
#[verifier::reject_recursive_types(K)]
#[verifier::reject_recursive_types(V)]
#[verifier::reject_recursive_types(S)]
pub struct ExDashMap<K, V, S>(DashMap<K, V, S>);

/// What a `DashMap` of records holds: each key with the value stored under it.
pub uninterp spec fn entries_of(m: DashMap<String, ProxyRecord>) -> Map<Seq<char>, RecordView>;

/// `DashMap::new`: a map that holds nothing.
#[verifier::external_body]
fn dash_new() -> (m: DashMap<String, ProxyRecord>)
    ensures
        entries_of(m) == empty_index(),
{
    DashMap::new()
}

/// `DashMap::insert`: afterwards `key` maps to `value` and every other key is
/// as before. The caller holds the only reference to the map, so the call
/// cannot wait on a lock.
#[verifier::external_body]
fn dash_insert(m: &mut DashMap<String, ProxyRecord>, key: String, value: ProxyRecord)
    ensures
        entries_of(*final(m)) == entries_of(*old(m)).insert(key@, value@),
{
    m.insert(key, value);
}

/// `DashMap::remove`: afterwards `key` is absent and every other key is as
/// before.
#[verifier::external_body]
fn dash_remove(m: &mut DashMap<String, ProxyRecord>, key: &str)
    ensures
        entries_of(*final(m)) == entries_of(*old(m)).remove(key@),
{
    m.remove(key);
}

/// `DashMap::contains_key`: whether `key` is present.
#[verifier::external_body]
fn dash_contains_key(m: &DashMap<String, ProxyRecord>, key: &str) -> (present: bool)
    ensures
        present == entries_of(*m).contains_key(key@),
{
    m.contains_key(key)
}

/// `DashMap::iter`, copied out: every entry of the map exactly once, as a
/// pair of key and value. The order is that of the map's shards and hash
/// tables, so nothing is said of it.
#[verifier::external_body]
fn dash_entries(m: &DashMap<String, ProxyRecord>) -> (entries: Vec<(String, ProxyRecord)>)
    ensures
        forall|i: int|
            0 <= i < entries.len() ==> entries_of(*m).contains_pair(
                (#[trigger] entries[i]).0@,
                entries[i].1@,
            ),
        forall|i: int, j: int|
            0 <= i < j < entries.len() ==> (#[trigger] entries[i]).0@ != (#[trigger] entries[j]).0@,
        forall|k: Seq<char>| #[trigger]
            entries_of(*m).contains_key(k) ==> exists|i: int|
                0 <= i < entries.len() && (#[trigger] entries[i]).0@ == k,
{
    m.iter().map(|e| (e.key().clone(), e.value().clone())).collect()
}

/// The index that holds nothing.
pub open spec fn empty_index() -> IndexView {
    Map::empty()
}

/// Every record is filed under its own domain.
pub open spec fn keyed_by_domain(m: IndexView) -> bool {
    forall|d: Seq<char>| #[trigger] m.contains_key(d) ==> m[d].domain == d
}

/// Some record in `m` has this id.
pub open spec fn holds_id(m: IndexView, id: int) -> bool {
    exists|d: Seq<char>| #[trigger] m.contains_key(d) && m[d].id == id
}

/// No two records in `m` share an id.
pub open spec fn ids_unique(m: IndexView) -> bool {
    forall|a: Seq<char>, b: Seq<char>|
        #[trigger] m.contains_key(a) && #[trigger] m.contains_key(b) && m[a].id == m[b].id ==> a
            == b
}

/// `after` is `before` without one record that has this id; if there is no
/// such record, nothing changed. Where several records share the id, any one
/// of them may be the one that left.
pub open spec fn removed_by_id(before: IndexView, after: IndexView, id: int) -> bool {
    if holds_id(before, id) {
        exists|d: Seq<char>|
            #[trigger] before.contains_key(d) && before[d].id == id && after == before.remove(d)
    } else {
        after == before
    }
}

/// `after` is `before` with the enabled flag of one record that has this id
/// set to `value`; if there is no such record, nothing changed.
pub open spec fn enabled_set_by_id(before: IndexView, after: IndexView, id: int, value: bool) -> bool {
    if holds_id(before, id) {
        exists|d: Seq<char>|
            #[trigger] before.contains_key(d) && before[d].id == id && after == before.insert(
                d,
                with_enabled(before[d], value),
            )
    } else {
        after == before
    }
}

/// `records` lists `m`: each record of `m` once, and nothing else.
pub open spec fn lists(records: Seq<RecordView>, m: IndexView) -> bool {
    &&& forall|i: int|
        0 <= i < records.len() ==> m.contains_pair((#[trigger] records[i]).domain, records[i])
    &&& forall|i: int, j: int|
        0 <= i < j < records.len() ==> (#[trigger] records[i]).domain != (#[trigger] records[j]).domain
    &&& forall|d: Seq<char>| #[trigger]
        m.contains_key(d) ==> exists|i: int| 0 <= i < records.len() && #[trigger] records[i] == m[d]
}

/// The models of a vector of records, in order.
pub open spec fn views_of(records: Seq<ProxyRecord>) -> Seq<RecordView> {
    records.map_values(|r: ProxyRecord| r@)
}

/// The index that results from filing `records` one after the other into an
/// empty index: of two records with one domain, the later one stays.
pub open spec fn built_from(records: Seq<RecordView>) -> IndexView
    decreases records.len(),
{
    if records.len() == 0 {
        Map::empty()
    } else {
        built_from(records.drop_last()).insert(records.last().domain, records.last())
    }
}

/// A position in `entries` whose record has this id, if there is one.
fn find_by_id(entries: &Vec<(String, ProxyRecord)>, id: i64) -> (pos: Option<usize>)
    ensures
        match pos {
            Some(i) => i < entries.len() && entries[i as int].1.id == id,
            None => forall|j: int| 0 <= j < entries.len() ==> (#[trigger] entries[j]).1.id != id,
        },
{
    let mut i: usize = 0;
    while i < entries.len()
        invariant
            i <= entries.len(),
            forall|j: int| 0 <= j < i ==> (#[trigger] entries[j]).1.id != id,
        decreases entries.len() - i,
    {
        if entries[i].1.id == id {
            return Some(i);
        }
        i += 1;
    }
    None
}

/// The registry index: the record of each domain, for fast reads.
pub struct RegistryIndex {
    map: DashMap<String, ProxyRecord>,
}

impl View for RegistryIndex {
    type V = IndexView;

    closed spec fn view(&self) -> IndexView {
        entries_of(self.map)
    }
}

impl RegistryIndex {
    /// The index is well formed when every record is filed under its own
    /// domain.
    pub open spec fn wf(&self) -> bool {
        keyed_by_domain(self@)
    }

    /// An empty index.
    pub fn new() -> (index: RegistryIndex)
        ensures
            index@ == empty_index(),
            index.wf(),
    {
        RegistryIndex { map: dash_new() }
    }

    /// Drops whatever the index holds and files `records` in order.
    pub fn rebuild_from(&mut self, records: &Vec<ProxyRecord>)
        ensures
            final(self)@ == built_from(views_of(records@)),
            final(self).wf(),
    {
        self.map = dash_new();
        let mut i: usize = 0;
        while i < records.len()
            invariant
                i <= records.len(),
                self@ == built_from(views_of(records@).take(i as int)),
                self.wf(),
            decreases records.len() - i,
        {
            let record = records[i].clone();
            proof {
                let all = views_of(records@);
                assert(all.take(i + 1).drop_last() == all.take(i as int));
                assert(all.take(i + 1).last() == record@);
            }
            self.upsert(record);
            i += 1;
        }
        proof {
            let all = views_of(records@);
            assert(all.take(i as int) == all);
        }
    }

    /// Files `record` under its domain, in place of a record that was there.
    pub fn upsert(&mut self, record: ProxyRecord)
        requires
            old(self).wf(),
        ensures
            final(self)@ == old(self)@.insert(record@.domain, record@),
            final(self).wf(),
    {
        let key = record.domain.clone();
        dash_insert(&mut self.map, key, record);
    }

    /// Whether a record is filed under `domain`.
    pub fn contains_domain(&self, domain: &str) -> (present: bool)
        ensures
            present == self@.contains_key(domain@),
    {
        dash_contains_key(&self.map, domain)
    }

    /// Removes the record filed under `domain`, if there is one.
    pub fn remove_by_domain(&mut self, domain: &str)
        requires
            old(self).wf(),
        ensures
            final(self)@ == old(self)@.remove(domain@),
            final(self).wf(),
    {
        dash_remove(&mut self.map, domain);
    }

    /// Looks for a record with this id and removes it by its domain. Says
    /// whether one was found.
    pub fn remove_by_id(&mut self, id: i64) -> (removed: bool)
        requires
            old(self).wf(),
        ensures
            removed == holds_id(old(self)@, id as int),
            removed_by_id(old(self)@, final(self)@, id as int),
            final(self).wf(),
    {
        let entries = dash_entries(&self.map);
        match find_by_id(&entries, id) {
            Some(i) => {
                let ghost d = entries[i as int].0@;
                assert(self@.contains_pair(d, entries[i as int].1@));
                dash_remove(&mut self.map, entries[i].0.as_str());
                true
            },
            None => {
                assert forall|d: Seq<char>| #[trigger] self@.contains_key(d) implies self@[d].id
                    != id by {
                    let j = choose|j: int| 0 <= j < entries.len() && (#[trigger] entries[j]).0@ == d;
                    assert(self@.contains_pair(entries[j].0@, entries[j].1@));
                }
                false
            },
        }
    }

    /// Looks for a record with this id and sets its enabled flag. Returns the
    /// record as it now stands, or `None` where no record has the id.
    pub fn update_enabled_by_id(&mut self, id: i64, value: bool) -> (updated: Option<ProxyRecord>)
        requires
            old(self).wf(),
        ensures
            updated is Some <==> holds_id(old(self)@, id as int),
            enabled_set_by_id(old(self)@, final(self)@, id as int, value),
            match updated {
                Some(r) => {
                    &&& r@.id == id
                    &&& old(self)@.contains_key(r@.domain)
                    &&& r@ == with_enabled(old(self)@[r@.domain], value)
                    &&& final(self)@ == old(self)@.insert(r@.domain, r@)
                },
                None => final(self)@ == old(self)@,
            },
            final(self).wf(),
    {
        let entries = dash_entries(&self.map);
        match find_by_id(&entries, id) {
            Some(i) => {
                let ghost d = entries[i as int].0@;
                assert(self@.contains_pair(d, entries[i as int].1@));
                let record = entries[i].1.with_enabled(value);
                let answer = record.clone();
                self.upsert(record);
                Some(answer)
            },
            None => {
                assert forall|d: Seq<char>| #[trigger] self@.contains_key(d) implies self@[d].id
                    != id by {
                    let j = choose|j: int| 0 <= j < entries.len() && (#[trigger] entries[j]).0@ == d;
                    assert(self@.contains_pair(entries[j].0@, entries[j].1@));
                }
                None
            },
        }
    }

    /// A copy of every record in the index, in no particular order.
    pub fn snapshot_all(&self) -> (records: Vec<ProxyRecord>)
        requires
            self.wf(),
        ensures
            lists(views_of(records@), self@),
    {
        let entries = dash_entries(&self.map);
        let mut records: Vec<ProxyRecord> = Vec::new();
        let mut i: usize = 0;
        while i < entries.len()
            invariant
                i <= entries.len(),
                records.len() == i,
                forall|j: int| 0 <= j < i ==> (#[trigger] records[j]) == entries[j].1,
            decreases entries.len() - i,
        {
            records.push(entries[i].1.clone());
            i += 1;
        }
        proof {
            let views = views_of(records@);
            assert forall|j: int| 0 <= j < views.len() implies self@.contains_pair(
                (#[trigger] views[j]).domain,
                views[j],
            ) && views[j].domain == entries[j].0@ by {
                assert(self@.contains_pair(entries[j].0@, entries[j].1@));
            }
            assert forall|d: Seq<char>| #[trigger] self@.contains_key(d) implies exists|j: int|
                0 <= j < views.len() && #[trigger] views[j] == self@[d] by {
                let j = choose|j: int| 0 <= j < entries.len() && (#[trigger] entries[j]).0@ == d;
                assert(self@.contains_pair(entries[j].0@, entries[j].1@));
                assert(views[j] == self@[d]);
            }
        }
        records
    }
}

} // verus!
