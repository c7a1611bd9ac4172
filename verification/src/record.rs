//! The proxy record and its mathematical model.

use vstd::prelude::*;

verus! {

/// What a proxy record is, as plain mathematical values.
pub struct RecordView {
    pub id: int,
    pub domain: Seq<char>,
    pub port: nat,
    pub enabled: bool,
}

/// One route: requests for `domain` go to the backend at `port`.
///
/// `id` is assigned by the durable store and never changes; `enabled` is the
/// only field that is changed after creation.
#[derive(Debug, PartialEq, Eq)]
pub struct ProxyRecord {
    pub id: i64,
    pub domain: String,
    pub port: u16,
    pub enabled: bool,
}

impl View for ProxyRecord {
    type V = RecordView;

    open spec fn view(&self) -> RecordView {
        RecordView {
            id: self.id as int,
            domain: self.domain@,
            port: self.port as nat,
            enabled: self.enabled,
        }
    }
}

impl Clone for ProxyRecord {
    fn clone(&self) -> (copy: Self)
        ensures
            copy == *self,
    {
        ProxyRecord {
            id: self.id,
            domain: self.domain.clone(),
            port: self.port,
            enabled: self.enabled,
        }
    }
}

/// The record that a successful creation yields: enabled, with the id that
/// the store assigned.
pub open spec fn created_record(id: int, domain: Seq<char>, port: nat) -> RecordView {
    RecordView { id, domain, port, enabled: true }
}

/// `r` with its enabled flag set to `value`, all else kept.
pub open spec fn with_enabled(r: RecordView, value: bool) -> RecordView {
    RecordView { id: r.id, domain: r.domain, port: r.port, enabled: value }
}

impl ProxyRecord {
    /// A freshly created record: enabled by default.
    pub fn new(id: i64, domain: String, port: u16) -> (record: ProxyRecord)
        ensures
            record@ == created_record(id as int, domain@, port as nat),
            record.domain == domain,
    {
        ProxyRecord { id, domain, port, enabled: true }
    }

    /// A copy of this record with the enabled flag set to `value`.
    pub fn with_enabled(&self, value: bool) -> (record: ProxyRecord)
        ensures
            record@ == with_enabled(self@, value),
    {
        ProxyRecord { id: self.id, domain: self.domain.clone(), port: self.port, enabled: value }
    }
}

} // verus!
