//! The durable store, as the registry sees it.
//!
//! The store itself lives outside this library. What the library handles are
//! the store's answers to the writes that were asked of it. `StoreModel`
//! says, as mathematics, what the store holds and which answers it may give.

use vstd::prelude::*;
use crate::record::{RecordView, created_record, with_enabled};
use crate::index::IndexView;

verus! {

/// The store's answer to an insert.
#[derive(Debug, PartialEq, Eq)]
pub enum InsertOutcome {
    /// The row was written; the store assigned this id.
    Inserted(i64),
    /// A row with that domain exists already; nothing was written.
    DuplicateDomain,
    /// The store failed; nothing was written. The text is its reason.
    Failed(String),
}

/// The store's answer to a delete or to an update of the enabled flag.
#[derive(Debug, PartialEq, Eq)]
pub enum WriteOutcome {
    /// The statement ran and touched this many rows.
    Done(u64),
    /// The store failed; nothing was written. The text is its reason.
    Failed(String),
}

impl WriteOutcome {
    /// The write found its row and changed the store.
    pub open spec fn took_effect(self) -> bool {
        match self {
            WriteOutcome::Done(rows) => rows > 0,
            WriteOutcome::Failed(_) => false,
        }
    }
}

/// What the durable store holds: its rows by id, and every id it has ever
/// assigned.
pub struct StoreModel {
    pub rows: Map<int, RecordView>,
    pub issued: Set<int>,
}

impl StoreModel {
    /// Each row is filed under its own id, which was issued, and no two rows
    /// share a domain.
    pub open spec fn wf(self) -> bool {
        &&& forall|id: int| #[trigger]
            self.rows.contains_key(id) ==> self.rows[id].id == id && self.issued.contains(id)
        &&& forall|a: int, b: int|
            #[trigger] self.rows.contains_key(a) && #[trigger] self.rows.contains_key(b)
                && self.rows[a].domain == self.rows[b].domain ==> a == b
    }

    /// Some row has this domain.
    pub open spec fn has_domain(self, domain: Seq<char>) -> bool {
        exists|id: int| #[trigger] self.rows.contains_key(id) && self.rows[id].domain == domain
    }

    /// `outcome` is an answer that the store may give, in this state, to an
    /// insert of `domain`: a new row only for a domain not yet there, under an
    /// id never issued before; a duplicate only for a domain that is there.
    pub open spec fn admits_insert(self, domain: Seq<char>, outcome: InsertOutcome) -> bool {
        match outcome {
            InsertOutcome::Inserted(id) => !self.has_domain(domain) && !self.issued.contains(
                id as int,
            ),
            InsertOutcome::DuplicateDomain => self.has_domain(domain),
            InsertOutcome::Failed(_) => true,
        }
    }

    /// The store after an insert that was answered with `outcome`.
    pub open spec fn after_insert(self, domain: Seq<char>, port: nat, outcome: InsertOutcome) -> StoreModel {
        match outcome {
            InsertOutcome::Inserted(id) => StoreModel {
                rows: self.rows.insert(id as int, created_record(id as int, domain, port)),
                issued: self.issued.insert(id as int),
            },
            _ => self,
        }
    }

    /// `outcome` is an answer that the store may give, in this state, to a
    /// write that addresses the row `id`: rows were touched exactly if that
    /// row exists.
    pub open spec fn admits_write(self, id: int, outcome: WriteOutcome) -> bool {
        match outcome {
            WriteOutcome::Done(rows) => (rows > 0) == self.rows.contains_key(id),
            WriteOutcome::Failed(_) => true,
        }
    }

    /// The store after a delete of `id` that was answered with `outcome`.
    pub open spec fn after_delete(self, id: int, outcome: WriteOutcome) -> StoreModel {
        if outcome.took_effect() {
            StoreModel { rows: self.rows.remove(id), issued: self.issued }
        } else {
            self
        }
    }

    /// The store after the enabled flag of `id` was set to `value`, answered
    /// with `outcome`.
    pub open spec fn after_set_enabled(self, id: int, value: bool, outcome: WriteOutcome) -> StoreModel {
        if outcome.took_effect() {
            StoreModel {
                rows: self.rows.insert(id, with_enabled(self.rows[id], value)),
                issued: self.issued,
            }
        } else {
            self
        }
    }
}

/// The index holds exactly the rows of the store, each under its domain.
pub open spec fn mirrors(index: IndexView, store: StoreModel) -> bool {
    &&& forall|d: Seq<char>| #[trigger]
        index.contains_key(d) ==> index[d].domain == d && store.rows.contains_pair(
            index[d].id,
            index[d],
        )
    &&& forall|id: int| #[trigger]
        store.rows.contains_key(id) ==> index.contains_pair(store.rows[id].domain, store.rows[id])
}

} // verus!
