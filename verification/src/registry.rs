//! The registry's operations: what each one tells its caller and how it
//! changes the index, given the store's answer to the write.
//!
//! The store is written first. On any answer but success the index is left
//! as it was, so the index never holds what the store does not.

use vstd::prelude::*;
use crate::record::{ProxyRecord, RecordView, created_record, with_enabled};
use crate::error::{RegistryError, ErrorView};
use crate::index::{RegistryIndex, IndexView, holds_id, removed_by_id, lists, views_of, built_from};
use crate::store::{InsertOutcome, WriteOutcome};
use crate::config::StaticEntry;

verus! {

/// What a creation tells its caller.
pub open spec fn create_answer(domain: Seq<char>, port: nat, outcome: InsertOutcome) -> Result<
    RecordView,
    ErrorView,
> {
    match outcome {
        InsertOutcome::Inserted(id) => Ok(created_record(id as int, domain, port)),
        InsertOutcome::DuplicateDomain => Err(ErrorView::DuplicateDomain),
        InsertOutcome::Failed(reason) => Err(ErrorView::StorageError(reason@)),
    }
}

/// The index after a creation.
pub open spec fn index_after_create(
    before: IndexView,
    domain: Seq<char>,
    port: nat,
    outcome: InsertOutcome,
) -> IndexView {
    match outcome {
        InsertOutcome::Inserted(id) => before.insert(
            domain,
            created_record(id as int, domain, port),
        ),
        _ => before,
    }
}

/// What a deletion tells its caller.
pub open spec fn delete_answer(outcome: WriteOutcome) -> Result<(), ErrorView> {
    match outcome {
        WriteOutcome::Done(rows) => if rows > 0 {
            Ok(())
        } else {
            Err(ErrorView::NotFound)
        },
        WriteOutcome::Failed(reason) => Err(ErrorView::StorageError(reason@)),
    }
}

/// The index before and after a deletion of `id`.
pub open spec fn delete_applied(before: IndexView, after: IndexView, id: int, outcome: WriteOutcome) -> bool {
    if outcome.took_effect() {
        removed_by_id(before, after, id)
    } else {
        after == before
    }
}

/// A caller's answer, as plain values.
pub open spec fn record_answer_view(answer: Result<ProxyRecord, RegistryError>) -> Result<
    RecordView,
    ErrorView,
> {
    match answer {
        Ok(record) => Ok(record@),
        Err(error) => Err(error@),
    }
}

/// The index before and after the enabled flag of `id` was set to `value`,
/// with what the caller is told. The record comes back as it now stands in
/// the index. `NotFound` comes where the store touched no row, or where the
/// index has no record with that id.
pub open spec fn set_enabled_applied(
    before: IndexView,
    after: IndexView,
    id: int,
    value: bool,
    outcome: WriteOutcome,
    answer: Result<RecordView, ErrorView>,
) -> bool {
    match outcome {
        WriteOutcome::Failed(reason) => after == before && answer == Err::<RecordView, ErrorView>(
            ErrorView::StorageError(reason@),
        ),
        WriteOutcome::Done(rows) => if rows > 0 && holds_id(before, id) {
            &&& answer is Ok
            &&& answer->Ok_0.id == id
            &&& before.contains_key(answer->Ok_0.domain)
            &&& answer->Ok_0 == with_enabled(before[answer->Ok_0.domain], value)
            &&& after == before.insert(answer->Ok_0.domain, answer->Ok_0)
        } else {
            after == before && answer == Err::<RecordView, ErrorView>(ErrorView::NotFound)
        },
    }
}

/// Finishes a creation. `outcome` is the store's answer to the insert of
/// `domain` and `port`. On success the new record, enabled and with the
/// store's id, is filed in the index and returned.
pub fn create_proxy(
    index: &mut RegistryIndex,
    domain: String,
    port: u16,
    outcome: InsertOutcome,
) -> (answer: Result<ProxyRecord, RegistryError>)
    requires
        old(index).wf(),
    ensures
        final(index).wf(),
        final(index)@ == index_after_create(old(index)@, domain@, port as nat, outcome),
        record_answer_view(answer) == create_answer(domain@, port as nat, outcome),
{
    match outcome {
        InsertOutcome::Inserted(id) => {
            let record = ProxyRecord::new(id, domain, port);
            index.upsert(record.clone());
            Ok(record)
        },
        InsertOutcome::DuplicateDomain => Err(RegistryError::DuplicateDomain),
        InsertOutcome::Failed(reason) => Err(RegistryError::StorageError(reason)),
    }
}

/// Finishes a deletion. `outcome` is the store's answer to the delete of
/// `id`. Where the store removed a row, the record with that id leaves the
/// index.
pub fn delete_proxy(index: &mut RegistryIndex, id: i64, outcome: WriteOutcome) -> (answer: Result<
    (),
    RegistryError,
>)
    requires
        old(index).wf(),
    ensures
        final(index).wf(),
        delete_applied(old(index)@, final(index)@, id as int, outcome),
        match answer {
            Ok(_) => delete_answer(outcome) is Ok,
            Err(error) => delete_answer(outcome) == Err::<(), ErrorView>(error@),
        },
{
    match outcome {
        WriteOutcome::Done(rows) => {
            if rows == 0 {
                Err(RegistryError::NotFound)
            } else {
                index.remove_by_id(id);
                Ok(())
            }
        },
        WriteOutcome::Failed(reason) => Err(RegistryError::StorageError(reason)),
    }
}

/// Finishes an update of the enabled flag. `outcome` is the store's answer
/// to the update of `id`.
pub fn set_enabled(index: &mut RegistryIndex, id: i64, value: bool, outcome: WriteOutcome) -> (answer:
    Result<ProxyRecord, RegistryError>)
    requires
        old(index).wf(),
    ensures
        final(index).wf(),
        set_enabled_applied(
            old(index)@,
            final(index)@,
            id as int,
            value,
            outcome,
            record_answer_view(answer),
        ),
{
    match outcome {
        WriteOutcome::Done(rows) => {
            if rows == 0 {
                Err(RegistryError::NotFound)
            } else {
                match index.update_enabled_by_id(id, value) {
                    Some(record) => Ok(record),
                    None => Err(RegistryError::NotFound),
                }
            }
        },
        WriteOutcome::Failed(reason) => Err(RegistryError::StorageError(reason)),
    }
}

/// Finishes an enable: `set_enabled` with `true`.
pub fn enable_proxy(index: &mut RegistryIndex, id: i64, outcome: WriteOutcome) -> (answer: Result<
    ProxyRecord,
    RegistryError,
>)
    requires
        old(index).wf(),
    ensures
        final(index).wf(),
        set_enabled_applied(
            old(index)@,
            final(index)@,
            id as int,
            true,
            outcome,
            record_answer_view(answer),
        ),
{
    set_enabled(index, id, true, outcome)
}

/// Finishes a disable: `set_enabled` with `false`.
pub fn disable_proxy(index: &mut RegistryIndex, id: i64, outcome: WriteOutcome) -> (answer: Result<
    ProxyRecord,
    RegistryError,
>)
    requires
        old(index).wf(),
    ensures
        final(index).wf(),
        set_enabled_applied(
            old(index)@,
            final(index)@,
            id as int,
            false,
            outcome,
            record_answer_view(answer),
        ),
{
    set_enabled(index, id, false, outcome)
}

/// Every record, read from the index alone.
pub fn list_proxies(index: &RegistryIndex) -> (records: Vec<ProxyRecord>)
    requires
        index.wf(),
    ensures
        lists(views_of(records@), index@),
{
    index.snapshot_all()
}

/// The index at startup: built from all that the store holds.
pub fn bootstrap_index(stored: &Vec<ProxyRecord>) -> (index: RegistryIndex)
    ensures
        index.wf(),
        index@ == built_from(views_of(stored@)),
{
    let mut index = RegistryIndex::new();
    index.rebuild_from(stored);
    index
}

/// The next static entry, at or after `from`, that has to be inserted into
/// the store: the first whose domain the index does not hold. Entries whose
/// domain is there already are passed over, so what the store holds wins over
/// the static configuration. `None` when no entry is left.
pub fn next_static_insert(index: &RegistryIndex, entries: &Vec<StaticEntry>, from: usize) -> (next:
    Option<usize>)
    ensures
        match next {
            Some(i) => {
                &&& from <= i < entries.len()
                &&& !index@.contains_key(entries[i as int].domain@)
                &&& forall|j: int| from <= j < i ==> index@.contains_key((#[trigger] entries[j]).domain@)
            },
            None => forall|j: int|
                from <= j < entries.len() ==> index@.contains_key((#[trigger] entries[j]).domain@),
        },
{
    let mut i: usize = from;
    while i < entries.len()
        invariant
            from <= i,
            forall|j: int| from <= j < i && j < entries.len() ==> index@.contains_key((#[trigger] entries[j]).domain@),
        decreases entries.len() - i,
    {
        if !index.contains_domain(entries[i].domain.as_str()) {
            return Some(i);
        }
        i += 1;
    }
    None
}

} // verus!
