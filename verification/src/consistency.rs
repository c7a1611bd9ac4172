//! What holds between the index and the store across the operations.
//!
//! Each statement here is about the models: the index as a map from domain to
//! record, the store as `StoreModel`. The operations of `registry` change the
//! index as their contracts say; the store changes as `StoreModel` says for
//! the answer it gave.

use vstd::prelude::*;
use crate::record::{RecordView, with_enabled};
use crate::error::ErrorView;
use crate::index::{
    IndexView, empty_index, keyed_by_domain, holds_id, ids_unique, enabled_set_by_id, lists,
    built_from,
};
use crate::store::{InsertOutcome, WriteOutcome, StoreModel, mirrors};
use crate::registry::{
    create_answer, index_after_create, delete_answer, delete_applied, set_enabled_applied,
};

verus! {

/// An index that mirrors a well-formed store files each record under its
/// domain and holds no id twice; it holds an id exactly if the store has that
/// row.
pub proof fn mirror_is_well_formed(index: IndexView, store: StoreModel)
    requires
        store.wf(),
        mirrors(index, store),
    ensures
        keyed_by_domain(index),
        ids_unique(index),
        forall|id: int| holds_id(index, id) <==> store.rows.contains_key(id),
{
    assert forall|id: int| holds_id(index, id) <==> store.rows.contains_key(id) by {
        if store.rows.contains_key(id) {
            assert(index.contains_key(store.rows[id].domain));
        }
    }
}

/// An empty index mirrors an empty store.
pub proof fn empty_mirrors_empty(issued: Set<int>)
    ensures
        mirrors(empty_index(), StoreModel { rows: Map::empty(), issued }),
        (StoreModel { rows: Map::empty(), issued }).wf(),
{
}

/// After a creation the index mirrors the store again, whatever the store
/// answered.
pub proof fn create_keeps_mirror(
    index: IndexView,
    store: StoreModel,
    domain: Seq<char>,
    port: nat,
    outcome: InsertOutcome,
)
    requires
        store.wf(),
        mirrors(index, store),
        store.admits_insert(domain, outcome),
    ensures
        store.after_insert(domain, port, outcome).wf(),
        mirrors(
            index_after_create(index, domain, port, outcome),
            store.after_insert(domain, port, outcome),
        ),
{
    let after = index_after_create(index, domain, port, outcome);
    let next = store.after_insert(domain, port, outcome);
    if let InsertOutcome::Inserted(id) = outcome {
        assert(!index.contains_key(domain)) by {
            if index.contains_key(domain) {
                assert(store.rows.contains_key(index[domain].id));
            }
        }
        assert forall|x: int| #[trigger] next.rows.contains_key(x) implies after.contains_pair(
            next.rows[x].domain,
            next.rows[x],
        ) by {
            if x != id as int {
                assert(store.rows.contains_key(x));
            }
        }
        assert forall|d: Seq<char>| #[trigger] after.contains_key(d) implies after[d].domain == d
            && next.rows.contains_pair(after[d].id, after[d]) by {
            if d != domain {
                assert(index.contains_key(d));
                assert(store.rows.contains_key(index[d].id));
            }
        }
    }
}

/// After a deletion the index mirrors the store again, whatever the store
/// answered.
pub proof fn delete_keeps_mirror(
    index: IndexView,
    after: IndexView,
    store: StoreModel,
    id: int,
    outcome: WriteOutcome,
)
    requires
        store.wf(),
        mirrors(index, store),
        store.admits_write(id, outcome),
        delete_applied(index, after, id, outcome),
    ensures
        store.after_delete(id, outcome).wf(),
        mirrors(after, store.after_delete(id, outcome)),
{
    if outcome.took_effect() {
        let next = store.after_delete(id, outcome);
        mirror_is_well_formed(index, store);
        assert(holds_id(index, id));
        let d = choose|d: Seq<char>|
            #[trigger] index.contains_key(d) && index[d].id == id && after == index.remove(d);
        assert forall|x: int| #[trigger] next.rows.contains_key(x) implies after.contains_pair(
            next.rows[x].domain,
            next.rows[x],
        ) by {
            assert(store.rows.contains_key(x));
            assert(index.contains_key(store.rows[x].domain));
        }
        assert forall|e: Seq<char>| #[trigger] after.contains_key(e) implies after[e].domain == e
            && next.rows.contains_pair(after[e].id, after[e]) by {
            assert(index.contains_key(e));
        }
    }
}

/// After an update of the enabled flag the index mirrors the store again,
/// whatever the store answered.
pub proof fn set_enabled_keeps_mirror(
    index: IndexView,
    after: IndexView,
    store: StoreModel,
    id: int,
    value: bool,
    outcome: WriteOutcome,
    answer: Result<RecordView, ErrorView>,
)
    requires
        store.wf(),
        mirrors(index, store),
        store.admits_write(id, outcome),
        set_enabled_applied(index, after, id, value, outcome, answer),
    ensures
        store.after_set_enabled(id, value, outcome).wf(),
        mirrors(after, store.after_set_enabled(id, value, outcome)),
        outcome.took_effect() ==> answer == Ok::<RecordView, ErrorView>(
            with_enabled(store.rows[id], value),
        ),
        outcome is Done && !outcome.took_effect() ==> answer == Err::<RecordView, ErrorView>(
            ErrorView::NotFound,
        ),
{
    mirror_is_well_formed(index, store);
    if outcome.took_effect() {
        let next = store.after_set_enabled(id, value, outcome);
        assert(holds_id(index, id));
        let r = answer->Ok_0;
        let d = r.domain;
        assert(index.contains_key(d));
        assert(store.rows.contains_key(index[d].id));
        assert(index[d] == store.rows[id]);
        assert forall|x: int| #[trigger] next.rows.contains_key(x) implies after.contains_pair(
            next.rows[x].domain,
            next.rows[x],
        ) by {
            assert(store.rows.contains_key(x));
            assert(index.contains_key(store.rows[x].domain));
        }
        assert forall|e: Seq<char>| #[trigger] after.contains_key(e) implies after[e].domain == e
            && next.rows.contains_pair(after[e].id, after[e]) by {
            if e != d {
                assert(index.contains_key(e));
                assert(store.rows.contains_key(index[e].id));
            }
        }
        assert forall|a: int, b: int|
            #[trigger] next.rows.contains_key(a) && #[trigger] next.rows.contains_key(b)
                && next.rows[a].domain == next.rows[b].domain implies a == b by {
            assert(store.rows.contains_key(a));
            assert(store.rows.contains_key(b));
        }
    }
}

/// One operation on the registry, with the answer that the store gave to its
/// write.
pub enum Operation {
    Create { domain: Seq<char>, port: nat, outcome: InsertOutcome },
    Delete { id: int, outcome: WriteOutcome },
    SetEnabled { id: int, value: bool, outcome: WriteOutcome },
}

impl Operation {
    /// The answer that the operation carries is one that `store` may give.
    pub open spec fn admitted_by(self, store: StoreModel) -> bool {
        match self {
            Operation::Create { domain, port, outcome } => store.admits_insert(domain, outcome),
            Operation::Delete { id, outcome } => store.admits_write(id, outcome),
            Operation::SetEnabled { id, value, outcome } => store.admits_write(id, outcome),
        }
    }

    /// The store after the operation.
    pub open spec fn store_after(self, store: StoreModel) -> StoreModel {
        match self {
            Operation::Create { domain, port, outcome } => store.after_insert(domain, port, outcome),
            Operation::Delete { id, outcome } => store.after_delete(id, outcome),
            Operation::SetEnabled { id, value, outcome } => store.after_set_enabled(
                id,
                value,
                outcome,
            ),
        }
    }

    /// The index went from `before` to `after` as the operation's contract in
    /// `registry` says.
    pub open spec fn moves_index(self, before: IndexView, after: IndexView) -> bool {
        match self {
            Operation::Create { domain, port, outcome } => after == index_after_create(
                before,
                domain,
                port,
                outcome,
            ),
            Operation::Delete { id, outcome } => delete_applied(before, after, id, outcome),
            Operation::SetEnabled { id, value, outcome } => exists|
                answer: Result<RecordView, ErrorView>,
            | #[trigger] set_enabled_applied(before, after, id, value, outcome, answer),
        }
    }
}

/// `indexes` and `stores` are the states that a run of `operations` passes
/// through: one more state than operations, each step made by the operation
/// at that place.
pub open spec fn is_run(
    indexes: Seq<IndexView>,
    stores: Seq<StoreModel>,
    operations: Seq<Operation>,
) -> bool {
    &&& indexes.len() == operations.len() + 1
    &&& stores.len() == operations.len() + 1
    &&& forall|i: int|
        0 <= i < operations.len() ==> {
            &&& (#[trigger] operations[i]).admitted_by(stores[i])
            &&& stores[i + 1] == operations[i].store_after(stores[i])
            &&& operations[i].moves_index(indexes[i], indexes[i + 1])
        }
}

/// Through any run of creations, deletions and updates of the enabled flag,
/// started where the index mirrors the store, the index mirrors the store
/// after every operation.
pub proof fn every_run_keeps_mirror(
    indexes: Seq<IndexView>,
    stores: Seq<StoreModel>,
    operations: Seq<Operation>,
    k: int,
)
    requires
        is_run(indexes, stores, operations),
        stores[0].wf(),
        mirrors(indexes[0], stores[0]),
        0 <= k <= operations.len(),
    ensures
        stores[k].wf(),
        mirrors(indexes[k], stores[k]),
    decreases k,
{
    if k > 0 {
        every_run_keeps_mirror(indexes, stores, operations, k - 1);
        let index = indexes[k - 1];
        let store = stores[k - 1];
        let after = indexes[k];
        let operation = operations[k - 1];
        assert(operation.admitted_by(store));
        assert(stores[k - 1 + 1] == operation.store_after(store));
        assert(operation.moves_index(index, indexes[k - 1 + 1]));
        match operation {
            Operation::Create { domain, port, outcome } => {
                create_keeps_mirror(index, store, domain, port, outcome);
            },
            Operation::Delete { id, outcome } => {
                delete_keeps_mirror(index, after, store, id, outcome);
            },
            Operation::SetEnabled { id, value, outcome } => {
                let answer = choose|answer: Result<RecordView, ErrorView>| #[trigger]
                    set_enabled_applied(index, after, id, value, outcome, answer);
                set_enabled_keeps_mirror(index, after, store, id, value, outcome, answer);
            },
        }
    }
}

/// The id of a deleted row is never given to a new row.
pub proof fn deleted_id_is_not_reused(
    store: StoreModel,
    id: int,
    outcome: WriteOutcome,
    domain: Seq<char>,
    reused: i64,
)
    requires
        store.wf(),
        store.rows.contains_key(id),
        reused == id,
    ensures
        !store.after_delete(id, outcome).admits_insert(domain, InsertOutcome::Inserted(reused)),
{
}

/// A listing of an index that mirrors the store holds exactly the store's
/// rows.
pub proof fn listing_reflects_store(records: Seq<RecordView>, index: IndexView, store: StoreModel)
    requires
        store.wf(),
        mirrors(index, store),
        lists(records, index),
    ensures
        forall|r: RecordView| records.contains(r) <==> store.rows.contains_pair(r.id, r),
{
    assert forall|r: RecordView| records.contains(r) <==> store.rows.contains_pair(r.id, r) by {
        if records.contains(r) {
            let i = choose|i: int| 0 <= i < records.len() && records[i] == r;
            assert(index.contains_pair(records[i].domain, records[i]));
        }
        if store.rows.contains_pair(r.id, r) {
            assert(store.rows.contains_key(r.id));
            assert(index.contains_key(r.domain));
            let i = choose|i: int| 0 <= i < records.len() && #[trigger] records[i] == index[r.domain];
            assert(records[i] == r);
        }
    }
}

/// A creation under a domain that the store already holds is refused as a
/// duplicate, unless the store itself fails, and changes neither the index
/// nor the store.
pub proof fn duplicate_create_changes_nothing(
    index: IndexView,
    store: StoreModel,
    domain: Seq<char>,
    port: nat,
    outcome: InsertOutcome,
)
    requires
        store.has_domain(domain),
        store.admits_insert(domain, outcome),
    ensures
        !(outcome is Failed) ==> create_answer(domain, port, outcome) == Err::<
            RecordView,
            ErrorView,
        >(ErrorView::DuplicateDomain),
        index_after_create(index, domain, port, outcome) == index,
        store.after_insert(domain, port, outcome) == store,
{
}

/// A deletion of an id that the store does not hold reports that nothing was
/// found, unless the store itself fails, and changes neither the index nor
/// the store.
pub proof fn delete_of_missing_changes_nothing(
    index: IndexView,
    after: IndexView,
    store: StoreModel,
    id: int,
    outcome: WriteOutcome,
)
    requires
        !store.rows.contains_key(id),
        store.admits_write(id, outcome),
        delete_applied(index, after, id, outcome),
    ensures
        !(outcome is Failed) ==> delete_answer(outcome) == Err::<(), ErrorView>(ErrorView::NotFound),
        after == index,
        store.after_delete(id, outcome) == store,
{
}

/// Of two updates of one record's enabled flag, the later one decides: the
/// index ends as if only the later had been made. So the flag is what the
/// last update set, however many came before.
pub proof fn last_flag_wins(
    before: IndexView,
    between: IndexView,
    after: IndexView,
    id: int,
    first: bool,
    last: bool,
)
    requires
        keyed_by_domain(before),
        ids_unique(before),
        enabled_set_by_id(before, between, id, first),
        enabled_set_by_id(between, after, id, last),
    ensures
        enabled_set_by_id(before, after, id, last),
        forall|d: Seq<char>| #[trigger]
            after.contains_key(d) && after[d].id == id ==> after[d].enabled == last,
        keyed_by_domain(after),
        ids_unique(after),
{
    if holds_id(before, id) {
        let d = choose|d: Seq<char>|
            #[trigger] before.contains_key(d) && before[d].id == id && between == before.insert(
                d,
                with_enabled(before[d], first),
            );
        assert(between.contains_key(d) && between[d].id == id);
        assert(holds_id(between, id));
        let e = choose|e: Seq<char>|
            #[trigger] between.contains_key(e) && between[e].id == id && after == between.insert(
                e,
                with_enabled(between[e], last),
            );
        assert(before.contains_key(e));
        assert(e == d);
        assert(after =~= before.insert(d, with_enabled(before[d], last)));
        assert forall|x: Seq<char>| #[trigger]
            after.contains_key(x) && after[x].id == id implies after[x].enabled == last by {
            assert(before.contains_key(x));
        }
        assert forall|a: Seq<char>, b: Seq<char>|
            #[trigger] after.contains_key(a) && #[trigger] after.contains_key(b) && after[a].id
                == after[b].id implies a == b by {
            assert(before.contains_key(a) && before.contains_key(b));
        }
    } else {
        assert(between == before);
        assert(after == before);
    }
}

/// What an index built from `records` holds: under each domain one of the
/// records that have it, and some record for every domain that occurs.
pub proof fn built_from_holds_the_records(records: Seq<RecordView>)
    ensures
        forall|d: Seq<char>| #[trigger]
            built_from(records).contains_key(d) ==> built_from(records)[d].domain == d
                && records.contains(built_from(records)[d]),
        forall|i: int|
            0 <= i < records.len() ==> built_from(records).contains_key(
                (#[trigger] records[i]).domain,
            ),
    decreases records.len(),
{
    if records.len() > 0 {
        let front = records.drop_last();
        built_from_holds_the_records(front);
        assert forall|d: Seq<char>| #[trigger] built_from(records).contains_key(d) implies built_from(
            records,
        )[d].domain == d && records.contains(built_from(records)[d]) by {
            if d == records.last().domain {
                assert(records[records.len() - 1] == built_from(records)[d]);
            } else {
                let r = built_from(front)[d];
                assert(front.contains(r));
                let i = choose|i: int| 0 <= i < front.len() && front[i] == r;
                assert(records[i] == r);
            }
        }
        assert forall|i: int| 0 <= i < records.len() implies built_from(records).contains_key(
            (#[trigger] records[i]).domain,
        ) by {
            if i < records.len() - 1 {
                assert(front[i] == records[i]);
            }
        }
    }
}

/// At startup: an index built from a listing of all that the store holds
/// mirrors the store.
pub proof fn rebuilt_index_mirrors_store(records: Seq<RecordView>, store: StoreModel)
    requires
        store.wf(),
        forall|i: int|
            0 <= i < records.len() ==> store.rows.contains_pair(
                (#[trigger] records[i]).id,
                records[i],
            ),
        forall|id: int| #[trigger] store.rows.contains_key(id) ==> records.contains(store.rows[id]),
    ensures
        mirrors(built_from(records), store),
{
    let index = built_from(records);
    built_from_holds_the_records(records);
    assert forall|d: Seq<char>| #[trigger] index.contains_key(d) implies index[d].domain == d
        && store.rows.contains_pair(index[d].id, index[d]) by {
        let i = choose|i: int| 0 <= i < records.len() && records[i] == index[d];
        assert(store.rows.contains_pair(records[i].id, records[i]));
    }
    assert forall|id: int| #[trigger] store.rows.contains_key(id) implies index.contains_pair(
        store.rows[id].domain,
        store.rows[id],
    ) by {
        let row = store.rows[id];
        let i = choose|i: int| 0 <= i < records.len() && records[i] == row;
        assert(index.contains_key(records[i].domain));
        let held = index[row.domain];
        let j = choose|j: int| 0 <= j < records.len() && records[j] == held;
        assert(store.rows.contains_pair(records[j].id, records[j]));
        assert(store.rows.contains_key(held.id));
    }
}

/// Where the store carried out two updates of one record's enabled flag, one
/// after the other, the index and the second answer are as if only the second
/// update had been made.
pub proof fn last_update_decides(
    before: IndexView,
    between: IndexView,
    after: IndexView,
    id: int,
    first: bool,
    last: bool,
    first_outcome: WriteOutcome,
    last_outcome: WriteOutcome,
    first_answer: Result<RecordView, ErrorView>,
    last_answer: Result<RecordView, ErrorView>,
)
    requires
        keyed_by_domain(before),
        ids_unique(before),
        first_outcome.took_effect(),
        last_outcome.took_effect(),
        set_enabled_applied(before, between, id, first, first_outcome, first_answer),
        set_enabled_applied(between, after, id, last, last_outcome, last_answer),
    ensures
        set_enabled_applied(before, after, id, last, last_outcome, last_answer),
        last_answer is Ok ==> last_answer->Ok_0.enabled == last,
{
    if holds_id(before, id) {
        let d = first_answer->Ok_0.domain;
        assert(between.contains_key(d) && between[d].id == id);
        assert(holds_id(between, id));
        let e = last_answer->Ok_0.domain;
        assert(before.contains_key(e));
        assert(e == d);
        assert(after =~= before.insert(d, with_enabled(before[d], last)));
    } else {
        assert(between == before);
    }
}

} // verus!
