//! Properties of the store operations that span several calls.
use vstd::prelude::*;
use crate::json::{JsonValue, record_id, lookup, id_key};
use crate::store::{
    StoreError, StoreModel, create_model, update_model, delete_model, get_model, items_or_empty,
    index_of_id, holds_id, valid_candidate, candidate_id, stamped, lemma_index_of_id,
};

verus! {

/// No two records of the sequence share an id.
pub open spec fn ids_unique(items: Seq<JsonValue>) -> bool {
    forall|i: int, j: int|
        0 <= i < items.len() && 0 <= j < items.len() && i != j && record_id(items[i]) is Some
            ==> #[trigger] record_id(items[i]) != #[trigger] record_id(items[j])
}

/// Every collection of the store has unique ids.
pub open spec fn all_ids_unique(m: StoreModel) -> bool {
    forall|k: Seq<char>| #[trigger] m.contains_key(k) ==> ids_unique(m[k])
}

/// A mutation of the store.
pub enum Op {
    Create { name: Seq<char>, candidate: JsonValue, fresh: Seq<char> },
    Update { name: Seq<char>, id: Seq<char>, replacement: JsonValue },
    Delete { name: Seq<char>, id: Seq<char> },
}

pub open spec fn apply_op(m: StoreModel, op: Op) -> StoreModel {
    match op {
        Op::Create { name, candidate, fresh } => create_model(m, name, candidate, fresh).0,
        Op::Update { name, id, replacement } => update_model(m, name, id, replacement).0,
        Op::Delete { name, id } => delete_model(m, name, id).0,
    }
}

/// The store after the mutations, one after the other.
pub open spec fn apply_ops(m: StoreModel, ops: Seq<Op>) -> StoreModel
    decreases ops.len(),
{
    if ops.len() == 0 {
        m
    } else {
        apply_op(apply_ops(m, ops.drop_last()), ops.last())
    }
}

/// An update whose replacement carries the id it is addressed by.
pub open spec fn keeps_path_id(op: Op) -> bool {
    match op {
        Op::Update { id, replacement, .. } => record_id(replacement) == Some(id),
        _ => true,
    }
}

proof fn lemma_lookup_push(fields: Seq<(Seq<char>, JsonValue)>, k: Seq<char>, v: JsonValue)
    requires
        lookup(fields, k) is None,
    ensures
        lookup(fields.push((k, v)), k) == Some(v),
    decreases fields.len(),
{
    if fields.len() > 0 {
        assert(fields.push((k, v)).drop_first() =~= fields.drop_first().push((k, v)));
        lemma_lookup_push(fields.drop_first(), k, v);
    }
}

/// The record that create stores carries the id that create returns.
pub proof fn lemma_stamped_id(c: JsonValue, fresh: Seq<char>)
    requires
        valid_candidate(c),
    ensures
        record_id(stamped(c, fresh)) == Some(candidate_id(c, fresh)),
{
    if lookup(c->Object_0, id_key()) is None {
        lemma_lookup_push(c->Object_0, id_key(), JsonValue::Str(fresh));
    }
}

proof fn lemma_op_keeps_ids_unique(m: StoreModel, op: Op)
    requires
        all_ids_unique(m),
        keeps_path_id(op),
    ensures
        all_ids_unique(apply_op(m, op)),
{
    let m2 = apply_op(m, op);
    match op {
        Op::Create { name, candidate, fresh } => {
            if valid_candidate(candidate) {
                let items = items_or_empty(m, name);
                let id = candidate_id(candidate, fresh);
                lemma_index_of_id(items, id);
                lemma_stamped_id(candidate, fresh);
                if index_of_id(items, id) < 0 {
                    let n = items.push(stamped(candidate, fresh));
                    assert(ids_unique(items));
                    assert forall|i: int, j: int|
                        0 <= i < n.len() && 0 <= j < n.len() && i != j && record_id(n[i]) is Some
                            implies #[trigger] record_id(n[i]) != #[trigger] record_id(n[j]) by {
                        if i < items.len() && j < items.len() {
                            assert(n[i] == items[i] && n[j] == items[j]);
                        } else if i < items.len() {
                            assert(n[i] == items[i]);
                        } else {
                            assert(n[j] == items[j]);
                        }
                    }
                    assert forall|k: Seq<char>| #[trigger] m2.contains_key(k) implies ids_unique(m2[k]) by {
                        if k != name {
                            assert(m.contains_key(k));
                        }
                    }
                }
            }
        },
        Op::Update { name, id, replacement } => {
            if m.contains_key(name) && index_of_id(m[name], id) >= 0 {
                let items = m[name];
                lemma_index_of_id(items, id);
                let p = index_of_id(items, id);
                let n = items.update(p, replacement);
                assert(ids_unique(items));
                assert forall|i: int, j: int|
                    0 <= i < n.len() && 0 <= j < n.len() && i != j && record_id(n[i]) is Some
                        implies #[trigger] record_id(n[i]) != #[trigger] record_id(n[j]) by {
                    if i != p && j != p {
                        assert(n[i] == items[i] && n[j] == items[j]);
                    } else if i == p {
                        assert(n[j] == items[j]);
                        assert(record_id(items[p]) == Some(id));
                    } else {
                        assert(n[i] == items[i]);
                        assert(record_id(items[p]) == Some(id));
                    }
                }
                assert forall|k: Seq<char>| #[trigger] m2.contains_key(k) implies ids_unique(m2[k]) by {
                    if k != name {
                        assert(m.contains_key(k));
                    }
                }
            }
        },
        Op::Delete { name, id } => {
            if m.contains_key(name) && index_of_id(m[name], id) >= 0 {
                let items = m[name];
                lemma_index_of_id(items, id);
                let p = index_of_id(items, id);
                let n = items.remove(p);
                assert(ids_unique(items));
                assert forall|i: int, j: int|
                    0 <= i < n.len() && 0 <= j < n.len() && i != j && record_id(n[i]) is Some
                        implies #[trigger] record_id(n[i]) != #[trigger] record_id(n[j]) by {
                    let a = if i < p { i } else { i + 1 };
                    let b = if j < p { j } else { j + 1 };
                    assert(n[i] == items[a] && n[j] == items[b]);
                }
                assert forall|k: Seq<char>| #[trigger] m2.contains_key(k) implies ids_unique(m2[k]) by {
                    if k != name {
                        assert(m.contains_key(k));
                    }
                }
            }
        },
    }
}

/// Any serial order of creates, updates and deletes, applied to a store whose
/// collections have unique ids, leaves each collection with at most one
/// record per id, provided every update's replacement carries the id it is
/// addressed by.
pub proof fn lemma_serial_mutations_keep_ids_unique(m: StoreModel, ops: Seq<Op>)
    requires
        all_ids_unique(m),
        forall|i: int| 0 <= i < ops.len() ==> keeps_path_id(#[trigger] ops[i]),
    ensures
        all_ids_unique(apply_ops(m, ops)),
    decreases ops.len(),
{
    if ops.len() > 0 {
        lemma_serial_mutations_keep_ids_unique(m, ops.drop_last());
        lemma_op_keeps_ids_unique(apply_ops(m, ops.drop_last()), ops.last());
    }
}

/// A create whose payload has no id stores it under the fresh id, which no
/// record of the collection held before.
pub proof fn lemma_create_assigns_new_id(m: StoreModel, name: Seq<char>, c: JsonValue, fresh: Seq<char>)
    requires
        c is Object,
        lookup(c->Object_0, id_key()) is None,
        !holds_id(items_or_empty(m, name), fresh),
    ensures
        create_model(m, name, c, fresh).1 == Ok::<Seq<char>, StoreError>(fresh),
        create_model(m, name, c, fresh).0[name].last() == stamped(c, fresh),
        record_id(stamped(c, fresh)) == Some(fresh),
{
    lemma_index_of_id(items_or_empty(m, name), fresh);
    lemma_stamped_id(c, fresh);
}

/// A create whose id is already in the collection fails with `DuplicateId`
/// and leaves the store as it was.
pub proof fn lemma_duplicate_create_rejected(m: StoreModel, name: Seq<char>, c: JsonValue, fresh: Seq<char>)
    requires
        c is Object,
        lookup(c->Object_0, id_key()) matches Some(JsonValue::Str(s)) && holds_id(items_or_empty(m, name), s),
    ensures
        create_model(m, name, c, fresh) == (m, Err::<Seq<char>, StoreError>(StoreError::DuplicateId)),
{
    lemma_index_of_id(items_or_empty(m, name), candidate_id(c, fresh));
}

/// After deleting a record from a collection with unique ids, looking its id
/// up finds nothing.
pub proof fn lemma_delete_then_get(m: StoreModel, name: Seq<char>, id: Seq<char>)
    requires
        m.contains_key(name),
        ids_unique(m[name]),
    ensures
        get_model(delete_model(m, name, id).0, name, id) == Err::<JsonValue, StoreError>(
            StoreError::ItemNotFound,
        ),
{
    let items = m[name];
    lemma_index_of_id(items, id);
    let m2 = delete_model(m, name, id).0;
    lemma_index_of_id(m2[name], id);
    if index_of_id(items, id) >= 0 {
        let p = index_of_id(items, id);
        let n = items.remove(p);
        assert(m2[name] == n);
        if index_of_id(n, id) >= 0 {
            let q = index_of_id(n, id);
            let b = if q < p { q } else { q + 1 };
            assert(n[q] == items[b]);
        }
    }
}

/// After an update whose replacement carries the id it is addressed by,
/// looking that id up gives the replacement.
pub proof fn lemma_update_then_get(m: StoreModel, name: Seq<char>, id: Seq<char>, rep: JsonValue)
    requires
        m.contains_key(name),
        holds_id(m[name], id),
        record_id(rep) == Some(id),
    ensures
        update_model(m, name, id, rep).1 == Ok::<Seq<char>, StoreError>(id),
        get_model(update_model(m, name, id, rep).0, name, id) == Ok::<JsonValue, StoreError>(rep),
{
    let items = m[name];
    lemma_index_of_id(items, id);
    let p = index_of_id(items, id);
    let n = items.update(p, rep);
    let m2 = update_model(m, name, id, rep).0;
    assert(m2[name] == n);
    lemma_index_of_id(n, id);
    let q = index_of_id(n, id);
    if q >= 0 && q < p {
        assert(n[q] == items[q]);
    }
}

} // verus!
