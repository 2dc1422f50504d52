//! The JSON document that backs a store on disk: reading a store out of it,
//! with its structural checks, and writing a store into it.
use vstd::prelude::*;
use crate::json::{Json, JsonValue, lemma_object_view};
use crate::store::{
    Collection, Store, StoreModel, items_view, collections_map, names_distinct, has_name,
    copy_items, lemma_map_at, lemma_map_update, lemma_map_push, lemma_insert_keeps_objects, all_objects, records_are_objects,
};

verus! {

broadcast use vstd::std_specs::vec::group_vec_axioms;

/// Why a document does not describe a store.
#[derive(Debug, PartialEq)]
pub enum LoadError {
    /// The top level is not an object.
    NotAnObject,
    /// The value of this collection is neither an array nor an object.
    InvalidCollection(String),
    /// This collection's array holds an entry that is not an object.
    InvalidRecord(String),
}

/// The mathematical value of a `LoadError`.
pub enum LoadFault {
    NotAnObject,
    InvalidCollection(Seq<char>),
    InvalidRecord(Seq<char>),
}

impl View for LoadError {
    type V = LoadFault;

    open spec fn view(&self) -> LoadFault {
        match self {
            LoadError::NotAnObject => LoadFault::NotAnObject,
            LoadError::InvalidCollection(n) => LoadFault::InvalidCollection(n@),
            LoadError::InvalidRecord(n) => LoadFault::InvalidRecord(n@),
        }
    }
}

/// The records that a member of the document stands for: an array of
/// objects as it is, a lone object as a one-element sequence.
pub open spec fn member_records(name: Seq<char>, v: JsonValue) -> Result<Seq<JsonValue>, LoadFault> {
    match v {
        JsonValue::Array(items) => if all_objects(items) {
            Ok(items)
        } else {
            Err(LoadFault::InvalidRecord(name))
        },
        JsonValue::Object(_) => Ok(seq![v]),
        _ => Err(LoadFault::InvalidCollection(name)),
    }
}

/// The store that the members describe, each collection in turn, or the
/// fault of the first member that describes none.
pub open spec fn load_members(ms: Seq<(Seq<char>, JsonValue)>) -> Result<StoreModel, LoadFault>
    decreases ms.len(),
{
    if ms.len() == 0 {
        Ok(Map::empty())
    } else {
        match load_members(ms.drop_last()) {
            Err(e) => Err(e),
            Ok(m) => match member_records(ms.last().0, ms.last().1) {
                Ok(items) => Ok(m.insert(ms.last().0, items)),
                Err(e) => Err(e),
            },
        }
    }
}

pub open spec fn load_model(doc: JsonValue) -> Result<StoreModel, LoadFault> {
    match doc {
        JsonValue::Object(ms) => load_members(ms),
        _ => Err(LoadFault::NotAnObject),
    }
}

/// The document of a store: an object with one member per collection, in
/// order, each an array of its records.
pub open spec fn document_of(cs: Seq<Collection>) -> JsonValue {
    JsonValue::Object(
        Seq::new(
            cs.len(),
            |i: int| (cs[i].name@, JsonValue::Array(items_view(cs[i].items@))),
        ),
    )
}

impl Store {
    /// Sets collection `name` to `items`, adding it where it is absent.
    pub fn put_collection(&mut self, name: String, items: Vec<Json>)
        requires
            old(self).wf(),
            all_objects(items_view(items@)),
        ensures
            final(self).wf(),
            final(self)@ == old(self)@.insert(name@, items_view(items@)),
    {
        let ghost old_cs = self.collections@;
        proof {
            lemma_insert_keeps_objects(self@, name@, items_view(items@));
        }
        let col = Collection { name, items };
        match self.position(&col.name) {
            Some(i) => {
                proof {
                    lemma_map_update(old_cs, i as int, col);
                }
                self.collections.remove(i);
                self.collections.insert(i, col);
                proof {
                    assert(self.collections@ =~= old_cs.update(i as int, col));
                }
            },
            None => {
                proof {
                    lemma_map_push(old_cs, col);
                }
                self.collections.push(col);
            },
        }
    }
}

/// The records of one member of the document.
fn read_member(name: &String, v: &Json) -> (r: Result<Vec<Json>, LoadError>)
    ensures
        match r {
            Ok(items) => member_records(name@, v@) == Ok::<Seq<JsonValue>, LoadFault>(items_view(items@)),
            Err(e) => member_records(name@, v@) == Err::<Seq<JsonValue>, LoadFault>(e@),
        },
{
    match v {
        Json::Array(entries) => {
            let ghost s = v@->Array_0;
            assert(s =~= items_view(entries@));
            let mut i: usize = 0;
            while i < entries.len()
                invariant
                    *v == Json::Array(*entries),
                    s == v@->Array_0,
                    s == items_view(entries@),
                    i <= entries.len(),
                    forall|k: int| 0 <= k < i ==> (#[trigger] s[k]) is Object,
                decreases entries.len() - i,
            {
                assert(s[i as int] == entries@[i as int]@);
                if !entries[i].is_object() {
                    return Err(LoadError::InvalidRecord(name.clone()));
                }
                i = i + 1;
            }
            Ok(copy_items(entries))
        },
        Json::Object(_) => {
            let mut items: Vec<Json> = Vec::new();
            items.push(v.copy());
            assert(items_view(items@) =~= seq![v@]);
            Ok(items)
        },
        _ => Err(LoadError::InvalidCollection(name.clone())),
    }
}

proof fn lemma_load_error_stays(ms: Seq<(Seq<char>, JsonValue)>, n: int, m: int)
    requires
        0 <= n <= m <= ms.len(),
        load_members(ms.subrange(0, n)) is Err,
    ensures
        load_members(ms.subrange(0, m)) == load_members(ms.subrange(0, n)),
    decreases m - n,
{
    if m > n {
        lemma_load_error_stays(ms, n, m - 1);
        assert(ms.subrange(0, m).drop_last() =~= ms.subrange(0, m - 1));
    }
}

/// The store that a document describes: its top level must be an object,
/// each member an array of objects or a lone object.
pub fn load_store(doc: &Json) -> (r: Result<Store, LoadError>)
    ensures
        match r {
            Ok(s) => s.wf() && load_model(doc@) == Ok::<StoreModel, LoadFault>(s@),
            Err(e) => load_model(doc@) == Err::<StoreModel, LoadFault>(e@),
        },
{
    match doc {
        Json::Object(members) => {
            let ghost ms = doc@->Object_0;
            proof {
                lemma_object_view(*doc);
            }
            let mut store = Store::new();
            let mut i: usize = 0;
            while i < members.len()
                invariant
                    *doc == Json::Object(*members),
                    ms == doc@->Object_0,
                    ms.len() == members@.len(),
                    forall|k: int|
                        0 <= k < members@.len() ==> #[trigger] ms[k] == (members@[k].0@, members@[k].1@),
                    i <= members.len(),
                    store.wf(),
                    load_members(ms.subrange(0, i as int)) == Ok::<StoreModel, LoadFault>(store@),
                decreases members.len() - i,
            {
                let ghost pre = ms.subrange(0, i as int);
                let ghost next = ms.subrange(0, i + 1);
                assert(next.drop_last() =~= pre);
                assert(next.last() == ms[i as int]);
                match read_member(&members[i].0, &members[i].1) {
                    Ok(items) => {
                        store.put_collection(members[i].0.clone(), items);
                    },
                    Err(e) => {
                        proof {
                            lemma_load_error_stays(ms, i + 1, ms.len() as int);
                            assert(ms.subrange(0, ms.len() as int) =~= ms);
                        }
                        return Err(e);
                    },
                }
                i = i + 1;
            }
            assert(ms.subrange(0, ms.len() as int) =~= ms);
            Ok(store)
        },
        _ => Err(LoadError::NotAnObject),
    }
}

/// The document of the store.
pub fn store_document(store: &Store) -> (r: Json)
    ensures
        r@ == document_of(store.collections@),
{
    let mut members: Vec<(String, Json)> = Vec::new();
    let mut i: usize = 0;
    while i < store.collections.len()
        invariant
            i <= store.collections@.len(),
            members@.len() == i,
            forall|k: int|
                0 <= k < i ==> (#[trigger] members@[k]).0@ == store.collections@[k].name@
                    && members@[k].1@ == JsonValue::Array(items_view(store.collections@[k].items@)),
        decreases store.collections.len() - i,
    {
        let items = copy_items(&store.collections[i].items);
        let arr = Json::Array(items);
        proof {
            assert(arr@->Array_0 =~= items_view(items@));
        }
        members.push((store.collections[i].name.clone(), arr));
        i = i + 1;
    }
    let r = Json::Object(members);
    proof {
        lemma_object_view(r);
        assert(r@->Object_0 =~= document_of(store.collections@)->Object_0);
    }
    r
}

/// Reading back the document of a store gives the same store: the same
/// collections, with the same records in the same order.
pub proof fn lemma_document_round_trip(s: Store)
    requires
        s.wf(),
    ensures
        load_model(document_of(s.collections@)) == Ok::<StoreModel, LoadFault>(s@),
{
    let cs = s.collections@;
    let ms = document_of(cs)->Object_0;
    assert forall|n: int| 0 <= n <= cs.len() implies load_members(#[trigger] ms.subrange(0, n))
        == Ok::<StoreModel, LoadFault>(collections_map(cs.subrange(0, n))) by {
        lemma_prefix_round_trip(cs, n);
    }
    assert(ms.subrange(0, cs.len() as int) =~= ms);
    assert(cs.subrange(0, cs.len() as int) =~= cs);
}

proof fn lemma_prefix_round_trip(cs: Seq<Collection>, n: int)
    requires
        names_distinct(cs),
        records_are_objects(collections_map(cs)),
        0 <= n <= cs.len(),
    ensures
        load_members(document_of(cs)->Object_0.subrange(0, n)) == Ok::<StoreModel, LoadFault>(
            collections_map(cs.subrange(0, n)),
        ),
    decreases n,
{
    let ms = document_of(cs)->Object_0;
    if n == 0 {
        assert(collections_map(cs.subrange(0, 0)) =~= Map::<Seq<char>, Seq<JsonValue>>::empty());
    } else {
        lemma_prefix_round_trip(cs, n - 1);
        let pre = cs.subrange(0, n - 1);
        assert(ms.subrange(0, n).drop_last() =~= ms.subrange(0, n - 1));
        assert(cs.subrange(0, n) =~= pre.push(cs[n - 1]));
        assert(names_distinct(pre));
        assert(!has_name(pre, cs[n - 1].name@)) by {
            if has_name(pre, cs[n - 1].name@) {
                let j = choose|j: int| 0 <= j < pre.len() && #[trigger] pre[j].name@ == cs[n - 1].name@;
                assert(pre[j] == cs[j]);
            }
        }
        lemma_map_push(pre, cs[n - 1]);
        lemma_map_at(cs, n - 1);
        assert(all_objects(items_view(cs[n - 1].items@)));
    }
}

} // verus!
