//! The document store: named collections of records, and the operations on
//! them, each stated as a step on a mathematical model of the store.
use vstd::prelude::*;
use crate::ids::new_record_id;
use crate::json::{Json, JsonValue, record_id, is_object, lookup, id_key, id_key_string, lemma_object_push};

verus! {

broadcast use vstd::std_specs::vec::group_vec_axioms;

/// Why a store operation did not take place.
#[derive(Debug, Clone, Copy, PartialEq, Eq, Structural)]
pub enum StoreError {
    /// No collection has the given name.
    NotFound,
    /// The collection exists but holds no record with the given id.
    ItemNotFound,
    /// The payload is not a JSON object, or its `id` member is not a string.
    InvalidPayload,
    /// The collection already holds a record with the payload's id.
    DuplicateId,
}

/// A named, ordered sequence of records.
#[derive(Debug, PartialEq)]
pub struct Collection {
    pub name: String,
    pub items: Vec<Json>,
}

/// All collections, each name at most once.
#[derive(Debug, PartialEq)]
pub struct Store {
    pub collections: Vec<Collection>,
}

/// The store as a map from collection name to the records in order.
pub type StoreModel = Map<Seq<char>, Seq<JsonValue>>;

pub open spec fn items_view(items: Seq<Json>) -> Seq<JsonValue> {
    items.map_values(|j: Json| j@)
}

pub open spec fn names_distinct(cs: Seq<Collection>) -> bool {
    forall|i: int, j: int|
        0 <= i < cs.len() && 0 <= j < cs.len() && i != j ==> #[trigger] cs[i].name@ != #[trigger] cs[j].name@
}

pub open spec fn has_name(cs: Seq<Collection>, k: Seq<char>) -> bool {
    exists|i: int| 0 <= i < cs.len() && #[trigger] cs[i].name@ == k
}

pub open spec fn collections_map(cs: Seq<Collection>) -> StoreModel {
    Map::new(
        |k: Seq<char>| has_name(cs, k),
        |k: Seq<char>| items_view(cs[choose|i: int| 0 <= i < cs.len() && #[trigger] cs[i].name@ == k].items@),
    )
}

impl View for Store {
    type V = StoreModel;

    open spec fn view(&self) -> StoreModel {
        collections_map(self.collections@)
    }
}

pub open spec fn all_objects(items: Seq<JsonValue>) -> bool {
    forall|i: int| 0 <= i < items.len() ==> (#[trigger] items[i]) is Object
}

/// Every record of the store is an object.
pub open spec fn records_are_objects(m: StoreModel) -> bool {
    forall|k: Seq<char>| #[trigger] m.contains_key(k) ==> all_objects(m[k])
}

/// Setting a collection to records that are all objects keeps every record
/// an object.
pub proof fn lemma_insert_keeps_objects(m: StoreModel, name: Seq<char>, items: Seq<JsonValue>)
    requires
        records_are_objects(m),
        all_objects(items),
    ensures
        records_are_objects(m.insert(name, items)),
{
    assert forall|k: Seq<char>| #[trigger] m.insert(name, items).contains_key(k) implies all_objects(
        m.insert(name, items)[k],
    ) by {
        if k != name {
            assert(m.contains_key(k));
        }
    }
}

impl Store {
    /// Collection names are unique and every record is an object.
    pub open spec fn wf(&self) -> bool {
        &&& names_distinct(self.collections@)
        &&& records_are_objects(self@)
    }
}

/// The records of a collection, or none where it is absent.
pub open spec fn items_or_empty(m: StoreModel, name: Seq<char>) -> Seq<JsonValue> {
    if m.contains_key(name) {
        m[name]
    } else {
        Seq::empty()
    }
}

/// The first index below `n` of a record whose id is `id`, or -1.
pub open spec fn find_id(items: Seq<JsonValue>, id: Seq<char>, n: nat) -> int
    decreases n,
{
    if n == 0 {
        -1
    } else {
        let k = find_id(items, id, (n - 1) as nat);
        if k >= 0 {
            k
        } else if record_id(items[n - 1]) == Some(id) {
            n - 1
        } else {
            -1
        }
    }
}

/// The index of the first record whose id is `id`, or -1.
pub open spec fn index_of_id(items: Seq<JsonValue>, id: Seq<char>) -> int {
    find_id(items, id, items.len())
}

pub open spec fn holds_id(items: Seq<JsonValue>, id: Seq<char>) -> bool {
    exists|i: int| 0 <= i < items.len() && record_id(#[trigger] items[i]) == Some(id)
}

/// A payload that create accepts: an object whose `id`, if any, is a string.
pub open spec fn valid_candidate(c: JsonValue) -> bool {
    &&& c is Object
    &&& match lookup(c->Object_0, id_key()) {
        None => true,
        Some(JsonValue::Str(_)) => true,
        _ => false,
    }
}

/// The id a created record gets: its own, or the fresh one.
pub open spec fn candidate_id(c: JsonValue, fresh: Seq<char>) -> Seq<char> {
    match lookup(c->Object_0, id_key()) {
        Some(JsonValue::Str(s)) => s,
        _ => fresh,
    }
}

/// The record that create stores: the payload, with an `id` member holding
/// the fresh id appended where it had none.
pub open spec fn stamped(c: JsonValue, fresh: Seq<char>) -> JsonValue {
    match lookup(c->Object_0, id_key()) {
        None => JsonValue::Object(c->Object_0.push((id_key(), JsonValue::Str(fresh)))),
        _ => c,
    }
}

pub open spec fn list_model(m: StoreModel, name: Seq<char>) -> Result<Seq<JsonValue>, StoreError> {
    if m.contains_key(name) {
        Ok(m[name])
    } else {
        Err(StoreError::NotFound)
    }
}

pub open spec fn get_model(m: StoreModel, name: Seq<char>, id: Seq<char>) -> Result<JsonValue, StoreError> {
    if !m.contains_key(name) {
        Err(StoreError::NotFound)
    } else if index_of_id(m[name], id) < 0 {
        Err(StoreError::ItemNotFound)
    } else {
        Ok(m[name][index_of_id(m[name], id)])
    }
}

pub open spec fn create_model(m: StoreModel, name: Seq<char>, c: JsonValue, fresh: Seq<char>) -> (
    StoreModel,
    Result<Seq<char>, StoreError>,
) {
    if !valid_candidate(c) {
        (m, Err(StoreError::InvalidPayload))
    } else if index_of_id(items_or_empty(m, name), candidate_id(c, fresh)) >= 0 {
        (m, Err(StoreError::DuplicateId))
    } else {
        (
            m.insert(name, items_or_empty(m, name).push(stamped(c, fresh))),
            Ok(candidate_id(c, fresh)),
        )
    }
}

pub open spec fn update_model(m: StoreModel, name: Seq<char>, id: Seq<char>, rep: JsonValue) -> (
    StoreModel,
    Result<Seq<char>, StoreError>,
) {
    if !is_object(rep) {
        (m, Err(StoreError::InvalidPayload))
    } else if !m.contains_key(name) {
        (m, Err(StoreError::NotFound))
    } else if index_of_id(m[name], id) < 0 {
        (m, Err(StoreError::ItemNotFound))
    } else {
        (m.insert(name, m[name].update(index_of_id(m[name], id), rep)), Ok(id))
    }
}

pub open spec fn delete_model(m: StoreModel, name: Seq<char>, id: Seq<char>) -> (
    StoreModel,
    Result<JsonValue, StoreError>,
) {
    if !m.contains_key(name) {
        (m, Err(StoreError::NotFound))
    } else if index_of_id(m[name], id) < 0 {
        (m, Err(StoreError::ItemNotFound))
    } else {
        (
            m.insert(name, m[name].remove(index_of_id(m[name], id))),
            Ok(m[name][index_of_id(m[name], id)]),
        )
    }
}

pub open spec fn string_result(r: Result<String, StoreError>) -> Result<Seq<char>, StoreError> {
    match r {
        Ok(s) => Ok(s@),
        Err(e) => Err(e),
    }
}

pub open spec fn json_result(r: Result<Json, StoreError>) -> Result<JsonValue, StoreError> {
    match r {
        Ok(j) => Ok(j@),
        Err(e) => Err(e),
    }
}

pub open spec fn items_result(r: Result<Vec<Json>, StoreError>) -> Result<Seq<JsonValue>, StoreError> {
    match r {
        Ok(v) => Ok(items_view(v@)),
        Err(e) => Err(e),
    }
}

/// `find_id` is the first matching index, or -1 where none matches.
pub proof fn lemma_find_id(items: Seq<JsonValue>, id: Seq<char>, n: nat)
    requires
        n <= items.len(),
    ensures
        -1 <= find_id(items, id, n) < n,
        find_id(items, id, n) >= 0 ==> record_id(items[find_id(items, id, n)]) == Some(id),
        forall|j: int|
            0 <= j < n && (find_id(items, id, n) < 0 || j < find_id(items, id, n))
                ==> record_id(#[trigger] items[j]) != Some(id),
    decreases n,
{
    if n > 0 {
        lemma_find_id(items, id, (n - 1) as nat);
    }
}

proof fn lemma_find_id_stable(items: Seq<JsonValue>, id: Seq<char>, n: nat, m: nat)
    requires
        n <= m <= items.len(),
        find_id(items, id, n) >= 0,
    ensures
        find_id(items, id, m) == find_id(items, id, n),
    decreases m - n,
{
    if m > n {
        lemma_find_id_stable(items, id, n, (m - 1) as nat);
    }
}

/// A record with id `id` is present exactly where `index_of_id` finds one.
pub proof fn lemma_index_of_id(items: Seq<JsonValue>, id: Seq<char>)
    ensures
        -1 <= index_of_id(items, id) < items.len(),
        index_of_id(items, id) >= 0 ==> record_id(items[index_of_id(items, id)]) == Some(id),
        forall|j: int|
            0 <= j < items.len() && (index_of_id(items, id) < 0 || j < index_of_id(items, id))
                ==> record_id(#[trigger] items[j]) != Some(id),
        holds_id(items, id) <==> index_of_id(items, id) >= 0,
{
    lemma_find_id(items, id, items.len());
}

pub proof fn lemma_map_at(cs: Seq<Collection>, i: int)
    requires
        names_distinct(cs),
        0 <= i < cs.len(),
    ensures
        collections_map(cs).contains_key(cs[i].name@),
        collections_map(cs)[cs[i].name@] == items_view(cs[i].items@),
{
    let k = cs[i].name@;
    assert(has_name(cs, k));
    let c = choose|j: int| 0 <= j < cs.len() && #[trigger] cs[j].name@ == k;
    assert(c == i);
}

pub proof fn lemma_map_update(cs: Seq<Collection>, i: int, c: Collection)
    requires
        names_distinct(cs),
        0 <= i < cs.len(),
        c.name@ == cs[i].name@,
    ensures
        names_distinct(cs.update(i, c)),
        collections_map(cs.update(i, c)) == collections_map(cs).insert(c.name@, items_view(c.items@)),
{
    let ns = cs.update(i, c);
    assert(names_distinct(ns)) by {
        assert forall|a: int, b: int| 0 <= a < ns.len() && 0 <= b < ns.len() && a != b implies #[trigger] ns[a].name@
            != #[trigger] ns[b].name@ by {
            assert(ns[a].name@ == cs[a].name@);
            assert(ns[b].name@ == cs[b].name@);
        }
    }
    let m1 = collections_map(ns);
    let m2 = collections_map(cs).insert(c.name@, items_view(c.items@));
    assert forall|k: Seq<char>| m1.contains_key(k) <==> m2.contains_key(k) by {
        if has_name(ns, k) {
            let j = choose|j: int| 0 <= j < ns.len() && #[trigger] ns[j].name@ == k;
            assert(cs[j].name@ == k);
        }
        if has_name(cs, k) {
            let j = choose|j: int| 0 <= j < cs.len() && #[trigger] cs[j].name@ == k;
            assert(ns[j].name@ == k);
        }
        if k == c.name@ {
            assert(ns[i].name@ == k);
        }
    }
    assert forall|k: Seq<char>| m1.contains_key(k) implies m1[k] == m2[k] by {
        let j = choose|j: int| 0 <= j < ns.len() && #[trigger] ns[j].name@ == k;
        lemma_map_at(ns, j);
        if j != i {
            lemma_map_at(cs, j);
        }
    }
    assert(m1 =~= m2);
}

pub proof fn lemma_map_push(cs: Seq<Collection>, c: Collection)
    requires
        names_distinct(cs),
        !has_name(cs, c.name@),
    ensures
        names_distinct(cs.push(c)),
        collections_map(cs.push(c)) == collections_map(cs).insert(c.name@, items_view(c.items@)),
{
    let ns = cs.push(c);
    assert(names_distinct(ns)) by {
        assert forall|a: int, b: int| 0 <= a < ns.len() && 0 <= b < ns.len() && a != b implies #[trigger] ns[a].name@
            != #[trigger] ns[b].name@ by {
            if a < cs.len() {
                assert(ns[a] == cs[a]);
            }
            if b < cs.len() {
                assert(ns[b] == cs[b]);
            }
        }
    }
    let m1 = collections_map(ns);
    let m2 = collections_map(cs).insert(c.name@, items_view(c.items@));
    assert forall|k: Seq<char>| m1.contains_key(k) <==> m2.contains_key(k) by {
        if has_name(ns, k) {
            let j = choose|j: int| 0 <= j < ns.len() && #[trigger] ns[j].name@ == k;
            if j < cs.len() {
                assert(cs[j].name@ == k);
            }
        }
        if has_name(cs, k) {
            let j = choose|j: int| 0 <= j < cs.len() && #[trigger] cs[j].name@ == k;
            assert(ns[j].name@ == k);
        }
        if k == c.name@ {
            assert(ns[cs.len() as int].name@ == k);
        }
    }
    assert forall|k: Seq<char>| m1.contains_key(k) implies m1[k] == m2[k] by {
        let j = choose|j: int| 0 <= j < ns.len() && #[trigger] ns[j].name@ == k;
        lemma_map_at(ns, j);
        if j < cs.len() {
            assert(ns[j] == cs[j]);
            lemma_map_at(cs, j);
        }
    }
    assert(m1 =~= m2);
}

/// Copies of the given records, in order.
pub fn copy_items(items: &Vec<Json>) -> (r: Vec<Json>)
    ensures
        items_view(r@) == items_view(items@),
{
    let mut out: Vec<Json> = Vec::new();
    let mut i: usize = 0;
    while i < items.len()
        invariant
            i <= items.len(),
            out@.len() == i,
            forall|k: int| 0 <= k < i ==> (#[trigger] out@[k])@ == items@[k]@,
        decreases items.len() - i,
    {
        out.push(items[i].copy());
        i = i + 1;
    }
    assert(items_view(out@) =~= items_view(items@));
    out
}

/// The index of the first record whose id is `id`.
pub fn find_record(items: &Vec<Json>, id: &String) -> (r: Option<usize>)
    ensures
        match r {
            Some(k) => k as int == index_of_id(items_view(items@), id@),
            None => index_of_id(items_view(items@), id@) < 0,
        },
{
    let ghost v = items_view(items@);
    let mut i: usize = 0;
    while i < items.len()
        invariant
            v == items_view(items@),
            i <= items.len(),
            find_id(v, id@, i as nat) == -1,
        decreases items.len() - i,
    {
        let found = match items[i].record_id() {
            Some(s) => *s == *id,
            None => false,
        };
        assert(v[i as int] == items@[i as int]@);
        if found {
            proof {
                lemma_find_id_stable(v, id@, (i + 1) as nat, v.len());
            }
            return Some(i);
        }
        i = i + 1;
    }
    None
}

impl Store {
    /// An empty store.
    pub fn new() -> (r: Store)
        ensures
            r.wf(),
            r@ == Map::<Seq<char>, Seq<JsonValue>>::empty(),
    {
        let r = Store { collections: Vec::new() };
        assert(r@ =~= Map::<Seq<char>, Seq<JsonValue>>::empty());
        r
    }

    /// The position of the collection called `name`.
    pub fn position(&self, name: &String) -> (r: Option<usize>)
        requires
            self.wf(),
        ensures
            match r {
                Some(i) => i < self.collections@.len() && self.collections@[i as int].name@ == name@
                    && self@.contains_key(name@) && self@[name@] == items_view(
                    self.collections@[i as int].items@,
                ),
                None => !self@.contains_key(name@),
            },
    {
        let mut i: usize = 0;
        while i < self.collections.len()
            invariant
                self.wf(),
                i <= self.collections@.len(),
                forall|j: int| 0 <= j < i ==> #[trigger] self.collections@[j].name@ != name@,
            decreases self.collections.len() - i,
        {
            if self.collections[i].name == *name {
                proof {
                    lemma_map_at(self.collections@, i as int);
                }
                return Some(i);
            }
            i = i + 1;
        }
        None
    }
}

impl Store {
    /// The records of collection `name`, in order.
    pub fn list_all(&self, name: &str) -> (r: Result<Vec<Json>, StoreError>)
        requires
            self.wf(),
        ensures
            items_result(r) == list_model(self@, name@),
    {
        let name_s = name.to_owned();
        match self.position(&name_s) {
            Some(i) => Ok(copy_items(&self.collections[i].items)),
            None => Err(StoreError::NotFound),
        }
    }

    /// The first record of collection `name` whose id is `id`.
    pub fn get_by_id(&self, name: &str, id: &str) -> (r: Result<Json, StoreError>)
        requires
            self.wf(),
        ensures
            json_result(r) == get_model(self@, name@, id@),
    {
        let name_s = name.to_owned();
        let id_s = id.to_owned();
        match self.position(&name_s) {
            Some(i) => match find_record(&self.collections[i].items, &id_s) {
                Some(k) => {
                    proof {
                        lemma_index_of_id(self@[name@], id@);
                    }
                    Ok(self.collections[i].items[k].copy())
                },
                None => Err(StoreError::ItemNotFound),
            },
            None => Err(StoreError::NotFound),
        }
    }

    /// Appends `record` to collection `name`, creating the collection where
    /// it is absent.
    fn append(&mut self, name: String, record: Json)
        requires
            old(self).wf(),
            record@ is Object,
        ensures
            final(self).wf(),
            final(self)@ == old(self)@.insert(name@, items_or_empty(old(self)@, name@).push(record@)),
    {
        proof {
            let old_items = items_or_empty(self@, name@);
            assert(all_objects(old_items));
            lemma_insert_keeps_objects(self@, name@, old_items.push(record@));
        }
        match self.position(&name) {
            Some(i) => {
                let ghost old_cs = self.collections@;
                let mut col = self.collections.remove(i);
                let ghost old_items = col.items@;
                col.items.push(record);
                proof {
                    assert(items_view(col.items@) =~= items_view(old_items).push(record@));
                    lemma_map_update(old_cs, i as int, col);
                }
                self.collections.insert(i, col);
                proof {
                    assert(self.collections@ =~= old_cs.update(i as int, col));
                }
            },
            None => {
                let mut items: Vec<Json> = Vec::new();
                items.push(record);
                let col = Collection { name, items };
                proof {
                    assert(items_view(col.items@) =~= Seq::<JsonValue>::empty().push(record@));
                    lemma_map_push(self.collections@, col);
                }
                self.collections.push(col);
            },
        }
    }

    /// Adds `candidate` to collection `name`, with `fresh_id` as its id where
    /// it has none.
    pub fn create_with_id(&mut self, name: &str, candidate: Json, fresh_id: String) -> (r: Result<
        String,
        StoreError,
    >)
        requires
            old(self).wf(),
        ensures
            final(self).wf(),
            (final(self)@, string_result(r)) == create_model(old(self)@, name@, candidate@, fresh_id@),
    {
        let ghost c = candidate@;
        if !candidate.is_object() {
            return Err(StoreError::InvalidPayload);
        }
        let key = id_key_string();
        let existing: Option<String> = match candidate.get(&key) {
            Some(Json::Str(s)) => Some(s.clone()),
            Some(_) => {
                return Err(StoreError::InvalidPayload);
            },
            None => None,
        };
        let (record, id) = match existing {
            Some(s) => (candidate, s),
            None => {
                let record = match candidate {
                    Json::Object(fields) => {
                        let ghost before = fields;
                        let mut fields = fields;
                        let member = (key, Json::Str(fresh_id.clone()));
                        let ghost m = member;
                        fields.push(member);
                        proof {
                            lemma_object_push(before, fields, m);
                        }
                        Json::Object(fields)
                    },
                    other => other,
                };
                (record, fresh_id)
            },
        };
        assert(record@ == stamped(c, fresh_id@));
        assert(id@ == candidate_id(c, fresh_id@));
        let name_s = name.to_owned();
        match self.position(&name_s) {
            Some(i) => {
                if find_record(&self.collections[i].items, &id).is_some() {
                    return Err(StoreError::DuplicateId);
                }
            },
            None => {},
        }
        self.append(name_s, record);
        Ok(id)
    }

    /// Adds `candidate` to collection `name`; where it has no id, it gets a
    /// freshly generated one.
    pub fn create(&mut self, name: &str, candidate: Json) -> (r: Result<String, StoreError>)
        requires
            old(self).wf(),
        ensures
            final(self).wf(),
            exists|fresh: Seq<char>|
                (final(self)@, string_result(r)) == create_model(old(self)@, name@, candidate@, fresh),
            r is Ok ==> !holds_id(items_or_empty(old(self)@, name@), r->Ok_0@),
    {
        let fresh = new_record_id();
        let r = self.create_with_id(name, candidate, fresh);
        proof {
            let m = old(self)@;
            lemma_index_of_id(items_or_empty(m, name@), candidate_id(candidate@, fresh@));
        }
        r
    }

    /// Replaces the first record of collection `name` whose id is `id` with
    /// `replacement`, as it is.
    pub fn update(&mut self, name: &str, id: &str, replacement: Json) -> (r: Result<
        String,
        StoreError,
    >)
        requires
            old(self).wf(),
        ensures
            final(self).wf(),
            (final(self)@, string_result(r)) == update_model(old(self)@, name@, id@, replacement@),
    {
        if !replacement.is_object() {
            return Err(StoreError::InvalidPayload);
        }
        let name_s = name.to_owned();
        let id_s = id.to_owned();
        match self.position(&name_s) {
            Some(i) => match find_record(&self.collections[i].items, &id_s) {
                Some(k) => {
                    proof {
                        lemma_index_of_id(self@[name@], id@);
                    }
                    let ghost old_cs = self.collections@;
                    let mut col = self.collections.remove(i);
                    let ghost old_items = col.items@;
                    let ghost rv = replacement@;
                    col.items.remove(k);
                    col.items.insert(k, replacement);
                    proof {
                        assert(col.items@ =~= old_items.update(k as int, col.items@[k as int]));
                        assert(items_view(col.items@) =~= items_view(old_items).update(k as int, rv));
                        lemma_map_update(old_cs, i as int, col);
                    }
                    self.collections.insert(i, col);
                    proof {
                        assert(self.collections@ =~= old_cs.update(i as int, col));
                    }
                    Ok(id_s)
                },
                None => Err(StoreError::ItemNotFound),
            },
            None => Err(StoreError::NotFound),
        }
    }

    /// Removes and returns the first record of collection `name` whose id is
    /// `id`.
    pub fn delete(&mut self, name: &str, id: &str) -> (r: Result<Json, StoreError>)
        requires
            old(self).wf(),
        ensures
            final(self).wf(),
            (final(self)@, json_result(r)) == delete_model(old(self)@, name@, id@),
    {
        let name_s = name.to_owned();
        let id_s = id.to_owned();
        match self.position(&name_s) {
            Some(i) => match find_record(&self.collections[i].items, &id_s) {
                Some(k) => {
                    proof {
                        lemma_index_of_id(self@[name@], id@);
                    }
                    let ghost old_cs = self.collections@;
                    let mut col = self.collections.remove(i);
                    let ghost old_items = col.items@;
                    let removed = col.items.remove(k);
                    proof {
                        assert(items_view(col.items@) =~= items_view(old_items).remove(k as int));
                        lemma_map_update(old_cs, i as int, col);
                    }
                    self.collections.insert(i, col);
                    proof {
                        assert(self.collections@ =~= old_cs.update(i as int, col));
                    }
                    Ok(removed)
                },
                None => Err(StoreError::ItemNotFound),
            },
            None => Err(StoreError::NotFound),
        }
    }
}

} // verus!
