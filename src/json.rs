//! A JSON value held as plain data, with a mathematical view.
use vstd::prelude::*;

verus! {

broadcast use vstd::std_specs::vec::group_vec_axioms;

/// A JSON value. A number keeps the text of its literal, so that it is
/// carried through unchanged; an object keeps its members in order.
#[derive(Debug, PartialEq)]
pub enum Json {
    Null,
    Bool(bool),
    Number(String),
    Str(String),
    Array(Vec<Json>),
    Object(Vec<(String, Json)>),
}

/// The mathematical value of a `Json`.
pub enum JsonValue {
    Null,
    Bool(bool),
    Number(Seq<char>),
    Str(Seq<char>),
    Array(Seq<JsonValue>),
    Object(Seq<(Seq<char>, JsonValue)>),
}

impl View for Json {
    type V = JsonValue;

    open spec fn view(&self) -> JsonValue
        decreases self,
    {
        match self {
            Json::Null => JsonValue::Null,
            Json::Bool(b) => JsonValue::Bool(*b),
            Json::Number(n) => JsonValue::Number(n@),
            Json::Str(s) => JsonValue::Str(s@),
            Json::Array(v) => JsonValue::Array(
                Seq::new(
                    v.len() as nat,
                    |i: int|
                        if 0 <= i < v.len() {
                            v[i].view()
                        } else {
                            JsonValue::Null
                        },
                ),
            ),
            Json::Object(v) => JsonValue::Object(
                Seq::new(
                    v.len() as nat,
                    |i: int|
                        (
                            v[i].0@,
                            if 0 <= i < v.len() {
                                v[i].1.view()
                            } else {
                                JsonValue::Null
                            },
                        ),
                ),
            ),
        }
    }
}

/// The key under which a record keeps its identifier.
pub open spec fn id_key() -> Seq<char> {
    seq!['i', 'd']
}

/// The value of the first member named `key` among `fields`.
pub open spec fn lookup(fields: Seq<(Seq<char>, JsonValue)>, key: Seq<char>) -> Option<JsonValue>
    decreases fields.len(),
{
    if fields.len() == 0 {
        None
    } else if fields[0].0 == key {
        Some(fields[0].1)
    } else {
        lookup(fields.drop_first(), key)
    }
}

/// The string held in the `id` member of an object, if there is one.
pub open spec fn record_id(v: JsonValue) -> Option<Seq<char>> {
    match v {
        JsonValue::Object(fields) => match lookup(fields, id_key()) {
            Some(JsonValue::Str(s)) => Some(s),
            _ => None,
        },
        _ => None,
    }
}

pub open spec fn is_object(v: JsonValue) -> bool {
    v is Object
}

/// The view of an object, member by member.
pub proof fn lemma_object_view(j: Json)
    requires
        j is Object,
    ensures
        j@ is Object,
        j@->Object_0.len() == j->Object_0@.len(),
        forall|i: int|
            0 <= i < j->Object_0@.len() ==> #[trigger] j@->Object_0[i] == (
                j->Object_0@[i].0@,
                j->Object_0@[i].1@,
            ),
{
}

/// The view of an array, element by element.
pub proof fn lemma_array_view(items: Vec<Json>)
    ensures
        Json::Array(items)@ == JsonValue::Array(items@.map_values(|j: Json| j@)),
{
    assert(Json::Array(items)@->Array_0 =~= items@.map_values(|j: Json| j@));
}

/// Appending a member to an object appends its view.
pub proof fn lemma_object_push(fields: Vec<(String, Json)>, after: Vec<(String, Json)>, member: (String, Json))
    requires
        after@ == fields@.push(member),
    ensures
        Json::Object(after)@ == JsonValue::Object(
            Json::Object(fields)@->Object_0.push((member.0@, member.1@)),
        ),
{
    lemma_object_view(Json::Object(fields));
    lemma_object_view(Json::Object(after));
    assert(Json::Object(after)@->Object_0 =~= Json::Object(fields)@->Object_0.push(
        (member.0@, member.1@),
    ));
}

proof fn lemma_lookup_suffix(fields: Seq<(Seq<char>, JsonValue)>, key: Seq<char>, i: int)
    requires
        0 <= i < fields.len(),
        fields[i].0 != key,
    ensures
        lookup(fields.subrange(i, fields.len() as int), key) == lookup(
            fields.subrange(i + 1, fields.len() as int),
            key,
        ),
{
    assert(fields.subrange(i, fields.len() as int).drop_first() =~= fields.subrange(
        i + 1,
        fields.len() as int,
    ));
}

impl Json {
    /// A copy of this value.
    pub fn copy(&self) -> (r: Json)
        ensures
            r@ == self@,
        decreases self,
    {
        match self {
            Json::Null => Json::Null,
            Json::Bool(b) => Json::Bool(*b),
            Json::Number(n) => Json::Number(n.clone()),
            Json::Str(s) => Json::Str(s.clone()),
            Json::Array(v) => {
                let mut out: Vec<Json> = Vec::new();
                let mut i: usize = 0;
                while i < v.len()
                    invariant
                        *self == Json::Array(*v),
                        i <= v.len(),
                        out@.len() == i,
                        forall|k: int| 0 <= k < i ==> (#[trigger] out@[k])@ == v@[k]@,
                    decreases v.len() - i,
                {
                    proof {
                        assert(decreases_to!(*self => (*self)->Array_0));
                        assert(decreases_to!(*v => v@));
                        assert(decreases_to!(v@ => v@[i as int]));
                    }
                    out.push(v[i].copy());
                    i = i + 1;
                }
                proof {
                    assert(Json::Array(out)@->Array_0 =~= self@->Array_0);
                }
                Json::Array(out)
            },
            Json::Object(v) => {
                let mut out: Vec<(String, Json)> = Vec::new();
                let mut i: usize = 0;
                while i < v.len()
                    invariant
                        *self == Json::Object(*v),
                        i <= v.len(),
                        out@.len() == i,
                        forall|k: int|
                            0 <= k < i ==> (#[trigger] out@[k]).0@ == v@[k].0@ && out@[k].1@
                                == v@[k].1@,
                    decreases v.len() - i,
                {
                    proof {
                        assert(decreases_to!(*self => (*self)->Object_0));
                        assert(decreases_to!(*v => v@));
                        assert(decreases_to!(v@ => v@[i as int]));
                        assert(decreases_to!(v@[i as int] => v@[i as int].1));
                    }
                    let key = v[i].0.clone();
                    let value = v[i].1.copy();
                    out.push((key, value));
                    i = i + 1;
                }
                proof {
                    let a = Json::Object(out)@->Object_0;
                    let b = self@->Object_0;
                    lemma_object_view(*self);
                    lemma_object_view(Json::Object(out));
                    assert forall|k: int| 0 <= k < a.len() implies a[k] == b[k] by {
                        assert(a[k] == (out@[k].0@, out@[k].1@));
                        assert(b[k] == (v@[k].0@, v@[k].1@));
                    }
                    assert(a =~= b);
                }
                Json::Object(out)
            },
        }
    }

    pub fn is_object(&self) -> (r: bool)
        ensures
            r == is_object(self@),
    {
        match self {
            Json::Object(_) => true,
            _ => false,
        }
    }

    /// The value of the first member named `key`, where this is an object.
    pub fn get(&self, key: &String) -> (r: Option<&Json>)
        ensures
            match self@ {
                JsonValue::Object(fields) => match r {
                    Some(v) => lookup(fields, key@) == Some(v@),
                    None => lookup(fields, key@) is None,
                },
                _ => r is None,
            },
    {
        match self {
            Json::Object(fields) => {
                let ghost s = self@->Object_0;
                proof {
                    lemma_object_view(*self);
                    assert(s.subrange(0, s.len() as int) =~= s);
                }
                let mut i: usize = 0;
                while i < fields.len()
                    invariant
                        *self == Json::Object(*fields),
                        s == self@->Object_0,
                        s.len() == fields.len(),
                        i <= fields.len(),
                        lookup(s, key@) == lookup(s.subrange(i as int, s.len() as int), key@),
                    decreases fields.len() - i,
                {
                    proof {
                        lemma_object_view(*self);
                    }
                    assert(s.subrange(i as int, s.len() as int)[0] == s[i as int]);
                    if fields[i].0 == *key {
                        return Some(&fields[i].1);
                    }
                    proof {
                        lemma_lookup_suffix(s, key@, i as int);
                        assert(s.subrange(i as int, s.len() as int).drop_first() =~= s.subrange(i + 1, s.len() as int));
                    }
                    i = i + 1;
                }
                None
            },
            _ => None,
        }
    }

    /// The record identifier: the string in the `id` member of an object.
    pub fn record_id(&self) -> (r: Option<&String>)
        ensures
            match r {
                Some(s) => record_id(self@) == Some(s@),
                None => record_id(self@) is None,
            },
    {
        let key = id_key_string();
        match self.get(&key) {
            Some(Json::Str(s)) => Some(s),
            _ => None,
        }
    }
}

/// The string `"id"`.
pub fn id_key_string() -> (r: String)
    ensures
        r@ == id_key(),
{
    let r = String::from_str("id");
    proof {
        reveal_strlit("id");
    }
    r
}

} // verus!
