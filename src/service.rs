//! The replies to the five requests on a collection: a status code, a body,
//! and whether the store changed and must be written out.
use vstd::prelude::*;
use crate::json::{Json, JsonValue, lemma_array_view};
use crate::store::{
    Store, StoreError, list_model, get_model, create_model, update_model, delete_model,
    string_result,
};

verus! {

/// The body of a reply.
#[derive(Debug, PartialEq)]
pub enum Body {
    Json(Json),
    Text(String),
}

pub enum BodyValue {
    Json(JsonValue),
    Text(Seq<char>),
}

impl View for Body {
    type V = BodyValue;

    open spec fn view(&self) -> BodyValue {
        match self {
            Body::Json(j) => BodyValue::Json(j@),
            Body::Text(t) => BodyValue::Text(t@),
        }
    }
}

/// A reply; `changed` tells that the store was mutated.
#[derive(Debug, PartialEq)]
pub struct Reply {
    pub status: u16,
    pub body: Body,
    pub changed: bool,
}

pub struct ReplyValue {
    pub status: u16,
    pub body: BodyValue,
    pub changed: bool,
}

impl View for Reply {
    type V = ReplyValue;

    open spec fn view(&self) -> ReplyValue {
        ReplyValue { status: self.status, body: self.body@, changed: self.changed }
    }
}

pub open spec fn error_status(e: StoreError) -> u16 {
    match e {
        StoreError::NotFound => 404,
        StoreError::ItemNotFound => 404,
        StoreError::InvalidPayload => 400,
        StoreError::DuplicateId => 409,
    }
}

pub open spec fn error_text(e: StoreError) -> Seq<char> {
    match e {
        StoreError::NotFound => "Resource not found"@,
        StoreError::ItemNotFound => "Item not found"@,
        StoreError::InvalidPayload => "Expected JSON object"@,
        StoreError::DuplicateId => "Duplicate ID"@,
    }
}

pub open spec fn error_reply(e: StoreError) -> ReplyValue {
    ReplyValue { status: error_status(e), body: BodyValue::Text(error_text(e)), changed: false }
}

/// The reply to a request answered with a JSON value on success.
pub open spec fn value_reply(r: Result<JsonValue, StoreError>, ok_status: u16, mutates: bool) -> ReplyValue {
    match r {
        Ok(v) => ReplyValue { status: ok_status, body: BodyValue::Json(v), changed: mutates },
        Err(e) => error_reply(e),
    }
}

pub open spec fn id_value(r: Result<Seq<char>, StoreError>) -> Result<JsonValue, StoreError> {
    match r {
        Ok(id) => Ok(JsonValue::Str(id)),
        Err(e) => Err(e),
    }
}

pub open spec fn array_value(r: Result<Seq<JsonValue>, StoreError>) -> Result<JsonValue, StoreError> {
    match r {
        Ok(items) => Ok(JsonValue::Array(items)),
        Err(e) => Err(e),
    }
}

/// The status code of a store error: 404 for an unknown collection or
/// record, 400 for a payload that is not an object, 409 for a taken id.
pub fn error_status_of(e: StoreError) -> (r: u16)
    ensures
        r == error_status(e),
{
    match e {
        StoreError::NotFound => 404,
        StoreError::ItemNotFound => 404,
        StoreError::InvalidPayload => 400,
        StoreError::DuplicateId => 409,
    }
}

/// The message of a store error.
pub fn error_message(e: StoreError) -> (r: String)
    ensures
        r@ == error_text(e),
{
    match e {
        StoreError::NotFound => {
            let r = String::from_str("Resource not found");
            proof {
                reveal_strlit("Resource not found");
            }
            r
        },
        StoreError::ItemNotFound => {
            let r = String::from_str("Item not found");
            proof {
                reveal_strlit("Item not found");
            }
            r
        },
        StoreError::InvalidPayload => {
            let r = String::from_str("Expected JSON object");
            proof {
                reveal_strlit("Expected JSON object");
            }
            r
        },
        StoreError::DuplicateId => {
            let r = String::from_str("Duplicate ID");
            proof {
                reveal_strlit("Duplicate ID");
            }
            r
        },
    }
}

fn error_to_reply(e: StoreError) -> (r: Reply)
    ensures
        r@ == error_reply(e),
{
    Reply { status: error_status_of(e), body: Body::Text(error_message(e)), changed: false }
}

/// `GET /{resource}`: 200 with the records as an array, or 404.
pub fn get_all(store: &Store, resource: &str) -> (r: Reply)
    requires
        store.wf(),
    ensures
        r@ == value_reply(array_value(list_model(store@, resource@)), 200, false),
{
    match store.list_all(resource) {
        Ok(items) => {
            proof {
                lemma_array_view(items);
            }
            Reply { status: 200, body: Body::Json(Json::Array(items)), changed: false }
        },
        Err(e) => error_to_reply(e),
    }
}

/// `GET /{resource}/{id}`: 200 with the record, or 404.
pub fn get_one(store: &Store, resource: &str, id: &str) -> (r: Reply)
    requires
        store.wf(),
    ensures
        r@ == value_reply(get_model(store@, resource@, id@), 200, false),
{
    match store.get_by_id(resource, id) {
        Ok(record) => Reply { status: 200, body: Body::Json(record), changed: false },
        Err(e) => error_to_reply(e),
    }
}

/// `POST /{resource}`: 201 with the record's id as a JSON string, 400 for a
/// payload that is not an object, 409 for an id already taken.
pub fn create_item(store: &mut Store, resource: &str, payload: Json) -> (r: Reply)
    requires
        old(store).wf(),
    ensures
        final(store).wf(),
        exists|fresh: Seq<char>|
            final(store)@ == (#[trigger] create_model(old(store)@, resource@, payload@, fresh)).0
                && r@ == value_reply(
                id_value(create_model(old(store)@, resource@, payload@, fresh).1),
                201,
                true,
            ),
{
    let ghost before = store@;
    let ghost p = payload@;
    let res = store.create(resource, payload);
    let ghost fresh = choose|fresh: Seq<char>|
        (store@, string_result(res)) == #[trigger] create_model(before, resource@, p, fresh);
    match res {
        Ok(id) => Reply { status: 201, body: Body::Json(Json::Str(id)), changed: true },
        Err(e) => error_to_reply(e),
    }
}

/// `PUT /{resource}/{id}`: 200 with the id as a JSON string, 400 for a
/// payload that is not an object, or 404.
pub fn update_item(store: &mut Store, resource: &str, id: &str, payload: Json) -> (r: Reply)
    requires
        old(store).wf(),
    ensures
        final(store).wf(),
        final(store)@ == update_model(old(store)@, resource@, id@, payload@).0,
        r@ == value_reply(id_value(update_model(old(store)@, resource@, id@, payload@).1), 200, true),
{
    match store.update(resource, id, payload) {
        Ok(id) => Reply { status: 200, body: Body::Json(Json::Str(id)), changed: true },
        Err(e) => error_to_reply(e),
    }
}

/// `DELETE /{resource}/{id}`: 200 with the deleted record, or 404.
pub fn delete_item(store: &mut Store, resource: &str, id: &str) -> (r: Reply)
    requires
        old(store).wf(),
    ensures
        final(store).wf(),
        final(store)@ == delete_model(old(store)@, resource@, id@).0,
        r@ == value_reply(delete_model(old(store)@, resource@, id@).1, 200, true),
{
    match store.delete(resource, id) {
        Ok(record) => Reply { status: 200, body: Body::Json(record), changed: true },
        Err(e) => error_to_reply(e),
    }
}

} // verus!
