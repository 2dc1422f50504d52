use jserve::json::Json;
use jserve::store::{Store, StoreError};

fn s(t: &str) -> String {
    t.to_string()
}

fn obj(members: Vec<(&str, Json)>) -> Json {
    Json::Object(members.into_iter().map(|(k, v)| (s(k), v)).collect())
}

fn named(id: &str, name: &str) -> Json {
    obj(vec![("id", Json::Str(s(id))), ("name", Json::Str(s(name)))])
}

#[test]
fn create_without_id_assigns_fresh_id() {
    let mut store = Store::new();
    let id = store.create("users", obj(vec![("name", Json::Str(s("Ana")))])).unwrap();
    assert_eq!(id.len(), 36);
    let items = store.list_all("users").unwrap();
    assert_eq!(items.len(), 1);
    assert_eq!(
        items[0],
        obj(vec![("name", Json::Str(s("Ana"))), ("id", Json::Str(id.clone()))])
    );
}

#[test]
fn two_creates_without_id_get_different_ids() {
    let mut store = Store::new();
    let a = store.create("users", obj(vec![])).unwrap();
    let b = store.create("users", obj(vec![])).unwrap();
    assert_ne!(a, b);
    assert_eq!(store.list_all("users").unwrap().len(), 2);
}

#[test]
fn create_with_given_fresh_id() {
    let mut store = Store::new();
    let id = store.create_with_id("users", obj(vec![("name", Json::Str(s("Ana")))]), s("f1")).unwrap();
    assert_eq!(id, "f1");
    assert_eq!(
        store.get_by_id("users", "f1").unwrap(),
        obj(vec![("name", Json::Str(s("Ana"))), ("id", Json::Str(s("f1")))])
    );
}

#[test]
fn create_keeps_own_id() {
    let mut store = Store::new();
    let id = store.create_with_id("users", named("1", "Bo"), s("unused")).unwrap();
    assert_eq!(id, "1");
    assert_eq!(store.get_by_id("users", "1").unwrap(), named("1", "Bo"));
}

#[test]
fn create_duplicate_id_is_rejected_and_store_unchanged() {
    let mut store = Store::new();
    store.create("users", named("1", "Bo")).unwrap();
    let r = store.create("users", named("1", "Other"));
    assert_eq!(r, Err(StoreError::DuplicateId));
    assert_eq!(store.list_all("users").unwrap(), vec![named("1", "Bo")]);
}

#[test]
fn create_rejects_non_object() {
    let mut store = Store::new();
    assert_eq!(store.create("users", Json::Array(vec![])), Err(StoreError::InvalidPayload));
    assert_eq!(store.create("users", Json::Null), Err(StoreError::InvalidPayload));
    assert_eq!(store.list_all("users"), Err(StoreError::NotFound));
}

#[test]
fn create_rejects_non_string_id() {
    let mut store = Store::new();
    let r = store.create("users", obj(vec![("id", Json::Number(s("7")))]));
    assert_eq!(r, Err(StoreError::InvalidPayload));
    assert_eq!(store.list_all("users"), Err(StoreError::NotFound));
}

#[test]
fn list_unknown_collection_is_not_found() {
    let store = Store::new();
    assert_eq!(store.list_all("nothing"), Err(StoreError::NotFound));
}

#[test]
fn list_keeps_insertion_order() {
    let mut store = Store::new();
    store.create("users", named("b", "B")).unwrap();
    store.create("users", named("a", "A")).unwrap();
    store.create("users", named("c", "C")).unwrap();
    assert_eq!(
        store.list_all("users").unwrap(),
        vec![named("b", "B"), named("a", "A"), named("c", "C")]
    );
}

#[test]
fn get_distinguishes_missing_collection_and_item() {
    let mut store = Store::new();
    store.create("users", named("1", "Bo")).unwrap();
    assert_eq!(store.get_by_id("posts", "1"), Err(StoreError::NotFound));
    assert_eq!(store.get_by_id("users", "2"), Err(StoreError::ItemNotFound));
}

#[test]
fn get_compares_ids_exactly() {
    let mut store = Store::new();
    store.create("users", named("Ab", "x")).unwrap();
    assert_eq!(store.get_by_id("users", "ab"), Err(StoreError::ItemNotFound));
    assert_eq!(store.get_by_id("users", "Ab "), Err(StoreError::ItemNotFound));
    store.create("users", obj(vec![("id", Json::Str(s("5")))])).unwrap();
    assert_eq!(store.get_by_id("users", "5").unwrap(), obj(vec![("id", Json::Str(s("5")))]));
}

#[test]
fn update_replaces_record_wholesale() {
    let mut store = Store::new();
    store.create("users", named("1", "Bo")).unwrap();
    store.create("users", named("2", "Al")).unwrap();
    let r = store.update("users", "1", named("1", "Cy"));
    assert_eq!(r, Ok(s("1")));
    assert_eq!(store.get_by_id("users", "1").unwrap(), named("1", "Cy"));
    assert_eq!(store.list_all("users").unwrap(), vec![named("1", "Cy"), named("2", "Al")]);
}

#[test]
fn update_keeps_payload_id_verbatim() {
    let mut store = Store::new();
    store.create("users", named("1", "Bo")).unwrap();
    let r = store.update("users", "1", obj(vec![("name", Json::Str(s("Cy")))]));
    assert_eq!(r, Ok(s("1")));
    assert_eq!(store.list_all("users").unwrap(), vec![obj(vec![("name", Json::Str(s("Cy")))])]);
    assert_eq!(store.get_by_id("users", "1"), Err(StoreError::ItemNotFound));
}

#[test]
fn update_errors() {
    let mut store = Store::new();
    store.create("users", named("1", "Bo")).unwrap();
    assert_eq!(store.update("users", "1", Json::Bool(true)), Err(StoreError::InvalidPayload));
    assert_eq!(store.update("posts", "1", named("1", "Cy")), Err(StoreError::NotFound));
    assert_eq!(store.update("users", "9", named("9", "Cy")), Err(StoreError::ItemNotFound));
    assert_eq!(store.list_all("users").unwrap(), vec![named("1", "Bo")]);
}

#[test]
fn delete_removes_and_returns_record() {
    let mut store = Store::new();
    store.create("users", named("1", "Bo")).unwrap();
    store.create("users", named("2", "Al")).unwrap();
    store.create("users", named("3", "Cy")).unwrap();
    assert_eq!(store.delete("users", "2"), Ok(named("2", "Al")));
    assert_eq!(store.get_by_id("users", "2"), Err(StoreError::ItemNotFound));
    assert_eq!(store.list_all("users").unwrap(), vec![named("1", "Bo"), named("3", "Cy")]);
}

#[test]
fn delete_errors() {
    let mut store = Store::new();
    store.create("users", named("1", "Bo")).unwrap();
    assert_eq!(store.delete("posts", "1"), Err(StoreError::NotFound));
    assert_eq!(store.delete("users", "2"), Err(StoreError::ItemNotFound));
    assert_eq!(store.list_all("users").unwrap().len(), 1);
}

#[test]
fn serial_mutations_leave_one_record_per_id() {
    let mut store = Store::new();
    store.create("users", named("1", "A")).unwrap();
    store.create("users", named("2", "B")).unwrap();
    assert_eq!(store.create("users", named("2", "B2")), Err(StoreError::DuplicateId));
    store.update("users", "1", named("1", "A2")).unwrap();
    store.delete("users", "2").unwrap();
    store.create("users", named("2", "B3")).unwrap();
    let items = store.list_all("users").unwrap();
    assert_eq!(items, vec![named("1", "A2"), named("2", "B3")]);
}

#[test]
fn collections_are_separate() {
    let mut store = Store::new();
    store.create("users", named("1", "Bo")).unwrap();
    store.create("posts", named("1", "Hello")).unwrap();
    assert_eq!(store.get_by_id("users", "1").unwrap(), named("1", "Bo"));
    assert_eq!(store.get_by_id("posts", "1").unwrap(), named("1", "Hello"));
}
