use jserve::json::Json;
use jserve::persist::{load_store, store_document, LoadError};
use jserve::store::{Store, StoreError};

fn s(t: &str) -> String {
    t.to_string()
}

fn obj(members: Vec<(&str, Json)>) -> Json {
    Json::Object(members.into_iter().map(|(k, v)| (s(k), v)).collect())
}

fn named(id: &str, name: &str) -> Json {
    obj(vec![("id", Json::Str(s(id))), ("name", Json::Str(s(name)))])
}

#[test]
fn empty_document_gives_empty_store() {
    let store = load_store(&obj(vec![])).unwrap();
    assert_eq!(store, Store::new());
}

#[test]
fn load_reads_arrays_and_lone_objects() {
    let doc = obj(vec![
        ("users", Json::Array(vec![named("1", "Bo"), named("2", "Al")])),
        ("config", named("c", "main")),
        ("empty", Json::Array(vec![])),
    ]);
    let store = load_store(&doc).unwrap();
    assert_eq!(store.list_all("users").unwrap(), vec![named("1", "Bo"), named("2", "Al")]);
    assert_eq!(store.list_all("config").unwrap(), vec![named("c", "main")]);
    assert_eq!(store.list_all("empty").unwrap(), vec![]);
    assert_eq!(store.list_all("other"), Err(StoreError::NotFound));
}

#[test]
fn load_rejects_top_level_that_is_not_an_object() {
    assert_eq!(load_store(&Json::Array(vec![])), Err(LoadError::NotAnObject));
    assert_eq!(load_store(&Json::Null), Err(LoadError::NotAnObject));
}

#[test]
fn load_rejects_scalar_collection() {
    let doc = obj(vec![("users", Json::Array(vec![])), ("count", Json::Number(s("3")))]);
    assert_eq!(load_store(&doc), Err(LoadError::InvalidCollection(s("count"))));
}

#[test]
fn load_rejects_non_object_entry() {
    let doc = obj(vec![("users", Json::Array(vec![named("1", "Bo"), Json::Str(s("x"))]))]);
    assert_eq!(load_store(&doc), Err(LoadError::InvalidRecord(s("users"))));
}

#[test]
fn document_lists_collections_as_arrays() {
    let mut store = Store::new();
    store.create("users", named("1", "Bo")).unwrap();
    store.create("posts", named("p", "Hi")).unwrap();
    let doc = store_document(&store);
    assert_eq!(
        doc,
        obj(vec![
            ("users", Json::Array(vec![named("1", "Bo")])),
            ("posts", Json::Array(vec![named("p", "Hi")])),
        ])
    );
}

#[test]
fn save_then_load_gives_same_store() {
    let mut store = Store::new();
    store.create("users", named("1", "Bo")).unwrap();
    store.create("users", obj(vec![("name", Json::Str(s("Ana"))), ("age", Json::Number(s("31.5")))])).unwrap();
    store.create("posts", named("p", "Hi")).unwrap();
    store.delete("users", "1").unwrap();
    let back = load_store(&store_document(&store)).unwrap();
    assert_eq!(back, store);
}

#[test]
fn lone_object_is_saved_as_one_element_array() {
    let store = load_store(&obj(vec![("config", named("c", "main"))])).unwrap();
    assert_eq!(
        store_document(&store),
        obj(vec![("config", Json::Array(vec![named("c", "main")]))])
    );
}
