use jserve::json::Json;
use jserve::persist::load_store;
use jserve::service::{create_item, delete_item, get_all, get_one, update_item, Body, Reply};
use jserve::store::StoreError;
use jserve::service::{error_message, error_status_of};

fn s(t: &str) -> String {
    t.to_string()
}

fn obj(members: Vec<(&str, Json)>) -> Json {
    Json::Object(members.into_iter().map(|(k, v)| (s(k), v)).collect())
}

fn named(id: &str, name: &str) -> Json {
    obj(vec![("id", Json::Str(s(id))), ("name", Json::Str(s(name)))])
}

fn text(status: u16, t: &str) -> Reply {
    Reply { status, body: Body::Text(s(t)), changed: false }
}

#[test]
fn post_to_empty_file_then_list() {
    let mut store = load_store(&obj(vec![])).unwrap();
    let r = create_item(&mut store, "users", obj(vec![("name", Json::Str(s("Ana")))]));
    assert_eq!(r.status, 201);
    assert!(r.changed);
    let id = match r.body {
        Body::Json(Json::Str(id)) => id,
        other => panic!("unexpected body {:?}", other),
    };
    let all = get_all(&store, "users");
    assert_eq!(all.status, 200);
    assert_eq!(
        all.body,
        Body::Json(Json::Array(vec![obj(vec![("name", Json::Str(s("Ana"))), ("id", Json::Str(id))])]))
    );
}

#[test]
fn post_same_id_twice_conflicts() {
    let mut store = load_store(&obj(vec![])).unwrap();
    let first = create_item(&mut store, "users", named("1", "Bo"));
    assert_eq!(first, Reply { status: 201, body: Body::Json(Json::Str(s("1"))), changed: true });
    let second = create_item(&mut store, "users", named("1", "Bo"));
    assert_eq!(second, text(409, "Duplicate ID"));
    let all = get_all(&store, "users");
    assert_eq!(all.body, Body::Json(Json::Array(vec![named("1", "Bo")])));
}

#[test]
fn put_missing_user_is_not_found() {
    let mut store = load_store(&obj(vec![("users", Json::Array(vec![named("2", "Al")]))])).unwrap();
    let r = update_item(&mut store, "users", "1", named("1", "Cy"));
    assert_eq!(r.status, 404);
    assert!(!r.changed);
    assert_eq!(get_all(&store, "users").body, Body::Json(Json::Array(vec![named("2", "Al")])));
}

#[test]
fn delete_existing_then_get_is_not_found() {
    let mut store = load_store(&obj(vec![("users", Json::Array(vec![named("1", "Bo")]))])).unwrap();
    let r = delete_item(&mut store, "users", "1");
    assert_eq!(r, Reply { status: 200, body: Body::Json(named("1", "Bo")), changed: true });
    let g = get_one(&store, "users", "1");
    assert_eq!(g.status, 404);
    assert_eq!(g, text(404, "Item not found"));
}

#[test]
fn put_existing_then_get_returns_replacement() {
    let mut store = load_store(&obj(vec![("users", Json::Array(vec![named("1", "Bo")]))])).unwrap();
    let r = update_item(&mut store, "users", "1", named("1", "Cy"));
    assert_eq!(r, Reply { status: 200, body: Body::Json(Json::Str(s("1"))), changed: true });
    assert_eq!(get_one(&store, "users", "1").body, Body::Json(named("1", "Cy")));
}

#[test]
fn unknown_resource_replies() {
    let mut store = load_store(&obj(vec![])).unwrap();
    assert_eq!(get_all(&store, "users"), text(404, "Resource not found"));
    assert_eq!(get_one(&store, "users", "1"), text(404, "Resource not found"));
    assert_eq!(delete_item(&mut store, "users", "1"), text(404, "Resource not found"));
}

#[test]
fn non_object_payload_is_bad_request() {
    let mut store = load_store(&obj(vec![("users", Json::Array(vec![named("1", "Bo")]))])).unwrap();
    assert_eq!(create_item(&mut store, "users", Json::Str(s("x"))), text(400, "Expected JSON object"));
    assert_eq!(update_item(&mut store, "users", "1", Json::Null), text(400, "Expected JSON object"));
}

#[test]
fn error_statuses() {
    assert_eq!(error_status_of(StoreError::NotFound), 404);
    assert_eq!(error_status_of(StoreError::ItemNotFound), 404);
    assert_eq!(error_status_of(StoreError::InvalidPayload), 400);
    assert_eq!(error_status_of(StoreError::DuplicateId), 409);
    assert_eq!(error_message(StoreError::DuplicateId), "Duplicate ID");
}
