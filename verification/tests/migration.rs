use toy_blog::json::Json;
use toy_blog::migration::{add_visibility, migrate, tag_version, MigrateError};

fn key(s: &str) -> Vec<char> {
    s.chars().collect()
}

fn chars(s: &str) -> Vec<char> {
    s.chars().collect()
}

fn obj(members: Vec<(&str, Json)>) -> Json {
    Json::Obj(members.into_iter().map(|(k, v)| (key(k), v)).collect())
}

#[test]
fn aal_early_return() {
    let a = obj(vec![("version", Json::Int(2)), ("data", obj(vec![]))]);
    let b = add_visibility(a).unwrap();
    assert_eq!(b, obj(vec![("version", Json::Int(2)), ("data", obj(vec![]))]));
}

#[test]
fn aal_add_visibility() {
    let a = obj(vec![
        ("version", Json::Str(chars("1"))),
        ("data", obj(vec![("a", obj(vec![("some_random_data_here", Json::Int(42))]))])),
    ]);
    let b = add_visibility(a).unwrap();
    assert_eq!(b, obj(vec![
        ("version", Json::Int(2)),
        ("data", obj(vec![("a", obj(vec![
            ("some_random_data_here", Json::Int(42)),
            ("visibility", Json::Str(chars("public"))),
        ]))])),
    ]));
}

#[test]
fn aal_do_not_destroy_visibility() {
    let a = obj(vec![
        ("version", Json::Int(2)),
        ("data", obj(vec![("a", obj(vec![
            ("some_random_data_here", Json::Int(42)),
            ("visibility", Json::Str(chars("private"))),
        ]))])),
    ]);
    let b = add_visibility(a).unwrap();
    assert_eq!(b, obj(vec![
        ("version", Json::Int(2)),
        ("data", obj(vec![("a", obj(vec![
            ("some_random_data_here", Json::Int(42)),
            ("visibility", Json::Str(chars("private"))),
        ]))])),
    ]));
}

#[test]
fn untagged_document_gets_version_and_defaults() {
    // the earliest format: no version tag, records without visibility
    let a = obj(vec![
        ("data", obj(vec![("x", obj(vec![("content", Json::Str(chars("hi")))]))])),
    ]);
    let b = migrate(a).unwrap();
    assert_eq!(b, obj(vec![
        ("data", obj(vec![("x", obj(vec![
            ("content", Json::Str(chars("hi"))),
            ("visibility", Json::Str(chars("public"))),
        ]))])),
        ("version", Json::Int(2)),
    ]));
}

#[test]
fn migration_twice_equals_once() {
    let a = || obj(vec![
        ("data", obj(vec![
            ("kept", obj(vec![("visibility", Json::Str(chars("private")))])),
            ("filled", obj(vec![])),
        ])),
    ]);
    let once = migrate(a()).unwrap();
    let twice = migrate(migrate(a()).unwrap()).unwrap();
    assert_eq!(once, twice);
}

#[test]
fn tag_version_stamps_only_untagged() {
    let untagged = obj(vec![("data", obj(vec![]))]);
    let stamped = tag_version(untagged).unwrap();
    assert_eq!(stamped, obj(vec![("data", obj(vec![])), ("version", Json::Int(1))]));
    let again = tag_version(stamped).unwrap();
    assert_eq!(again, obj(vec![("data", obj(vec![])), ("version", Json::Int(1))]));
}

#[test]
fn top_level_must_be_object() {
    assert_eq!(migrate(Json::Int(3)).unwrap_err(), MigrateError::NotAnObject);
}

#[test]
fn version_tag_must_be_numeric() {
    let a = obj(vec![("version", Json::Bool(true)), ("data", obj(vec![]))]);
    assert_eq!(migrate(a).unwrap_err(), MigrateError::BadVersionTag);
    let b = obj(vec![("version", Json::Str(chars("two"))), ("data", obj(vec![]))]);
    assert_eq!(migrate(b).unwrap_err(), MigrateError::BadVersionTag);
}

#[test]
fn table_must_exist_below_version_two() {
    let a = obj(vec![("version", Json::Int(1))]);
    assert_eq!(migrate(a).unwrap_err(), MigrateError::BadTable);
}
