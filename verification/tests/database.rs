//! The databases folder and JSON values.
use sqlite_server::database::is_sqlite_sidecar_file;
use sqlite_server::json::{parse_json, Json, JsonNumber};

#[test]
fn sidecar_files_are_detected() {
    assert!(is_sqlite_sidecar_file("mydb-wal"));
    assert!(is_sqlite_sidecar_file("mydb-shm"));
    assert!(is_sqlite_sidecar_file("mydb-journal"));
    assert!(!is_sqlite_sidecar_file("mydb"));
    assert!(!is_sqlite_sidecar_file("mydb.db"));
}

#[test]
fn json_is_read_level_by_level() {
    let v = parse_json(r#"{"b":[null,true,1,-2,0.5,"x"],"a":{}}"#).unwrap();
    assert_eq!(
        v,
        Json::Object(vec![
            ("a".to_string(), Json::Object(vec![])),
            (
                "b".to_string(),
                Json::Array(vec![
                    Json::Null,
                    Json::Bool(true),
                    Json::Number(JsonNumber::Unsigned(1)),
                    Json::Number(JsonNumber::Negative(-2)),
                    Json::Number(JsonNumber::Float(0.5f64.to_bits())),
                    Json::Str("x".to_string()),
                ])
            ),
        ])
    );
    assert_eq!(
        parse_json("18446744073709551615").unwrap(),
        Json::Number(JsonNumber::Unsigned(u64::MAX))
    );
    // The last of several members with one name counts.
    assert_eq!(
        parse_json(r#"{"a":1,"a":2}"#).unwrap().get("a"),
        Some(&Json::Number(JsonNumber::Unsigned(2)))
    );
    assert_eq!(parse_json("[1").unwrap_err(), "EOF while parsing a list at line 1 column 2");
}

#[test]
fn looking_into_values() {
    let v = parse_json(r#"{"n":3,"s":"t","f":1.5,"m":-1}"#).unwrap();
    assert_eq!(v.get("n").unwrap().as_u64(), Some(3));
    assert_eq!(v.get("f").unwrap().as_u64(), None);
    assert_eq!(v.get("m").unwrap().as_u64(), None);
    assert_eq!(v.get_str("s"), Some("t"));
    assert_eq!(v.get_str("n"), None);
    assert_eq!(v.get_str("missing"), None);
    assert!(Json::Null.get("n").is_none());
    assert!(Json::Str("n".to_string()).get("n").is_none());
}
