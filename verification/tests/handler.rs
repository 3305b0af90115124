//! Requests against in-memory databases.
use std::sync::Arc;

use rusqlite::types::ValueRef;
use rusqlite::Connection;
use sqlite_server::address::{IpAddr, SocketAddr};
use sqlite_server::config::Config;
use sqlite_server::database::{
    is_plain_file_name, is_safe_database_name, is_single_component, DirEntry, Found, Location,
    PathPart,
};
use sqlite_server::handler::{
    executed, handle_list, locate_delete, parse_request, RequestHandler, Step,
};
use sqlite_server::json::{parse_json, Json, JsonNumber};
use sqlite_server::sql::{
    map_sqlite_err, result_to_json, row_to_json, to_hex, value_ref_to_json, ResultSet, SqlValue,
    SqliteError,
};

/// The files of a databases folder, each behind a shared in-memory database.
struct Files {
    tag: &'static str,
    names: Vec<String>,
}

impl Files {
    fn new(tag: &'static str) -> Files {
        Files { tag, names: Vec::new() }
    }

    fn locate(&self, name: &str) -> Location {
        if !self.names.iter().any(|n| n == name) {
            return single(Found::Absent);
        }
        let folder = vec![b"/".to_vec(), b"data".to_vec()];
        let mut target = folder.clone();
        target.push(name.as_bytes().to_vec());
        single(Found::Present { folder: Some(folder), target: Some(target) })
    }

    fn entries(&self) -> Vec<DirEntry> {
        let mut entries = vec![DirEntry { name: "backup".to_string(), is_file: false }];
        for name in &self.names {
            entries.push(DirEntry { name: name.clone(), is_file: true });
            entries.push(DirEntry { name: format!("{name}-wal"), is_file: true });
        }
        entries
    }

    fn open(&mut self, name: &str, setup: &str) -> Result<Connection, SqliteError> {
        let uri = format!("file:{}-{}?mode=memory&cache=shared", self.tag, name);
        let conn = Connection::open(uri).map_err(failure)?;
        conn.execute_batch(setup).map_err(failure)?;
        if !self.names.iter().any(|n| n == name) {
            self.names.push(name.to_string());
        }
        Ok(conn)
    }

    fn remove(&mut self, name: &str) -> bool {
        let before = self.names.len();
        self.names.retain(|n| n != name);
        self.names.len() < before
    }
}

/// Where a name leads that is a single path component.
fn single(found: Found) -> Location {
    Location { absolute: false, parts: vec![PathPart::Normal], found }
}

fn failure(err: rusqlite::Error) -> SqliteError {
    match err {
        rusqlite::Error::SqliteFailure(ffi_err, message) => SqliteError::Failure {
            extended_code: ffi_err.extended_code,
            message,
            description: ffi_err.to_string(),
        },
        other => SqliteError::Other { description: other.to_string() },
    }
}

fn execute(conn: &Connection, query: &str) -> Result<ResultSet, rusqlite::Error> {
    let mut stmt = conn.prepare(query)?;
    let columns: Vec<String> = stmt.column_names().map(|s| s.to_string()).collect();
    let mut out = Vec::new();
    let mut rows = stmt.query([])?;
    while let Some(row) = rows.next()? {
        let mut values = Vec::new();
        for i in 0..columns.len() {
            values.push(match row.get_ref(i)? {
                ValueRef::Null => SqlValue::Null,
                ValueRef::Integer(n) => SqlValue::Integer(n),
                ValueRef::Real(f) => SqlValue::Real(f.to_bits()),
                ValueRef::Text(bytes) => SqlValue::Text(bytes.to_vec()),
                ValueRef::Blob(bytes) => SqlValue::Blob(bytes.to_vec()),
            });
        }
        out.push(values);
    }
    Ok(ResultSet { columns, rows: out })
}

fn config(auth: &str) -> Arc<Config> {
    Arc::new(Config {
        listen_addr: SocketAddr::new(IpAddr::parse("127.0.0.1").unwrap(), 0),
        workers: 1,
        databases_folder: "/data".to_string(),
        client_max_packet_size: 16 * 1024 * 1024,
        busy_timeout_ms: 5000,
        auth: auth.to_string(),
        ip_whitelist: Vec::new(),
    })
}

fn answer(files: &mut Files, handler: &mut RequestHandler<Connection>, req: &str) -> Json {
    let mut step = handler.handle_request(req);
    loop {
        step = match step {
            Step::Reply(reply) => return reply,
            Step::ListFolder => return handle_list(&Some(files.entries())),
            Step::LocateQuery(task) => {
                let location = files.locate(&task.db);
                handler.locate_query(task, &location)
            }
            Step::LocateDelete(task) => {
                let location = files.locate(&task.db);
                locate_delete(task, &location)
            }
            Step::Open(task) => {
                let outcome = files.open(&task.db, &handler.connection_setup());
                handler.opened(task, outcome)
            }
            Step::Execute(task) => {
                let conn = handler.get_connection(&task.db).unwrap();
                let outcome = execute(conn, &task.query).map_err(failure);
                return executed(task, outcome);
            }
            Step::Remove(db) => {
                let removed = files.remove(&db);
                return handler.removed(&db, removed);
            }
        };
    }
}

fn json(text: &str) -> Json {
    parse_json(text).unwrap()
}

fn float(x: f64) -> Json {
    Json::Number(JsonNumber::Float(x.to_bits()))
}

fn whole(n: u64) -> Json {
    Json::Number(JsonNumber::Unsigned(n))
}

fn string(s: &str) -> Json {
    Json::Str(s.to_string())
}

fn item(value: &Json, i: usize) -> &Json {
    match value {
        Json::Array(items) => &items[i],
        _ => panic!("no array: {value:?}"),
    }
}

fn names(value: &Json) -> Vec<String> {
    match value {
        Json::Array(items) => items.iter().map(|v| v.as_str().unwrap().to_string()).collect(),
        _ => panic!("no array: {value:?}"),
    }
}

#[test]
fn hex_encoding_is_lowercase() {
    assert_eq!(to_hex(&[0x00, 0xff, 0x10, 0xab]), "00ff10ab");
    assert_eq!(to_hex(&[]), "");
}

#[test]
fn parse_request_handles_valid_repair_and_invalid() {
    // Valid JSON.
    let v = parse_request(r#"{"cmd":"LIST"}"#).unwrap();
    assert_eq!(v.get("cmd"), Some(&string("LIST")));

    // Unquoted keys are repaired (SQLiteStudio style).
    let v = parse_request(r#"{cmd:"LIST"}"#).unwrap();
    assert_eq!(v.get("cmd"), Some(&string("LIST")));

    // Unrepairable garbage.
    assert!(parse_request("not json at all {{{").is_err());
}

#[test]
fn repair_quotes_every_key() {
    let v = parse_request(r#"{cmd:"QUERY",'db':"a1",query:"SELECT 1"}"#).unwrap();
    assert_eq!(v, json(r#"{"cmd":"QUERY","db":"a1","query":"SELECT 1"}"#));
    // The message is that of the second attempt.
    let second = parse_json(r#"{"a": 1,}"#).unwrap_err();
    assert_eq!(parse_request("{a: 1,}").unwrap_err(), second);
}

#[test]
fn blob_pointer_value_mapping() {
    // SQLite value -> JSON mapping for each SQLite type.
    assert_eq!(value_ref_to_json(&SqlValue::Null), Json::Null);
    assert_eq!(value_ref_to_json(&SqlValue::Integer(42)), whole(42));
    assert_eq!(value_ref_to_json(&SqlValue::Real(2.5f64.to_bits())), float(2.5));
    assert_eq!(value_ref_to_json(&SqlValue::Text(b"hi".to_vec())), string("hi"));
    assert_eq!(
        value_ref_to_json(&SqlValue::Blob(vec![0x00, 0xff])),
        string("X'00ff'")
    );
    // Non-finite reals have no JSON representation -> null.
    assert_eq!(value_ref_to_json(&SqlValue::Real(f64::INFINITY.to_bits())), Json::Null);
}

#[test]
fn values_at_the_edges() {
    assert_eq!(
        value_ref_to_json(&SqlValue::Integer(i64::MIN)),
        Json::Number(JsonNumber::Negative(i64::MIN))
    );
    assert_eq!(value_ref_to_json(&SqlValue::Integer(i64::MAX)), whole(i64::MAX as u64));
    assert_eq!(value_ref_to_json(&SqlValue::Integer(0)), whole(0));
    assert_eq!(value_ref_to_json(&SqlValue::Real((-0.0f64).to_bits())), float(-0.0));
    assert_eq!(value_ref_to_json(&SqlValue::Real(f64::MAX.to_bits())), float(f64::MAX));
    assert_eq!(value_ref_to_json(&SqlValue::Real(f64::NAN.to_bits())), Json::Null);
    assert_eq!(value_ref_to_json(&SqlValue::Real(f64::NEG_INFINITY.to_bits())), Json::Null);
    // Bytes that are not UTF-8 are replaced.
    assert_eq!(
        value_ref_to_json(&SqlValue::Text(vec![b'a', 0xff, b'b'])),
        string("a\u{fffd}b")
    );
    assert_eq!(
        value_ref_to_json(&SqlValue::Text("žluť".as_bytes().to_vec())),
        string("žluť")
    );
}

#[test]
fn rows_are_in_alphabetical_order() {
    let columns = vec!["d".to_string(), "a".to_string(), "d".to_string()];
    let row = vec![SqlValue::Integer(1), SqlValue::Integer(2), SqlValue::Integer(3)];
    // A column that occurs twice counts once, with its last value.
    assert_eq!(
        row_to_json(&columns, &row),
        Json::Object(vec![("a".to_string(), whole(2)), ("d".to_string(), whole(3))])
    );
    let result = ResultSet { columns, rows: vec![row] };
    assert_eq!(
        result_to_json(&result),
        json(r#"{"columns":["d","a","d"],"data":[{"a":2,"d":3}]}"#)
    );
}

#[test]
fn error_codes_and_messages() {
    let (code, message) = map_sqlite_err(SqliteError::Failure {
        extended_code: 2067,
        message: Some("UNIQUE constraint failed: t.i".to_string()),
        description: "constraint".to_string(),
    });
    assert_eq!((code, message.as_str()), (19, "UNIQUE constraint failed: t.i"));
    let (code, message) = map_sqlite_err(SqliteError::Failure {
        extended_code: 5,
        message: None,
        description: "database is locked".to_string(),
    });
    assert_eq!((code, message.as_str()), (5, "database is locked"));
    let (code, message) =
        map_sqlite_err(SqliteError::Other { description: "other".to_string() });
    assert_eq!((code, message.as_str()), (1, "other"));
}

#[test]
fn database_name_safety() {
    let safe = |name: &str| is_safe_database_name(name, &single(Found::Absent));
    assert!(safe("mydb.db"));
    assert!(safe("sales"));

    assert!(!safe(""));
    assert!(!safe("."));
    assert!(!safe(".."));
    assert!(!safe("../escape"));
    assert!(!safe("sub/dir"));
    assert!(!safe("/etc/passwd"));
}

#[test]
fn names_that_lead_elsewhere() {
    let folder = || Some(vec![b"/".to_vec(), b"data".to_vec()]);
    let inside = Some(vec![b"/".to_vec(), b"data".to_vec(), b"real.db".to_vec()]);
    let outside = Some(vec![b"/".to_vec(), b"etc".to_vec(), b"passwd".to_vec()]);
    let deeper = Some(vec![b"/".to_vec(), b"data".to_vec(), b"x".to_vec(), b"y".to_vec()]);
    let present = |target| single(Found::Present { folder: folder(), target });
    assert!(is_safe_database_name("link", &present(inside)));
    assert!(!is_safe_database_name("link", &present(outside)));
    assert!(!is_safe_database_name("link", &present(deeper)));
    assert!(!is_safe_database_name("link", &present(folder())));
    assert!(!is_safe_database_name("link", &present(None)));
    assert!(!is_safe_database_name(
        "link",
        &single(Found::Present { folder: None, target: folder() })
    ));
    assert!(is_plain_file_name("..."));
    assert!(!is_plain_file_name("name/"));
}

#[test]
fn platform_takes_names_apart() {
    let at = |absolute: bool, parts: &[PathPart]| Location {
        absolute,
        parts: parts.to_vec(),
        found: Found::Absent,
    };
    // Where the backslash separates, this is a name in a folder.
    let two = at(false, &[PathPart::Normal, PathPart::Normal]);
    assert!(!is_safe_database_name(r"sub\dir", &two));
    // Where it does not, it is a letter like any other.
    assert!(is_safe_database_name(r"sub\dir", &at(false, &[PathPart::Normal])));
    assert!(!is_safe_database_name("C:x", &at(false, &[PathPart::Prefix, PathPart::Normal])));
    assert!(!is_safe_database_name("x", &at(true, &[PathPart::Normal])));
    assert!(!is_safe_database_name("x", &at(false, &[])));
    for part in [PathPart::Prefix, PathPart::Root, PathPart::Current, PathPart::Parent] {
        assert!(!is_single_component(false, &vec![part]));
    }

    let mut handler: RequestHandler<Connection> = RequestHandler::new(config(""));
    let task = match handler.handle_request(r#"{"cmd":"DELETE_DB","db":"sub\\dir"}"#) {
        Step::LocateDelete(task) => task,
        other => panic!("{other:?}"),
    };
    assert_eq!(task.db, r"sub\dir");
    match locate_delete(task, &two) {
        Step::Reply(reply) => assert_eq!(reply.get("generic_error"), Some(&whole(3))),
        other => panic!("{other:?}"),
    }
}

#[test]
fn unsafe_location_is_answered_as_no_database() {
    let mut handler: RequestHandler<Connection> = RequestHandler::new(config(""));
    let req = r#"{"cmd":"QUERY","db":"link","query":"SELECT 1"}"#;
    let elsewhere = single(Found::Present { folder: None, target: None });
    let task = match handler.handle_request(req) {
        Step::LocateQuery(task) => task,
        other => panic!("{other:?}"),
    };
    match handler.locate_query(task, &elsewhere) {
        Step::Reply(reply) => {
            assert_eq!(reply.get("generic_error"), Some(&whole(3)));
            assert_eq!(reply.get("request"), Some(&json(req)));
        }
        other => panic!("{other:?}"),
    }
    let task = match handler.handle_request(r#"{"cmd":"delete_db","db":"link"}"#) {
        Step::LocateDelete(task) => task,
        other => panic!("{other:?}"),
    };
    match locate_delete(task, &elsewhere) {
        Step::Reply(reply) => assert_eq!(reply.get("generic_error"), Some(&whole(3))),
        other => panic!("{other:?}"),
    }
}

#[test]
fn query_value_encoding_and_column_order() {
    let mut files = Files::new("encoding");
    let mut handler = RequestHandler::new(config(""));

    let created = answer(
        &mut files,
        &mut handler,
        r#"{"cmd":"QUERY","db":"t.db","query":"CREATE TABLE x(a INTEGER, b TEXT, c REAL, d BLOB)"}"#,
    );
    assert_eq!(created, json(r#"{"columns": [], "data": []}"#));

    answer(
        &mut files,
        &mut handler,
        r#"{"cmd":"QUERY","db":"t.db","query":"INSERT INTO x VALUES (1, 'hi', 2.5, X'00ff')"}"#,
    );
    answer(
        &mut files,
        &mut handler,
        r#"{"cmd":"QUERY","db":"t.db","query":"INSERT INTO x VALUES (2, NULL, NULL, NULL)"}"#,
    );

    // Columns preserve SELECT order even when not alphabetical.
    let res = answer(
        &mut files,
        &mut handler,
        r#"{"cmd":"QUERY","db":"t.db","query":"SELECT d, c, b, a FROM x ORDER BY a"}"#,
    );
    assert_eq!(res.get("columns"), Some(&json(r#"["d", "c", "b", "a"]"#)));

    let data = res.get("data").unwrap();
    let row0 = item(data, 0);
    assert_eq!(row0.get("a"), Some(&whole(1)));
    assert_eq!(row0.get("b"), Some(&string("hi")));
    assert_eq!(row0.get("c"), Some(&float(2.5)));
    assert_eq!(row0.get("d"), Some(&string("X'00ff'")));
    assert_eq!(item(data, 1).get("b"), Some(&Json::Null));

    // Row object keys come in alphabetical order.
    match row0 {
        Json::Object(members) => {
            let keys: Vec<&str> = members.iter().map(|m| m.0.as_str()).collect();
            assert_eq!(keys, vec!["a", "b", "c", "d"]);
        }
        other => panic!("{other:?}"),
    }
}

#[test]
fn list_and_delete_db() {
    let mut files = Files::new("list");
    let mut handler = RequestHandler::new(config(""));

    answer(
        &mut files,
        &mut handler,
        r#"{"cmd":"QUERY","db":"a.db","query":"CREATE TABLE z(i INTEGER)"}"#,
    );

    let list = answer(&mut files, &mut handler, r#"{"cmd":"LIST"}"#);
    let found = names(list.get("list").unwrap());
    assert!(found.contains(&"a.db".to_string()));
    assert!(!found.iter().any(|n| n.ends_with("-wal")));

    assert_eq!(
        answer(&mut files, &mut handler, r#"{"cmd":"DELETE_DB","db":"a.db"}"#),
        json(r#"{"result": "ok"}"#)
    );
    // Already gone.
    assert_eq!(
        answer(&mut files, &mut handler, r#"{"cmd":"DELETE_DB","db":"a.db"}"#),
        json(r#"{"result": "error"}"#)
    );
}

#[test]
fn unreadable_folder_lists_nothing() {
    assert_eq!(handle_list(&None), json(r#"{"list": []}"#));
    let entries = vec![
        DirEntry { name: "b".to_string(), is_file: true },
        DirEntry { name: "folder".to_string(), is_file: false },
        DirEntry { name: "a-journal".to_string(), is_file: true },
        DirEntry { name: "a".to_string(), is_file: true },
    ];
    assert_eq!(handle_list(&Some(entries)), json(r#"{"list": ["b", "a"]}"#));
}

#[test]
fn command_is_case_insensitive() {
    let mut files = Files::new("case");
    let mut handler = RequestHandler::new(config(""));
    assert!(answer(&mut files, &mut handler, r#"{"cmd":"list"}"#).get("list").is_some());
    assert!(answer(&mut files, &mut handler, r#"{"cmd":"LiSt"}"#).get("list").is_some());
}

#[test]
fn generic_and_sql_error_codes() {
    let mut files = Files::new("errors");
    let mut handler = RequestHandler::new(config(""));
    let mut ask = |req: &str| answer(&mut files, &mut handler, req);

    // INVALID_FORMAT (0) with a message.
    let r = ask("garbage {{{");
    assert_eq!(r.get("generic_error"), Some(&whole(0)));
    assert!(r.get("message").is_some());
    assert_eq!(r.get("request"), Some(&string("garbage {{{")));

    // NO_COMMAND_SPECIFIED (1).
    assert_eq!(ask(r#"{"db":"a.db"}"#).get("generic_error"), Some(&whole(1)));
    assert_eq!(
        ask(r#"{"cmd": 5}"#),
        Json::Object(vec![
            ("generic_error".to_string(), whole(1)),
            ("request".to_string(), string(r#"{"cmd": 5}"#)),
        ])
    );
    // UNKNOWN_COMMAND (2).
    assert_eq!(ask(r#"{"cmd":"FROB"}"#).get("generic_error"), Some(&whole(2)));
    // NO_DATABASE_SPECIFIED (3): missing db.
    assert_eq!(
        ask(r#"{"cmd":"QUERY","query":"SELECT 1"}"#).get("generic_error"),
        Some(&whole(3))
    );
    assert_eq!(ask(r#"{"cmd":"DELETE_DB"}"#).get("generic_error"), Some(&whole(3)));
    // NO_DATABASE_SPECIFIED (3): path traversal.
    assert_eq!(
        ask(r#"{"cmd":"QUERY","db":"../x","query":"SELECT 1"}"#).get("generic_error"),
        Some(&whole(3))
    );
    assert_eq!(ask(r#"{"cmd":"DELETE_DB","db":".."}"#).get("generic_error"), Some(&whole(3)));
    // ERROR_READING_FROM_CLIENT (4): missing query.
    assert_eq!(ask(r#"{"cmd":"QUERY","db":"a.db"}"#).get("generic_error"), Some(&whole(4)));

    // Empty query -> SQLITE_MISUSE (21) "empty query".
    let r = ask(r#"{"cmd":"QUERY","db":"a.db","query":"   "}"#);
    assert_eq!(r.get("error_code"), Some(&whole(21)));
    assert_eq!(r.get("error_message"), Some(&string("empty query")));

    // SQL error carries the primary code and message.
    let r = ask(r#"{"cmd":"QUERY","db":"a.db","query":"SELECT * FROM ghosts"}"#);
    assert_eq!(r.get("error_code"), Some(&whole(1)));
    assert!(r.get_str("error_message").unwrap().contains("no such table"));
    assert_eq!(
        r.get("query"),
        Some(&json(r#"{"cmd":"QUERY","db":"a.db","query":"SELECT * FROM ghosts"}"#))
    );
}

#[test]
fn white_space_of_any_kind_is_an_empty_query() {
    let handler: RequestHandler<Connection> = RequestHandler::new(config(""));
    let mut begin: RequestHandler<Connection> = RequestHandler::new(config(""));
    let task = match begin
        .handle_request("{\"cmd\":\"QUERY\",\"db\":\"d\",\"query\":\"\\t\\n \u{3000}\u{a0}\"}")
    {
        Step::LocateQuery(task) => task,
        other => panic!("{other:?}"),
    };
    match handler.locate_query(task, &single(Found::Absent)) {
        Step::Reply(reply) => assert_eq!(reply.get("error_code"), Some(&whole(21))),
        other => panic!("{other:?}"),
    }
}

#[test]
fn connection_setup_tunes_for_concurrency() {
    let mut files = Files::new("setup");
    let mut handler = RequestHandler::new(config(""));
    assert_eq!(
        handler.connection_setup(),
        "PRAGMA journal_mode=WAL; PRAGMA busy_timeout=5000; PRAGMA synchronous=NORMAL;"
    );
    answer(
        &mut files,
        &mut handler,
        r#"{"cmd":"QUERY","db":"p.db","query":"CREATE TABLE t(i INTEGER)"}"#,
    );
    let timeout = answer(
        &mut files,
        &mut handler,
        r#"{"cmd":"QUERY","db":"p.db","query":"PRAGMA busy_timeout"}"#,
    );
    assert_eq!(item(timeout.get("data").unwrap(), 0).get("timeout"), Some(&whole(5000)));
}

#[test]
fn auth_gate_requires_handshake() {
    let mut files = Files::new("auth");
    let mut handler = RequestHandler::new(config("s3cret"));
    let mut ask = |req: &str| answer(&mut files, &mut handler, req);

    // A command before authenticating is rejected.
    assert_eq!(ask(r#"{"cmd":"LIST"}"#), json(r#"{"result": "error"}"#));
    // Wrong password is rejected and does not authenticate.
    assert_eq!(ask(r#"{"auth":"nope"}"#), json(r#"{"result": "error"}"#));
    assert_eq!(ask(r#"{"cmd":"LIST"}"#), json(r#"{"result": "error"}"#));
    // Correct password authenticates the connection.
    assert_eq!(ask(r#"{"auth":"s3cret"}"#), json(r#"{"result": "ok"}"#));
    // Now commands work.
    assert!(ask(r#"{"cmd":"LIST"}"#).get("list").is_some());
}

#[test]
fn password_edges() {
    let mut files = Files::new("gate");
    let mut handler = RequestHandler::new(config("s3cret"));
    let mut ask = |req: &str| answer(&mut files, &mut handler, req);
    // Text that is no JSON is reported as such, password or not.
    assert_eq!(ask("{{{").get("generic_error"), Some(&whole(0)));
    // A password of another type is no password.
    assert_eq!(ask(r#"{"auth":5}"#), json(r#"{"result": "error"}"#));
    assert_eq!(ask(r#"{"auth":"s3cret","cmd":"LIST"}"#), json(r#"{"result": "ok"}"#));
    // Once authenticated, a wrong password is no obstacle, and the right one is welcome.
    assert!(ask(r#"{"auth":"nope","cmd":"LIST"}"#).get("list").is_some());
    assert_eq!(ask(r#"{"auth":"s3cret","cmd":"LIST"}"#), json(r#"{"result": "ok"}"#));

    // Without a password, `auth` is a member like any other.
    let mut open = RequestHandler::new(config(""));
    let r = answer(&mut files, &mut open, r#"{"auth":""}"#);
    assert_eq!(r.get("generic_error"), Some(&whole(1)));
}

#[test]
fn connection_cache_persists_across_requests() {
    let mut files = Files::new("cache");
    let mut handler = RequestHandler::new(config(""));

    // A temporary table lives as long as its connection, which later requests share.
    answer(
        &mut files,
        &mut handler,
        r#"{"cmd":"QUERY","db":"c.db","query":"CREATE TEMP TABLE tmp(i INTEGER)"}"#,
    );
    answer(
        &mut files,
        &mut handler,
        r#"{"cmd":"QUERY","db":"c.db","query":"INSERT INTO tmp VALUES (7)"}"#,
    );
    let res = answer(
        &mut files,
        &mut handler,
        r#"{"cmd":"QUERY","db":"c.db","query":"SELECT i FROM tmp"}"#,
    );
    assert_eq!(item(res.get("data").unwrap(), 0).get("i"), Some(&whole(7)));
}

#[test]
fn cache_follows_openings_and_deletions() {
    let mut handler: RequestHandler<u32> = RequestHandler::new(config(""));
    let open = |handler: &mut RequestHandler<u32>, db: &str, conn: u32| {
        let req = format!(r#"{{"cmd":"QUERY","db":"{db}","query":"SELECT 1"}}"#);
        let task = match handler.handle_request(&req) {
            Step::LocateQuery(task) => task,
            other => panic!("{other:?}"),
        };
        match handler.locate_query(task, &single(Found::Absent)) {
            Step::Open(task) => matches!(handler.opened(task, Ok(conn)), Step::Execute(_)),
            Step::Execute(_) => false,
            other => panic!("{other:?}"),
        }
    };
    assert!(open(&mut handler, "a", 1));
    assert!(open(&mut handler, "b", 2));
    assert!(!open(&mut handler, "a", 3));
    assert_eq!(handler.get_connection("a"), Some(&1));
    assert_eq!(handler.get_connection("b"), Some(&2));
    assert_eq!(handler.get_connection("c"), None);
    // A file that could not be removed keeps its connection.
    assert_eq!(handler.removed("a", false), json(r#"{"result": "error"}"#));
    assert_eq!(handler.get_connection("a"), Some(&1));
    assert_eq!(handler.removed("a", true), json(r#"{"result": "ok"}"#));
    assert_eq!(handler.get_connection("a"), None);
    assert_eq!(handler.get_connection("b"), Some(&2));
    assert!(open(&mut handler, "a", 4));
    assert_eq!(handler.get_connection("a"), Some(&4));
}

#[test]
fn failed_opening_is_a_query_error() {
    let mut handler: RequestHandler<u32> = RequestHandler::new(config(""));
    let req = r#"{"cmd":"QUERY","db":"a","query":"SELECT 1"}"#;
    let task = match handler.handle_request(req) {
        Step::LocateQuery(task) => task,
        other => panic!("{other:?}"),
    };
    let task = match handler.locate_query(task, &single(Found::Absent)) {
        Step::Open(task) => task,
        other => panic!("{other:?}"),
    };
    let err = SqliteError::Failure {
        extended_code: 14,
        message: Some("unable to open database file".to_string()),
        description: String::new(),
    };
    match handler.opened(task, Err(err)) {
        Step::Reply(reply) => {
            assert_eq!(reply.get("error_code"), Some(&whole(14)));
            assert_eq!(
                reply.get("error_message"),
                Some(&string("unable to open database file"))
            );
            assert_eq!(reply.get("query"), Some(&json(req)));
        }
        other => panic!("{other:?}"),
    }
    assert_eq!(handler.get_connection("a"), None);
}
