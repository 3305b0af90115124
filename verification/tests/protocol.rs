//! Conversations over the length-prefixed protocol, on in-memory databases.
use std::sync::Arc;

use rusqlite::types::ValueRef;
use rusqlite::Connection;
use sqlite_server::address::IpAddr;
use sqlite_server::config::{from_flags, Args, Config, Folder, Start};
use sqlite_server::connection::{handle, header_size, to_frame, Action, Event};
use sqlite_server::database::{DirEntry, Found, Location, PathPart};
use sqlite_server::handler::{executed, handle_list, locate_delete, RequestHandler, Step};
use sqlite_server::json::{Json, JsonNumber};
use sqlite_server::server::{run, ServerAction, ServerEvent};
use sqlite_server::sql::{ResultSet, SqlValue, SqliteError};
use serde_json::Value;

/// The files of a databases folder, each behind a shared in-memory database.
struct Files {
    tag: &'static str,
    names: Vec<String>,
}

impl Files {
    fn new(tag: &'static str) -> Files {
        Files { tag, names: Vec::new() }
    }

    fn locate(&self, name: &str) -> Location {
        if !self.names.iter().any(|n| n == name) {
            return single(Found::Absent);
        }
        let folder = vec![b"/".to_vec(), b"data".to_vec()];
        let mut target = folder.clone();
        target.push(name.as_bytes().to_vec());
        single(Found::Present { folder: Some(folder), target: Some(target) })
    }

    fn entries(&self) -> Vec<DirEntry> {
        let mut entries = vec![DirEntry { name: "backup".to_string(), is_file: false }];
        for name in &self.names {
            entries.push(DirEntry { name: name.clone(), is_file: true });
            entries.push(DirEntry { name: format!("{name}-wal"), is_file: true });
        }
        entries
    }

    fn open(&mut self, name: &str, setup: &str) -> Result<Connection, SqliteError> {
        let uri = format!("file:{}-{}?mode=memory&cache=shared", self.tag, name);
        let conn = Connection::open(uri).map_err(failure)?;
        conn.execute_batch(setup).map_err(failure)?;
        if !self.names.iter().any(|n| n == name) {
            self.names.push(name.to_string());
        }
        Ok(conn)
    }

    fn remove(&mut self, name: &str) -> bool {
        let before = self.names.len();
        self.names.retain(|n| n != name);
        self.names.len() < before
    }
}

/// Where a name leads that is a single path component.
fn single(found: Found) -> Location {
    Location { absolute: false, parts: vec![PathPart::Normal], found }
}

fn failure(err: rusqlite::Error) -> SqliteError {
    match err {
        rusqlite::Error::SqliteFailure(ffi_err, message) => SqliteError::Failure {
            extended_code: ffi_err.extended_code,
            message,
            description: ffi_err.to_string(),
        },
        other => SqliteError::Other { description: other.to_string() },
    }
}

fn execute(conn: &Connection, query: &str) -> Result<ResultSet, rusqlite::Error> {
    let mut stmt = conn.prepare(query)?;
    let columns: Vec<String> = stmt.column_names().map(|s| s.to_string()).collect();
    let mut out = Vec::new();
    let mut rows = stmt.query([])?;
    while let Some(row) = rows.next()? {
        let mut values = Vec::new();
        for i in 0..columns.len() {
            values.push(match row.get_ref(i)? {
                ValueRef::Null => SqlValue::Null,
                ValueRef::Integer(n) => SqlValue::Integer(n),
                ValueRef::Real(f) => SqlValue::Real(f.to_bits()),
                ValueRef::Text(bytes) => SqlValue::Text(bytes.to_vec()),
                ValueRef::Blob(bytes) => SqlValue::Blob(bytes.to_vec()),
            });
        }
        out.push(values);
    }
    Ok(ResultSet { columns, rows: out })
}

/// A server on an in-memory folder.
struct Server {
    config: Arc<Config>,
    files: Files,
}

/// A client's connection, with the bytes that it sent and has not had handled.
struct Client {
    handler: RequestHandler<Connection>,
    sent: Vec<u8>,
    open: bool,
}

impl Server {
    fn start(tag: &'static str, auth: &str, ip_whitelist: &str) -> Server {
        let args = Args {
            version: false,
            config: None,
            ip: "127.0.0.1".to_string(),
            port: 0,
            auth: auth.to_string(),
            ip_whitelist: ip_whitelist.to_string(),
            databases_folder: "/data".to_string(),
            workers: None,
            client_max_packet_size: 16 * 1024 * 1024,
            busy_timeout_ms: 5000,
        };
        let folder = Folder { start: Start::Absolute, exists: true };
        let config = Arc::new(from_flags(args, &None, Some(2), &folder).unwrap());
        Server { config, files: Files::new(tag) }
    }

    fn connect(&self) -> Client {
        let peer = IpAddr::parse("127.0.0.1").unwrap();
        Client {
            handler: RequestHandler::new(Arc::clone(&self.config)),
            sent: Vec::new(),
            open: matches!(run(&self.config, ServerEvent::Accepted(peer)), ServerAction::Serve),
        }
    }
}

fn to_value(json: &Json) -> Value {
    match json {
        Json::Null => Value::Null,
        Json::Bool(b) => Value::Bool(*b),
        Json::Number(JsonNumber::Unsigned(n)) => Value::from(*n),
        Json::Number(JsonNumber::Negative(n)) => Value::from(*n),
        Json::Number(JsonNumber::Float(bits)) => Value::from(f64::from_bits(*bits)),
        Json::Str(s) => Value::String(s.clone()),
        Json::Array(items) => Value::Array(items.iter().map(to_value).collect()),
        Json::Object(members) => {
            Value::Object(members.iter().map(|m| (m.0.clone(), to_value(&m.1))).collect())
        }
    }
}

fn answer(files: &mut Files, handler: &mut RequestHandler<Connection>, req: &str) -> Json {
    let mut step = handler.handle_request(req);
    loop {
        step = match step {
            Step::Reply(reply) => return reply,
            Step::ListFolder => return handle_list(&Some(files.entries())),
            Step::LocateQuery(task) => {
                let location = files.locate(&task.db);
                handler.locate_query(task, &location)
            }
            Step::LocateDelete(task) => {
                let location = files.locate(&task.db);
                locate_delete(task, &location)
            }
            Step::Open(task) => {
                let outcome = files.open(&task.db, &handler.connection_setup());
                handler.opened(task, outcome)
            }
            Step::Execute(task) => {
                let conn = handler.get_connection(&task.db).unwrap();
                let outcome = execute(conn, &task.query).map_err(failure);
                return executed(task, outcome);
            }
            Step::Remove(db) => {
                let removed = files.remove(&db);
                return handler.removed(&db, removed);
            }
        };
    }
}

/// Read what the client sent until a response is sent or the connection closes.
fn serve(server: &mut Server, client: &mut Client) -> Option<Vec<u8>> {
    if !client.open {
        return None;
    }
    let max = server.config.client_max_packet_size;
    let mut event = Event::Opened;
    loop {
        event = match handle(event, max) {
            Action::ReadHeader => {
                if client.sent.len() < 4 {
                    Event::ReadFailed
                } else {
                    let rest = client.sent.split_off(4);
                    let header: [u8; 4] = client.sent.as_slice().try_into().unwrap();
                    client.sent = rest;
                    Event::Header(header)
                }
            }
            Action::ReadBody(size) => {
                if client.sent.len() < size as usize {
                    Event::ReadFailed
                } else {
                    let rest = client.sent.split_off(size as usize);
                    let body = std::mem::replace(&mut client.sent, rest);
                    Event::Body(body)
                }
            }
            Action::Handle(request) => {
                let reply = answer(&mut server.files, &mut client.handler, &request);
                Event::Response(serde_json::to_string(&to_value(&reply)).ok())
            }
            Action::Send(bytes) => return Some(bytes),
            Action::Close(_) => {
                client.open = false;
                return None;
            }
        };
    }
}

/// Send one framed request and read one framed response.
fn call(server: &mut Server, client: &mut Client, body: &str) -> Value {
    client.sent.extend(to_frame(body.as_bytes()));
    let response = serve(server, client).expect("a response");
    let header: [u8; 4] = response[..4].try_into().unwrap();
    assert_eq!(header_size(&header) as usize, response.len() - 4);
    serde_json::from_slice(&response[4..]).unwrap()
}

fn json(text: &str) -> Value {
    serde_json::from_str(text).unwrap()
}

#[test]
fn full_protocol_flow() {
    let mut server = Server::start("flow", "", "");
    let mut conn = server.connect();

    // CREATE returns empty columns/data.
    let resp = call(
        &mut server,
        &mut conn,
        r#"{"cmd": "QUERY", "db": "test.db",
            "query": "CREATE TABLE users(id INTEGER, name TEXT, score REAL, data BLOB)"}"#,
    );
    assert_eq!(resp, json(r#"{"columns": [], "data": []}"#));

    // INSERT rows including a NULL, a float, and a blob literal.
    call(
        &mut server,
        &mut conn,
        r#"{"cmd": "QUERY", "db": "test.db",
            "query": "INSERT INTO users VALUES (1, 'Alice', 9.5, X'00ff'), (2, NULL, 3.0, NULL)"}"#,
    );

    // SELECT: columns preserve SELECT order; row objects carry typed values.
    let resp = call(
        &mut server,
        &mut conn,
        r#"{"cmd": "QUERY", "db": "test.db",
            "query": "SELECT id, name, score, data FROM users ORDER BY id"}"#,
    );
    assert_eq!(resp["columns"], json(r#"["id", "name", "score", "data"]"#));
    let rows = resp["data"].as_array().unwrap();
    assert_eq!(rows.len(), 2);
    assert_eq!(rows[0]["id"], json("1"));
    assert_eq!(rows[0]["name"], json(r#""Alice""#));
    assert_eq!(rows[0]["score"], json("9.5"));
    assert_eq!(rows[0]["data"], json(r#""X'00ff'""#)); // BLOB -> lowercase hex literal
    assert_eq!(rows[1]["name"], Value::Null); // NULL -> json null

    // LIST shows the database file (and not sidecars).
    let resp = call(&mut server, &mut conn, r#"{"cmd": "LIST"}"#);
    let list: Vec<String> = resp["list"]
        .as_array()
        .unwrap()
        .iter()
        .map(|v| v.as_str().unwrap().to_string())
        .collect();
    assert!(list.contains(&"test.db".to_string()));
    assert!(!list.iter().any(|n| n.ends_with("-wal")));

    // DELETE_DB removes it.
    let resp = call(&mut server, &mut conn, r#"{"cmd": "DELETE_DB", "db": "test.db"}"#);
    assert_eq!(resp, json(r#"{"result": "ok"}"#));
    let resp = call(&mut server, &mut conn, r#"{"cmd": "DELETE_DB", "db": "test.db"}"#);
    assert_eq!(resp, json(r#"{"result": "error"}"#)); // already gone
}

#[test]
fn error_responses() {
    let mut server = Server::start("responses", "", "");
    let mut conn = server.connect();

    // Invalid JSON that the key-repair regex cannot save.
    let resp = call(&mut server, &mut conn, "not json at all {{{");
    assert_eq!(resp["generic_error"], json("0")); // INVALID_FORMAT
    assert!(resp.get("message").is_some());

    // Missing cmd.
    let resp = call(&mut server, &mut conn, r#"{"db": "x"}"#);
    assert_eq!(resp["generic_error"], json("1")); // NO_COMMAND_SPECIFIED

    // Unknown command.
    let resp = call(&mut server, &mut conn, r#"{"cmd": "FROBNICATE"}"#);
    assert_eq!(resp["generic_error"], json("2")); // UNKNOWN_COMMAND

    // QUERY without db / without query.
    let resp = call(&mut server, &mut conn, r#"{"cmd": "QUERY", "query": "SELECT 1"}"#);
    assert_eq!(resp["generic_error"], json("3")); // NO_DATABASE_SPECIFIED
    let resp = call(&mut server, &mut conn, r#"{"cmd": "QUERY", "db": "ok.db"}"#);
    assert_eq!(resp["generic_error"], json("4")); // ERROR_READING_FROM_CLIENT

    // Path traversal is rejected.
    let resp = call(
        &mut server,
        &mut conn,
        r#"{"cmd": "QUERY", "db": "../escape.db", "query": "SELECT 1"}"#,
    );
    assert_eq!(resp["generic_error"], json("3")); // NO_DATABASE_SPECIFIED

    // SQL error carries the SQLite code + message and echoes the request.
    let resp = call(
        &mut server,
        &mut conn,
        r#"{"cmd": "QUERY", "db": "ok.db", "query": "SELECT * FROM ghosts"}"#,
    );
    assert_eq!(resp["error_code"], json("1")); // SQLITE_ERROR
    assert!(resp["error_message"]
        .as_str()
        .unwrap()
        .contains("no such table"));

    // Empty query -> SQLITE_MISUSE (21) "empty query".
    let resp = call(
        &mut server,
        &mut conn,
        r#"{"cmd": "QUERY", "db": "ok.db", "query": "   "}"#,
    );
    assert_eq!(resp["error_code"], json("21"));
    assert_eq!(resp["error_message"], json(r#""empty query""#));
}

#[test]
fn case_insensitive_and_key_repair() {
    let mut server = Server::start("repair", "", "");
    let mut conn = server.connect();

    // Command matched case-insensitively.
    let resp = call(&mut server, &mut conn, r#"{"cmd": "list"}"#);
    assert!(resp.get("list").is_some());

    // Unquoted keys repaired before parsing (SQLiteStudio style).
    let resp = call(&mut server, &mut conn, r#"{cmd:"LIST"}"#);
    assert!(resp.get("list").is_some());
}

#[test]
fn oversized_packet_closes_connection() {
    let mut server = Server::start("oversized", "", "");
    let mut conn = server.connect();

    // Claim a length larger than the default 16 MiB max; the server must close without
    // reading a body or sending a response.
    let oversized: u32 = 20 * 1024 * 1024;
    conn.sent.extend(oversized.to_le_bytes());
    assert!(serve(&mut server, &mut conn).is_none());
    assert!(!conn.open);

    match handle(Event::Header(oversized.to_le_bytes()), 16 * 1024 * 1024) {
        Action::Close(Some(line)) => {
            assert_eq!(line, "Client max allowed packet size reached: 20971520")
        }
        other => panic!("{other:?}"),
    }
    // The largest packet that is allowed is read.
    assert!(matches!(handle(Event::Header([0, 0, 0, 1]), 0x100_0000), Action::ReadBody(0x100_0000)));
}

#[test]
fn transaction_rollback_on_one_connection() {
    let mut server = Server::start("tx", "", "");
    let mut conn = server.connect();

    call(
        &mut server,
        &mut conn,
        r#"{"cmd":"QUERY","db":"tx.db","query":"CREATE TABLE t(id INTEGER)"}"#,
    );
    // Issued as separate requests on the same persistent connection.
    call(&mut server, &mut conn, r#"{"cmd":"QUERY","db":"tx.db","query":"BEGIN"}"#);
    call(
        &mut server,
        &mut conn,
        r#"{"cmd":"QUERY","db":"tx.db","query":"INSERT INTO t VALUES (1), (2)"}"#,
    );
    call(&mut server, &mut conn, r#"{"cmd":"QUERY","db":"tx.db","query":"ROLLBACK"}"#);

    let resp = call(
        &mut server,
        &mut conn,
        r#"{"cmd":"QUERY","db":"tx.db","query":"SELECT COUNT(*) AS n FROM t"}"#,
    );
    assert_eq!(resp["data"][0]["n"], json("0"));
}

#[test]
fn auth_required_handshake() {
    let mut server = Server::start("handshake", "s3cret", "");
    let mut conn = server.connect();

    // A command before authenticating is rejected.
    assert_eq!(
        call(&mut server, &mut conn, r#"{"cmd": "LIST"}"#),
        json(r#"{"result": "error"}"#)
    );
    // Wrong password is rejected.
    assert_eq!(
        call(&mut server, &mut conn, r#"{"auth": "nope"}"#),
        json(r#"{"result": "error"}"#)
    );
    // Correct password authenticates this connection.
    assert_eq!(
        call(&mut server, &mut conn, r#"{"auth": "s3cret"}"#),
        json(r#"{"result": "ok"}"#)
    );
    // Now commands work.
    assert!(call(&mut server, &mut conn, r#"{"cmd": "LIST"}"#)
        .get("list")
        .is_some());

    // Authentication is per-connection: a fresh socket must authenticate again.
    let mut conn2 = server.connect();
    assert_eq!(
        call(&mut server, &mut conn2, r#"{"cmd": "LIST"}"#),
        json(r#"{"result": "error"}"#)
    );
}

#[test]
fn ip_whitelist_allows_listed_peer() {
    let mut server = Server::start("listed", "", "127.0.0.1/32");
    let mut conn = server.connect();
    assert!(call(&mut server, &mut conn, r#"{"cmd": "LIST"}"#)
        .get("list")
        .is_some());
}

#[test]
fn ip_whitelist_rejects_other_peers() {
    // Whitelist a network that excludes localhost; the connection must be dropped at accept.
    let mut server = Server::start("others", "", "10.0.0.0/8");
    let mut conn = server.connect();
    conn.sent.extend(to_frame(br#"{"cmd": "LIST"}"#));
    assert!(serve(&mut server, &mut conn).is_none());
}

#[test]
fn two_connections_share_a_database_file() {
    let mut server = Server::start("shared", "", "");
    let mut writer = server.connect();
    let mut reader = server.connect();

    call(
        &mut server,
        &mut writer,
        r#"{"cmd":"QUERY","db":"shared.db","query":"CREATE TABLE s(v TEXT)"}"#,
    );
    // Autocommitted by the writer connection.
    call(
        &mut server,
        &mut writer,
        r#"{"cmd":"QUERY","db":"shared.db","query":"INSERT INTO s VALUES ('hello')"}"#,
    );

    // A separate connection (separate SQLite handle to the same file) sees it.
    let resp = call(
        &mut server,
        &mut reader,
        r#"{"cmd":"QUERY","db":"shared.db","query":"SELECT v FROM s"}"#,
    );
    assert_eq!(resp["data"][0]["v"], json(r#""hello""#));
}

#[test]
fn frames_carry_their_length() {
    assert_eq!(to_frame(b"{}"), vec![2, 0, 0, 0, b'{', b'}']);
    assert_eq!(to_frame(&[]), vec![0, 0, 0, 0]);
    assert_eq!(to_frame(&vec![7; 0x1_0203])[..5], [3, 2, 1, 0, 7]);
    assert_eq!(header_size(&[0x78, 0x56, 0x34, 0x12]), 0x1234_5678);
    assert_eq!(header_size(&[255; 4]), u32::MAX);
}

#[test]
fn messages_arrive_in_order() {
    let mut server = Server::start("order", "", "");
    let mut conn = server.connect();
    conn.sent.extend(to_frame(br#"{"cmd":"LIST"}"#));
    conn.sent.extend(to_frame(b"{}"));
    let first = serve(&mut server, &mut conn).unwrap();
    let second = serve(&mut server, &mut conn).unwrap();
    assert_eq!(first[4..], *br#"{"list":[]}"#);
    assert_eq!(second[4..], *br#"{"generic_error":1,"request":"{}"}"#);
    // The client has sent no more: the connection closes.
    assert!(serve(&mut server, &mut conn).is_none());
}

#[test]
fn conversation_edges() {
    // Bytes that are not UTF-8 are replaced.
    match handle(Event::Body(vec![b'a', 0xff, 0xc5, 0xbe]), 9) {
        Action::Handle(request) => assert_eq!(request, "a\u{fffd}\u{17e}"),
        other => panic!("{other:?}"),
    }
    match handle(Event::Response(None), 9) {
        Action::Send(bytes) => assert_eq!(bytes, vec![2, 0, 0, 0, b'{', b'}']),
        other => panic!("{other:?}"),
    }
    match handle(Event::Response(Some("\u{17e}".to_string())), 9) {
        Action::Send(bytes) => assert_eq!(bytes, vec![2, 0, 0, 0, 0xc5, 0xbe]),
        other => panic!("{other:?}"),
    }
    assert!(matches!(handle(Event::Sent, 9), Action::ReadHeader));
    assert!(matches!(handle(Event::ReadFailed, 9), Action::Close(None)));
    assert!(matches!(handle(Event::Header([9, 0, 0, 0]), 9), Action::ReadBody(9)));
    assert!(matches!(handle(Event::Header([10, 0, 0, 0]), 9), Action::Close(Some(_))));
}
