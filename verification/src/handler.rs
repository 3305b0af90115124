//! Requests: reading them, the password gate, and carrying out commands step
//! by step, with a cache of open database connections.
use std::sync::Arc;
use vstd::prelude::*;

use crate::config::{Config, ConfigView};
use crate::database;
use crate::database::{DirEntry, Location};
use crate::json;
use crate::json::{Json, JsonNumber, JsonView};
use crate::sql;
use crate::sql::{ResultSet, SqliteError};
use crate::text;

verus! {

// ---------------------------------------------------------------------------
// Reading a request
// ---------------------------------------------------------------------------
/// What `regex::Regex::replace_all` makes of a text, for the regular expression
/// of a pattern and a replacement that may refer to its groups.
pub uninterp spec fn regex_replaced(
    pattern: Seq<char>,
    text: Seq<char>,
    replacement: Seq<char>,
) -> Seq<char>;

/// The pattern of an object's key: letters and digits, perhaps in quotation
/// marks of either kind, and a colon.
pub open spec fn key_pattern() -> Seq<char> {
    "(['\"])?([a-zA-Z0-9]+)(['\"])?:"@
}

/// What replaces a key: the key in double quotation marks, and the colon.
pub open spec fn key_replacement() -> Seq<char> {
    "\"${2}\":"@
}

/// A request with its keys in double quotation marks.
pub open spec fn repaired(req: Seq<char>) -> Seq<char> {
    regex_replaced(key_pattern(), req, key_replacement())
}

/// The value of a request, given what is read from its text and, where that
/// fails, from the repaired text.
pub open spec fn first_value(
    plain: Result<JsonView, Seq<char>>,
    second: Result<JsonView, Seq<char>>,
) -> Result<JsonView, Seq<char>> {
    if plain is Ok {
        plain
    } else {
        second
    }
}

/// The value of a request: what its text says as JSON, else what the repaired
/// text says, else the message of the second failure.
pub open spec fn request_value(req: Seq<char>) -> Result<JsonView, Seq<char>> {
    first_value(json::json_text(req), json::json_text(repaired(req)))
}

/// What was read of a request, with its texts as sequences.
pub open spec fn value_view(value: Result<Json, String>) -> Result<JsonView, Seq<char>> {
    match value {
        Ok(json) => Ok(json@),
        Err(message) => Err(message@),
    }
}

/// Calls `regex::Regex::new` on the pattern and `Regex::replace_all` on the
/// text. The result is a function of the three texts, named `regex_replaced`.
/// The pattern has to be one that compiles: it is the pattern of a key.
#[verifier::external_body]
fn replace_all(pattern: &str, text: &str, replacement: &str) -> (r: String)
    requires
        pattern@ == key_pattern(),
    ensures
        r@ == regex_replaced(pattern@, text@, replacement@),
{
    regex::Regex::new(pattern).unwrap().replace_all(text, replacement).into_owned()
}

/// Parse a request, repairing lightly-malformed JSON with unquoted keys (e.g.
/// `{cmd:"LIST"}`) before a second parse attempt.
pub fn parse_request(req: &str) -> (r: Result<Json, String>)
    ensures
        value_view(r) == request_value(req@),
        r matches Ok(value) ==> value@.ordered(),
{
    if let Ok(value) = json::parse_json(req) {
        return Ok(value);
    }
    let repaired_text: String = replace_all(
        "(['\"])?([a-zA-Z0-9]+)(['\"])?:",
        req,
        "\"${2}\":",
    );
    json::parse_json(&repaired_text)
}

// ---------------------------------------------------------------------------
// Replies
// ---------------------------------------------------------------------------
/// The request is not JSON.
pub const INVALID_FORMAT: u64 = 0;

/// The request names no command.
pub const NO_COMMAND_SPECIFIED: u64 = 1;

/// The request's command is not known.
pub const UNKNOWN_COMMAND: u64 = 2;

/// The request names no database, or one that is not safe.
pub const NO_DATABASE_SPECIFIED: u64 = 3;

/// The request has no query.
pub const ERROR_READING_FROM_CLIENT: u64 = 4;

/// A number that is not negative.
pub open spec fn number(n: u64) -> JsonView {
    JsonView::Number(JsonNumber::Unsigned(n))
}

/// The reply to a text that is not JSON.
pub open spec fn format_error(message: Seq<char>, req: Seq<char>) -> JsonView {
    JsonView::Object(
        seq![
            ("generic_error"@, number(INVALID_FORMAT)),
            ("message"@, JsonView::Str(message)),
            ("request"@, JsonView::Str(req)),
        ],
    )
}

/// The reply to a request that cannot be carried out as it stands.
pub open spec fn generic_error(code: u64, request: JsonView) -> JsonView {
    JsonView::Object(seq![("generic_error"@, number(code)), ("request"@, request)])
}

/// The reply to a query that failed.
pub open spec fn sql_error(code: i64, message: Seq<char>, request: JsonView) -> JsonView {
    JsonView::Object(
        seq![
            ("error_code"@, sql::integer(code)),
            ("error_message"@, JsonView::Str(message)),
            ("query"@, request),
        ],
    )
}

/// The reply that says whether something was done.
pub open spec fn result_reply(ok: bool) -> JsonView {
    JsonView::Object(
        seq![
            (
                "result"@,
                JsonView::Str(
                    if ok {
                        "ok"@
                    } else {
                        "error"@
                    },
                ),
            ),
        ],
    )
}

/// The reply that lists databases.
pub open spec fn list_reply(names: Seq<Seq<char>>) -> JsonView {
    JsonView::Object(seq![("list"@, sql::text_array(names))])
}

/// The reply to a query: its result, or its error.
pub open spec fn query_reply(
    outcome: Result<ResultSet, SqliteError>,
    request: JsonView,
) -> JsonView {
    match outcome {
        Ok(result) => sql::result_json(
            text::strings(result.columns@),
            sql::rows_views(result.rows@),
        ),
        Err(err) => failure_reply(err, request),
    }
}

/// The reply to a query that the database layer refused.
pub open spec fn failure_reply(err: SqliteError, request: JsonView) -> JsonView {
    sql_error(sql::error_view(err).code as i64, sql::error_view(err).message, request)
}

fn generic_error_json(code: u64, request: Json) -> (r: Json)
    ensures
        r@ == generic_error(code, request@),
{
    json::object2(
        "generic_error",
        Json::Number(JsonNumber::Unsigned(code)),
        "request",
        request,
    )
}

fn sql_error_json(code: i64, message: String, request: Json) -> (r: Json)
    ensures
        r@ == sql_error(code, message@, request@),
{
    json::object3(
        "error_code",
        sql::integer_json(code),
        "error_message",
        Json::Str(message),
        "query",
        request,
    )
}

fn failure_json(err: SqliteError, request: Json) -> (r: Json)
    ensures
        r@ == failure_reply(err, request@),
{
    let (code, message): (i64, String) = sql::map_sqlite_err(err);
    sql_error_json(code, message, request)
}

fn result_json(ok: bool) -> (r: Json)
    ensures
        r@ == result_reply(ok),
{
    let text: &str = if ok {
        "ok"
    } else {
        "error"
    };
    json::object1("result", Json::Str(text.to_owned()))
}

// ---------------------------------------------------------------------------
// Steps
// ---------------------------------------------------------------------------
/// A query on a database, with the request that asked for it.
#[derive(Debug)]
pub struct QueryTask {
    pub db: String,
    pub query: String,
    pub request: Json,
}

/// A database to be deleted, with the request that asked for it.
#[derive(Debug)]
pub struct DeleteTask {
    pub db: String,
    pub request: Json,
}

/// The next step of carrying out a request: send a reply; read the databases
/// folder; see where the database's name leads before it is queried or
/// deleted; open the database's file and run the query; run the query on the
/// connection that is open; or remove the database's file.
#[derive(Debug)]
pub enum Step {
    Reply(Json),
    ListFolder,
    LocateQuery(QueryTask),
    LocateDelete(DeleteTask),
    Open(QueryTask),
    Execute(QueryTask),
    Remove(String),
}

/// A query with its texts as sequences.
pub struct QueryView {
    pub db: Seq<char>,
    pub query: Seq<char>,
    pub request: JsonView,
}

/// A step with its texts as sequences.
pub enum StepView {
    Reply(JsonView),
    ListFolder,
    LocateQuery(QueryView),
    LocateDelete { db: Seq<char>, request: JsonView },
    Open(QueryView),
    Execute(QueryView),
    Remove(Seq<char>),
}

impl View for QueryTask {
    type V = QueryView;

    open spec fn view(&self) -> QueryView {
        QueryView { db: self.db@, query: self.query@, request: self.request@ }
    }
}

impl View for Step {
    type V = StepView;

    open spec fn view(&self) -> StepView {
        match self {
            Step::Reply(reply) => StepView::Reply(reply@),
            Step::ListFolder => StepView::ListFolder,
            Step::LocateQuery(task) => StepView::LocateQuery(task@),
            Step::LocateDelete(task) => StepView::LocateDelete {
                db: task.db@,
                request: task.request@,
            },
            Step::Open(task) => StepView::Open(task@),
            Step::Execute(task) => StepView::Execute(task@),
            Step::Remove(db) => StepView::Remove(db@),
        }
    }
}

/// The commands.
pub enum Command {
    Query,
    List,
    DeleteDb,
}

/// The command of a word, in whatever case it is written.
pub open spec fn command_of(word: Seq<char>) -> Option<Command> {
    if text::same_ignoring_case(word, "QUERY"@) {
        Some(Command::Query)
    } else if text::same_ignoring_case(word, "LIST"@) {
        Some(Command::List)
    } else if text::same_ignoring_case(word, "DELETE_DB"@) {
        Some(Command::DeleteDb)
    } else {
        None
    }
}

/// The first step of a query: a database and a query have to be given, and the
/// database's name has to be a plain file name.
pub open spec fn query_step(json: JsonView) -> StepView {
    match (json.get_str("db"@), json.get_str("query"@)) {
        (None, _) => StepView::Reply(generic_error(NO_DATABASE_SPECIFIED, json)),
        (Some(_), None) => StepView::Reply(generic_error(ERROR_READING_FROM_CLIENT, json)),
        (Some(db), Some(query)) => if database::plain_file_name(db) {
            StepView::LocateQuery(QueryView { db, query, request: json })
        } else {
            StepView::Reply(generic_error(NO_DATABASE_SPECIFIED, json))
        },
    }
}

/// The first step of a deletion: a database has to be given, and its name has
/// to be a plain file name.
pub open spec fn delete_step(json: JsonView) -> StepView {
    match json.get_str("db"@) {
        Some(db) if database::plain_file_name(db) => StepView::LocateDelete { db, request: json },
        _ => StepView::Reply(generic_error(NO_DATABASE_SPECIFIED, json)),
    }
}

/// The first step of a command. Where there is none that is known, the reply
/// echoes the request's text.
pub open spec fn command_step(req: Seq<char>, json: JsonView) -> StepView {
    match json.get_str("cmd"@) {
        None => StepView::Reply(generic_error(NO_COMMAND_SPECIFIED, JsonView::Str(req))),
        Some(word) => match command_of(word) {
            Some(Command::Query) => query_step(json),
            Some(Command::List) => StepView::ListFolder,
            Some(Command::DeleteDb) => delete_step(json),
            None => StepView::Reply(generic_error(UNKNOWN_COMMAND, JsonView::Str(req))),
        },
    }
}

/// Whether a value carries the password.
pub open spec fn carries(json: JsonView, password: Seq<char>) -> bool {
    json.get_str("auth"@) == Some(password)
}

/// What a connection's handler knows: the configuration, whether the client
/// has authenticated, and the open database connections by their names.
pub struct SessionView<C> {
    pub config: ConfigView,
    pub authenticated: bool,
    pub databases: Map<Seq<char>, C>,
}

/// Whether the client has authenticated once the value of a request is known.
pub open spec fn authenticated_by(
    password: Seq<char>,
    authenticated: bool,
    value: Result<JsonView, Seq<char>>,
) -> bool {
    authenticated || (password.len() > 0 && value is Ok && carries(value->Ok_0, password))
}

/// The first step of a request, given its value. Where a password is
/// configured, a request that carries it is answered at once, and any other is
/// refused unless the client has authenticated.
pub open spec fn first_step(
    password: Seq<char>,
    authenticated: bool,
    req: Seq<char>,
    value: Result<JsonView, Seq<char>>,
) -> StepView {
    match value {
        Err(message) => StepView::Reply(format_error(message, req)),
        Ok(json) => if password.len() > 0 && carries(json, password) {
            StepView::Reply(result_reply(true))
        } else if password.len() > 0 && !authenticated {
            StepView::Reply(result_reply(false))
        } else {
            command_step(req, json)
        },
    }
}

/// Whether a query says nothing.
pub open spec fn blank(query: Seq<char>) -> bool {
    text::trimmed(query).len() == 0
}

/// The step of a query on a safe name: an empty query is an error, another one
/// runs on the open connection, where there is one.
pub open spec fn run_step(open: bool, task: QueryView) -> StepView {
    if blank(task.query) {
        StepView::Reply(sql_error(sql::SQLITE_MISUSE, "empty query"@, task.request))
    } else if open {
        StepView::Execute(task)
    } else {
        StepView::Open(task)
    }
}

/// The step of a query once it is known where the name leads.
pub open spec fn located_query(open: bool, task: QueryView, location: Location) -> StepView {
    if database::safe_database_name(task.db, location) {
        run_step(open, task)
    } else {
        StepView::Reply(generic_error(NO_DATABASE_SPECIFIED, task.request))
    }
}

/// The step of a deletion once it is known where the name leads.
pub open spec fn located_delete(
    db: Seq<char>,
    request: JsonView,
    location: Location,
) -> StepView {
    if database::safe_database_name(db, location) {
        StepView::Remove(db)
    } else {
        StepView::Reply(generic_error(NO_DATABASE_SPECIFIED, request))
    }
}

// ---------------------------------------------------------------------------
// The handler
// ---------------------------------------------------------------------------
/// The connections of a cache by their names, a later one before an earlier.
spec fn by_name<C>(cache: Seq<(String, C)>) -> Map<Seq<char>, C>
    decreases cache.len(),
{
    if cache.len() == 0 {
        Map::empty()
    } else {
        by_name(cache.drop_last()).insert(cache.last().0@, cache.last().1)
    }
}

proof fn lemma_by_name_absent<C>(cache: Seq<(String, C)>, name: Seq<char>)
    requires
        forall|i: int| 0 <= i < cache.len() ==> (#[trigger] cache[i]).0@ != name,
    ensures
        !by_name(cache).contains_key(name),
    decreases cache.len(),
{
    if cache.len() > 0 {
        lemma_by_name_absent(cache.drop_last(), name);
    }
}

/// Taking out an entry changes nothing for other names.
proof fn lemma_by_name_remove<C>(cache: Seq<(String, C)>, i: int)
    requires
        0 <= i < cache.len(),
    ensures
        by_name(cache.remove(i)).remove(cache[i].0@) =~= by_name(cache).remove(cache[i].0@),
    decreases cache.len(),
{
    if i == cache.len() - 1 {
        assert(cache.remove(i) =~= cache.drop_last());
    } else {
        lemma_by_name_remove(cache.drop_last(), i);
        assert(cache.remove(i).drop_last() =~= cache.drop_last().remove(i));
        assert(cache.remove(i).last() == cache.last());
        let name = cache[i].0@;
        let kept = by_name(cache.drop_last().remove(i));
        let all = by_name(cache.drop_last());
        let (key, conn) = (cache.last().0@, cache.last().1);
        assert(by_name(cache.remove(i)) == kept.insert(key, conn));
        assert(by_name(cache) == all.insert(key, conn));
        if key == name {
            assert(kept.insert(key, conn).remove(name) =~= kept.remove(name));
            assert(all.insert(key, conn).remove(name) =~= all.remove(name));
        } else {
            assert(kept.insert(key, conn).remove(name) =~= kept.remove(name).insert(key, conn));
            assert(all.insert(key, conn).remove(name) =~= all.remove(name).insert(key, conn));
        }
    }
}

/// Parses requests and dispatches commands. Holds a per-connection cache of
/// open database connections keyed by database name.
pub struct RequestHandler<C> {
    config: Arc<Config>,
    databases: Vec<(String, C)>,
    /// Whether this connection has authenticated (only relevant when a password
    /// is configured).
    authenticated: bool,
}

impl<C> View for RequestHandler<C> {
    type V = SessionView<C>;

    closed spec fn view(&self) -> SessionView<C> {
        SessionView {
            config: (*self.config)@,
            authenticated: self.authenticated,
            databases: by_name(self.databases@),
        }
    }
}

impl<C> RequestHandler<C> {
    /// A handler for a new connection.
    pub fn new(config: Arc<Config>) -> (handler: Self)
        ensures
            handler@ == (SessionView::<C> {
                config: (*config)@,
                authenticated: false,
                databases: Map::empty(),
            }),
    {
        RequestHandler { config, databases: Vec::new(), authenticated: false }
    }

    /// Begin a request: read it, and take its first step.
    pub fn handle_request(&mut self, req: &str) -> (step: Step)
        ensures
            final(self)@ == (SessionView::<C> {
                authenticated: authenticated_by(
                    old(self)@.config.auth,
                    old(self)@.authenticated,
                    request_value(req@),
                ),
                ..old(self)@
            }),
            step@ == first_step(
                old(self)@.config.auth,
                old(self)@.authenticated,
                req@,
                request_value(req@),
            ),
    {
        let value: Result<Json, String> = parse_request(req);
        self.handle_value(req, value)
    }

    /// Take a request's first step, given what was read of it.
    pub fn handle_value(&mut self, req: &str, value: Result<Json, String>) -> (step: Step)
        ensures
            final(self)@ == (SessionView::<C> {
                authenticated: authenticated_by(
                    old(self)@.config.auth,
                    old(self)@.authenticated,
                    value_view(value),
                ),
                ..old(self)@
            }),
            step@ == first_step(
                old(self)@.config.auth,
                old(self)@.authenticated,
                req@,
                value_view(value),
            ),
    {
        let json: Json = match value {
            Ok(json) => json,
            Err(message) => {
                return Step::Reply(
                    json::object3(
                        "generic_error",
                        Json::Number(JsonNumber::Unsigned(INVALID_FORMAT)),
                        "message",
                        Json::Str(message),
                        "request",
                        Json::Str(req.to_owned()),
                    ),
                );
            },
        };
        if !self.config.auth.as_str().is_empty() {
            if let Some(auth) = json.get_str("auth") {
                if text::same_text(auth, self.config.auth.as_str()) {
                    self.authenticated = true;
                    return Step::Reply(result_json(true));
                }
            }
            if !self.authenticated {
                return Step::Reply(result_json(false));
            }
        }
        dispatch(req, json)
    }
}

/// The first step of a command.
fn dispatch(req: &str, json: Json) -> (step: Step)
    ensures
        step@ == command_step(req@, json@),
{
    let command: Option<Command> = match json.get_str("cmd") {
        Some(word) => if text::eq_ignore_case(word, "QUERY") {
            Some(Command::Query)
        } else if text::eq_ignore_case(word, "LIST") {
            Some(Command::List)
        } else if text::eq_ignore_case(word, "DELETE_DB") {
            Some(Command::DeleteDb)
        } else {
            None
        },
        None => return Step::Reply(
            generic_error_json(NO_COMMAND_SPECIFIED, Json::Str(req.to_owned())),
        ),
    };
    match command {
        Some(Command::Query) => handle_query(json),
        Some(Command::List) => Step::ListFolder,
        Some(Command::DeleteDb) => handle_delete_db(json),
        None => Step::Reply(generic_error_json(UNKNOWN_COMMAND, Json::Str(req.to_owned()))),
    }
}

/// The first step of a query.
fn handle_query(json: Json) -> (step: Step)
    ensures
        step@ == query_step(json@),
{
    let db: String = match json.get_str("db") {
        Some(db) => db.to_owned(),
        None => return Step::Reply(generic_error_json(NO_DATABASE_SPECIFIED, json)),
    };
    let query: String = match json.get_str("query") {
        Some(query) => query.to_owned(),
        None => return Step::Reply(generic_error_json(ERROR_READING_FROM_CLIENT, json)),
    };
    if !database::is_plain_file_name(&db) {
        return Step::Reply(generic_error_json(NO_DATABASE_SPECIFIED, json));
    }
    Step::LocateQuery(QueryTask { db, query, request: json })
}

/// The first step of a deletion.
fn handle_delete_db(json: Json) -> (step: Step)
    ensures
        step@ == delete_step(json@),
{
    let db: String = match json.get_str("db") {
        Some(db) => db.to_owned(),
        None => return Step::Reply(generic_error_json(NO_DATABASE_SPECIFIED, json)),
    };
    if !database::is_plain_file_name(&db) {
        return Step::Reply(generic_error_json(NO_DATABASE_SPECIFIED, json));
    }
    Step::LocateDelete(DeleteTask { db, request: json })
}

/// The reply to a listing. A folder that could not be read counts as empty.
pub fn handle_list(entries: &Option<Vec<DirEntry>>) -> (reply: Json)
    ensures
        reply@ == list_reply(
            match entries {
                Some(found) => database::database_names(found@),
                None => Seq::empty(),
            },
        ),
{
    let names: Vec<String> = match entries {
        Some(found) => database::list_databases(found),
        None => Vec::new(),
    };
    proof {
        assert(entries is None ==> text::strings(names@) =~= Seq::<Seq<char>>::empty());
    }
    json::object1("list", sql::texts_to_json(&names))
}

/// Go on with a deletion, once it is known where the name leads.
pub fn locate_delete(task: DeleteTask, location: &Location) -> (step: Step)
    ensures
        step@ == located_delete(task.db@, task.request@, *location),
{
    if !database::is_safe_database_name(&task.db, location) {
        return Step::Reply(generic_error_json(NO_DATABASE_SPECIFIED, task.request));
    }
    Step::Remove(task.db)
}

/// The reply to a query that ran or failed.
pub fn executed(task: QueryTask, outcome: Result<ResultSet, SqliteError>) -> (reply: Json)
    ensures
        reply@ == query_reply(outcome, task.request@),
{
    match outcome {
        Ok(result) => sql::result_to_json(&result),
        Err(err) => failure_json(err, task.request),
    }
}

impl<C> RequestHandler<C> {
    /// The cached connection for `db`.
    pub fn get_connection(&self, db: &str) -> (r: Option<&C>)
        ensures
            match r {
                Some(conn) => self@.databases.contains_key(db@) && self@.databases[db@] == *conn,
                None => !self@.databases.contains_key(db@),
            },
    {
        let mut n: usize = self.databases.len();
        proof {
            assert(self.databases@.take(n as int) =~= self.databases@);
        }
        while n > 0
            invariant
                n <= self.databases.len(),
                self@.databases == by_name(self.databases@),
                by_name(self.databases@).contains_key(db@) == by_name(
                    self.databases@.take(n as int),
                ).contains_key(db@),
                by_name(self.databases@)[db@] == by_name(self.databases@.take(n as int))[db@],
            decreases n,
        {
            proof {
                assert(self.databases@.take(n as int).drop_last() =~= self.databases@.take(n - 1));
            }
            if text::same_text(&self.databases[n - 1].0, db) {
                return Some(&self.databases[n - 1].1);
            }
            n = n - 1;
        }
        None
    }

    /// Go on with a query, once it is known where the name leads.
    pub fn locate_query(&self, task: QueryTask, location: &Location) -> (step: Step)
        ensures
            step@ == located_query(
                self@.databases.contains_key(task.db@),
                task@,
                *location,
            ),
    {
        if !database::is_safe_database_name(&task.db, location) {
            return Step::Reply(generic_error_json(NO_DATABASE_SPECIFIED, task.request));
        }
        self.run_query(task)
    }

    /// Run a query on the open connection, or open one first. An empty or
    /// whitespace-only query compiles to no statement and is an error.
    fn run_query(&self, task: QueryTask) -> (step: Step)
        ensures
            step@ == run_step(self@.databases.contains_key(task.db@), task@),
    {
        let chars: Vec<char> = text::to_chars(&task.query);
        if text::trim(&chars).len() == 0 {
            return Step::Reply(
                sql_error_json(sql::SQLITE_MISUSE, "empty query".to_owned(), task.request),
            );
        }
        match self.get_connection(&task.db) {
            Some(_) => Step::Execute(task),
            None => Step::Open(task),
        }
    }

    /// What is executed on a connection that was just opened. WAL lets readers
    /// and a writer work concurrently, the busy timeout makes a connection wait
    /// for a lock, and `synchronous=NORMAL` is the safe, faster companion to
    /// WAL.
    pub fn connection_setup(&self) -> (r: String)
        ensures
            r@ == "PRAGMA journal_mode=WAL; PRAGMA busy_timeout="@ + text::decimal(
                self@.config.busy_timeout_ms as nat,
            ) + "; PRAGMA synchronous=NORMAL;"@,
    {
        let timeout: String = text::decimal_string(self.config.busy_timeout_ms);
        text::joined3(
            "PRAGMA journal_mode=WAL; PRAGMA busy_timeout=",
            &timeout,
            "; PRAGMA synchronous=NORMAL;",
        )
    }

    /// Go on with a query, once its database's file was opened and set up or
    /// that failed. A connection is kept for later requests.
    pub fn opened(&mut self, task: QueryTask, outcome: Result<C, SqliteError>) -> (step: Step)
        ensures
            match outcome {
                Ok(conn) => {
                    &&& final(self)@ == (SessionView::<C> {
                        databases: old(self)@.databases.insert(task.db@, conn),
                        ..old(self)@
                    })
                    &&& step@ == StepView::Execute(task@)
                },
                Err(err) => {
                    &&& final(self)@ == old(self)@
                    &&& step@ == StepView::Reply(failure_reply(err, task.request@))
                },
            },
    {
        match outcome {
            Ok(conn) => {
                self.forget(&task.db);
                let ghost kept = self.databases@;
                self.databases.push((task.db.clone(), conn));
                proof {
                    assert(self.databases@.drop_last() =~= kept);
                    assert(self@.databases =~= old(self)@.databases.insert(task.db@, conn));
                }
                Step::Execute(task)
            },
            Err(err) => Step::Reply(failure_json(err, task.request)),
        }
    }

    /// Drop the cached connections for `db`.
    fn forget(&mut self, db: &str)
        ensures
            final(self)@ == (SessionView::<C> {
                databases: old(self)@.databases.remove(db@),
                ..old(self)@
            }),
    {
        let mut i: usize = 0;
        while i < self.databases.len()
            invariant
                i <= self.databases.len(),
                self.config == old(self).config,
                self.authenticated == old(self).authenticated,
                by_name(self.databases@).remove(db@) == by_name(old(self).databases@).remove(db@),
                forall|j: int| 0 <= j < i ==> (#[trigger] self.databases@[j]).0@ != db@,
            decreases self.databases.len() - i,
        {
            if text::same_text(&self.databases[i].0, db) {
                proof {
                    lemma_by_name_remove(self.databases@, i as int);
                }
                self.databases.remove(i);
            } else {
                i = i + 1;
            }
        }
        proof {
            lemma_by_name_absent(self.databases@, db@);
            assert(by_name(self.databases@).remove(db@) =~= by_name(self.databases@));
        }
    }

    /// The reply to a deletion, once the database's file was removed or could
    /// not be. A removed database's connection is dropped.
    pub fn removed(&mut self, db: &str, removed: bool) -> (reply: Json)
        ensures
            final(self)@ == (SessionView::<C> {
                databases: if removed {
                    old(self)@.databases.remove(db@)
                } else {
                    old(self)@.databases
                },
                ..old(self)@
            }),
            reply@ == result_reply(removed),
    {
        if removed {
            self.forget(db);
        }
        result_json(removed)
    }
}

// ---------------------------------------------------------------------------
// Laws of the password gate
// ---------------------------------------------------------------------------
/// Whether the client has authenticated after a series of requests on a new
/// connection, given their values.
pub open spec fn authenticated_after(
    password: Seq<char>,
    values: Seq<Result<JsonView, Seq<char>>>,
) -> bool
    decreases values.len(),
{
    if values.len() == 0 {
        false
    } else {
        authenticated_by(
            password,
            authenticated_after(password, values.drop_last()),
            values.last(),
        )
    }
}

/// Whether one of the requests carries the password.
pub open spec fn password_given(
    password: Seq<char>,
    values: Seq<Result<JsonView, Seq<char>>>,
) -> bool {
    exists|i: int|
        0 <= i < values.len() && (#[trigger] values[i]) is Ok && carries(
            values[i]->Ok_0,
            password,
        )
}

/// A client that has not authenticated gets no further: a request is answered
/// with whether it carries the password, and it authenticates exactly then.
pub proof fn gate_refuses(password: Seq<char>, req: Seq<char>, json: JsonView)
    requires
        password.len() > 0,
    ensures
        first_step(password, false, req, Ok(json)) == StepView::Reply(
            result_reply(carries(json, password)),
        ),
        authenticated_by(password, false, Ok(json)) == carries(json, password),
{
}

/// A client that has authenticated stays so, and its requests are carried out,
/// but for those that carry the password again: they are answered with ok.
pub proof fn gate_stays_open(password: Seq<char>, req: Seq<char>, json: JsonView)
    ensures
        authenticated_by(password, true, Ok(json)),
        password.len() > 0 && carries(json, password) ==> first_step(password, true, req, Ok(json))
            == StepView::Reply(result_reply(true)),
        !(password.len() > 0 && carries(json, password)) ==> first_step(
            password,
            true,
            req,
            Ok(json),
        ) == command_step(req, json),
{
}

/// Without a password every request is carried out, and none authenticates.
pub proof fn no_password_no_gate(authenticated: bool, req: Seq<char>, json: JsonView)
    ensures
        first_step(Seq::empty(), authenticated, req, Ok(json)) == command_step(req, json),
        authenticated_by(Seq::empty(), authenticated, Ok(json)) == authenticated,
{
}

/// A text that is no JSON is answered in the same way whoever sends it, and
/// does not authenticate.
pub proof fn invalid_format_passes_no_gate(
    password: Seq<char>,
    authenticated: bool,
    req: Seq<char>,
    message: Seq<char>,
)
    ensures
        first_step(password, authenticated, req, Err(message)) == StepView::Reply(
            format_error(message, req),
        ),
        authenticated_by(password, authenticated, Err(message)) == authenticated,
{
}

/// A client has authenticated exactly where a password is configured and one of
/// its requests carried it.
pub proof fn authenticated_iff_password_given(
    password: Seq<char>,
    values: Seq<Result<JsonView, Seq<char>>>,
)
    ensures
        authenticated_after(password, values) <==> password.len() > 0 && password_given(
            password,
            values,
        ),
    decreases values.len(),
{
    if values.len() > 0 {
        let earlier = values.drop_last();
        authenticated_iff_password_given(password, earlier);
        if password_given(password, earlier) {
            let i = choose|i: int|
                0 <= i < earlier.len() && (#[trigger] earlier[i]) is Ok && carries(
                    earlier[i]->Ok_0,
                    password,
                );
            assert(values[i] == earlier[i]);
        }
        if password_given(password, values) {
            let i = choose|i: int|
                0 <= i < values.len() && (#[trigger] values[i]) is Ok && carries(
                    values[i]->Ok_0,
                    password,
                );
            if i < earlier.len() {
                assert(earlier[i] == values[i]);
            }
        }
        if values.last() is Ok && carries(values.last()->Ok_0, password) {
            assert(values[values.len() - 1] is Ok);
        }
    }
}

/// As long as no request on a connection carried the password, each is refused.
pub proof fn commands_wait_for_the_password(
    password: Seq<char>,
    values: Seq<Result<JsonView, Seq<char>>>,
    req: Seq<char>,
    json: JsonView,
)
    requires
        password.len() > 0,
        !password_given(password, values),
        !carries(json, password),
    ensures
        first_step(password, authenticated_after(password, values), req, Ok(json))
            == StepView::Reply(result_reply(false)),
{
    authenticated_iff_password_given(password, values);
}

// ---------------------------------------------------------------------------
// Laws of commands
// ---------------------------------------------------------------------------
/// A request that is JSON is taken as it stands; only another one is repaired.
pub proof fn valid_requests_are_not_repaired(req: Seq<char>)
    ensures
        json::json_text(req) is Ok ==> request_value(req) == json::json_text(req),
        json::json_text(req) is Err ==> request_value(req) == json::json_text(repaired(req)),
{
}

/// The case of a command's letters does not matter.
pub proof fn command_case_is_ignored(a: Seq<char>, b: Seq<char>)
    requires
        text::same_ignoring_case(a, b),
    ensures
        command_of(a) == command_of(b),
{
    assert forall|word: Seq<char>| #[trigger]
        text::same_ignoring_case(a, word) == text::same_ignoring_case(b, word) by {
        if text::same_ignoring_case(a, word) {
            assert forall|i: int| 0 <= i < b.len() implies text::ascii_lower(#[trigger] b[i])
                == text::ascii_lower(word[i]) by {
                assert(text::ascii_lower(a[i]) == text::ascii_lower(b[i]));
            }
        }
        if text::same_ignoring_case(b, word) {
            assert forall|i: int| 0 <= i < a.len() implies text::ascii_lower(#[trigger] a[i])
                == text::ascii_lower(word[i]) by {
                assert(text::ascii_lower(a[i]) == text::ascii_lower(b[i]));
                assert(text::ascii_lower(b[i]) == text::ascii_lower(word[i]));
            }
        }
    }
}

/// The name of the database whose file a step opens, queries or removes.
pub open spec fn touched(step: StepView) -> Option<Seq<char>> {
    match step {
        StepView::Open(task) => Some(task.db),
        StepView::Execute(task) => Some(task.db),
        StepView::Remove(db) => Some(db),
        _ => None,
    }
}

/// The name of the database whose place a step asks for.
pub open spec fn sought(step: StepView) -> Option<Seq<char>> {
    match step {
        StepView::LocateQuery(task) => Some(task.db),
        StepView::LocateDelete { db, .. } => Some(db),
        _ => None,
    }
}

/// A request's first step touches no file, and asks only for the places of
/// plain file names.
pub proof fn first_step_touches_nothing(
    password: Seq<char>,
    authenticated: bool,
    req: Seq<char>,
    value: Result<JsonView, Seq<char>>,
)
    ensures
        touched(first_step(password, authenticated, req, value)) is None,
        sought(first_step(password, authenticated, req, value)) matches Some(db)
            ==> database::plain_file_name(db),
{
}

/// A step touches a file only where the name is safe: a single path component
/// that resolves to nothing or to a direct child of the databases folder.
pub proof fn only_safe_names_are_touched(
    open: bool,
    task: QueryView,
    db: Seq<char>,
    request: JsonView,
    location: Location,
)
    ensures
        touched(located_query(open, task, location)) matches Some(name) ==> name == task.db
            && database::safe_database_name(name, location),
        touched(located_delete(db, request, location)) matches Some(name) ==> name == db
            && database::safe_database_name(name, location),
{
}

/// A query or deletion whose name is not safe is answered as one that names no
/// database.
pub proof fn unsafe_names_are_refused(
    open: bool,
    task: QueryView,
    db: Seq<char>,
    request: JsonView,
    location: Location,
)
    ensures
        !database::safe_database_name(task.db, location) ==> located_query(open, task, location)
            == StepView::Reply(generic_error(NO_DATABASE_SPECIFIED, task.request)),
        !database::safe_database_name(db, location) ==> located_delete(db, request, location)
            == StepView::Reply(generic_error(NO_DATABASE_SPECIFIED, request)),
{
}

/// Names with separators (a slash, or what else separates on the platform),
/// absolute paths, and the names of the folder itself and its parent lead
/// nowhere.
pub proof fn traversal_is_refused(name: Seq<char>, location: Location)
    requires
        ({
            ||| name.len() == 0
            ||| name.contains('/')
            ||| name == "."@
            ||| name == ".."@
            ||| location.absolute
            ||| location.parts@.len() != 1
            ||| location.parts@[0] != database::PathPart::Normal
        }),
    ensures
        !database::safe_database_name(name, location),
{
}

/// A query on a safe name is an error exactly where it consists of white space
/// alone; it then runs nowhere.
pub proof fn only_blank_queries_are_empty(open: bool, task: QueryView)
    ensures
        run_step(open, task) is Reply <==> (forall|i: int|
            0 <= i < task.query.len() ==> text::is_white_space(#[trigger] task.query[i])),
{
    text::lemma_trimmed_empty(task.query);
}

/// How many steps may come after a step before there is a reply.
pub open spec fn steps_left(step: StepView) -> nat {
    match step {
        StepView::Reply(_) => 0,
        StepView::ListFolder | StepView::Execute(_) | StepView::Remove(_) => 1,
        StepView::Open(_) => 2,
        StepView::LocateQuery(_) | StepView::LocateDelete { .. } => 3,
    }
}

/// Every request comes to a reply: each step leads to one that is nearer to it,
/// whatever is found on the way.
pub proof fn steps_come_to_an_end(
    open: bool,
    task: QueryView,
    db: Seq<char>,
    request: JsonView,
    location: Location,
    err: SqliteError,
)
    ensures
        steps_left(located_query(open, task, location)) < steps_left(StepView::LocateQuery(task)),
        steps_left(located_delete(db, request, location)) < steps_left(
            StepView::LocateDelete { db, request },
        ),
        steps_left(StepView::Execute(task)) < steps_left(StepView::Open(task)),
        steps_left(StepView::Reply(failure_reply(err, task.request))) < steps_left(
            StepView::Open(task),
        ),
{
}

// ---------------------------------------------------------------------------
// Laws of the connection cache
// ---------------------------------------------------------------------------
/// Once a database is open, later queries run on the same connection.
pub proof fn open_connection_is_reused<C>(
    databases: Map<Seq<char>, C>,
    conn: C,
    task: QueryView,
)
    requires
        !blank(task.query),
    ensures
        run_step(databases.insert(task.db, conn).contains_key(task.db), task)
            == StepView::Execute(task),
        databases.insert(task.db, conn)[task.db] == conn,
{
}

/// A database is opened only where no connection to it is open.
pub proof fn opened_once<C>(databases: Map<Seq<char>, C>, task: QueryView)
    ensures
        run_step(databases.contains_key(task.db), task) is Open ==> !databases.contains_key(
            task.db,
        ),
        run_step(databases.contains_key(task.db), task) is Execute ==> databases.contains_key(
            task.db,
        ),
{
}

/// Once a database is deleted, a later query opens it anew.
pub proof fn deleted_database_is_opened_anew<C>(databases: Map<Seq<char>, C>, task: QueryView)
    requires
        !blank(task.query),
    ensures
        run_step(databases.remove(task.db).contains_key(task.db), task) == StepView::Open(task),
{
}

/// Opening or deleting a database leaves the connections to others alone.
pub proof fn other_connections_are_kept<C>(
    databases: Map<Seq<char>, C>,
    db: Seq<char>,
    conn: C,
    other: Seq<char>,
)
    requires
        other != db,
    ensures
        databases.insert(db, conn).contains_key(other) == databases.contains_key(other),
        databases.remove(db).contains_key(other) == databases.contains_key(other),
        databases.contains_key(other) ==> databases.insert(db, conn)[other] == databases[other]
            && databases.remove(db)[other] == databases[other],
{
}

// ---------------------------------------------------------------------------
// Laws of replies
// ---------------------------------------------------------------------------
proof fn lemma_reply_names()
    ensures
        text::before("generic_error"@, "message"@),
        text::before("generic_error"@, "request"@),
        text::before("message"@, "request"@),
        text::before("error_code"@, "error_message"@),
        text::before("error_code"@, "query"@),
        text::before("error_message"@, "query"@),
{
    reveal_strlit("generic_error");
    reveal_strlit("message");
    reveal_strlit("request");
    reveal_strlit("error_code");
    reveal_strlit("error_message");
    reveal_strlit("query");
    reveal_with_fuel(text::before, 8);
}

/// The names in an error's reply come in alphabetical order, as those of the
/// request that it echoes do.
pub proof fn error_replies_are_ordered(
    code: u64,
    sql_code: i64,
    message: Seq<char>,
    req: Seq<char>,
    request: JsonView,
)
    requires
        request.ordered(),
    ensures
        generic_error(code, request).ordered(),
        format_error(message, req).ordered(),
        sql_error(sql_code, message, request).ordered(),
{
    lemma_reply_names();
    reveal_with_fuel(JsonView::ordered, 2);
    let generic = generic_error(code, request)->Object_0;
    assert(json::ascending(generic));
    assert forall|i: int| 0 <= i < generic.len() implies (#[trigger] generic[i]).1.ordered() by {
    }
    let format = format_error(message, req)->Object_0;
    assert(json::ascending(format));
    assert forall|i: int| 0 <= i < format.len() implies (#[trigger] format[i]).1.ordered() by {
    }
    let failure = sql_error(sql_code, message, request)->Object_0;
    assert(json::ascending(failure));
    assert forall|i: int| 0 <= i < failure.len() implies (#[trigger] failure[i]).1.ordered() by {
    }
}

/// The names in the replies that say what was done, or that list databases,
/// come in alphabetical order.
pub proof fn plain_replies_are_ordered(done: bool, names: Seq<Seq<char>>)
    ensures
        result_reply(done).ordered(),
        list_reply(names).ordered(),
{
    reveal_with_fuel(JsonView::ordered, 3);
    let result = result_reply(done)->Object_0;
    assert(json::ascending(result));
    assert forall|i: int| 0 <= i < result.len() implies (#[trigger] result[i]).1.ordered() by {
    }
    let list = list_reply(names)->Object_0;
    assert(json::ascending(list));
    assert forall|i: int| 0 <= i < list.len() implies (#[trigger] list[i]).1.ordered() by {
        let items = sql::text_array(names)->Array_0;
        assert forall|k: int| 0 <= k < items.len() implies (#[trigger] items[k]).ordered() by {
        }
    }
}

/// The names in the reply to a query come in alphabetical order, at every
/// level.
pub proof fn query_replies_are_ordered(
    outcome: Result<ResultSet, SqliteError>,
    request: JsonView,
)
    requires
        request.ordered(),
    ensures
        query_reply(outcome, request).ordered(),
{
    match outcome {
        Ok(result) => {
            sql::result_is_ordered(text::strings(result.columns@), sql::rows_views(result.rows@));
        },
        Err(err) => {
            let view = sql::error_view(err);
            error_replies_are_ordered(0, view.code as i64, view.message, view.message, request);
        },
    }
}

/// The names in the reply that a request is answered with at once come in
/// alphabetical order, at every level.
pub proof fn first_replies_are_ordered(
    password: Seq<char>,
    authenticated: bool,
    req: Seq<char>,
    value: Result<JsonView, Seq<char>>,
)
    requires
        value matches Ok(json) ==> json.ordered(),
    ensures
        first_step(password, authenticated, req, value) matches StepView::Reply(reply)
            ==> reply.ordered(),
{
    let text = JsonView::Str(req);
    assert(text.ordered());
    plain_replies_are_ordered(true, Seq::empty());
    plain_replies_are_ordered(false, Seq::empty());
    error_replies_are_ordered(NO_COMMAND_SPECIFIED, 0, req, req, text);
    error_replies_are_ordered(UNKNOWN_COMMAND, 0, req, req, text);
    match value {
        Ok(json) => {
            error_replies_are_ordered(NO_DATABASE_SPECIFIED, 0, req, req, json);
            error_replies_are_ordered(ERROR_READING_FROM_CLIENT, 0, req, req, json);
        },
        Err(message) => {
            error_replies_are_ordered(INVALID_FORMAT, 0, message, req, text);
        },
    }
}

/// The names in the reply that a query or a deletion is refused with come in
/// alphabetical order, at every level.
pub proof fn refusals_are_ordered(
    open: bool,
    task: QueryView,
    db: Seq<char>,
    location: Location,
)
    requires
        task.request.ordered(),
    ensures
        located_query(open, task, location) matches StepView::Reply(reply) ==> reply.ordered(),
        located_delete(db, task.request, location) matches StepView::Reply(reply)
            ==> reply.ordered(),
{
    error_replies_are_ordered(
        NO_DATABASE_SPECIFIED,
        sql::SQLITE_MISUSE,
        "empty query"@,
        db,
        task.request,
    );
}

} // verus!
