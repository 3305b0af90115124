//! Laws of requests: reading them, the password, commands, and the cache.
use std::sync::Arc;
use vstd::prelude::*;

use crate::config::Config;
use crate::database;
use crate::database::{DirEntry, Location};
use crate::handler;
use crate::handler::{DeleteTask, QueryTask, RequestHandler, Step};
use crate::json;
use crate::json::{Json, JsonNumber, JsonView};
use crate::laws;
use crate::sql;
use crate::sql::SqliteError;
use crate::text;

verus! {

// ---------------------------------------------------------------------------
// Reading a request
// ---------------------------------------------------------------------------
/// A request that is JSON is read as it was sent. Of another one the keys are
/// quoted, in the text exactly as it was sent: the second attempt reads what the
/// replacement of keys makes of it, and nothing else of it is changed.
pub proof fn a_request_is_read_as_it_was_sent(req: &str, r: Result<Json, String>)
    requires
        call_ensures(handler::parse_request, (req,), r),
    ensures
        json::json_text(req@) matches Ok(value) ==> (r matches Ok(json) && json@ == value),
        json::json_text(req@) is Err ==> match json::json_text(
            handler::regex_replaced(
                "(['\"])?([a-zA-Z0-9]+)(['\"])?:"@,
                req@,
                "\"${2}\":"@,
            ),
        ) {
            Ok(value) => r matches Ok(json) && json@ == value,
            Err(message) => r matches Err(m) && m@ == message,
        },
{
}

/// Where quoting the keys of a request makes another text of it, both are read
/// alike: a request without the quotation marks means what one with them does.
pub proof fn unquoted_keys_mean_the_same(
    bare: &str,
    quoted: &str,
    a: Result<Json, String>,
    b: Result<Json, String>,
)
    requires
        json::json_text(bare@) is Err,
        json::json_text(quoted@) is Ok,
        quoted@ == handler::regex_replaced(
            "(['\"])?([a-zA-Z0-9]+)(['\"])?:"@,
            bare@,
            "\"${2}\":"@,
        ),
        call_ensures(handler::parse_request, (bare,), a),
        call_ensures(handler::parse_request, (quoted,), b),
    ensures
        a is Ok && b is Ok,
        a->Ok_0@ == b->Ok_0@,
{
}

/// A step is seen with all that it holds.
pub proof fn steps_are_seen_as_they_are(reply: Json, query: QueryTask, delete: DeleteTask, db: String)
    ensures
        Step::Reply(reply)@ == handler::StepView::Reply(reply@),
        Step::ListFolder@ is ListFolder,
        Step::LocateQuery(query)@ == handler::StepView::LocateQuery(query@),
        Step::Open(query)@ == handler::StepView::Open(query@),
        Step::Execute(query)@ == handler::StepView::Execute(query@),
        Step::LocateDelete(delete)@ matches handler::StepView::LocateDelete { db, request } && db
            == delete.db@ && request == delete.request@,
        Step::Remove(db)@ == handler::StepView::Remove(db@),
        query@.db == query.db@,
        query@.query == query.query@,
        query@.request == query.request@,
{
}

/// A request is handled by what is read of it.
pub proof fn a_request_is_handled_by_its_value<C>(
    h: &mut RequestHandler<C>,
    other: &mut RequestHandler<C>,
    req: &str,
    value: Result<Json, String>,
    a: Step,
    b: Step,
)
    requires
        old(h)@ == old(other)@,
        call_ensures(handler::parse_request, (req,), value),
        call_ensures(RequestHandler::<C>::handle_request, (h, req), a),
        call_ensures(RequestHandler::<C>::handle_value, (other, req, value), b),
    ensures
        final(h)@ == final(other)@,
        a@ == b@,
{
}

// ---------------------------------------------------------------------------
// The password
// ---------------------------------------------------------------------------
/// A new connection has not authenticated and has no database open.
pub proof fn a_new_connection_knows_nothing<C>(
    config: Arc<Config>,
    h: RequestHandler<C>,
    shared: &RequestHandler<C>,
    db: &str,
    found: Option<&C>,
)
    requires
        call_ensures(RequestHandler::<C>::new, (config,), h),
        *shared == h,
        call_ensures(RequestHandler::<C>::get_connection, (shared, db), found),
    ensures
        !h@.authenticated,
        h@.config.auth == config.auth@,
        h@.config.busy_timeout_ms == config.busy_timeout_ms,
        found is None,
{
}

/// A request changes whether the client has authenticated and nothing else. It
/// authenticates the client exactly where a password is configured and the
/// request's `auth` is that password, character by character.
pub proof fn only_the_password_authenticates<C>(
    h: &mut RequestHandler<C>,
    req: &str,
    value: Result<Json, String>,
    step: Step,
)
    requires
        call_ensures(RequestHandler::<C>::handle_value, (h, req, value), step),
    ensures
        final(h)@.config == old(h)@.config,
        final(h)@.databases == old(h)@.databases,
        final(h)@.authenticated <==> old(h)@.authenticated || ({
            &&& old(h)@.config.auth.len() > 0
            &&& value matches Ok(json)
            &&& json@.get("auth"@) == Some(JsonView::Str(old(h)@.config.auth))
        }),
{
}

/// A request that is no JSON is answered with the code 0, the parser's message
/// and the request's text, whatever the password.
pub proof fn what_is_no_json_is_answered_with_code_0<C>(
    h: &mut RequestHandler<C>,
    req: &str,
    message: String,
    step: Step,
)
    requires
        call_ensures(
            RequestHandler::<C>::handle_value,
            (h, req, Err::<Json, String>(message)),
            step,
        ),
    ensures
        step matches Step::Reply(reply) && reply@ == JsonView::Object(
            seq![
                ("generic_error"@, JsonView::Number(JsonNumber::Unsigned(0))),
                ("message"@, JsonView::Str(message@)),
                ("request"@, JsonView::Str(req@)),
            ],
        ),
{
}

/// Where a password is configured, a request that carries it is answered with
/// ok; any other is answered with an error until the client has authenticated.
pub proof fn the_password_comes_first<C>(
    h: &mut RequestHandler<C>,
    req: &str,
    json: Json,
    step: Step,
)
    requires
        old(h)@.config.auth.len() > 0,
        call_ensures(RequestHandler::<C>::handle_value, (h, req, Ok::<Json, String>(json)), step),
    ensures
        json@.get("auth"@) == Some(JsonView::Str(old(h)@.config.auth)) ==> (
        step matches Step::Reply(reply) && reply@ == JsonView::Object(
            seq![("result"@, JsonView::Str("ok"@))],
        )),
        json@.get("auth"@) != Some(JsonView::Str(old(h)@.config.auth)) && !old(h)@.authenticated
            ==> (step matches Step::Reply(reply) && reply@ == JsonView::Object(
            seq![("result"@, JsonView::Str("error"@))],
        )),
{
}

// ---------------------------------------------------------------------------
// Commands
// ---------------------------------------------------------------------------
/// Whether a session carries out a request: there is no password, or the client
/// has authenticated and does not do so again.
pub open spec fn carried_out(password: Seq<char>, authenticated: bool, json: JsonView) -> bool {
    password.len() == 0 || (authenticated && json.get("auth"@) != Some(JsonView::Str(password)))
}

/// The reply with a code and what is echoed of the request.
pub open spec fn refusal(code: u64, echo: JsonView) -> JsonView {
    JsonView::Object(
        seq![
            ("generic_error"@, JsonView::Number(JsonNumber::Unsigned(code))),
            ("request"@, echo),
        ],
    )
}

proof fn lemma_words()
    ensures
        "QUERY"@.len() != "LIST"@.len(),
        "QUERY"@.len() != "DELETE_DB"@.len(),
        "LIST"@.len() != "DELETE_DB"@.len(),
{
    reveal_strlit("QUERY");
    reveal_strlit("LIST");
    reveal_strlit("DELETE_DB");
}

/// A request without a command, or whose command is no text, is answered with
/// the code 1; one with a command that is none of the three, in whatever case,
/// with the code 2. Both echo the request's text.
pub proof fn unknown_commands_are_refused<C>(
    h: &mut RequestHandler<C>,
    req: &str,
    json: Json,
    step: Step,
)
    requires
        call_ensures(RequestHandler::<C>::handle_value, (h, req, Ok::<Json, String>(json)), step),
        carried_out(old(h)@.config.auth, old(h)@.authenticated, json@),
    ensures
        !(json@.get("cmd"@) matches Some(JsonView::Str(_))) ==> (step matches Step::Reply(reply)
            && reply@ == refusal(1, JsonView::Str(req@))),
        json@.get("cmd"@) matches Some(JsonView::Str(word)) ==> {
            !laws::text::spells(word, "QUERY"@) && !laws::text::spells(word, "LIST"@)
                && !laws::text::spells(word, "DELETE_DB"@) ==> (step matches Step::Reply(reply)
                && reply@ == refusal(2, JsonView::Str(req@)))
        },
{
    if let Some(JsonView::Str(word)) = json@.get("cmd"@) {
        laws::text::lemma_spells(word, "QUERY"@);
        laws::text::lemma_spells(word, "LIST"@);
        laws::text::lemma_spells(word, "DELETE_DB"@);
    }
}

/// The command to list, in whatever case, lists the folder.
pub proof fn list_lists_the_folder<C>(
    h: &mut RequestHandler<C>,
    req: &str,
    json: Json,
    word: Seq<char>,
    step: Step,
)
    requires
        call_ensures(RequestHandler::<C>::handle_value, (h, req, Ok::<Json, String>(json)), step),
        carried_out(old(h)@.config.auth, old(h)@.authenticated, json@),
        json@.get("cmd"@) == Some(JsonView::Str(word)),
        laws::text::spells(word, "LIST"@),
    ensures
        step is ListFolder,
{
    lemma_words();
    laws::text::lemma_spells(word, "QUERY"@);
    laws::text::lemma_spells(word, "LIST"@);
}

/// The command to query, in whatever case, seeks the database that the request
/// names, by exactly that name, for exactly the query that it gives. Without a
/// database, or with a name that is not plain, it is refused with the code 3;
/// without a query with the code 4. A refusal echoes the request.
pub proof fn query_seeks_the_database_named<C>(
    h: &mut RequestHandler<C>,
    req: &str,
    json: Json,
    word: Seq<char>,
    step: Step,
)
    requires
        call_ensures(RequestHandler::<C>::handle_value, (h, req, Ok::<Json, String>(json)), step),
        carried_out(old(h)@.config.auth, old(h)@.authenticated, json@),
        json@.get("cmd"@) == Some(JsonView::Str(word)),
        laws::text::spells(word, "QUERY"@),
    ensures
        match (json@.get("db"@), json@.get("query"@)) {
            (Some(JsonView::Str(db)), Some(JsonView::Str(query))) => if laws::database::plain(db) {
                step matches Step::LocateQuery(task) && task.db@ == db && task.query@ == query
                    && task.request@ == json@
            } else {
                step matches Step::Reply(reply) && reply@ == refusal(3, json@)
            },
            (Some(JsonView::Str(_)), _) => step matches Step::Reply(reply) && reply@ == refusal(
                4,
                json@,
            ),
            _ => step matches Step::Reply(reply) && reply@ == refusal(3, json@),
        },
{
    laws::text::lemma_spells(word, "QUERY"@);
    if let Some(JsonView::Str(db)) = json@.get("db"@) {
        laws::database::lemma_plain(db);
    }
}

/// The command to delete, in whatever case, seeks the database that the request
/// names, by exactly that name, character by character. Without a database, or
/// with a name that is not plain, it is refused with the code 3, and the refusal
/// echoes the request.
pub proof fn delete_seeks_the_database_named<C>(
    h: &mut RequestHandler<C>,
    req: &str,
    json: Json,
    word: Seq<char>,
    step: Step,
)
    requires
        call_ensures(RequestHandler::<C>::handle_value, (h, req, Ok::<Json, String>(json)), step),
        carried_out(old(h)@.config.auth, old(h)@.authenticated, json@),
        json@.get("cmd"@) == Some(JsonView::Str(word)),
        laws::text::spells(word, "DELETE_DB"@),
    ensures
        match json@.get("db"@) {
            Some(JsonView::Str(db)) => if laws::database::plain(db) {
                step matches Step::LocateDelete(task) && task.db@ == db && task.request@ == json@
            } else {
                step matches Step::Reply(reply) && reply@ == refusal(3, json@)
            },
            _ => step matches Step::Reply(reply) && reply@ == refusal(3, json@),
        },
{
    lemma_words();
    laws::text::lemma_spells(word, "QUERY"@);
    laws::text::lemma_spells(word, "LIST"@);
    laws::text::lemma_spells(word, "DELETE_DB"@);
    if let Some(JsonView::Str(db)) = json@.get("db"@) {
        laws::database::lemma_plain(db);
    }
}

/// Whenever a request's first step seeks a database, it is the one that the
/// request names, character by character.
pub proof fn the_name_sought_is_the_name_given<C>(
    h: &mut RequestHandler<C>,
    req: &str,
    value: Result<Json, String>,
    step: Step,
)
    requires
        call_ensures(RequestHandler::<C>::handle_value, (h, req, value), step),
    ensures
        step matches Step::LocateDelete(task) ==> (value matches Ok(json) && json@.get("db"@)
            == Some(JsonView::Str(task.db@)) && task.request@ == json@),
        step matches Step::LocateQuery(task) ==> (value matches Ok(json) && json@.get("db"@)
            == Some(JsonView::Str(task.db@)) && json@.get("query"@) == Some(
            JsonView::Str(task.query@),
        ) && task.request@ == json@),
        !(step is Open) && !(step is Execute) && !(step is Remove),
{
}

/// A listing's reply has one member, the databases' names, each as it is, all of
/// them and in order. A folder that could not be read has none.
pub proof fn a_listing_has_every_database(
    entries: &Option<Vec<DirEntry>>,
    found: &Vec<DirEntry>,
    names: Vec<String>,
    reply: Json,
)
    requires
        entries matches Some(e) ==> e == found,
        call_ensures(database::list_databases, (found,), names),
        call_ensures(handler::handle_list, (entries,), reply),
    ensures
        reply@ matches JsonView::Object(members) && members.len() == 1 && members[0].0 == "list"@,
        entries is None ==> reply@->Object_0[0].1 == JsonView::Array(Seq::empty()),
        entries is Some ==> (reply@->Object_0[0].1 matches JsonView::Array(items) && items.len()
            == names@.len() && forall|i: int|
            0 <= i < items.len() ==> #[trigger] items[i] == JsonView::Str(names@[i]@)),
{
    if entries is None {
        assert(reply@->Object_0[0].1->Array_0 =~= Seq::<JsonView>::empty());
    }
}

/// A query on a name that is not safe is refused with the code 3. On a safe name
/// a query of nothing but white space is an error with the code 21; any other
/// runs as it was given, on the connection that is open, else on one that is
/// opened first.
pub proof fn a_located_query_runs_as_given<C>(
    h: &RequestHandler<C>,
    task: QueryTask,
    name: &str,
    location: &Location,
    safe: bool,
    open: Option<&C>,
    step: Step,
)
    requires
        name@ == task.db@,
        call_ensures(database::is_safe_database_name, (name, location), safe),
        call_ensures(RequestHandler::<C>::get_connection, (h, name), open),
        call_ensures(RequestHandler::<C>::locate_query, (h, task, location), step),
    ensures
        ({
            let empty = forall|i: int|
                0 <= i < task.query@.len() ==> laws::text::white(#[trigger] task.query@[i]);
            &&& !safe ==> (step matches Step::Reply(reply) && reply@ == refusal(3, task.request@))
            &&& safe && empty ==> (step matches Step::Reply(reply) && reply@ == JsonView::Object(
                seq![
                    ("error_code"@, JsonView::Number(JsonNumber::Unsigned(21))),
                    ("error_message"@, JsonView::Str("empty query"@)),
                    ("query"@, task.request@),
                ],
            ))
            &&& safe && !empty && open is Some ==> (step matches Step::Execute(next) && next.db@
                == task.db@ && next.query@ == task.query@ && next.request@ == task.request@)
            &&& safe && !empty && open is None ==> (step matches Step::Open(next) && next.db@
                == task.db@ && next.query@ == task.query@ && next.request@ == task.request@)
        }),
{
    laws::text::lemma_blank(task.query@);
}

/// A deletion removes exactly the database that was sought, where its name is
/// safe; else it is refused with the code 3.
pub proof fn a_located_deletion_removes_what_was_sought(
    task: DeleteTask,
    name: &str,
    location: &Location,
    safe: bool,
    step: Step,
)
    requires
        name@ == task.db@,
        call_ensures(database::is_safe_database_name, (name, location), safe),
        call_ensures(handler::locate_delete, (task, location), step),
    ensures
        safe ==> (step matches Step::Remove(db) && db@ == task.db@),
        !safe ==> (step matches Step::Reply(reply) && reply@ == refusal(3, task.request@)),
{
}

// ---------------------------------------------------------------------------
// The connection cache
// ---------------------------------------------------------------------------
/// A connection that was opened is kept under the database's name, and the
/// query runs as given; connections under other names stay as they are. Where
/// opening fails nothing is kept, and the reply has the error's code and
/// message.
pub proof fn an_opened_connection_is_kept<C>(
    h: &mut RequestHandler<C>,
    task: QueryTask,
    outcome: Result<C, SqliteError>,
    step: Step,
    before: &RequestHandler<C>,
    after: &RequestHandler<C>,
    name: &str,
    was: Option<&C>,
    is: Option<&C>,
    err: SqliteError,
    told: (i64, String),
)
    requires
        call_ensures(RequestHandler::<C>::opened, (h, task, outcome), step),
        before@ == old(h)@,
        after@ == final(h)@,
        call_ensures(RequestHandler::<C>::get_connection, (before, name), was),
        call_ensures(RequestHandler::<C>::get_connection, (after, name), is),
        outcome matches Err(e) ==> e == err,
        call_ensures(sql::map_sqlite_err, (err,), told),
    ensures
        final(h)@.authenticated == old(h)@.authenticated,
        final(h)@.config == old(h)@.config,
        outcome matches Ok(conn) ==> {
            &&& name@ == task.db@ ==> (is matches Some(kept) && *kept == conn)
            &&& name@ != task.db@ ==> (is is Some <==> was is Some) && (is is Some ==> *is->0
                == *was->0)
            &&& step matches Step::Execute(next)
            &&& next.db@ == task.db@
            &&& next.query@ == task.query@
            &&& next.request@ == task.request@
        },
        outcome is Err ==> {
            &&& is is Some <==> was is Some
            &&& is is Some ==> *is->0 == *was->0
            &&& step matches Step::Reply(reply)
            &&& reply@ == JsonView::Object(
                seq![
                    ("error_code"@, JsonView::Number(JsonNumber::Unsigned(told.0 as u64))),
                    ("error_message"@, JsonView::Str(told.1@)),
                    ("query"@, task.request@),
                ],
            )
        },
{
}

/// A database that was removed has no connection any more, and the reply is ok.
/// One that could not be removed keeps its connection, and the reply is an
/// error. Connections under other names stay as they are.
pub proof fn a_removed_database_has_no_connection<C>(
    h: &mut RequestHandler<C>,
    db: &str,
    removed: bool,
    reply: Json,
    before: &RequestHandler<C>,
    after: &RequestHandler<C>,
    name: &str,
    was: Option<&C>,
    is: Option<&C>,
)
    requires
        call_ensures(RequestHandler::<C>::removed, (h, db, removed), reply),
        before@ == old(h)@,
        after@ == final(h)@,
        call_ensures(RequestHandler::<C>::get_connection, (before, name), was),
        call_ensures(RequestHandler::<C>::get_connection, (after, name), is),
    ensures
        final(h)@.authenticated == old(h)@.authenticated,
        final(h)@.config == old(h)@.config,
        removed && name@ == db@ ==> is is None,
        !removed || name@ != db@ ==> (is is Some <==> was is Some) && (is is Some ==> *is->0
            == *was->0),
        reply@ == JsonView::Object(
            seq![
                (
                    "result"@,
                    JsonView::Str(
                        if removed {
                            "ok"@
                        } else {
                            "error"@
                        },
                    ),
                ),
            ],
        ),
{
}

/// A connection is set up with the busy timeout that is configured.
pub proof fn a_connection_is_set_up_as_configured<C>(h: &RequestHandler<C>, r: String)
    requires
        call_ensures(RequestHandler::<C>::connection_setup, (h,), r),
    ensures
        r@ == "PRAGMA journal_mode=WAL; PRAGMA busy_timeout="@ + text::decimal(
            h@.config.busy_timeout_ms as nat,
        ) + "; PRAGMA synchronous=NORMAL;"@,
{
}

} // verus!
