//! Laws of answering queries: values, rows, results and errors.
use vstd::prelude::*;

use crate::handler;
use crate::handler::QueryTask;
use crate::json::{Json, JsonNumber, JsonView};
use crate::sql;
use crate::sql::{ResultSet, SqlValue, SqliteError};
use crate::text;

verus! {

// ---------------------------------------------------------------------------
// Values
// ---------------------------------------------------------------------------
/// The code point of the lower-case hexadecimal digit of a value below 16.
pub open spec fn hex_code(d: int) -> int {
    if d < 10 {
        48 + d
    } else {
        87 + d
    }
}

proof fn lemma_hex_code(d: nat)
    requires
        d < 16,
    ensures
        text::hex_digit(d) as int == hex_code(d as int),
{
    reveal_strlit("0123456789abcdef");
}

/// Every byte is written as two lower-case hexadecimal digits, the high one
/// first.
pub proof fn every_byte_is_two_digits(bytes: &[u8], r: String)
    requires
        call_ensures(sql::to_hex, (bytes,), r),
    ensures
        r@.len() == 2 * bytes@.len(),
        forall|i: int|
            0 <= i < bytes@.len() ==> {
                &&& r@[2 * i] as int == hex_code(#[trigger] bytes@[i] as int / 16)
                &&& r@[2 * i + 1] as int == hex_code(bytes@[i] as int % 16)
            },
{
    assert forall|i: int| 0 <= i < bytes@.len() implies {
        &&& r@[2 * i] as int == hex_code(#[trigger] bytes@[i] as int / 16)
        &&& r@[2 * i + 1] as int == hex_code(bytes@[i] as int % 16)
    } by {
        lemma_hex_code((bytes@[i] / 16) as nat);
        lemma_hex_code((bytes@[i] % 16) as nat);
        assert((2 * i) / 2 == i && (2 * i + 1) / 2 == i);
    }
}

/// An integer's number is the integer.
pub proof fn integers_keep_their_value(n: i64, r: Json)
    requires
        call_ensures(sql::integer_json, (n,), r),
    ensures
        n >= 0 ==> (r@ matches JsonView::Number(JsonNumber::Unsigned(m)) && m as int == n as int),
        n < 0 ==> (r@ matches JsonView::Number(JsonNumber::Negative(m)) && m as int == n as int),
{
}

/// A value keeps its kind and what it holds: NULL is null, an integer the same
/// number, a finite real the same double, a text its characters, a BLOB the
/// literal of its bytes. A real whose exponent bits are all set is null.
pub proof fn values_keep_what_they_hold(value: &SqlValue, r: Json)
    requires
        call_ensures(sql::value_ref_to_json, (value,), r),
    ensures
        value is Null ==> r@ is Null,
        value matches SqlValue::Integer(n) ==> {
            &&& n >= 0 ==> (r@ matches JsonView::Number(JsonNumber::Unsigned(m)) && m as int
                == n as int)
            &&& n < 0 ==> r@ == JsonView::Number(JsonNumber::Negative(*n))
        },
        value matches SqlValue::Real(bits) ==> if bits as int / 4503599627370496 % 2048 == 2047 {
            r@ is Null
        } else {
            r@ == JsonView::Number(JsonNumber::Float(*bits))
        },
        value matches SqlValue::Text(bytes) ==> {
            &&& r@ == JsonView::Str(text::utf8_lossy(bytes@))
            &&& vstd::utf8::valid_utf8(bytes@) ==> r@ == JsonView::Str(
                vstd::utf8::decode_utf8(bytes@),
            )
        },
        value matches SqlValue::Blob(bytes) ==> {
            &&& r@ matches JsonView::Str(s)
            &&& s.len() == 2 * bytes@.len() + 3
            &&& s[0] == 'X'
            &&& s[1] == '\''
            &&& s[s.len() - 1] == '\''
            &&& forall|i: int|
                0 <= i < bytes@.len() ==> {
                    &&& s[2 + 2 * i] as int == hex_code(#[trigger] bytes@[i] as int / 16)
                    &&& s[3 + 2 * i] as int == hex_code(bytes@[i] as int % 16)
                }
        },
{
    reveal_strlit("X'");
    reveal_strlit("'");
    if let SqlValue::Blob(bytes) = value {
        let s = r@->Str_0;
        let h = sql::hex(bytes@);
        assert(s == sql::blob_literal(bytes@));
        assert forall|i: int| 0 <= i < bytes@.len() implies {
            &&& s[2 + 2 * i] as int == hex_code(#[trigger] bytes@[i] as int / 16)
            &&& s[3 + 2 * i] as int == hex_code(bytes@[i] as int % 16)
        } by {
            lemma_hex_code((bytes@[i] / 16) as nat);
            lemma_hex_code((bytes@[i] % 16) as nat);
            assert(s[2 + 2 * i] == h[2 * i]);
            assert(s[3 + 2 * i] == h[2 * i + 1]);
            assert((2 * i) / 2 == i && (2 * i + 1) / 2 == i);
        }
    }
}

/// Texts become strings, one for one.
pub proof fn texts_become_strings(names: &Vec<String>, r: Json)
    requires
        call_ensures(sql::texts_to_json, (names,), r),
    ensures
        r@ matches JsonView::Array(items) && items.len() == names@.len() && forall|i: int|
            0 <= i < items.len() ==> #[trigger] items[i] == JsonView::Str(names@[i]@),
{
}

// ---------------------------------------------------------------------------
// Rows and results
// ---------------------------------------------------------------------------
/// In a row's object each column that no later one repeats has the JSON of the
/// row's value there.
pub proof fn a_column_has_its_value(
    columns: &Vec<String>,
    row: &Vec<SqlValue>,
    i: int,
    value: Json,
    r: Json,
)
    requires
        call_ensures(sql::row_to_json, (columns, row), r),
        columns@.len() == row@.len(),
        0 <= i < columns@.len(),
        forall|j: int| i < j < columns@.len() ==> (#[trigger] columns@[j])@ != columns@[i]@,
        call_ensures(sql::value_ref_to_json, (&row@[i],), value),
    ensures
        r@.get(columns@[i]@) == Some(value@),
{
    let names = text::strings(columns@);
    let values = sql::row_views(row@);
    assert forall|j: int| i < j < sql::row_width(names, values) implies #[trigger] names[j]
        != names[i] by {
        assert(names[j] == columns@[j]@);
    }
    sql::row_member_of_column(names, values, i);
}

proof fn lemma_row_name(columns: Seq<Seq<char>>, row: Seq<sql::SqlView>, n: nat, k: int)
    requires
        n <= sql::row_width(columns, row),
        0 <= k < sql::row_members(columns, row, n).len(),
    ensures
        exists|i: int| 0 <= i < n && #[trigger] columns[i] == sql::row_members(columns, row, n)[k].0,
    decreases n,
{
    if n > 0 {
        let before = sql::row_members(columns, row, (n - 1) as nat);
        let out = sql::row_members(columns, row, n);
        let s = sql::slot(before, columns[n - 1]) as int;
        lemma_slot_bound(before, columns[n - 1]);
        if k == s {
            assert(columns[n - 1] == out[k].0);
        } else {
            let m = if out.len() == before.len() || k < s {
                k
            } else {
                k - 1
            };
            assert(out[k] == before[m]);
            lemma_row_name(columns, row, (n - 1) as nat, m);
            let i = choose|i: int| 0 <= i < n - 1 && #[trigger] columns[i] == before[m].0;
            assert(columns[i] == out[k].0);
        }
    }
}

proof fn lemma_slot_bound(members: Seq<(Seq<char>, JsonView)>, name: Seq<char>)
    ensures
        sql::slot(members, name) <= members.len(),
    decreases members.len(),
{
    if members.len() > 0 {
        lemma_slot_bound(members.drop_first(), name);
    }
}

/// A row's object has its names in alphabetical order, each once, and each is
/// the name of a column.
pub proof fn a_row_has_its_columns_in_order(columns: &Vec<String>, row: &Vec<SqlValue>, r: Json)
    requires
        call_ensures(sql::row_to_json, (columns, row), r),
    ensures
        r@ matches JsonView::Object(members) && {
            &&& forall|i: int, j: int|
                0 <= i < j < members.len() ==> text::before(
                    (#[trigger] members[i]).0,
                    (#[trigger] members[j]).0,
                )
            &&& forall|k: int|
                0 <= k < members.len() ==> exists|i: int|
                    0 <= i < columns@.len() && (#[trigger] columns@[i])@ == (
                    #[trigger] members[k]).0
        },
{
    let names = text::strings(columns@);
    let values = sql::row_views(row@);
    let n = sql::row_width(names, values);
    sql::row_names_ascend(names, values, n);
    let members = sql::row_members(names, values, n);
    assert forall|k: int| 0 <= k < members.len() implies exists|i: int|
        0 <= i < columns@.len() && (#[trigger] columns@[i])@ == (#[trigger] members[k]).0 by {
        lemma_row_name(names, values, n, k);
        let i = choose|i: int| 0 <= i < n && #[trigger] names[i] == members[k].0;
        assert(columns@[i]@ == members[k].0);
    }
}

/// The answer to a query that ran has two members. `columns` holds the columns'
/// names as they were selected, all of them, in that order. `data` holds as many
/// items as there are rows, and item `i` is the object of row `i`.
pub proof fn every_row_is_in_the_answer(result: &ResultSet, r: Json)
    requires
        call_ensures(sql::result_to_json, (result,), r),
    ensures
        r@ matches JsonView::Object(members) && members.len() == 2,
        r@.get("columns"@) matches Some(JsonView::Array(names)) && {
            &&& names.len() == result.columns@.len()
            &&& forall|i: int|
                0 <= i < names.len() ==> #[trigger] names[i] == JsonView::Str(result.columns@[i]@)
        },
        r@.get("data"@) matches Some(JsonView::Array(items)) && {
            &&& items.len() == result.rows@.len()
            &&& forall|i: int, row: Json|
                0 <= i < items.len() && call_ensures(
                    sql::row_to_json,
                    (&result.columns, &result.rows@[i]),
                    row,
                ) ==> #[trigger] items[i] == #[trigger] row@
        },
{
    reveal_strlit("columns");
    reveal_strlit("data");
    assert("columns"@.len() != "data"@.len());
    let members = r@->Object_0;
    assert(members.drop_first()[0] == members[1]);
    reveal_with_fuel(crate::json::member, 3);
    let rows = sql::rows_views(result.rows@);
    assert(forall|i: int|
        0 <= i < rows.len() ==> #[trigger] rows[i] == sql::row_views(result.rows@[i]@));
}

/// Item `i` of a result's `data` maps the name of each column that no later one
/// repeats to the JSON of row `i`'s value there.
pub proof fn every_value_is_in_the_answer(
    result: &ResultSet,
    r: Json,
    i: int,
    k: int,
    row: Json,
    value: Json,
)
    requires
        call_ensures(sql::result_to_json, (result,), r),
        0 <= i < result.rows@.len(),
        result.rows@[i]@.len() == result.columns@.len(),
        0 <= k < result.columns@.len(),
        forall|j: int|
            k < j < result.columns@.len() ==> (#[trigger] result.columns@[j])@
                != result.columns@[k]@,
        call_ensures(sql::row_to_json, (&result.columns, &result.rows@[i]), row),
        call_ensures(sql::value_ref_to_json, (&result.rows@[i]@[k],), value),
    ensures
        r@.get("data"@) matches Some(JsonView::Array(items)) && items.len() == result.rows@.len()
            && items[i].get(result.columns@[k]@) == Some(value@),
{
    every_row_is_in_the_answer(result, r);
    a_column_has_its_value(&result.columns, &result.rows@[i], k, value, row);
    let items = r@.get("data"@)->0->Array_0;
    assert(items[i] == row@);
}

/// The reply to a query that ran is the answer of its whole result.
pub proof fn a_query_is_answered_with_its_result(
    task: QueryTask,
    result: ResultSet,
    answer: Json,
    reply: Json,
)
    requires
        call_ensures(handler::executed, (task, Ok::<ResultSet, SqliteError>(result)), reply),
        call_ensures(sql::result_to_json, (&result,), answer),
    ensures
        reply@ == answer@,
        reply@.get("data"@) matches Some(JsonView::Array(items)) && items.len()
            == result.rows@.len(),
{
    every_row_is_in_the_answer(&result, answer);
}

// ---------------------------------------------------------------------------
// Errors
// ---------------------------------------------------------------------------
/// A failure's code is the lowest byte of its extended code, and its message
/// the one given, else the code's description. Another error has the code 1 and
/// its own description.
pub proof fn errors_keep_code_and_message(err: SqliteError, r: (i64, String))
    requires
        call_ensures(sql::map_sqlite_err, (err,), r),
    ensures
        err matches SqliteError::Failure { extended_code, message, description } ==> {
            &&& 0 <= r.0 < 256
            &&& (extended_code - r.0) % 256 == 0
            &&& message matches Some(m) ==> r.1@ == m@
            &&& message is None ==> r.1@ == description@
        },
        err matches SqliteError::Other { description } ==> r.0 == 1 && r.1@ == description@,
{
}

/// The reply to a query that failed has the error's code and message, and the
/// request as it was read.
pub proof fn a_failed_query_is_answered_with_its_error(
    task: QueryTask,
    err: SqliteError,
    told: (i64, String),
    reply: Json,
)
    requires
        call_ensures(handler::executed, (task, Err::<ResultSet, SqliteError>(err)), reply),
        call_ensures(sql::map_sqlite_err, (err,), told),
    ensures
        reply@ matches JsonView::Object(members) && {
            &&& members.len() == 3
            &&& members[0].0 == "error_code"@
            &&& members[0].1 == JsonView::Number(JsonNumber::Unsigned(told.0 as u64))
            &&& members[1] == ("error_message"@, JsonView::Str(told.1@))
            &&& members[2] == ("query"@, task.request@)
        },
{
}

} // verus!
