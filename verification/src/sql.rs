//! What a query answers with: SQLite's values as JSON, rows as objects, and
//! errors as a code with a message.
use vstd::prelude::*;

use crate::json;
use crate::json::{Json, JsonNumber, JsonView};
use crate::text;

verus! {

// ---------------------------------------------------------------------------
// Values
// ---------------------------------------------------------------------------
/// A value of a result row. A real number is held by the bits of its IEEE 754
/// double, a text by its bytes.
#[derive(Debug)]
pub enum SqlValue {
    Null,
    Integer(i64),
    Real(u64),
    Text(Vec<u8>),
    Blob(Vec<u8>),
}

/// A value of a result row with its bytes as a sequence.
pub enum SqlView {
    Null,
    Integer(i64),
    Real(u64),
    Text(Seq<u8>),
    Blob(Seq<u8>),
}

impl View for SqlValue {
    type V = SqlView;

    open spec fn view(&self) -> SqlView {
        match self {
            SqlValue::Null => SqlView::Null,
            SqlValue::Integer(n) => SqlView::Integer(*n),
            SqlValue::Real(bits) => SqlView::Real(*bits),
            SqlValue::Text(bytes) => SqlView::Text(bytes@),
            SqlValue::Blob(bytes) => SqlView::Blob(bytes@),
        }
    }
}

/// The bytes in hexadecimal: two lower-case digits each, the high one first.
pub open spec fn hex(bytes: Seq<u8>) -> Seq<char> {
    Seq::new(
        2 * bytes.len(),
        |i: int|
            if i % 2 == 0 {
                text::hex_digit((bytes[i / 2] / 16) as nat)
            } else {
                text::hex_digit((bytes[i / 2] % 16) as nat)
            },
    )
}

/// The bytes that pairs of hexadecimal digits write.
pub open spec fn hex_bytes(s: Seq<char>) -> Seq<u8> {
    Seq::new(
        s.len() / 2,
        |i: int| (text::hex_value(s[2 * i])->0 * 16 + text::hex_value(s[2 * i + 1])->0) as u8,
    )
}

/// A BLOB as a SQL literal.
pub open spec fn blob_literal(bytes: Seq<u8>) -> Seq<char> {
    "X'"@ + hex(bytes) + "'"@
}

/// A double is finite unless all bits of its exponent are set.
pub open spec fn is_finite(bits: u64) -> bool {
    (bits / 0x10_0000_0000_0000) % 0x800 != 0x7ff
}

/// An integer as a JSON number.
pub open spec fn integer(n: i64) -> JsonView {
    JsonView::Number(
        if n < 0 {
            JsonNumber::Negative(n)
        } else {
            JsonNumber::Unsigned(n as u64)
        },
    )
}

/// A SQLite value in JSON: INTEGER and FLOAT as a number, TEXT as a string,
/// NULL as null, BLOB as `"X'<lowercase-hex>'"`. JSON has no numbers that are
/// not finite; those are null.
pub open spec fn sql_json(value: SqlView) -> JsonView {
    match value {
        SqlView::Null => JsonView::Null,
        SqlView::Integer(n) => integer(n),
        SqlView::Real(bits) => if is_finite(bits) {
            JsonView::Number(JsonNumber::Float(bits))
        } else {
            JsonView::Null
        },
        SqlView::Text(bytes) => JsonView::Str(text::utf8_lossy(bytes)),
        SqlView::Blob(bytes) => JsonView::Str(blob_literal(bytes)),
    }
}

/// The bytes in hexadecimal, in lower case.
pub fn to_hex(bytes: &[u8]) -> (r: String)
    ensures
        r@ == hex(bytes@),
{
    let mut s: String = String::new();
    let mut i: usize = 0;
    while i < bytes.len()
        invariant
            i <= bytes@.len(),
            s@ == hex(bytes@.take(i as int)),
        decreases bytes@.len() - i,
    {
        let b: u8 = bytes[i];
        s.push(text::hex_digit_of(b / 16));
        s.push(text::hex_digit_of(b % 16));
        proof {
            let done = bytes@.take(i as int);
            let next = bytes@.take(i + 1);
            assert(next[i as int] == b);
            assert forall|k: int| 0 <= k < 2 * i implies #[trigger] hex(next)[k] == hex(done)[k] by {
                assert(next[k / 2] == done[k / 2]);
            }
            assert(hex(next) =~= hex(done).push(text::hex_digit((b / 16) as nat)).push(
                text::hex_digit((b % 16) as nat),
            ));
        }
        i = i + 1;
    }
    proof {
        assert(bytes@.take(i as int) =~= bytes@);
    }
    s
}

/// An integer as a JSON number.
pub fn integer_json(n: i64) -> (r: Json)
    ensures
        r@ == integer(n),
{
    if n < 0 {
        Json::Number(JsonNumber::Negative(n))
    } else {
        Json::Number(JsonNumber::Unsigned(n as u64))
    }
}

/// Encode a SQLite value as JSON.
pub fn value_ref_to_json(value: &SqlValue) -> (r: Json)
    ensures
        r@ == sql_json(value@),
        value@ matches SqlView::Text(bytes) ==> (vstd::utf8::valid_utf8(bytes) ==> r@
            == JsonView::Str(vstd::utf8::decode_utf8(bytes))),
{
    match value {
        SqlValue::Null => Json::Null,
        SqlValue::Integer(n) => integer_json(*n),
        SqlValue::Real(bits) => if (*bits / 0x10_0000_0000_0000) % 0x800 != 0x7ff {
            Json::Number(JsonNumber::Float(*bits))
        } else {
            Json::Null
        },
        SqlValue::Text(bytes) => Json::Str(text::decode_lossy(bytes)),
        SqlValue::Blob(bytes) => {
            let head: String = text::joined("X'", &to_hex(bytes));
            Json::Str(text::joined(&head, "'"))
        },
    }
}

// ---------------------------------------------------------------------------
// Rows
// ---------------------------------------------------------------------------
/// How many members, from the first on, have a name before the given one.
pub open spec fn slot(members: Seq<(Seq<char>, JsonView)>, name: Seq<char>) -> nat
    decreases members.len(),
{
    if members.len() > 0 && text::before(members[0].0, name) {
        1 + slot(members.drop_first(), name)
    } else {
        0
    }
}

/// An object's members with one of them set: replaced where the name is there,
/// else put in its place in alphabetical order.
pub open spec fn with_member(
    members: Seq<(Seq<char>, JsonView)>,
    name: Seq<char>,
    value: JsonView,
) -> Seq<(Seq<char>, JsonView)> {
    let k = slot(members, name) as int;
    if k < members.len() && members[k].0 == name {
        members.update(k, (name, value))
    } else {
        members.insert(k, (name, value))
    }
}

/// The members of a row's object from its first `n` columns, set one after the
/// other.
pub open spec fn row_members(columns: Seq<Seq<char>>, row: Seq<SqlView>, n: nat) -> Seq<
    (Seq<char>, JsonView),
>
    decreases n,
{
    if n == 0 {
        Seq::empty()
    } else {
        with_member(
            row_members(columns, row, (n - 1) as nat),
            columns[n - 1],
            sql_json(row[n - 1]),
        )
    }
}

/// As many columns as the row has a value for.
pub open spec fn row_width(columns: Seq<Seq<char>>, row: Seq<SqlView>) -> nat {
    if row.len() < columns.len() {
        row.len()
    } else {
        columns.len()
    }
}

/// A row as an object: each column's name with its value.
pub open spec fn row_object(columns: Seq<Seq<char>>, row: Seq<SqlView>) -> JsonView {
    JsonView::Object(row_members(columns, row, row_width(columns, row)))
}

/// The values of a row.
pub open spec fn row_views(row: Seq<SqlValue>) -> Seq<SqlView> {
    row.map_values(|value: SqlValue| value@)
}

proof fn lemma_slot(members: Seq<(Seq<char>, JsonView)>, name: Seq<char>, k: int)
    requires
        0 <= k <= members.len(),
        forall|i: int| 0 <= i < k ==> text::before((#[trigger] members[i]).0, name),
        k < members.len() ==> !text::before(members[k].0, name),
    ensures
        slot(members, name) == k,
    decreases k,
{
    if k > 0 {
        let rest = members.drop_first();
        assert(text::before(members[0].0, name));
        assert forall|i: int| 0 <= i < k - 1 implies text::before(
            (#[trigger] rest[i]).0,
            name,
        ) by {
            assert(rest[i] == members[i + 1]);
        }
        lemma_slot(rest, name, k - 1);
    }
}

fn set_member(members: &mut Vec<(String, Json)>, name: String, value: Json)
    ensures
        json::member_views(final(members)@) == with_member(
            json::member_views(old(members)@),
            name@,
            value@,
        ),
{
    let ghost all = json::member_views(members@);
    let mut k: usize = 0;
    while k < members.len() && text::is_before(&members[k].0, &name)
        invariant
            k <= members.len(),
            all == json::member_views(members@),
            *members == *old(members),
            forall|i: int| 0 <= i < k ==> text::before((#[trigger] all[i]).0, name@),
        decreases members.len() - k,
    {
        k = k + 1;
    }
    proof {
        lemma_slot(all, name@, k as int);
    }
    let ghost entry = (name@, value@);
    if k < members.len() && text::same_text(&members[k].0, &name) {
        members[k] = (name, value);
        proof {
            assert(json::member_views(members@) =~= all.update(k as int, entry));
        }
    } else {
        members.insert(k, (name, value));
        proof {
            assert(json::member_views(members@) =~= all.insert(k as int, entry));
        }
    }
}

/// A row as an object: each column's name with its value, the names in
/// alphabetical order. Of columns with the same name the last counts.
pub fn row_to_json(columns: &Vec<String>, row: &Vec<SqlValue>) -> (r: Json)
    ensures
        r@ == row_object(text::strings(columns@), row_views(row@)),
{
    let ghost names = text::strings(columns@);
    let ghost values = row_views(row@);
    let mut members: Vec<(String, Json)> = Vec::new();
    let mut i: usize = 0;
    proof {
        assert(json::member_views(members@) =~= Seq::<(Seq<char>, JsonView)>::empty());
    }
    while i < columns.len() && i < row.len()
        invariant
            i <= columns.len(),
            i <= row.len(),
            names == text::strings(columns@),
            values == row_views(row@),
            json::member_views(members@) == row_members(names, values, i as nat),
        decreases columns.len() - i,
    {
        set_member(&mut members, columns[i].clone(), value_ref_to_json(&row[i]));
        i = i + 1;
    }
    proof {
        json::object_view(members);
    }
    Json::Object(members)
}

/// What a query yields: the columns' names as written in the `SELECT`, and the
/// rows with a value for each.
#[derive(Debug)]
pub struct ResultSet {
    pub columns: Vec<String>,
    pub rows: Vec<Vec<SqlValue>>,
}

/// The rows of a result.
pub open spec fn rows_views(rows: Seq<Vec<SqlValue>>) -> Seq<Seq<SqlView>> {
    rows.map_values(|row: Vec<SqlValue>| row_views(row@))
}

/// Texts as JSON strings.
pub open spec fn text_array(names: Seq<Seq<char>>) -> JsonView {
    JsonView::Array(names.map_values(|name: Seq<char>| JsonView::Str(name)))
}

/// The answer to a query that ran: the column names in `SELECT` order and the
/// rows as objects.
pub open spec fn result_json(columns: Seq<Seq<char>>, rows: Seq<Seq<SqlView>>) -> JsonView {
    JsonView::Object(
        seq![
            ("columns"@, text_array(columns)),
            (
                "data"@,
                JsonView::Array(rows.map_values(|row: Seq<SqlView>| row_object(columns, row))),
            ),
        ],
    )
}

/// Texts as JSON strings.
pub fn texts_to_json(names: &Vec<String>) -> (r: Json)
    ensures
        r@ == text_array(text::strings(names@)),
{
    let ghost all = text::strings(names@).map_values(|name: Seq<char>| JsonView::Str(name));
    let mut out: Vec<Json> = Vec::new();
    let mut i: usize = 0;
    proof {
        assert(json::views(out@) =~= all.take(0));
    }
    while i < names.len()
        invariant
            i <= names.len(),
            all == text::strings(names@).map_values(|name: Seq<char>| JsonView::Str(name)),
            json::views(out@) == all.take(i as int),
        decreases names.len() - i,
    {
        let ghost done = json::views(out@);
        let next: Json = Json::Str(names[i].clone());
        out.push(next);
        proof {
            assert(json::views(out@) =~= done.push(next@));
            assert(all.take(i + 1) =~= all.take(i as int).push(all[i as int]));
        }
        i = i + 1;
    }
    proof {
        assert(all.take(i as int) =~= all);
        json::array_view(out);
    }
    Json::Array(out)
}

/// The answer to a query that ran.
pub fn result_to_json(result: &ResultSet) -> (r: Json)
    ensures
        r@ == result_json(text::strings(result.columns@), rows_views(result.rows@)),
{
    let ghost names = text::strings(result.columns@);
    let ghost all = rows_views(result.rows@).map_values(
        |row: Seq<SqlView>| row_object(names, row),
    );
    let mut data: Vec<Json> = Vec::new();
    let mut i: usize = 0;
    proof {
        assert(json::views(data@) =~= all.take(0));
    }
    while i < result.rows.len()
        invariant
            i <= result.rows.len(),
            names == text::strings(result.columns@),
            all == rows_views(result.rows@).map_values(
                |row: Seq<SqlView>| row_object(names, row),
            ),
            json::views(data@) == all.take(i as int),
        decreases result.rows.len() - i,
    {
        let ghost done = json::views(data@);
        let next: Json = row_to_json(&result.columns, &result.rows[i]);
        data.push(next);
        proof {
            assert(json::views(data@) =~= done.push(next@));
            assert(all.take(i + 1) =~= all.take(i as int).push(all[i as int]));
        }
        i = i + 1;
    }
    proof {
        assert(all.take(i as int) =~= all);
        json::array_view(data);
    }
    json::object2("columns", texts_to_json(&result.columns), "data", Json::Array(data))
}

// ---------------------------------------------------------------------------
// Errors
// ---------------------------------------------------------------------------
/// SQLite's result code for misuse, such as an empty query.
pub const SQLITE_MISUSE: i64 = 21;

/// An error of the database layer: a failure that SQLite reported, with its
/// extended result code, its message where there is one and the code's
/// description; or another error, with its description.
#[derive(Debug)]
pub enum SqliteError {
    Failure { extended_code: i32, message: Option<String>, description: String },
    Other { description: String },
}

/// The code and the message that the client is told.
pub struct ErrorView {
    pub code: int,
    pub message: Seq<char>,
}

/// A failure's primary result code is the lowest byte of its extended one; an
/// error that is not SQLite's counts as a generic one (1).
pub open spec fn error_view(err: SqliteError) -> ErrorView {
    match err {
        SqliteError::Failure { extended_code, message, description } => ErrorView {
            code: extended_code as int % 256,
            message: match message {
                Some(m) => m@,
                None => description@,
            },
        },
        SqliteError::Other { description } => ErrorView { code: 1, message: description@ },
    }
}

/// The primary SQLite result code and the message of an error.
pub fn map_sqlite_err(err: SqliteError) -> (r: (i64, String))
    ensures
        r.0 == error_view(err).code,
        r.1@ == error_view(err).message,
        0 <= r.0 < 256,
{
    match err {
        SqliteError::Failure { extended_code, message, description } => {
            let primary_code: i64 = (extended_code & 0xff) as i64;
            assert((extended_code & 0xff) == extended_code % 256) by (bit_vector);
            let text: String = match message {
                Some(m) => m,
                None => description,
            };
            (primary_code, text)
        },
        // Errors that are not SQLite's (e.g. encoding issues) fall back to SQLITE_ERROR.
        SqliteError::Other { description } => (1, description),
    }
}

// ---------------------------------------------------------------------------
// Laws
// ---------------------------------------------------------------------------
/// The bytes of a BLOB can be read back from its hexadecimal digits.
pub proof fn hex_roundtrip(bytes: Seq<u8>)
    ensures
        hex_bytes(hex(bytes)) == bytes,
        hex(bytes).len() == 2 * bytes.len(),
{
    let s = hex(bytes);
    assert forall|i: int| 0 <= i < bytes.len() implies #[trigger] hex_bytes(s)[i] == bytes[i] by {
        text::lemma_hex_digit((bytes[i] / 16) as nat);
        text::lemma_hex_digit((bytes[i] % 16) as nat);
        assert(s[2 * i] == text::hex_digit((bytes[i] / 16) as nat));
        assert(s[2 * i + 1] == text::hex_digit((bytes[i] % 16) as nat));
    }
    assert(hex_bytes(s) =~= bytes);
}

/// Hexadecimal digits are decimal digits or lower-case letters.
pub proof fn hex_is_lowercase(bytes: Seq<u8>, i: int)
    requires
        0 <= i < hex(bytes).len(),
    ensures
        '0' <= hex(bytes)[i] <= '9' || 'a' <= hex(bytes)[i] <= 'f',
{
    text::lemma_hex_digit((bytes[i / 2] / 16) as nat);
    text::lemma_hex_digit((bytes[i / 2] % 16) as nat);
}

/// The bytes of a BLOB can be read back from its literal.
pub proof fn blob_roundtrip(bytes: Seq<u8>)
    ensures
        blob_literal(bytes).len() == 2 * bytes.len() + 3,
        hex_bytes(blob_literal(bytes).subrange(2, blob_literal(bytes).len() - 1)) == bytes,
{
    reveal_strlit("X'");
    reveal_strlit("'");
    let s = blob_literal(bytes);
    assert(s.subrange(2, s.len() - 1) =~= hex(bytes));
    hex_roundtrip(bytes);
}

proof fn lemma_ascending_rest(members: Seq<(Seq<char>, JsonView)>)
    requires
        json::ascending(members),
        members.len() > 0,
    ensures
        json::ascending(members.drop_first()),
{
    let rest = members.drop_first();
    assert forall|i: int, j: int| 0 <= i < j < rest.len() implies text::before(
        (#[trigger] rest[i]).0,
        (#[trigger] rest[j]).0,
    ) by {
        assert(rest[i] == members[i + 1]);
        assert(rest[j] == members[j + 1]);
    }
}

/// In an object with its names in order, each member is found by its name.
proof fn lemma_member_found(members: Seq<(Seq<char>, JsonView)>, i: int)
    requires
        json::ascending(members),
        0 <= i < members.len(),
    ensures
        json::member(members, members[i].0) == Some(members[i].1),
    decreases members.len(),
{
    if i > 0 {
        assert(text::before(members[0].0, members[i].0));
        text::lemma_before_irreflexive(members[i].0);
        lemma_ascending_rest(members);
        assert(members.drop_first()[i - 1] == members[i]);
        lemma_member_found(members.drop_first(), i - 1);
    }
}

proof fn lemma_member_missing(members: Seq<(Seq<char>, JsonView)>, name: Seq<char>)
    requires
        forall|i: int| 0 <= i < members.len() ==> (#[trigger] members[i]).0 != name,
    ensures
        json::member(members, name) is None,
    decreases members.len(),
{
    if members.len() > 0 {
        assert(members[0].0 != name);
        let rest = members.drop_first();
        assert forall|i: int| 0 <= i < rest.len() implies (#[trigger] rest[i]).0 != name by {
            assert(rest[i] == members[i + 1]);
        }
        lemma_member_missing(rest, name);
    }
}

proof fn lemma_member_somewhere(members: Seq<(Seq<char>, JsonView)>, name: Seq<char>)
    requires
        json::member(members, name) is Some,
    ensures
        exists|i: int| 0 <= i < members.len() && (#[trigger] members[i]).0 == name,
{
    if forall|i: int| 0 <= i < members.len() ==> (#[trigger] members[i]).0 != name {
        lemma_member_missing(members, name);
    }
}

proof fn lemma_slot_place(members: Seq<(Seq<char>, JsonView)>, name: Seq<char>)
    ensures
        slot(members, name) <= members.len(),
        forall|i: int|
            0 <= i < slot(members, name) ==> text::before((#[trigger] members[i]).0, name),
        slot(members, name) < members.len() ==> !text::before(
            members[slot(members, name) as int].0,
            name,
        ),
    decreases members.len(),
{
    if members.len() > 0 && text::before(members[0].0, name) {
        let rest = members.drop_first();
        lemma_slot_place(rest, name);
        assert forall|i: int| 0 <= i < slot(members, name) implies text::before(
            (#[trigger] members[i]).0,
            name,
        ) by {
            if i > 0 {
                assert(rest[i - 1] == members[i]);
            }
        }
        let k = slot(rest, name) as int;
        if k < rest.len() {
            assert(rest[k] == members[k + 1]);
        }
    }
}

/// Setting a member keeps the names in order.
proof fn lemma_with_member_ascending(
    members: Seq<(Seq<char>, JsonView)>,
    name: Seq<char>,
    value: JsonView,
)
    requires
        json::ascending(members),
    ensures
        json::ascending(with_member(members, name, value)),
{
    let k = slot(members, name) as int;
    let out = with_member(members, name, value);
    lemma_slot_place(members, name);
    if k < members.len() && members[k].0 == name {
        assert forall|i: int, j: int| 0 <= i < j < out.len() implies text::before(
            (#[trigger] out[i]).0,
            (#[trigger] out[j]).0,
        ) by {
            assert(out[i].0 == members[i].0);
            assert(out[j].0 == members[j].0);
        }
    } else {
        assert forall|i: int, j: int| 0 <= i < j < out.len() implies text::before(
            (#[trigger] out[i]).0,
            (#[trigger] out[j]).0,
        ) by {
            let at = |n: int| if n < k {
                n
            } else {
                n - 1
            };
            if k < members.len() {
                text::lemma_before_total(members[k].0, name);
            }
            if i != k {
                assert(out[i] == members[at(i)]);
            }
            if j != k {
                assert(out[j] == members[at(j)]);
            }
            if i == k {
                // `name` comes before members[k], which comes no later than members[j - 1].
                if j - 1 > k {
                    assert(text::before(members[k].0, members[j - 1].0));
                    text::lemma_before_transitive(name, members[k].0, members[j - 1].0);
                }
            } else if j == k {
                assert(text::before(members[i].0, name));
            } else {
                assert(text::before(members[at(i)].0, members[at(j)].0));
            }
        }
    }
}

/// Setting a member sets that member and leaves the others as they were.
proof fn lemma_with_member_lookup(
    members: Seq<(Seq<char>, JsonView)>,
    name: Seq<char>,
    value: JsonView,
    other: Seq<char>,
)
    requires
        json::ascending(members),
    ensures
        json::member(with_member(members, name, value), other) == (if other == name {
            Some(value)
        } else {
            json::member(members, other)
        }),
{
    let k = slot(members, name) as int;
    let out = with_member(members, name, value);
    let replaced = k < members.len() && members[k].0 == name;
    lemma_slot_place(members, name);
    lemma_with_member_ascending(members, name, value);
    if other == name {
        assert(out[k] == (name, value));
        lemma_member_found(out, k);
    } else if json::member(members, other) is Some {
        lemma_member_somewhere(members, other);
        let i = choose|i: int| 0 <= i < members.len() && (#[trigger] members[i]).0 == other;
        lemma_member_found(members, i);
        let n = if replaced || i < k {
            i
        } else {
            i + 1
        };
        assert(out[n] == members[i]);
        lemma_member_found(out, n);
    } else {
        assert forall|n: int| 0 <= n < out.len() implies (#[trigger] out[n]).0 != other by {
            if n != k {
                let i = if replaced || n < k {
                    n
                } else {
                    n - 1
                };
                assert(out[n] == members[i]);
                if members[i].0 == other {
                    lemma_member_found(members, i);
                }
            }
        }
        lemma_member_missing(out, other);
    }
}

/// A row's object has its names in alphabetical order, each of them once.
pub proof fn row_names_ascend(columns: Seq<Seq<char>>, row: Seq<SqlView>, n: nat)
    ensures
        json::ascending(row_members(columns, row, n)),
    decreases n,
{
    if n > 0 {
        row_names_ascend(columns, row, (n - 1) as nat);
        lemma_with_member_ascending(
            row_members(columns, row, (n - 1) as nat),
            columns[n - 1],
            sql_json(row[n - 1]),
        );
    }
}

/// A row's object has a member of the name of column `i`, with the value of
/// that column where no later one has the same name.
pub proof fn row_member_of_column(columns: Seq<Seq<char>>, row: Seq<SqlView>, i: int)
    requires
        0 <= i < columns.len(),
        i < row.len(),
        forall|j: int| i < j < row_width(columns, row) ==> #[trigger] columns[j] != columns[i],
    ensures
        row_object(columns, row).get(columns[i]) == Some(sql_json(row[i])),
{
    lemma_row_member(columns, row, row_width(columns, row), i);
}

proof fn lemma_row_member(columns: Seq<Seq<char>>, row: Seq<SqlView>, n: nat, i: int)
    requires
        0 <= i < n <= row_width(columns, row),
        forall|j: int| i < j < n ==> #[trigger] columns[j] != columns[i],
    ensures
        json::member(row_members(columns, row, n), columns[i]) == Some(sql_json(row[i])),
    decreases n,
{
    let before = row_members(columns, row, (n - 1) as nat);
    row_names_ascend(columns, row, (n - 1) as nat);
    lemma_with_member_lookup(before, columns[n - 1], sql_json(row[n - 1]), columns[i]);
    if i < n - 1 {
        lemma_row_member(columns, row, (n - 1) as nat, i);
    }
}

/// A row's object has no member but those of its columns.
pub proof fn row_has_only_columns(columns: Seq<Seq<char>>, row: Seq<SqlView>, name: Seq<char>)
    requires
        forall|i: int| 0 <= i < columns.len() ==> #[trigger] columns[i] != name,
    ensures
        row_object(columns, row).get(name) is None,
{
    lemma_row_stranger(columns, row, row_width(columns, row), name);
}

proof fn lemma_row_stranger(columns: Seq<Seq<char>>, row: Seq<SqlView>, n: nat, name: Seq<char>)
    requires
        n <= row_width(columns, row),
        forall|i: int| 0 <= i < columns.len() ==> #[trigger] columns[i] != name,
    ensures
        json::member(row_members(columns, row, n), name) is None,
    decreases n,
{
    if n > 0 {
        row_names_ascend(columns, row, (n - 1) as nat);
        lemma_row_stranger(columns, row, (n - 1) as nat, name);
        lemma_with_member_lookup(
            row_members(columns, row, (n - 1) as nat),
            columns[n - 1],
            sql_json(row[n - 1]),
            name,
        );
    }
}

/// Every object in the answer to a query has its names in alphabetical order.
pub proof fn result_is_ordered(columns: Seq<Seq<char>>, rows: Seq<Seq<SqlView>>)
    ensures
        result_json(columns, rows).ordered(),
{
    reveal_strlit("columns");
    reveal_strlit("data");
    let objects = rows.map_values(|row: Seq<SqlView>| row_object(columns, row));
    assert forall|i: int| 0 <= i < objects.len() implies (#[trigger] objects[i]).ordered() by {
        let n = row_width(columns, rows[i]);
        row_names_ascend(columns, rows[i], n);
        lemma_row_values_ordered(columns, rows[i], n);
    }
    let names = text_array(columns)->Array_0;
    assert forall|i: int| 0 <= i < names.len() implies (#[trigger] names[i]).ordered() by {
        assert(names[i] == JsonView::Str(columns[i]));
    }
    assert(text_array(columns).ordered());
    assert(JsonView::Array(objects).ordered());
    assert(text::before("columns"@, "data"@));
}

proof fn lemma_row_values_ordered(columns: Seq<Seq<char>>, row: Seq<SqlView>, n: nat)
    ensures
        forall|i: int|
            0 <= i < row_members(columns, row, n).len() ==> (#[trigger] row_members(
                columns,
                row,
                n,
            )[i]).1.ordered(),
    decreases n,
{
    if n > 0 {
        let before = row_members(columns, row, (n - 1) as nat);
        let out = row_members(columns, row, n);
        let k = slot(before, columns[n - 1]) as int;
        lemma_row_values_ordered(columns, row, (n - 1) as nat);
        lemma_slot_place(before, columns[n - 1]);
        assert forall|i: int| 0 <= i < out.len() implies (#[trigger] out[i]).1.ordered() by {
            if i != k {
                if out.len() == before.len() || i < k {
                    assert(out[i] == before[i]);
                } else {
                    assert(out[i] == before[i - 1]);
                }
            }
        }
    }
}

} // verus!
