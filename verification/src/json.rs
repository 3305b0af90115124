//! JSON values, read from text and looked into.
use vstd::prelude::*;

use crate::text;

verus! {

/// A JSON number: an integer of 64 bits, or a finite floating-point number by
/// the bits of its IEEE 754 double.
#[derive(Debug, Clone, Copy, PartialEq, Eq)]
pub enum JsonNumber {
    Unsigned(u64),
    Negative(i64),
    Float(u64),
}

/// A JSON value.
#[derive(Debug, PartialEq, Eq)]
pub enum Json {
    Null,
    Bool(bool),
    Number(JsonNumber),
    Str(String),
    Array(Vec<Json>),
    Object(Vec<(String, Json)>),
}

/// A JSON value with its texts and lists as sequences.
pub enum JsonView {
    Null,
    Bool(bool),
    Number(JsonNumber),
    Str(Seq<char>),
    Array(Seq<JsonView>),
    Object(Seq<(Seq<char>, JsonView)>),
}

impl Json {
    pub open spec fn view(&self) -> JsonView
        decreases self,
    {
        match self {
            Json::Null => JsonView::Null,
            Json::Bool(b) => JsonView::Bool(*b),
            Json::Number(n) => JsonView::Number(*n),
            Json::Str(s) => JsonView::Str(s@),
            Json::Array(items) => JsonView::Array(
                Seq::new(
                    items@.len(),
                    |i: int|
                        if 0 <= i < items@.len() {
                            items@[i].view()
                        } else {
                            JsonView::Null
                        },
                ),
            ),
            Json::Object(members) => JsonView::Object(
                Seq::new(
                    members@.len(),
                    |i: int|
                        if 0 <= i < members@.len() {
                            (members@[i].0@, members@[i].1.view())
                        } else {
                            (members@[i].0@, JsonView::Null)
                        },
                ),
            ),
        }
    }
}

/// The values of a list.
pub open spec fn views(items: Seq<Json>) -> Seq<JsonView> {
    items.map_values(|item: Json| item@)
}

/// The names and values of an object's members.
pub open spec fn member_views(members: Seq<(String, Json)>) -> Seq<(Seq<char>, JsonView)> {
    members.map_values(|member: (String, Json)| (member.0@, member.1@))
}

pub broadcast proof fn array_view(items: Vec<Json>)
    ensures
        #[trigger] Json::Array(items)@ == JsonView::Array(views(items@)),
{
    assert(Json::Array(items)@->Array_0 =~= views(items@));
}

pub broadcast proof fn object_view(members: Vec<(String, Json)>)
    ensures
        #[trigger] Json::Object(members)@ == JsonView::Object(member_views(members@)),
{
    assert(Json::Object(members)@->Object_0 =~= member_views(members@));
}

// ---------------------------------------------------------------------------
// Looking into values
// ---------------------------------------------------------------------------
/// The value of the first member with the name.
pub open spec fn member(members: Seq<(Seq<char>, JsonView)>, name: Seq<char>) -> Option<JsonView>
    decreases members.len(),
{
    if members.len() == 0 {
        None
    } else if members[0].0 == name {
        Some(members[0].1)
    } else {
        member(members.drop_first(), name)
    }
}

/// Whether the names are in alphabetical order, each of them once.
pub open spec fn ascending(members: Seq<(Seq<char>, JsonView)>) -> bool {
    forall|i: int, j: int|
        0 <= i < j < members.len() ==> text::before(
            (#[trigger] members[i]).0,
            (#[trigger] members[j]).0,
        )
}

impl JsonView {
    /// The value's member of that name; only an object has members.
    pub open spec fn get(self, name: Seq<char>) -> Option<JsonView> {
        match self {
            JsonView::Object(members) => member(members, name),
            _ => None,
        }
    }

    /// The text of a string.
    pub open spec fn as_str(self) -> Option<Seq<char>> {
        match self {
            JsonView::Str(s) => Some(s),
            _ => None,
        }
    }

    /// A number that is an integer and not negative.
    pub open spec fn as_u64(self) -> Option<u64> {
        match self {
            JsonView::Number(JsonNumber::Unsigned(n)) => Some(n),
            _ => None,
        }
    }

    /// The text of the member of that name, where there is one and it is a
    /// string.
    pub open spec fn get_str(self, name: Seq<char>) -> Option<Seq<char>> {
        match self.get(name) {
            Some(value) => value.as_str(),
            None => None,
        }
    }

    /// Whether every object in the value has its names in alphabetical order,
    /// each of them once.
    pub open spec fn ordered(self) -> bool
        decreases self,
    {
        match self {
            JsonView::Array(items) => forall|i: int|
                0 <= i < items.len() ==> (#[trigger] items[i]).ordered(),
            JsonView::Object(members) => ascending(members) && forall|i: int|
                0 <= i < members.len() ==> (#[trigger] members[i]).1.ordered(),
            _ => true,
        }
    }
}

impl Json {
    /// The member of that name, where the value is an object that has one.
    pub fn get(&self, name: &str) -> (r: Option<&Json>)
        ensures
            match r {
                Some(value) => self@.get(name@) == Some(value@),
                None => self@.get(name@) is None,
            },
    {
        match self {
            Json::Object(members) => {
                let ghost all = member_views(members@);
                let mut i: usize = 0;
                proof {
                    object_view(*members);
                    assert(all.skip(0) =~= all);
                }
                while i < members.len()
                    invariant
                        i <= members.len(),
                        all == member_views(members@),
                        self@.get(name@) == member(all, name@),
                        member(all, name@) == member(all.skip(i as int), name@),
                    decreases members.len() - i,
                {
                    if text::same_text(&members[i].0, name) {
                        return Some(&members[i].1);
                    }
                    proof {
                        assert(all.skip(i as int).drop_first() =~= all.skip(i + 1));
                    }
                    i = i + 1;
                }
                None
            },
            _ => None,
        }
    }

    /// The text, where the value is a string.
    pub fn as_str(&self) -> (r: Option<&str>)
        ensures
            match r {
                Some(s) => self@.as_str() == Some(s@),
                None => self@.as_str() is None,
            },
    {
        match self {
            Json::Str(s) => Some(s.as_str()),
            _ => None,
        }
    }

    /// The number, where the value is an integer that is not negative.
    pub fn as_u64(&self) -> (r: Option<u64>)
        ensures
            r == self@.as_u64(),
    {
        match self {
            Json::Number(JsonNumber::Unsigned(n)) => Some(*n),
            _ => None,
        }
    }

    /// The text of the member of that name, where there is one and it is a
    /// string.
    pub fn get_str(&self, name: &str) -> (r: Option<&str>)
        ensures
            match r {
                Some(s) => self@.get_str(name@) == Some(s@),
                None => self@.get_str(name@) is None,
            },
    {
        match self.get(name) {
            Some(value) => value.as_str(),
            None => None,
        }
    }
}

// ---------------------------------------------------------------------------
// Making objects
// ---------------------------------------------------------------------------
/// An object with one member.
pub fn object1(name: &str, value: Json) -> (r: Json)
    ensures
        r@ == JsonView::Object(seq![(name@, value@)]),
{
    let mut members: Vec<(String, Json)> = Vec::new();
    members.push((name.to_owned(), value));
    proof {
        object_view(members);
        assert(member_views(members@) =~= seq![(name@, value@)]);
    }
    Json::Object(members)
}

/// An object with two members.
pub fn object2(name1: &str, value1: Json, name2: &str, value2: Json) -> (r: Json)
    ensures
        r@ == JsonView::Object(seq![(name1@, value1@), (name2@, value2@)]),
{
    let mut members: Vec<(String, Json)> = Vec::new();
    members.push((name1.to_owned(), value1));
    members.push((name2.to_owned(), value2));
    proof {
        object_view(members);
        assert(member_views(members@) =~= seq![(name1@, value1@), (name2@, value2@)]);
    }
    Json::Object(members)
}

/// An object with three members.
pub fn object3(
    name1: &str,
    value1: Json,
    name2: &str,
    value2: Json,
    name3: &str,
    value3: Json,
) -> (r: Json)
    ensures
        r@ == JsonView::Object(seq![(name1@, value1@), (name2@, value2@), (name3@, value3@)]),
{
    let mut members: Vec<(String, Json)> = Vec::new();
    members.push((name1.to_owned(), value1));
    members.push((name2.to_owned(), value2));
    members.push((name3.to_owned(), value3));
    proof {
        object_view(members);
        assert(member_views(members@) =~= seq![
            (name1@, value1@),
            (name2@, value2@),
            (name3@, value3@),
        ]);
    }
    Json::Object(members)
}

// ---------------------------------------------------------------------------
// Reading JSON text
// ---------------------------------------------------------------------------
#[verifier::external_type_specification]
#[verifier::external_body]
pub struct ExValue(serde_json::Value);

/// What a `serde_json::Value` holds.
pub uninterp spec fn value_contents(value: serde_json::Value) -> JsonView;

/// What `serde_json::from_str` makes of a text: the value that it writes, or
/// the message of the error.
pub uninterp spec fn json_text(text: Seq<char>) -> Result<JsonView, Seq<char>>;

/// One level of a `serde_json::Value`.
enum Node {
    Null,
    Bool(bool),
    Number(JsonNumber),
    Str(String),
    Array(Vec<serde_json::Value>),
    Object(Vec<(String, serde_json::Value)>),
}

/// What the values of a list hold.
spec fn contents(items: Seq<serde_json::Value>) -> Seq<JsonView> {
    items.map_values(|item: serde_json::Value| value_contents(item))
}

/// What the members of an object hold.
spec fn member_contents(members: Seq<(String, serde_json::Value)>) -> Seq<(Seq<char>, JsonView)> {
    members.map_values(|m: (String, serde_json::Value)| (m.0@, value_contents(m.1)))
}

impl Node {
    spec fn shows(self, value: JsonView) -> bool {
        match self {
            Node::Null => value == JsonView::Null,
            Node::Bool(b) => value == JsonView::Bool(b),
            Node::Number(n) => value == JsonView::Number(n),
            Node::Str(s) => value == JsonView::Str(s@),
            Node::Array(items) => value == JsonView::Array(contents(items@)),
            Node::Object(members) => value == JsonView::Object(member_contents(members@))
                && ascending(member_contents(members@)),
        }
    }
}

/// Calls `serde_json::from_str` for a `serde_json::Value`. The result is a
/// function of the text, named `json_text`: the parsed value's contents, or
/// the error's message.
#[verifier::external_body]
fn parse_value(text: &str) -> (r: Result<serde_json::Value, String>)
    ensures
        match r {
            Ok(value) => json_text(text@) == Ok::<JsonView, Seq<char>>(value_contents(value)),
            Err(message) => json_text(text@) == Err::<JsonView, Seq<char>>(message@),
        },
{
    serde_json::from_str::<serde_json::Value>(text).map_err(|e| e.to_string())
}

/// Takes one level of a `serde_json::Value` apart: its variant with the
/// variant's field. A number is an unsigned integer (`Number::as_u64`), else a
/// negative one (`Number::as_i64`), else a double (`Number::as_f64`). An
/// object's members come out as its map iterates: in the order of their names,
/// each of them once.
#[verifier::external_body]
fn open_value(value: serde_json::Value) -> (node: Node)
    ensures
        node.shows(value_contents(value)),
{
    match value {
        serde_json::Value::Null => Node::Null,
        serde_json::Value::Bool(b) => Node::Bool(b),
        serde_json::Value::Number(n) => Node::Number(match (n.as_u64(), n.as_i64(), n.as_f64()) {
            (Some(u), _, _) => JsonNumber::Unsigned(u),
            (_, Some(i), _) => JsonNumber::Negative(i),
            (_, _, f) => JsonNumber::Float(f.unwrap_or_default().to_bits()),
        }),
        serde_json::Value::String(s) => Node::Str(s),
        serde_json::Value::Array(items) => Node::Array(items),
        serde_json::Value::Object(map) => Node::Object(map.into_iter().collect()),
    }
}

fn convert(value: serde_json::Value) -> (r: Json)
    ensures
        r@ == value_contents(value),
        r@.ordered(),
    decreases value_contents(value),
{
    let ghost whole = value_contents(value);
    match open_value(value) {
        Node::Null => Json::Null,
        Node::Bool(b) => Json::Bool(b),
        Node::Number(n) => Json::Number(n),
        Node::Str(s) => Json::Str(s),
        Node::Array(items) => {
            let ghost all = contents(items@);
            let mut out: Vec<Json> = Vec::new();
            for item in it: items.into_iter()
                invariant
                    it.seq() == items@,
                    all == contents(items@),
                    whole == JsonView::Array(all),
                    whole == value_contents(value),
                    views(out@) == all.take(it.index()),
                    forall|i: int| 0 <= i < out.len() ==> (#[trigger] out@[i])@.ordered(),
            {
                let ghost k = it.index();
                let ghost done = views(out@);
                proof {
                    assert(whole->Array_0[k] == value_contents(item));
                    assert(decreases_to!(whole => whole->Array_0[k]));
                }
                let next: Json = convert(item);
                out.push(next);
                proof {
                    assert(views(out@) =~= done.push(next@));
                    assert(all.take(k + 1) =~= all.take(k).push(all[k]));
                }
            }
            proof {
                assert(all.take(items@.len() as int) =~= all);
                array_view(out);
                assert forall|i: int| 0 <= i < all.len() implies (#[trigger] all[i]).ordered() by {
                    assert(all[i] == out@[i]@);
                }
            }
            Json::Array(out)
        },
        Node::Object(members) => {
            let ghost all = member_contents(members@);
            let mut out: Vec<(String, Json)> = Vec::new();
            for item in it: members.into_iter()
                invariant
                    it.seq() == members@,
                    all == member_contents(members@),
                    whole == JsonView::Object(all),
                    whole == value_contents(value),
                    member_views(out@) == all.take(it.index()),
                    forall|i: int| 0 <= i < out.len() ==> (#[trigger] out@[i]).1@.ordered(),
            {
                let ghost k = it.index();
                let ghost done = member_views(out@);
                proof {
                    assert(whole->Object_0[k] == (item.0@, value_contents(item.1)));
                    assert(decreases_to!(whole => whole->Object_0[k].1));
                }
                let (name, inner): (String, serde_json::Value) = item;
                let next: Json = convert(inner);
                out.push((name, next));
                proof {
                    assert(member_views(out@) =~= done.push((name@, next@)));
                    assert(all.take(k + 1) =~= all.take(k).push(all[k]));
                }
            }
            proof {
                assert(all.take(members@.len() as int) =~= all);
                object_view(out);
                assert forall|i: int| 0 <= i < all.len() implies (
                #[trigger] all[i]).1.ordered() by {
                    assert(all[i].1 == out@[i].1@);
                }
            }
            Json::Object(out)
        },
    }
}

/// The value that `text` writes, or the parser's message.
pub fn parse_json(text: &str) -> (r: Result<Json, String>)
    ensures
        match r {
            Ok(value) => json_text(text@) == Ok::<JsonView, Seq<char>>(value@) && value@.ordered(),
            Err(message) => json_text(text@) == Err::<JsonView, Seq<char>>(message@),
        },
{
    match parse_value(text) {
        Ok(value) => Ok(convert(value)),
        Err(message) => Err(message),
    }
}

} // verus!
