//! Laws of looking into JSON values and of making objects.
use vstd::prelude::*;

use crate::json;
use crate::json::{Json, JsonNumber, JsonView};

verus! {

/// The value of a name in an object is that of the first member with the name.
proof fn lemma_member(members: Seq<(Seq<char>, JsonView)>, name: Seq<char>)
    ensures
        json::member(members, name) is None ==> forall|i: int|
            0 <= i < members.len() ==> (#[trigger] members[i]).0 != name,
        json::member(members, name) matches Some(value) ==> exists|i: int|
            0 <= i < members.len() && (#[trigger] members[i]) == (name, value) && forall|k: int|
                0 <= k < i ==> (#[trigger] members[k]).0 != name,
    decreases members.len(),
{
    if members.len() > 0 && members[0].0 != name {
        let rest = members.drop_first();
        lemma_member(rest, name);
        if json::member(rest, name) is None {
            assert forall|i: int| 0 <= i < members.len() implies (#[trigger] members[i]).0
                != name by {
                if i > 0 {
                    assert(rest[i - 1] == members[i]);
                }
            }
        } else {
            let value = json::member(rest, name)->0;
            let i = choose|i: int|
                0 <= i < rest.len() && (#[trigger] rest[i]) == (name, value) && forall|k: int|
                    0 <= k < i ==> (#[trigger] rest[k]).0 != name;
            assert(members[i + 1] == (name, value));
            assert forall|k: int| 0 <= k < i + 1 implies (#[trigger] members[k]).0 != name by {
                if k > 0 {
                    assert(rest[k - 1] == members[k]);
                }
            }
        }
    } else if members.len() > 0 {
        assert(members[0] == (name, members[0].1));
    }
}

/// A value is seen as it is: a text by its characters, a list by its items, an
/// object by its members, each in its place.
pub proof fn values_are_seen_as_they_are(
    n: JsonNumber,
    b: bool,
    s: String,
    items: Vec<Json>,
    members: Vec<(String, Json)>,
)
    ensures
        Json::Null@ is Null,
        Json::Bool(b)@ == JsonView::Bool(b),
        Json::Number(n)@ == JsonView::Number(n),
        Json::Str(s)@ == JsonView::Str(s@),
        Json::Array(items)@ matches JsonView::Array(seen) && seen.len() == items@.len() && forall|
            i: int,
        |
            0 <= i < seen.len() ==> #[trigger] seen[i] == items@[i]@,
        Json::Object(members)@ matches JsonView::Object(seen) && seen.len() == members@.len()
            && forall|i: int|
            0 <= i < seen.len() ==> #[trigger] seen[i] == (members@[i].0@, members@[i].1@),
{
    json::array_view(items);
    json::object_view(members);
}

/// Looking for a name in an object finds the first member that has exactly that
/// name, and nothing where none has it. Only objects have members.
pub proof fn members_are_found_by_their_names(value: &Json, name: &str, r: Option<&Json>)
    requires
        call_ensures(Json::get, (value, name), r),
    ensures
        r is None <==> value@.get(name@) is None,
        r matches Some(found) ==> value@.get(name@) == Some(found@),
        !(value is Object) ==> r is None,
        value matches Json::Object(members) ==> (r is None <==> forall|i: int|
            0 <= i < members@.len() ==> (#[trigger] members@[i]).0@ != name@),
        value matches Json::Object(members) ==> (r matches Some(found) ==> exists|i: int|
            0 <= i < members@.len() && (#[trigger] members@[i]).0@ == name@ && members@[i].1@
                == found@ && forall|k: int|
                0 <= k < i ==> (#[trigger] members@[k]).0@ != name@),
{
    if let Json::Object(members) = value {
        let all = json::member_views(members@);
        json::object_view(*members);
        lemma_member(all, name@);
        assert(forall|i: int|
            0 <= i < members@.len() ==> all[i] == ((#[trigger] members@[i]).0@, members@[i].1@));
        if let Some(found) = r {
            let i = choose|i: int|
                0 <= i < all.len() && (#[trigger] all[i]) == (name@, found@) && forall|k: int|
                    0 <= k < i ==> (#[trigger] all[k]).0 != name@;
            assert(members@[i].0@ == name@ && members@[i].1@ == found@);
            assert forall|k: int| 0 <= k < i implies (#[trigger] members@[k]).0@ != name@ by {
                assert(all[k].0 != name@);
            }
            if forall|i: int| 0 <= i < members@.len() ==> (#[trigger] members@[i]).0@ != name@ {
                assert(members@[i].0@ != name@);
            }
        } else {
            assert forall|i: int| 0 <= i < members@.len() implies (#[trigger] members@[i]).0@
                != name@ by {
                assert(all[i].0 != name@);
            }
        }
    }
}

/// A string's text is the string's; other values have none.
pub proof fn strings_have_their_text(value: &Json, r: Option<&str>)
    requires
        call_ensures(Json::as_str, (value,), r),
    ensures
        r is Some <==> value is Str,
        value matches Json::Str(s) ==> r->0@ == s@,
{
}

/// A number is taken for an unsigned integer exactly where it is one.
pub proof fn integers_are_themselves(value: &Json, r: Option<u64>)
    requires
        call_ensures(Json::as_u64, (value,), r),
    ensures
        r matches Some(n) ==> *value == Json::Number(JsonNumber::Unsigned(n)),
        r is None ==> !(value matches Json::Number(JsonNumber::Unsigned(_))),
{
}

/// The text of a member is that of the value found by the name, where that is a
/// string.
pub proof fn text_of_a_member(
    value: &Json,
    name: &str,
    found: Option<&Json>,
    inner: &Json,
    r: Option<&str>,
)
    requires
        call_ensures(Json::get, (value, name), found),
        call_ensures(Json::get_str, (value, name), r),
        found is Some ==> found->0@ == inner@,
    ensures
        found is None ==> r is None,
        found is Some ==> (r is Some <==> inner@ is Str),
        r matches Some(s) ==> inner@ == JsonView::Str(s@),
{
}

/// Reading a text as JSON gives what the parser reads, at every level, or the
/// parser's own message.
pub proof fn json_is_what_the_parser_reads(s: &str, r: Result<Json, String>)
    requires
        call_ensures(json::parse_json, (s,), r),
    ensures
        r is Ok <==> json::json_text(s@) is Ok,
        r matches Ok(value) ==> json::json_text(s@)->Ok_0 == value@,
        r matches Err(message) ==> json::json_text(s@)->Err_0 == message@,
{
}

/// An object has the members that it is made of, in that order, and no other.
pub proof fn objects_have_the_members_given(
    name1: &str,
    value1: Json,
    name2: &str,
    value2: Json,
    name3: &str,
    value3: Json,
    one: Json,
    two: Json,
    three: Json,
)
    requires
        call_ensures(json::object1, (name1, value1), one),
        call_ensures(json::object2, (name1, value1, name2, value2), two),
        call_ensures(json::object3, (name1, value1, name2, value2, name3, value3), three),
    ensures
        one@ == JsonView::Object(seq![(name1@, value1@)]),
        two@ == JsonView::Object(seq![(name1@, value1@), (name2@, value2@)]),
        three@ == JsonView::Object(
            seq![(name1@, value1@), (name2@, value2@), (name3@, value3@)],
        ),
{
}

} // verus!
