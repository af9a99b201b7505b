use vstd::prelude::*;

verus! {

/// A parsed JSON document, held as plain values.
///
/// Numbers keep their decimal text; an object keeps its members as key/value
/// pairs.
pub enum Json {
    Null,
    Bool(bool),
    Number(String),
    Str(String),
    Array(Vec<Json>),
    Object(Vec<(String, Json)>),
}

#[verifier::external_type_specification]
#[verifier::external_body]
pub struct ExJsonError(serde_json::Error);

#[verifier::external_type_specification]
#[verifier::external_body]
pub struct ExJsonValue(serde_json::Value);

/// What the JSON parser makes of a text: `None` where the text is not JSON.
pub uninterp spec fn json_parse(text: Seq<char>) -> Option<Json>;

/// Relies on serde_json::from_str into serde_json::Value: a text either parses
/// into one document, which depends on the text alone, or is refused.
#[verifier::external_body]
fn parse_json_value(text: &str) -> (r: Result<Json, serde_json::Error>)
    ensures
        r is Ok <==> json_parse(text@) is Some,
        r is Ok ==> json_parse(text@) == Some(r->Ok_0),
{
    match serde_json::from_str::<serde_json::Value>(text) {
        Ok(v) => Ok(json_from_value(v)),
        Err(e) => Err(e),
    }
}

/// Turns a serde_json::Value into the same document as a `Json`, variant for
/// variant. Promises nothing by itself; `parse_json_value` states the result.
#[verifier::external_body]
fn json_from_value(v: serde_json::Value) -> Json {
    match v {
        serde_json::Value::Null => Json::Null,
        serde_json::Value::Bool(b) => Json::Bool(b),
        serde_json::Value::Number(n) => Json::Number(n.to_string()),
        serde_json::Value::String(s) => Json::Str(s),
        serde_json::Value::Array(a) => Json::Array(a.into_iter().map(json_from_value).collect()),
        serde_json::Value::Object(o) => Json::Object(
            o.into_iter().map(|(k, x)| (k, json_from_value(x))).collect(),
        ),
    }
}

/// Parses `text` as JSON; `None` where it is not JSON.
pub fn parse_json(text: &str) -> (r: Option<Json>)
    ensures
        r == json_parse(text@),
{
    match parse_json_value(text) {
        Ok(j) => Some(j),
        Err(_) => None,
    }
}

/// The value of the first member named `key` among `members`, or `Null`.
pub open spec fn lookup(members: Seq<(String, Json)>, key: Seq<char>) -> Json
    decreases members.len(),
{
    if members.len() == 0 {
        Json::Null
    } else if members[0].0@ == key {
        members[0].1
    } else {
        lookup(members.drop_first(), key)
    }
}

/// `j[key]`: the member `key` of an object, and `Null` for anything else.
pub open spec fn member(j: Json, key: Seq<char>) -> Json {
    match j {
        Json::Object(members) => lookup(members@, key),
        _ => Json::Null,
    }
}

/// The member `key` of `j`, or `Null` where `j` is no object or has no such member.
pub fn get_member<'a>(j: &'a Json, key: &String) -> (r: &'a Json)
    ensures
        *r == member(*j, key@),
{
    match j {
        Json::Object(members) => {
            let mut i: usize = 0;
            assert(members@.subrange(0, members@.len() as int) =~= members@);
            while i < members.len()
                invariant
                    i <= members@.len(),
                    member(*j, key@) == lookup(members@, key@),
                    lookup(members@, key@) == lookup(members@.subrange(i as int, members@.len() as int), key@),
                decreases members.len() - i,
            {
                let ghost rest = members@.subrange(i as int, members@.len() as int);
                assert(rest.drop_first() =~= members@.subrange(i + 1, members@.len() as int));
                assert(rest[0] == members@[i as int]);
                if members[i].0 == *key {
                    assert(rest[0].0@ == key@);
                    assert(lookup(rest, key@) == rest[0].1);
                    return &members[i].1;
                }
                i = i + 1;
            }
            &Json::Null
        },
        _ => &Json::Null,
    }
}

} // verus!
