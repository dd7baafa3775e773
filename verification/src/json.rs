//! The members of a JSON object, as far as the stop-record decoder reads them.

use vstd::prelude::*;

verus! {

/// `serde_json::Error`: why `serde_json` rejected a text. The library only
/// carries such a value; it never looks into one.
#[verifier::external_type_specification]
#[verifier::external_body]
pub struct ExJsonError(serde_json::Error);

/// The value of one member of a JSON object.
#[derive(Debug, PartialEq, Eq)]
pub enum JsonValue {
    /// A string.
    Text(String),
    /// A number that is a non-negative integer below 2^64.
    Unsigned(u64),
    /// Any other value, in compact JSON notation.
    Other(String),
}

/// One member of a JSON object.
#[derive(Debug, PartialEq, Eq)]
pub struct JsonMember {
    pub name: String,
    pub value: JsonValue,
}

/// The members that `serde_json::from_str` reads from `text` as a
/// `serde_json::Map<String, Value>`, in the order in which that map yields them;
/// `None` where it returns an error.
pub uninterp spec fn json_members(text: Seq<char>) -> Option<Seq<JsonMember>>;

/// Reads `text` with `serde_json::from_str` as a `serde_json::Map<String, Value>`
/// and hands out its members: a string as `Text`, a number for which
/// `Number::as_u64` has a value as `Unsigned`, and every other value as `Other`
/// with `serde_json`'s rendering of it. The contract only names the outcome: the
/// members are those that `json_members` stands for, and the call fails exactly
/// where it has none.
#[verifier::external_body]
pub(crate) fn parse_object(text: &str) -> (r: Result<Vec<JsonMember>, serde_json::Error>)
    ensures
        match r {
            Ok(members) => json_members(text@) == Some(members@),
            Err(_) => json_members(text@) is None,
        },
{
    let object: serde_json::Map<String, serde_json::Value> = serde_json::from_str(text)?;
    Ok(object.into_iter().map(|(name, value)| JsonMember {
        name,
        value: match value {
            serde_json::Value::String(s) => JsonValue::Text(s),
            serde_json::Value::Number(n) => match n.as_u64() {
                Some(u) => JsonValue::Unsigned(u),
                None => JsonValue::Other(n.to_string()),
            },
            other => JsonValue::Other(other.to_string()),
        },
    }).collect())
}

/// The value of the first member of `members` called `name`, if there is one.
pub open spec fn member(members: Seq<JsonMember>, name: Seq<char>) -> Option<JsonValue>
    decreases members.len(),
{
    if members.len() == 0 {
        None
    } else if members[0].name@ == name {
        Some(members[0].value)
    } else {
        member(members.skip(1), name)
    }
}

/// Looks up the first member of `members` called `name`.
pub fn find_member<'a>(members: &'a Vec<JsonMember>, name: &str) -> (found: Option<&'a JsonValue>)
    ensures
        match found {
            Some(value) => member(members@, name@) == Some(*value),
            None => member(members@, name@) is None,
        },
{
    let wanted = name.to_owned();
    let mut i: usize = 0;
    assert(members@.skip(0) =~= members@);
    while i < members.len()
        invariant
            i <= members.len(),
            wanted@ == name@,
            member(members@, name@) == member(members@.skip(i as int), name@),
        decreases members.len() - i,
    {
        if members[i].name == wanted {
            return Some(&members[i].value);
        }
        assert(members@.skip(i as int).skip(1) =~= members@.skip(i + 1));
        i += 1;
    }
    None
}

} // verus!
