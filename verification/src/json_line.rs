//! A line of JSON by the members of its object.
//!
//! Parsing and printing are `serde_json`'s; what a member is to a reader of the line is
//! held as plain values.

use vstd::prelude::*;

verus! {

/// A parsed JSON value.
#[verifier::external_type_specification]
#[verifier::external_body]
pub struct ExJsonValue(serde_json::Value);

/// What a reader asks of a member.
pub struct MemberState {
    /// Its number, where it is one that is no fraction and not negative.
    pub number: Option<u64>,
    /// Its text, where it is one.
    pub text: Option<Seq<char>>,
    /// Whether it is null.
    pub null: bool,
    /// The member in compact JSON.
    pub written: Seq<char>,
}

/// A member of an object.
pub struct Member {
    /// Its number, where it is one that is no fraction and not negative.
    pub number: Option<u64>,
    /// Its text, where it is one.
    pub text: Option<String>,
    /// Whether it is null.
    pub null: bool,
    /// The member in compact JSON.
    pub written: String,
}

impl View for Member {
    type V = MemberState;

    open spec fn view(&self) -> MemberState {
        MemberState {
            number: self.number,
            text: match self.text {
                Some(text) => Some(text@),
                None => None,
            },
            null: self.null,
            written: self.written@,
        }
    }
}

/// The members of a JSON value by name; a value that is no object has none.
pub uninterp spec fn members(value: serde_json::Value) -> Map<Seq<char>, MemberState>;

/// The members of the JSON value in a text, or why the text is not JSON.
pub uninterp spec fn parsed(text: Seq<char>) -> Result<Map<Seq<char>, MemberState>, Seq<char>>;

/// Calls `serde_json::from_str`, which reads a whole text as one JSON value.
///
/// The claim is that what it gives is decided by the text alone: the members of the value,
/// or the text of the error.
#[verifier::external_body]
pub(crate) fn parse(text: &str) -> (result: Result<serde_json::Value, String>)
    ensures
        match result {
            Ok(value) => parsed(text@) == Ok::<Map<Seq<char>, MemberState>, Seq<char>>(
                members(value),
            ),
            Err(reason) => parsed(text@) == Err::<Map<Seq<char>, MemberState>, Seq<char>>(reason@),
        },
{
    serde_json::from_str(text).map_err(|error: serde_json::Error| error.to_string())
}

/// Calls `serde_json::Value::get` with a name.
///
/// The claim is that it finds a member exactly where the value is an object that has the
/// name. The member is handed out as what `as_u64`, `as_str` and `is_null` say of it, and
/// printed.
#[verifier::external_body]
pub(crate) fn member(value: &serde_json::Value, name: &str) -> (found: Option<Member>)
    ensures
        match found {
            Some(member) => {
                &&& members(*value).contains_key(name@)
                &&& member@ == members(*value)[name@]
            },
            None => !members(*value).contains_key(name@),
        },
{
    value.get(name).map(|member: &serde_json::Value| Member {
        number: member.as_u64(),
        text: member.as_str().map(str::to_owned),
        null: member.is_null(),
        written: member.to_string(),
    })
}

} // verus!
