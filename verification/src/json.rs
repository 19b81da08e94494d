//! What the fetcher needs of a JSON text: the member under one key. The
//! decoding is the work of the `serde_json` crate and is trusted, not verified.

use vstd::prelude::*;

verus! {

/// The member of a JSON value under a key, as far as it is read.
#[derive(Debug, Clone, PartialEq, Eq)]
pub enum Member {
    /// The value is no object, or the object has no such key.
    Absent,
    /// The member is there and is no string.
    NotText,
    /// The member is this string.
    Text(String),
}

/// The mathematical form of a [`Member`].
pub ghost enum MemberText {
    Absent,
    NotText,
    Text(Seq<char>),
}

impl View for Member {
    type V = MemberText;

    open spec fn view(&self) -> MemberText {
        match self {
            Member::Absent => MemberText::Absent,
            Member::NotText => MemberText::NotText,
            Member::Text(text) => MemberText::Text(text@),
        }
    }
}

/// `serde_json::Error`, the reason why a text was not decoded. Nothing is
/// read of it.
#[verifier::external_type_specification]
#[verifier::external_body]
pub struct ExJsonError(serde_json::Error);

/// What `serde_json` reads in `body` under `key`: `None` where `body` is not
/// one JSON value, else the member that the value has under `key`.
pub uninterp spec fn decoded_member(body: Seq<char>, key: Seq<char>) -> Option<MemberText>;

/// Calls `serde_json::from_str` for a `Value`, `Value::get` with the key and
/// `Value::as_str` on the member found. The three depend on their arguments
/// alone, so the result is named by `decoded_member`. `get` gives nothing
/// where the value is no object or has no such key, and `as_str` gives the
/// text exactly where the member is a string; the arms say that and no more.
#[verifier::external_body]
pub(crate) fn decode_member(body: &str, key: &str) -> (out: Result<Member, serde_json::Error>)
    ensures
        match out {
            Ok(member) => decoded_member(body@, key@) == Some(member@),
            Err(_) => decoded_member(body@, key@) is None,
        },
{
    let value: serde_json::Value = serde_json::from_str(body)?;
    Ok(match value.get(key) {
        None => Member::Absent,
        Some(member) => match member.as_str() {
            Some(text) => Member::Text(text.to_string()),
            None => Member::NotText,
        },
    })
}

} // verus!
