//! The request for one competition's table, and the table in the reply.

use vstd::prelude::*;
use vstd::string::*;
use crate::json::{decode_member, decoded_member, Member, MemberText};

verus! {

/// The address that the request is posted to.
pub const ENDPOINT: &'static str =
    "https://competitions.volleyzone.co.uk/wp-admin/admin-ajax.php?action=fetch_table_by_competition";

/// The content type that the request declares.
pub const CONTENT_TYPE: &'static str = "application/x-www-form-urlencoded; charset=UTF-8";

/// The page title that every request carries.
pub const PAGE_TITLE: &'static str = "Fixture and Results";

/// The key of the reply under which the table stands.
pub const TABLE_KEY: &'static str = "CompTables";

/// The form that is posted for one competition.
#[derive(Debug, Clone, PartialEq, Eq)]
pub struct FetchRequest {
    pub competition_id: String,
    pub page_title: String,
}

impl FetchRequest {
    /// The request for the competition `competition_id`.
    pub fn new(competition_id: &str) -> (request: FetchRequest)
        ensures
            request.competition_id@ == competition_id@,
            request.page_title@ == PAGE_TITLE@,
    {
        FetchRequest {
            competition_id: String::from_str(competition_id),
            page_title: String::from_str(PAGE_TITLE),
        }
    }
}

/// Why a reply gave no table.
#[derive(Debug, Clone, Copy, PartialEq, Eq, Structural)]
pub enum FetchError {
    /// The reply is not JSON.
    InvalidJson,
    /// The reply has no member `CompTables`.
    MissingField,
    /// The member `CompTables` is no string.
    WrongType,
}

/// The table that a member stands for.
pub open spec fn table_of(member: MemberText) -> Result<Seq<char>, FetchError> {
    match member {
        MemberText::Text(text) => Ok(text),
        MemberText::Absent => Err(FetchError::MissingField),
        MemberText::NotText => Err(FetchError::WrongType),
    }
}

/// The table in a reply: the string under `CompTables`.
pub open spec fn comp_tables(body: Seq<char>) -> Result<Seq<char>, FetchError> {
    match decoded_member(body, TABLE_KEY@) {
        Some(member) => table_of(member),
        None => Err(FetchError::InvalidJson),
    }
}

/// The mathematical form of what the fetcher returns.
pub open spec fn table_text(out: Result<String, FetchError>) -> Result<Seq<char>, FetchError> {
    match out {
        Ok(text) => Ok(text@),
        Err(error) => Err(error),
    }
}

/// The table that the member under `CompTables` stands for: the member
/// itself where it is a string, else the reason why there is none.
pub fn table_from_member(member: Member) -> (out: Result<String, FetchError>)
    ensures
        table_text(out) == table_of(member@),
{
    match member {
        Member::Text(text) => Ok(text),
        Member::Absent => Err(FetchError::MissingField),
        Member::NotText => Err(FetchError::WrongType),
    }
}

/// Takes the table out of a reply: the reply is read as JSON, and the table
/// is the string under the key `CompTables`.
pub fn extract_table(body: &str) -> (out: Result<String, FetchError>)
    ensures
        table_text(out) == comp_tables(body@),
{
    match decode_member(body, TABLE_KEY) {
        Ok(member) => table_from_member(member),
        Err(_) => Err(FetchError::InvalidJson),
    }
}

} // verus!
