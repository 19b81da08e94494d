use volley_standings::fetch::{
    extract_table, table_from_member, FetchError, FetchRequest, CONTENT_TYPE, ENDPOINT, PAGE_TITLE, TABLE_KEY,
};
use volley_standings::json::Member;

#[test]
fn table_is_the_string_under_the_key() {
    let body = "{\"CompTables\": \"<table></table>\", \"other\": 1}";
    assert_eq!(extract_table(body), Ok("<table></table>".to_string()));
}

#[test]
fn escapes_in_the_string_are_decoded() {
    let body = "{\"CompTables\":\"\\u003ctr class=\\\"tableContents\\\"\\u003e\\n\\t\\u003c\\/tr\\u003e\"}";
    assert_eq!(extract_table(body), Ok("<tr class=\"tableContents\">\n\t</tr>".to_string()));
}

#[test]
fn empty_table_is_a_table() {
    assert_eq!(extract_table("{\"CompTables\":\"\"}"), Ok(String::new()));
}

#[test]
fn missing_key_is_reported() {
    assert_eq!(extract_table("{\"Other\":\"x\"}"), Err(FetchError::MissingField));
    assert_eq!(extract_table("{}"), Err(FetchError::MissingField));
    assert_eq!(extract_table("{\"comptables\":\"x\"}"), Err(FetchError::MissingField));
}

#[test]
fn value_that_is_no_object_has_no_key() {
    assert_eq!(extract_table("[\"CompTables\"]"), Err(FetchError::MissingField));
    assert_eq!(extract_table("\"CompTables\""), Err(FetchError::MissingField));
    assert_eq!(extract_table("null"), Err(FetchError::MissingField));
}

#[test]
fn member_that_is_no_string_is_reported() {
    assert_eq!(extract_table("{\"CompTables\": 5}"), Err(FetchError::WrongType));
    assert_eq!(extract_table("{\"CompTables\": null}"), Err(FetchError::WrongType));
    assert_eq!(extract_table("{\"CompTables\": [\"x\"]}"), Err(FetchError::WrongType));
    assert_eq!(extract_table("{\"CompTables\": {\"a\": \"b\"}}"), Err(FetchError::WrongType));
}

#[test]
fn body_that_is_no_json_is_reported() {
    assert_eq!(extract_table(""), Err(FetchError::InvalidJson));
    assert_eq!(extract_table("<html></html>"), Err(FetchError::InvalidJson));
    assert_eq!(extract_table("{\"CompTables\": \"x\""), Err(FetchError::InvalidJson));
    assert_eq!(extract_table("{\"CompTables\": \"x\"} trailing"), Err(FetchError::InvalidJson));
}

#[test]
fn table_from_member_tells_the_three_apart() {
    assert_eq!(table_from_member(Member::Text("t".to_string())), Ok("t".to_string()));
    assert_eq!(table_from_member(Member::Absent), Err(FetchError::MissingField));
    assert_eq!(table_from_member(Member::NotText), Err(FetchError::WrongType));
}

#[test]
fn request_pairs_the_id_with_the_fixed_title() {
    let request = FetchRequest::new("196048");
    assert_eq!(request.competition_id, "196048");
    assert_eq!(request.page_title, "Fixture and Results");
    assert_eq!(PAGE_TITLE, "Fixture and Results");
}

#[test]
fn request_settings_are_fixed() {
    assert_eq!(
        ENDPOINT,
        "https://competitions.volleyzone.co.uk/wp-admin/admin-ajax.php?action=fetch_table_by_competition"
    );
    assert_eq!(CONTENT_TYPE, "application/x-www-form-urlencoded; charset=UTF-8");
    assert_eq!(TABLE_KEY, "CompTables");
}
