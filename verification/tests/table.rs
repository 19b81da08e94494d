use volley_standings::stats::TeamStats;
use volley_standings::table::{collect_rows, parse_table, parse_volleyball_table, trim_cells, TableError};

fn row(cells: &[&str]) -> String {
    let mut html = String::from("<tr class=\"tableContents\">");
    for cell in cells {
        html.push_str("<td>");
        html.push_str(cell);
        html.push_str("</td>");
    }
    html.push_str("</tr>");
    html
}

fn table(rows: &[String]) -> String {
    format!("<table>{}</table>", rows.concat())
}

fn strings(cells: &[&str]) -> Vec<String> {
    cells.iter().map(|cell| cell.to_string()).collect()
}

const FULL: [&str; 12] = ["1", "Team A", "10", "8", "2", "26", "9", "17", "850", "700", "1.214", "20"];

fn team_a() -> TeamStats {
    TeamStats {
        position: "1".to_string(),
        team: "Team A".to_string(),
        played: "10".to_string(),
        wins: "8".to_string(),
        losses: "2".to_string(),
        sets_for: "26".to_string(),
        sets_against: "9".to_string(),
        sets_difference: "17".to_string(),
        points_for: "850".to_string(),
        points_against: "700".to_string(),
        points_quotient: "1.214".to_string(),
        points: "20".to_string(),
    }
}

#[test]
fn one_full_row_is_one_entry() {
    let html = table(&[row(&FULL)]);
    assert_eq!(parse_volleyball_table(&html), Ok(vec![team_a()]));
}

#[test]
fn short_row_is_dropped() {
    let html = table(&[row(&FULL), row(&["2", "Team B", "10", "7", "3"])]);
    assert_eq!(parse_volleyball_table(&html), Ok(vec![team_a()]));
}

#[test]
fn eleven_cells_are_too_few() {
    let html = table(&[row(&FULL[..11])]);
    assert_eq!(parse_volleyball_table(&html), Ok(vec![]));
}

#[test]
fn cells_beyond_the_twelfth_are_ignored() {
    let mut cells = FULL.to_vec();
    cells.push("extra");
    cells.push("more");
    let html = table(&[row(&cells)]);
    assert_eq!(parse_volleyball_table(&html), Ok(vec![team_a()]));
}

#[test]
fn cells_are_trimmed() {
    let mut cells = FULL.to_vec();
    cells[1] = "  \n\tTeam A \n ";
    cells[11] = " 20";
    let html = table(&[row(&cells)]);
    assert_eq!(parse_volleyball_table(&html), Ok(vec![team_a()]));
}

#[test]
fn nested_markup_in_a_cell_gives_its_text() {
    let mut cells = FULL.to_vec();
    cells[1] = "<a href=\"/team\"><b>Team</b> A</a>";
    let html = table(&[row(&cells)]);
    assert_eq!(parse_volleyball_table(&html), Ok(vec![team_a()]));
}

#[test]
fn entries_keep_document_order() {
    let mut second = FULL.to_vec();
    second[0] = "2";
    second[1] = "Team B";
    let mut third = FULL.to_vec();
    third[0] = "3";
    third[1] = "Team C";
    let short = ["x", "y", "z"];
    let html = table(&[row(&short), row(&FULL), row(&short), row(&second), row(&third), row(&[])]);
    let teams = parse_volleyball_table(&html).unwrap();
    assert_eq!(teams.len(), 3);
    let names: Vec<&str> = teams.iter().map(|team| team.team.as_str()).collect();
    assert_eq!(names, vec!["Team A", "Team B", "Team C"]);
    let positions: Vec<&str> = teams.iter().map(|team| team.position.as_str()).collect();
    assert_eq!(positions, vec!["1", "2", "3"]);
}

#[test]
fn rows_of_another_class_are_no_rows() {
    let other = row(&FULL).replace("tableContents", "tableHeader");
    let html = table(&[other, row(&FULL)]);
    assert_eq!(parse_volleyball_table(&html), Ok(vec![team_a()]));
}

#[test]
fn document_without_rows_gives_nothing() {
    assert_eq!(parse_volleyball_table(""), Ok(vec![]));
    assert_eq!(parse_volleyball_table("<p>no table here</p>"), Ok(vec![]));
    assert_eq!(parse_volleyball_table("<<<>>> not html << at all"), Ok(vec![]));
}

#[test]
fn collect_rows_keeps_full_rows_only() {
    let rows = vec![
        strings(&["a", "b"]),
        strings(&[" 1", "Team A ", "10", "8", "2", "26", "9", "17", "850", "700", "1.214", "20", "x"]),
        strings(&[]),
    ];
    assert_eq!(collect_rows(&rows), vec![team_a()]);
    assert_eq!(collect_rows(&Vec::new()), Vec::<TeamStats>::new());
}

#[test]
fn trim_cells_strips_both_ends_only() {
    let cells = strings(&["  a b  ", "\u{a0}x\u{3000}", "", " \t\r\n", "plain", "\u{2003}y z\u{85}"]);
    assert_eq!(trim_cells(&cells), strings(&["a b", "x", "", "", "plain", "y z"]));
}

#[test]
fn trim_cells_keeps_what_is_no_white_space() {
    let cells = strings(&["\u{200b}a\u{200b}", "\u{feff}b", "_c_"]);
    assert_eq!(trim_cells(&cells), cells);
}

#[test]
fn from_cells_takes_the_first_twelve() {
    assert_eq!(TeamStats::from_cells(&strings(&FULL)), Some(team_a()));
    let mut more = FULL.to_vec();
    more.push("13");
    assert_eq!(TeamStats::from_cells(&strings(&more)), Some(team_a()));
    assert_eq!(TeamStats::from_cells(&strings(&FULL[..11])), None);
    assert_eq!(TeamStats::from_cells(&Vec::new()), None);
}

#[test]
fn from_cells_keeps_the_cells_as_they_are() {
    let mut cells = FULL.to_vec();
    cells[1] = " Team A ";
    let team = TeamStats::from_cells(&strings(&cells)).unwrap();
    assert_eq!(team.team, " Team A ");
}

#[test]
fn rejected_selector_is_reported() {
    let html = table(&[row(&FULL)]);
    assert_eq!(parse_table(&html, "tr[", "td"), Err(TableError::SelectorRejected));
    assert_eq!(parse_table(&html, "tr.tableContents", ""), Err(TableError::SelectorRejected));
    assert_eq!(parse_table(&html, "tr.tableContents", "td"), Ok(vec![team_a()]));
}

#[test]
fn other_selectors_find_other_rows() {
    let html = "<ul class=\"t\"><li>1</li><li>Team A</li><li>10</li><li>8</li><li>2</li><li>26</li>\
                <li>9</li><li>17</li><li>850</li><li>700</li><li>1.214</li><li>20</li></ul>";
    assert_eq!(parse_table(html, "ul.t", "li"), Ok(vec![team_a()]));
    assert_eq!(parse_table(html, "ul.t", "td"), Ok(vec![]));
}
