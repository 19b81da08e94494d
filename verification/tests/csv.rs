use volley_standings::csv::{header, save_csv};
use volley_standings::stats::TeamStats;

const HEADER: &str = "Position,Team,Played,Wins,Losses,Sets For,Sets Against,Sets Difference,Points For,Points Against,Points Quotient,Points";

fn team(fields: [&str; 12]) -> TeamStats {
    TeamStats {
        position: fields[0].to_string(),
        team: fields[1].to_string(),
        played: fields[2].to_string(),
        wins: fields[3].to_string(),
        losses: fields[4].to_string(),
        sets_for: fields[5].to_string(),
        sets_against: fields[6].to_string(),
        sets_difference: fields[7].to_string(),
        points_for: fields[8].to_string(),
        points_against: fields[9].to_string(),
        points_quotient: fields[10].to_string(),
        points: fields[11].to_string(),
    }
}

fn fields_of(team: &TeamStats) -> Vec<String> {
    vec![
        team.position.clone(),
        team.team.clone(),
        team.played.clone(),
        team.wins.clone(),
        team.losses.clone(),
        team.sets_for.clone(),
        team.sets_against.clone(),
        team.sets_difference.clone(),
        team.points_for.clone(),
        team.points_against.clone(),
        team.points_quotient.clone(),
        team.points.clone(),
    ]
}

const A: [&str; 12] = ["1", "Team A", "10", "8", "2", "26", "9", "17", "850", "700", "1.214", "20"];
const B: [&str; 12] = ["2", "Team B", "10", "7", "3", "24", "12", "12", "820", "730", "1.123", "18"];

#[test]
fn header_is_the_fixed_line() {
    assert_eq!(header(), HEADER);
    assert_eq!(header(), header());
}

#[test]
fn header_has_twelve_columns() {
    let head = header();
    let names: Vec<&str> = head.split(',').collect();
    assert_eq!(names.len(), 12);
    assert_eq!(names[0], "Position");
    assert_eq!(names[5], "Sets For");
    assert_eq!(names[11], "Points");
}

#[test]
fn empty_table_is_the_header_alone() {
    let mut out = String::new();
    save_csv(&[], &mut out);
    assert_eq!(out, format!("{HEADER}\n"));
}

#[test]
fn one_entry_is_one_line() {
    let mut out = String::new();
    save_csv(&[team(A)], &mut out);
    assert_eq!(out, format!("{HEADER}\n1,Team A,10,8,2,26,9,17,850,700,1.214,20\n"));
}

#[test]
fn entries_come_in_their_order() {
    let mut out = String::new();
    save_csv(&[team(B), team(A)], &mut out);
    assert_eq!(
        out,
        format!(
            "{HEADER}\n2,Team B,10,7,3,24,12,12,820,730,1.123,18\n1,Team A,10,8,2,26,9,17,850,700,1.214,20\n"
        )
    );
}

#[test]
fn save_csv_writes_behind_what_is_there() {
    let mut out = String::from("before\n");
    save_csv(&[team(A)], &mut out);
    assert_eq!(out, format!("before\n{HEADER}\n1,Team A,10,8,2,26,9,17,850,700,1.214,20\n"));
}

#[test]
fn header_is_the_same_for_every_table() {
    let mut none = String::new();
    save_csv(&[], &mut none);
    let mut two = String::new();
    save_csv(&[team(A), team(B)], &mut two);
    assert_eq!(none.lines().next(), Some(HEADER));
    assert_eq!(two.lines().next(), Some(HEADER));
    assert_eq!(&two.as_bytes()[..none.len()], none.as_bytes());
}

#[test]
fn lines_split_back_into_the_fields() {
    let teams = vec![team(A), team(B), team(["", "", "", "", "", "", "", "", "", "", "", ""])];
    let mut out = String::new();
    save_csv(&teams, &mut out);
    let pieces: Vec<&str> = out.split('\n').collect();
    assert_eq!(pieces.len(), teams.len() + 2);
    assert_eq!(pieces[0], HEADER);
    assert_eq!(pieces[pieces.len() - 1], "");
    for (line, team) in pieces[1..].iter().zip(teams.iter()) {
        let fields: Vec<String> = line.split(',').map(|field| field.to_string()).collect();
        assert_eq!(fields, fields_of(team));
    }
}

#[test]
fn nothing_is_quoted_or_escaped() {
    let mut fields = A;
    fields[1] = "Team \"A\", the first";
    let mut out = String::new();
    save_csv(&[team(fields)], &mut out);
    assert_eq!(out, format!("{HEADER}\n1,Team \"A\", the first,10,8,2,26,9,17,850,700,1.214,20\n"));
}

#[test]
fn csv_line_joins_the_fields() {
    assert_eq!(team(A).csv_line(), "1,Team A,10,8,2,26,9,17,850,700,1.214,20");
    assert_eq!(team(["", "", "", "", "", "", "", "", "", "", "", ""]).csv_line(), ",,,,,,,,,,,");
}
